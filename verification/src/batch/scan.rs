//! The choice of input files.
use vstd::prelude::*;
use crate::order::{sorted, strictly_sorted, sort_texts, lex_lt, lemma_lt_total};
use crate::reader::{Format, format_of_path};
use crate::text::views;

verus! {

/// A path whose extension names a supported format.
pub open spec fn supported(p: Seq<char>) -> bool {
    format_of_path(p) is Some
}

/// Keeps the supported files among the entries of the input directory (the
/// paths of its regular files, not recursing) and sorts them ascending.
pub fn list_input_files(entries: Vec<String>) -> (res: Vec<String>)
    ensures
        sorted(views(res@)),
        views(res@).to_multiset() == views(entries@).filter(|p: Seq<char>| supported(p)).to_multiset(),
        views(entries@).filter(|p: Seq<char>| supported(p)).no_duplicates() ==> strictly_sorted(views(res@)),
{
    let ghost e = views(entries@);
    let ghost keep = |p: Seq<char>| supported(p);
    let mut picked: Vec<String> = Vec::new();
    let mut i: usize = 0;
    while i < entries.len()
        invariant
            i <= entries@.len(),
            e == views(entries@),
            keep == (|p: Seq<char>| supported(p)),
            views(picked@) == e.subrange(0, i as int).filter(keep),
        decreases entries.len() - i,
    {
        let ok = Format::from_path(entries[i].as_str()).is_some();
        let ghost before = views(picked@);
        if ok {
            picked.push(entries[i].clone());
            proof {
                assert(cloned::<String>(entries@[i as int], picked@[picked@.len() - 1]));
                assert(views(picked@) =~= before.push(e[i as int]));
            }
        }
        proof {
            e.subrange(0, i as int).lemma_filter_push(e[i as int], keep);
            assert(e.subrange(0, i + 1) =~= e.subrange(0, i as int).push(e[i as int]));
        }
        i = i + 1;
    }
    proof {
        assert(e.subrange(0, entries@.len() as int) =~= e);
    }
    let res = sort_texts(picked);
    proof {
        let f = e.filter(keep);
        let r = views(res@);
        if f.no_duplicates() {
            f.lemma_multiset_has_no_duplicates();
            r.lemma_multiset_has_no_duplicates_conv();
            assert forall|i: int, j: int| 0 <= i < j < r.len() implies lex_lt(#[trigger] r[i], #[trigger] r[j]) by {
                assert(r[i] != r[j]);
                assert(!lex_lt(r[j], r[i]));
                lemma_lt_total(r[i], r[j]);
            }
        }
    }
    res
}

} // verus!
