//! Lexicographic order of texts (the order of `str`'s `Ord`, which compares
//! UTF-8 bytes and so code points), and sorting by it.
use vstd::prelude::*;
use crate::text::{chars_of, views};

verus! {

/// `a` sorts before `b` when compared from position `i` on.
pub open spec fn lex_lt_from(a: Seq<char>, b: Seq<char>, i: nat) -> bool
    decreases a.len() - i,
{
    if i >= a.len() {
        i < b.len()
    } else if i >= b.len() {
        false
    } else if a[i as int] != b[i as int] {
        a[i as int] < b[i as int]
    } else {
        lex_lt_from(a, b, i + 1)
    }
}

/// `a` sorts strictly before `b`: at the first position where they differ
/// `a` has the smaller character, or `a` is a proper prefix of `b`.
pub open spec fn lex_lt(a: Seq<char>, b: Seq<char>) -> bool {
    lex_lt_from(a, b, 0)
}

/// Ascending order, equal texts allowed side by side.
pub open spec fn sorted(s: Seq<Seq<char>>) -> bool {
    forall|i: int, j: int| 0 <= i < j < s.len() ==> !lex_lt(#[trigger] s[j], #[trigger] s[i])
}

/// Strictly ascending order: sorted and without repeats.
pub open spec fn strictly_sorted(s: Seq<Seq<char>>) -> bool {
    forall|i: int, j: int| 0 <= i < j < s.len() ==> lex_lt(#[trigger] s[i], #[trigger] s[j])
}

proof fn lemma_lt_from_irreflexive(a: Seq<char>, i: nat)
    ensures
        !lex_lt_from(a, a, i),
    decreases a.len() - i,
{
    if i < a.len() {
        lemma_lt_from_irreflexive(a, i + 1);
    }
}

proof fn lemma_lt_from_transitive(a: Seq<char>, b: Seq<char>, c: Seq<char>, i: nat)
    requires
        lex_lt_from(a, b, i),
        lex_lt_from(b, c, i),
    ensures
        lex_lt_from(a, c, i),
    decreases a.len() - i,
{
    if i < a.len() && i < b.len() && i < c.len() && a[i as int] == b[i as int] && b[i as int] == c[i as int] {
        lemma_lt_from_transitive(a, b, c, i + 1);
    }
}

proof fn lemma_lt_from_total(a: Seq<char>, b: Seq<char>, i: nat)
    requires
        i <= a.len(),
        i <= b.len(),
        a.subrange(0, i as int) == b.subrange(0, i as int),
        a != b,
    ensures
        lex_lt_from(a, b, i) || lex_lt_from(b, a, i),
    decreases a.len() - i,
{
    if i < a.len() && i < b.len() && a[i as int] == b[i as int] {
        assert(a.subrange(0, (i + 1) as int) =~= a.subrange(0, i as int).push(a[i as int]));
        assert(b.subrange(0, (i + 1) as int) =~= b.subrange(0, i as int).push(b[i as int]));
        lemma_lt_from_total(a, b, i + 1);
    } else if i == a.len() && i == b.len() {
        assert(a =~= a.subrange(0, i as int));
        assert(b =~= b.subrange(0, i as int));
    } else if i < a.len() && i < b.len() {
        assert(a[i as int] != b[i as int]);
    }
}

/// No text sorts before itself.
pub proof fn lemma_lt_irreflexive(a: Seq<char>)
    ensures
        !lex_lt(a, a),
{
    lemma_lt_from_irreflexive(a, 0);
}

/// The order is transitive.
pub proof fn lemma_lt_transitive(a: Seq<char>, b: Seq<char>, c: Seq<char>)
    requires
        lex_lt(a, b),
        lex_lt(b, c),
    ensures
        lex_lt(a, c),
{
    lemma_lt_from_transitive(a, b, c, 0);
}

/// Of two different texts, one sorts before the other.
pub proof fn lemma_lt_total(a: Seq<char>, b: Seq<char>)
    requires
        a != b,
    ensures
        lex_lt(a, b) || lex_lt(b, a),
{
    assert(a.subrange(0, 0) =~= b.subrange(0, 0));
    lemma_lt_from_total(a, b, 0);
}

/// Whether `a` sorts strictly before `b`.
pub fn text_lt(a: &str, b: &str) -> (res: bool)
    ensures
        res == lex_lt(a@, b@),
{
    let x = chars_of(a);
    let y = chars_of(b);
    let mut i: usize = 0;
    while i < x.len() && i < y.len() && x[i] == y[i]
        invariant
            i <= x.len(),
            i <= y.len(),
            x@ == a@,
            y@ == b@,
            lex_lt(a@, b@) == lex_lt_from(a@, b@, i as nat),
        decreases x.len() - i,
    {
        i = i + 1;
    }
    if i >= x.len() {
        i < y.len()
    } else if i >= y.len() {
        false
    } else {
        x[i] < y[i]
    }
}

/// Sorts texts ascending, keeping repeats (`Vec::sort` on strings).
pub fn sort_texts(v: Vec<String>) -> (res: Vec<String>)
    ensures
        sorted(views(res@)),
        views(res@).to_multiset() == views(v@).to_multiset(),
{
    let mut out: Vec<String> = Vec::new();
    let mut n: usize = 0;
    proof {
        assert(views(out@) =~= Seq::<Seq<char>>::empty());
        assert(views(v@).subrange(0, 0) =~= Seq::<Seq<char>>::empty());
    }
    while n < v.len()
        invariant
            n <= v.len(),
            sorted(views(out@)),
            views(out@).to_multiset() == views(v@).subrange(0, n as int).to_multiset(),
        decreases v.len() - n,
    {
        let x = v[n].clone();
        proof {
            assert(cloned::<String>(v@[n as int], x));
        }
        // The first position whose text sorts after `x`.
        let mut p: usize = 0;
        while p < out.len() && !text_lt(x.as_str(), out[p].as_str())
            invariant
                p <= out.len(),
                forall|k: int| 0 <= k < p ==> !lex_lt(x@, #[trigger] out@[k]@),
            decreases out.len() - p,
        {
            p = p + 1;
        }
        let ghost before = views(out@);
        proof {
            assert forall|k: int| p <= k < before.len() implies !lex_lt(#[trigger] before[k], x@) by {
                if lex_lt(before[k], x@) {
                    assert(lex_lt(x@, before[p as int]));
                    if k > p {
                        assert(!lex_lt(before[k], before[p as int]));
                        lemma_lt_transitive(before[k], x@, before[p as int]);
                    } else {
                        lemma_lt_transitive(x@, before[p as int], x@);
                        lemma_lt_irreflexive(x@);
                    }
                }
            }
        }
        out.insert(p, x);
        proof {
            let after = views(out@);
            assert(after =~= before.insert(p as int, v@[n as int]@));
            assert(views(v@).subrange(0, n + 1) =~= views(v@).subrange(0, n as int).push(v@[n as int]@));
            vstd::seq_lib::to_multiset_insert(before, p as int, v@[n as int]@);
            vstd::seq_lib::to_multiset_build(views(v@).subrange(0, n as int), v@[n as int]@);
            assert(views(v@).subrange(0, n as int).push(v@[n as int]@).to_multiset()
                == views(v@).subrange(0, n as int).to_multiset().insert(v@[n as int]@));
            assert forall|i: int, j: int| 0 <= i < j < after.len() implies !lex_lt(#[trigger] after[j], #[trigger] after[i]) by {
                if i < p && j == p {
                    assert(after[i] == before[i]);
                } else if i == p {
                    assert(after[j] == before[j - 1]);
                } else if i < p && j > p {
                    assert(after[i] == before[i]);
                    assert(after[j] == before[j - 1]);
                } else if i < p {
                    assert(after[i] == before[i] && after[j] == before[j]);
                } else {
                    assert(after[i] == before[i - 1] && after[j] == before[j - 1]);
                }
            }
        }
        n = n + 1;
    }
    proof {
        assert(views(v@).subrange(0, v.len() as int) =~= views(v@));
    }
    out
}

/// Adds `x` to a strictly sorted list of texts, unless it is already there.
pub fn insert_unique(out: &mut Vec<String>, x: String)
    requires
        strictly_sorted(views(old(out)@)),
    ensures
        strictly_sorted(views(final(out)@)),
        forall|y: Seq<char>| views(final(out)@).contains(y) <==> (views(old(out)@).contains(y) || y == x@),
{
    let mut p: usize = 0;
    while p < out.len() && text_lt(out[p].as_str(), x.as_str())
        invariant
            p <= out.len(),
            forall|k: int| 0 <= k < p ==> lex_lt(#[trigger] out@[k]@, x@),
        decreases out.len() - p,
    {
        p = p + 1;
    }
    let ghost before = views(out@);
    if p < out.len() && out[p] == x {
        proof {
            assert(before[p as int] == x@);
        }
        return;
    }
    proof {
        assert forall|k: int| p <= k < before.len() implies lex_lt(x@, #[trigger] before[k]) by {
            assert(!lex_lt(before[p as int], x@));
            assert(before[p as int] != x@);
            lemma_lt_total(before[p as int], x@);
            if k > p {
                lemma_lt_transitive(x@, before[p as int], before[k]);
            }
        }
    }
    let ghost xv = x@;
    out.insert(p, x);
    proof {
        let after = views(out@);
        assert(after =~= before.insert(p as int, xv));
        assert forall|i: int, j: int| 0 <= i < j < after.len() implies lex_lt(#[trigger] after[i], #[trigger] after[j]) by {
            if i < p && j == p {
                assert(after[i] == before[i]);
            } else if i == p {
                assert(after[j] == before[j - 1]);
            } else if i < p && j > p {
                assert(after[i] == before[i]);
                assert(after[j] == before[j - 1]);
                lemma_lt_transitive(after[i], xv, after[j]);
            } else if i < p {
                assert(after[i] == before[i] && after[j] == before[j]);
            } else {
                assert(after[i] == before[i - 1] && after[j] == before[j - 1]);
            }
        }
        assert forall|y: Seq<char>| after.contains(y) <==> (before.contains(y) || y == xv) by {
            if after.contains(y) {
                let k = choose|k: int| 0 <= k < after.len() && after[k] == y;
                if k < p {
                    assert(before[k] == y);
                } else if k > p {
                    assert(before[k - 1] == y);
                }
            }
            if before.contains(y) {
                let k = choose|k: int| 0 <= k < before.len() && before[k] == y;
                if k < p {
                    assert(after[k] == y);
                } else {
                    assert(after[k + 1] == y);
                }
            }
            if y == xv {
                assert(after[p as int] == y);
            }
        }
    }
}

} // verus!
