//! Locating the anchor column in a promoted header.
use vstd::prelude::*;
use crate::error::{ReshapeError, ReshapeErrorView};
use crate::grid::str_trim;
use crate::profile::AnchorMatch;
use crate::text::{trim, contains_seq, views, chars_of, chars_equal, contains_chars};

verus! {

/// Whether a header cell is the anchor under the given strategy: equal after
/// trimming (`Exact`) or containing the anchor text (`Contains`).
pub open spec fn anchor_hit(h: Seq<char>, anchor: Seq<char>, strategy: AnchorMatch) -> bool {
    match strategy {
        AnchorMatch::Exact => trim(h) == anchor,
        AnchorMatch::Contains => contains_seq(h, anchor),
    }
}

/// The name of a strategy, as `Debug` prints it.
pub open spec fn strategy_name(strategy: AnchorMatch) -> Seq<char> {
    match strategy {
        AnchorMatch::Exact => "Exact"@,
        AnchorMatch::Contains => "Contains"@,
    }
}

/// The first header cell that is the anchor, if any.
pub open spec fn anchor_position(hs: Seq<Seq<char>>, anchor: Seq<char>, strategy: AnchorMatch) -> Option<int> {
    if exists|i: int| 0 <= i < hs.len() && anchor_hit(hs[i], anchor, strategy) {
        Some(choose|i: int| 0 <= i < hs.len() && anchor_hit(hs[i], anchor, strategy)
            && forall|j: int| 0 <= j < i ==> !anchor_hit(hs[j], anchor, strategy))
    } else {
        None
    }
}

/// The result of `find`, with the error by its view.
pub open spec fn find_spec(hs: Seq<Seq<char>>, anchor: Seq<char>, strategy: AnchorMatch) -> Result<usize, ReshapeErrorView> {
    match anchor_position(hs, anchor, strategy) {
        Some(i) => Ok(i as usize),
        None => Err(ReshapeErrorView::AnchorMissing { anchor, strategy: strategy_name(strategy) }),
    }
}

pub proof fn lemma_anchor_position(hs: Seq<Seq<char>>, anchor: Seq<char>, strategy: AnchorMatch, k: int)
    requires
        0 <= k < hs.len(),
        anchor_hit(hs[k], anchor, strategy),
        forall|j: int| 0 <= j < k ==> !anchor_hit(hs[j], anchor, strategy),
    ensures
        anchor_position(hs, anchor, strategy) == Some(k),
{
    let i = choose|i: int| 0 <= i < hs.len() && anchor_hit(hs[i], anchor, strategy)
        && forall|j: int| 0 <= j < i ==> !anchor_hit(hs[j], anchor, strategy);
    assert(0 <= i < hs.len() && anchor_hit(hs[i], anchor, strategy)
        && forall|j: int| 0 <= j < i ==> !anchor_hit(hs[j], anchor, strategy));
    if i < k {
        assert(!anchor_hit(hs[i], anchor, strategy));
    }
    if k < i {
        assert(!anchor_hit(hs[k], anchor, strategy));
    }
}

pub proof fn lemma_find_bound(hs: Seq<Seq<char>>, anchor: Seq<char>, strategy: AnchorMatch)
    ensures
        find_spec(hs, anchor, strategy) matches Ok(i) ==> i < hs.len(),
{
    if exists|i: int| 0 <= i < hs.len() && anchor_hit(hs[i], anchor, strategy) {
        let w = choose|i: int| 0 <= i < hs.len() && anchor_hit(hs[i], anchor, strategy);
        lemma_first_hit(hs, anchor, strategy, w);
    }
}

/// If some cell is the anchor, there is a first one.
proof fn lemma_first_hit(hs: Seq<Seq<char>>, anchor: Seq<char>, strategy: AnchorMatch, w: int)
    requires
        0 <= w < hs.len(),
        anchor_hit(hs[w], anchor, strategy),
    ensures
        exists|i: int| 0 <= i < hs.len() && anchor_hit(hs[i], anchor, strategy)
            && forall|j: int| 0 <= j < i ==> !anchor_hit(hs[j], anchor, strategy),
    decreases w,
{
    if exists|j: int| 0 <= j < w && anchor_hit(hs[j], anchor, strategy) {
        let j = choose|j: int| 0 <= j < w && anchor_hit(hs[j], anchor, strategy);
        lemma_first_hit(hs, anchor, strategy, j);
    } else {
        assert(0 <= w < hs.len() && anchor_hit(hs[w], anchor, strategy)
            && forall|j: int| 0 <= j < w ==> !anchor_hit(hs[j], anchor, strategy));
    }
}

fn strategy_text(strategy: AnchorMatch) -> (res: String)
    ensures
        res@ == strategy_name(strategy),
{
    match strategy {
        AnchorMatch::Exact => "Exact".to_owned(),
        AnchorMatch::Contains => "Contains".to_owned(),
    }
}

/// Locates the anchor column in a promoted header row: the first cell that
/// matches, or `AnchorMissing`.
pub fn find(header: &[String], anchor: &str, strategy: AnchorMatch) -> (res: Result<usize, ReshapeError>)
    ensures
        match res {
            Ok(i) => find_spec(views(header@), anchor@, strategy) == Ok::<usize, ReshapeErrorView>(i),
            Err(e) => find_spec(views(header@), anchor@, strategy) == Err::<usize, ReshapeErrorView>(e@),
        },
{
    let ghost hs = views(header@);
    let a = chars_of(anchor);
    let mut i: usize = 0;
    while i < header.len()
        invariant
            i <= header.len(),
            hs == views(header@),
            a@ == anchor@,
            forall|j: int| 0 <= j < i ==> !anchor_hit(hs[j], anchor@, strategy),
        decreases header.len() - i,
    {
        let hit = match strategy {
            AnchorMatch::Exact => {
                let t = chars_of(str_trim(header[i].as_str()));
                chars_equal(&t, &a)
            },
            AnchorMatch::Contains => {
                let h = chars_of(header[i].as_str());
                contains_chars(&h, &a)
            },
        };
        proof {
            assert(hs[i as int] == header@[i as int]@);
        }
        if hit {
            proof {
                lemma_anchor_position(hs, anchor@, strategy, i as int);
            }
            return Ok(i);
        }
        i = i + 1;
    }
    let s = strategy_text(strategy);
    Err(ReshapeError::AnchorMissing { anchor: anchor.to_owned(), strategy: s })
}

} // verus!
