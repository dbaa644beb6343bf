//! The loose routing test: filename glob and header tokens.
use vstd::prelude::*;
use super::Profile;
pub use super::glob::glob_match;
use super::glob::glob_spec;
use crate::text::{contains_seq, join, views, chars_of, join_strings, contains_chars};

verus! {

/// A profile matches a file when its filename pattern (if any) matches the
/// file name and each of its header tokens occurs in the header row joined
/// with `|`. The header signature is not consulted here.
pub open spec fn matches_spec(p: &Profile, filename: Seq<char>, header: Seq<Seq<char>>) -> bool {
    &&& (p.match_rules.filename matches Some(pat) ==> glob_spec(pat@, filename))
    &&& forall|k: int| 0 <= k < p.match_rules.header_contains@.len()
        ==> contains_seq(join(header, "|"@), #[trigger] p.match_rules.header_contains@[k]@)
}

/// Whether `profile` matches a file by name and first header row.
pub fn matches(profile: &Profile, filename: &str, header_row: &[String]) -> (res: bool)
    ensures
        res == matches_spec(profile, filename@, views(header_row@)),
{
    if let Some(pattern) = &profile.match_rules.filename {
        if !glob_match(pattern.as_str(), filename) {
            return false;
        }
    }
    let joined = join_strings(header_row, "|");
    let mut k: usize = 0;
    while k < profile.match_rules.header_contains.len()
        invariant
            k <= profile.match_rules.header_contains.len(),
            joined@ == join(views(header_row@), "|"@),
            forall|j: int| 0 <= j < k ==> contains_seq(join(views(header_row@), "|"@), #[trigger] profile.match_rules.header_contains@[j]@),
        decreases profile.match_rules.header_contains.len() - k,
    {
        let n = chars_of(profile.match_rules.header_contains[k].as_str());
        if !contains_chars(&joined, &n) {
            proof {
                assert(!contains_seq(join(views(header_row@), "|"@), profile.match_rules.header_contains@[k as int]@));
            }
            return false;
        }
        k = k + 1;
    }
    true
}

/// Header tokens are all required: a profile matches a file only if every
/// one of its tokens occurs in the header row joined with `|`, and, when its
/// file-name pattern (if any) matches, it matches exactly then.
pub proof fn law_every_header_token_required(p: &Profile, filename: Seq<char>, header: Seq<Seq<char>>)
    ensures
        matches_spec(p, filename, header) ==> forall|k: int| 0 <= k < p.match_rules.header_contains@.len()
            ==> contains_seq(join(header, "|"@), #[trigger] p.match_rules.header_contains@[k]@),
        (exists|k: int| 0 <= k < p.match_rules.header_contains@.len()
            && !contains_seq(join(header, "|"@), #[trigger] p.match_rules.header_contains@[k]@))
            ==> !matches_spec(p, filename, header),
        (p.match_rules.filename matches Some(pat) ==> glob_spec(pat@, filename))
            && (forall|k: int| 0 <= k < p.match_rules.header_contains@.len()
                ==> contains_seq(join(header, "|"@), #[trigger] p.match_rules.header_contains@[k]@))
            ==> matches_spec(p, filename, header),
{
}

/// Routing never picks a profile one of whose header tokens is missing from
/// the header: such a profile is not among the matches.
pub proof fn law_route_skips_profiles_missing_a_token(ps: Seq<super::LoadedProfile>, i: int, filename: Seq<char>, header: Seq<Seq<char>>, k: int)
    requires
        0 <= i < ps.len(),
        0 <= k < ps[i].profile.match_rules.header_contains@.len(),
        !contains_seq(join(header, "|"@), ps[i].profile.match_rules.header_contains@[k]@),
    ensures
        !super::is_hit(ps, i, filename, header),
        !super::sole_best(ps, i, filename, header),
{
}

} // verus!
