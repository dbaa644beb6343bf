//! Profiles: declarative descriptions of report layouts, and the registry
//! that routes a file to one of them.
pub mod glob;
pub mod learn;
pub mod match_rules;
pub mod signature;

use vstd::prelude::*;
use crate::decimal::DecimalValue;
use crate::error::{ReshapeError, ProfileError, ProfileErrorView};
use crate::text::{views, has_prefix, first_occurrence, parse_unsigned, trim, chars_of, string_of, slice_chars, starts_with, find_chars, parse_usize, push_str_chars, push_all, trim_chars, all_digits, nat_text};
use crate::path::{file_name, file_name_chars};
use crate::reshape::is_year_month;
use crate::error::ReshapeErrorView;
use vstd::std_specs::iter::IteratorSpec;
use self::match_rules::matches_spec;
use self::signature::{compute, signature_spec};
use crate::reader::Format;
use crate::grid::{Grid, grid_view};

verus! {

/// A declarative description of one monthly-report layout.
#[derive(Debug, Clone)]
pub struct Profile {
    pub name: String,
    pub match_rules: MatchRules,
    pub encoding: String,
    pub format: Format,
    pub sheet: Option<u32>,
    pub header_rows: usize,
    pub data_start_row: usize,
    pub skip_blank_id: bool,
    pub fill_merged: bool,
    pub id_cols: Vec<IdCol>,
    pub unpivot: Unpivot,
    pub value_rules: ValueRules,
}

/// How a file is routed to a profile.
#[derive(Debug, Clone)]
pub struct MatchRules {
    pub filename: Option<String>,
    pub header_contains: Vec<String>,
    pub header_signature: Option<String>,
    pub priority: i32,
}

/// An identity column.
#[derive(Debug, Clone)]
pub struct IdCol {
    pub name: String,
    /// 1-indexed column position (A = 1).
    pub col: usize,
    pub header: Option<String>,
    pub kind: String,
}

impl IdCol {
    /// 0-indexed position (saturating at 0).
    pub fn index(&self) -> (res: usize)
        ensures
            res == if self.col >= 1 { self.col - 1 } else { 0 },
    {
        if self.col >= 1 {
            self.col - 1
        } else {
            0
        }
    }
}

/// How the day columns are turned into rows.
#[derive(Debug, Clone)]
pub struct Unpivot {
    pub anchor: String,
    pub anchor_match: AnchorMatch,
    pub day_cols: usize,
    pub validate_calendar_day: bool,
    pub var_name: String,
    pub value_name: String,
    /// `filename:<start>..<end>` or `constant:<YYYYMM>`.
    pub year_month_from: String,
    pub anchor_col_observed: Option<usize>,
}

/// How the anchor header is located.
#[derive(Debug, Clone, Copy, PartialEq, Eq, Structural)]
pub enum AnchorMatch {
    Exact,
    Contains,
}

impl Default for AnchorMatch {
    fn default() -> (res: Self)
        ensures
            res == AnchorMatch::Exact,
    {
        AnchorMatch::Exact
    }
}

/// How cell values are read.
#[derive(Debug, Clone)]
pub struct ValueRules {
    pub kind: ValueKind,
    pub decimals: u32,
    pub missing_values: Vec<String>,
    pub zero_is_valid: bool,
    pub min: Option<DecimalValue>,
    pub max: Option<DecimalValue>,
}

impl ValueRules {
    /// Both bounds are numbers a `rust_decimal::Decimal` can hold.
    pub open spec fn wf(&self) -> bool {
        &&& (self.min matches Some(m) ==> m.wf())
        &&& (self.max matches Some(m) ==> m.wf())
    }
}

/// The type of the cell values.
#[derive(Debug, Clone, Copy, PartialEq, Eq, Structural)]
pub enum ValueKind {
    Decimal,
    Int,
    String,
}

pub fn default_encoding() -> (res: String)
    ensures
        res@ == "utf-8"@,
{
    "utf-8".to_owned()
}

pub fn default_header_rows() -> (res: usize)
    ensures
        res == 1,
{
    1
}

pub fn default_data_start_row() -> (res: usize)
    ensures
        res == 2,
{
    2
}

pub fn default_priority() -> (res: i32)
    ensures
        res == 0,
{
    0
}

pub fn default_true() -> (res: bool)
    ensures
        res,
{
    true
}

pub fn default_id_type() -> (res: String)
    ensures
        res@ == "string"@,
{
    "string".to_owned()
}

pub fn default_var_name() -> (res: String)
    ensures
        res@ == "shift_hour"@,
{
    "shift_hour".to_owned()
}

pub fn default_value_name() -> (res: String)
    ensures
        res@ == "daily_kwh"@,
{
    "daily_kwh".to_owned()
}

/// The 0-indexed case-id column: that of the first id column, if any.
pub open spec fn caseid_col_spec(p: &Profile) -> Option<usize> {
    if p.id_cols@.len() > 0 {
        let c = p.id_cols@[0].col;
        Some(if c >= 1 { (c - 1) as usize } else { 0 })
    } else {
        None
    }
}

/// The 0-indexed plant-name column: that of the second id column, if any.
pub open spec fn plant_col_spec(p: &Profile) -> Option<usize> {
    if p.id_cols@.len() > 1 {
        let c = p.id_cols@[1].col;
        Some(if c >= 1 { (c - 1) as usize } else { 0 })
    } else {
        None
    }
}

/// The characters from `start` to `end` of `s`, clipped to its length
/// (`chars().skip(start).take(end - start)`).
pub open spec fn clip(s: Seq<char>, start: int, end: int) -> Seq<char> {
    let a = if start < s.len() { start } else { s.len() as int };
    let b = if end < s.len() { end } else { s.len() as int };
    s.subrange(a, b)
}

/// The year-month read with a `filename:<start>..<end>` directive (`spec`
/// being the text after `filename:`).
pub open spec fn ym_from_filename(directive: Seq<char>, spec: Seq<char>, path: Seq<char>) -> Result<Seq<char>, ReshapeErrorView> {
    let filename = match file_name(path) {
        Some(f) => f,
        None => Seq::empty(),
    };
    match first_occurrence(spec, ".."@) {
        None => Err(ReshapeErrorView::BadProfile("bad year_month_from range '"@ + directive + "'"@)),
        Some(k) => {
            let start_s = spec.subrange(0, k);
            let end_s = spec.subrange(k + 2, spec.len() as int);
            match parse_unsigned(start_s, usize::MAX as nat) {
                None => Err(ReshapeErrorView::BadProfile("bad range start: "@ + start_s)),
                Some(start) => match parse_unsigned(end_s, usize::MAX as nat) {
                    None => Err(ReshapeErrorView::BadProfile("bad range end: "@ + end_s)),
                    Some(end) => if end < start {
                        Err(ReshapeErrorView::BadProfile("year_month_from end < start: "@ + directive))
                    } else {
                        let ym = clip(filename, start as int, end as int);
                        if is_year_month(ym) { Ok(ym) } else { Err(ReshapeErrorView::BadYearMonth(ym)) }
                    },
                },
            }
        },
    }
}

/// The year-month a profile reads for a file: from a character range of the
/// file name (`filename:<start>..<end>`), or a constant (`constant:<YYYYMM>`,
/// trimmed); it must be six ASCII digits.
pub open spec fn year_month_spec(directive: Seq<char>, path: Seq<char>) -> Result<Seq<char>, ReshapeErrorView> {
    if has_prefix(directive, "filename:"@) {
        ym_from_filename(directive, directive.subrange(9, directive.len() as int), path)
    } else if has_prefix(directive, "constant:"@) {
        let ym = trim(directive.subrange(9, directive.len() as int));
        if is_year_month(ym) { Ok(ym) } else { Err(ReshapeErrorView::BadYearMonth(ym)) }
    } else {
        Err(ReshapeErrorView::BadProfile("unsupported year_month_from: "@ + directive))
    }
}

/// A `BadProfile` error whose message is `prefix` followed by `rest`.
fn bad_profile(prefix: &str, rest: &Vec<char>, suffix: &str) -> (res: ReshapeError)
    ensures
        res@ == ReshapeErrorView::BadProfile(prefix@ + rest@ + suffix@),
{
    let mut m = chars_of(prefix);
    push_all(&mut m, rest);
    push_str_chars(&mut m, suffix);
    ReshapeError::BadProfile(string_of(m.as_slice()))
}

/// A year-month, or `BadYearMonth` when it is not six ASCII digits.
fn check_year_month(ym: Vec<char>) -> (res: Result<String, ReshapeError>)
    ensures
        match res {
            Ok(s) => is_year_month(ym@) && s@ == ym@,
            Err(e) => !is_year_month(ym@) && e@ == ReshapeErrorView::BadYearMonth(ym@),
        },
{
    let s = string_of(ym.as_slice());
    if ym.len() == 6 && all_digits(&ym) {
        Ok(s)
    } else {
        Err(ReshapeError::BadYearMonth(s))
    }
}

/// The year-month from a character range of the file name.
#[verifier::rlimit(40)]
fn year_month_from_filename(directive: &Vec<char>, spec: &Vec<char>, path: &str) -> (res: Result<String, ReshapeError>)
    ensures
        match res {
            Ok(s) => ym_from_filename(directive@, spec@, path@) == Ok::<Seq<char>, ReshapeErrorView>(s@),
            Err(e) => ym_from_filename(directive@, spec@, path@) == Err::<Seq<char>, ReshapeErrorView>(e@),
        },
{
    proof {
        reveal_strlit("");
        assert(""@ =~= Seq::<char>::empty());
    }
    let p = chars_of(path);
    let filename = match file_name_chars(&p) {
        Some(f) => f,
        None => Vec::new(),
    };
    let dots = chars_of("..");
    proof {
        reveal_strlit("..");
    }
    let k = match find_chars(spec, &dots) {
        Some(k) => k,
        None => return Err(bad_profile("bad year_month_from range '", directive, "'")),
    };
    proof {
        assert(k + 2 <= spec.len()) by {
            assert(crate::text::occurs_at(spec@, ".."@, k as int));
        }
    }
    let start_s = slice_chars(spec, 0, k);
    let end_s = slice_chars(spec, k + 2, spec.len());
    let ghost fname = match file_name(path@) {
        Some(f) => f,
        None => Seq::<char>::empty(),
    };
    proof {
        assert(filename@ == fname);
        assert(first_occurrence(spec@, ".."@) == Some(k as int));
    }
    let start = match parse_usize(&start_s) {
        Some(v) => v,
        None => return Err(bad_profile("bad range start: ", &start_s, "")),
    };
    let end = match parse_usize(&end_s) {
        Some(v) => v,
        None => return Err(bad_profile("bad range end: ", &end_s, "")),
    };
    if end < start {
        return Err(bad_profile("year_month_from end < start: ", directive, ""));
    }
    let a = if start < filename.len() { start } else { filename.len() };
    let b = if end < filename.len() { end } else { filename.len() };
    let ym = slice_chars(&filename, a, b);
    proof {
        reveal_strlit("");
        assert(""@ =~= Seq::<char>::empty());
    }
    check_year_month(ym)
}

impl Profile {
    /// Reads the year-month for a file at `path` according to
    /// `unpivot.year_month_from`.
    pub fn extract_year_month(&self, path: &str) -> (res: Result<String, ReshapeError>)
        ensures
            match res {
                Ok(s) => year_month_spec(self.unpivot.year_month_from@, path@) == Ok::<Seq<char>, ReshapeErrorView>(s@),
                Err(e) => year_month_spec(self.unpivot.year_month_from@, path@) == Err::<Seq<char>, ReshapeErrorView>(e@),
            },
    {
        let directive = chars_of(self.unpivot.year_month_from.as_str());
        let fname_prefix = chars_of("filename:");
        let const_prefix = chars_of("constant:");
        proof {
            reveal_strlit("filename:");
            reveal_strlit("constant:");
            reveal_strlit("");
            assert(""@ =~= Seq::<char>::empty());
        }
        if starts_with(&directive, &fname_prefix) {
            let spec = slice_chars(&directive, 9, directive.len());
            year_month_from_filename(&directive, &spec, path)
        } else if starts_with(&directive, &const_prefix) {
            let rest = slice_chars(&directive, 9, directive.len());
            let ym = trim_chars(&rest);
            check_year_month(ym)
        } else {
            proof {
                reveal_strlit("");
                assert(""@ =~= Seq::<char>::empty());
            }
            Err(bad_profile("unsupported year_month_from: ", &directive, ""))
        }
    }

    /// The case-id column; a profile without id columns is malformed.
    pub fn caseid_col_index(&self) -> (res: Result<usize, ReshapeError>)
        ensures
            res matches Ok(c) ==> caseid_col_spec(self) == Some(c),
            res matches Err(e) ==> caseid_col_spec(self) is None && e@ == crate::error::ReshapeErrorView::BadProfile(
                "id_cols must have at least one entry"@,
            ),
    {
        if self.id_cols.len() == 0 {
            return Err(ReshapeError::BadProfile("id_cols must have at least one entry".to_owned()));
        }
        Ok(self.id_cols[0].index())
    }

    /// The plant-name column, if the profile has a second id column.
    pub fn plant_name_col_index(&self) -> (res: Option<usize>)
        ensures
            res == plant_col_spec(self),
    {
        if self.id_cols.len() > 1 {
            Some(self.id_cols[1].index())
        } else {
            None
        }
    }
}


/// A profile together with the file it was loaded from.
#[derive(Debug)]
pub struct LoadedProfile {
    pub path: String,
    pub profile: Profile,
}

/// The set of profiles a file is routed among.
#[derive(Debug)]
pub struct Registry {
    profiles: Vec<LoadedProfile>,
}

/// The profile a file was routed to.
#[derive(Debug)]
pub struct MatchResult<'a> {
    pub profile: &'a Profile,
    pub path: &'a str,
    /// Whether the header signature is the profile's (or the profile has none).
    pub signature_ok: bool,
    pub actual_signature: String,
}

/// Profile `i` matches the file.
pub open spec fn is_hit(ps: Seq<LoadedProfile>, i: int, filename: Seq<char>, header: Seq<Seq<char>>) -> bool {
    0 <= i < ps.len() && matches_spec(&ps[i].profile, filename, header)
}

pub open spec fn prio(ps: Seq<LoadedProfile>, i: int) -> i32 {
    ps[i].profile.match_rules.priority
}

/// Profile `i` matches and has a higher priority than every other match.
pub open spec fn sole_best(ps: Seq<LoadedProfile>, i: int, filename: Seq<char>, header: Seq<Seq<char>>) -> bool {
    &&& is_hit(ps, i, filename, header)
    &&& forall|j: int| #[trigger] is_hit(ps, j, filename, header) && j != i ==> prio(ps, j) < prio(ps, i)
}

/// `a` comes before `b`: higher priority first, registry order among equals.
pub open spec fn before(ps: Seq<LoadedProfile>, a: int, b: int) -> bool {
    prio(ps, a) > prio(ps, b) || (prio(ps, a) == prio(ps, b) && a < b)
}

/// `order` lists exactly the matching profiles, by descending priority and
/// in registry order among equal priorities.
pub open spec fn priority_order(ps: Seq<LoadedProfile>, filename: Seq<char>, header: Seq<Seq<char>>, order: Seq<int>) -> bool {
    &&& forall|x: int| order.contains(x) <==> is_hit(ps, x, filename, header)
    &&& forall|a: int, b: int| 0 <= a < b < order.len() ==> before(ps, #[trigger] order[a], #[trigger] order[b])
}

/// `x` is one of the indices in `order`.
pub open spec fn in_order(order: Seq<usize>, x: int) -> bool {
    exists|k: int| 0 <= k < order.len() && order[k] as int == x
}

/// Whether the header's signature is the one the profile expects (a profile
/// without an expected signature accepts any).
pub open spec fn signature_ok_spec(p: &Profile, header: Seq<Seq<char>>) -> bool {
    match p.match_rules.header_signature {
        Some(expected) => expected@ == signature_spec(header),
        None => true,
    }
}

impl Registry {
    pub closed spec fn entries(&self) -> Seq<LoadedProfile> {
        self.profiles@
    }

    pub fn empty() -> (res: Self)
        ensures
            res.entries().len() == 0,
    {
        Registry { profiles: Vec::new() }
    }

    pub fn from_profiles(profiles: Vec<LoadedProfile>) -> (res: Self)
        ensures
            res.entries() == profiles@,
    {
        Registry { profiles }
    }

    pub fn iter(&self) -> (res: std::slice::Iter<'_, LoadedProfile>)
        ensures
            res.remaining() == self.entries().as_ref(),
    {
        self.profiles.as_slice().iter()
    }

    pub fn len(&self) -> (res: usize)
        ensures
            res == self.entries().len(),
    {
        self.profiles.len()
    }

    pub fn is_empty(&self) -> (res: bool)
        ensures
            res == (self.entries().len() == 0),
    {
        self.profiles.len() == 0
    }

    /// Routes a file (by name and first header row) to the single matching
    /// profile of highest priority. `NoMatch` when no profile matches;
    /// `AmbiguousMatch` (with the matching names by descending priority) when
    /// the highest priority is shared. A header signature that differs from
    /// the expected one does not reject the file: it is reported in
    /// `signature_ok`.
    pub fn route<'a>(&'a self, filename: &str, header_row: &[String]) -> (res: Result<MatchResult<'a>, ProfileError>)
        ensures
            ({
                let ps = self.entries();
                let h = views(header_row@);
                let f = filename@;
                &&& (res matches Ok(m) ==> exists|i: int| {
                    &&& sole_best(ps, i, f, h)
                    &&& *m.profile == ps[i].profile
                    &&& m.path@ == ps[i].path@
                    &&& m.signature_ok == signature_ok_spec(&ps[i].profile, h)
                    &&& m.actual_signature@ == signature_spec(h)
                })
                &&& (res matches Err(e) ==> {
                    ||| ((forall|i: int| !is_hit(ps, i, f, h)) && e@ == ProfileErrorView::NoMatch { file: f })
                    ||| ((exists|i: int| is_hit(ps, i, f, h)) && (forall|i: int| !sole_best(ps, i, f, h))
                        && exists|order: Seq<int>| priority_order(ps, f, h, order)
                            && e@ == ProfileErrorView::AmbiguousMatch {
                            file: f,
                            names: order.map_values(|i: int| ps[i].profile.name@),
                        })
                })
                &&& ((exists|i: int| sole_best(ps, i, f, h)) ==> res is Ok)
            }),
    {
        let ghost ps = self.entries();
        let ghost h = views(header_row@);
        let ghost f = filename@;
        let actual_signature = compute(header_row);
        let n = self.profiles.len();
        let mut order: Vec<usize> = Vec::new();
        let mut i: usize = 0;
        while i < n
            invariant
                i <= n,
                n == ps.len(),
                ps == self.entries(),
                h == views(header_row@),
                f == filename@,
                forall|k: int| 0 <= k < order@.len() ==> is_hit(ps, #[trigger] order@[k] as int, f, h) && order@[k] < i,
                forall|x: int| #[trigger] is_hit(ps, x, f, h) && x < i ==> in_order(order@, x),
                forall|a: int, b: int| 0 <= a < b < order@.len() ==> before(ps, #[trigger] order@[a] as int, #[trigger] order@[b] as int),
            decreases n - i,
        {
            if self::match_rules::matches(&self.profiles[i].profile, filename, header_row) {
                let p = self.profiles[i].profile.match_rules.priority;
                let mut pos: usize = 0;
                while pos < order.len() && self.profiles[order[pos]].profile.match_rules.priority >= p
                    invariant
                        pos <= order@.len(),
                        n == ps.len(),
                        ps == self.entries(),
                        p == prio(ps, i as int),
                        i < n,
                        forall|k: int| 0 <= k < order@.len() ==> #[trigger] order@[k] < i,
                        forall|k: int| 0 <= k < pos ==> prio(ps, #[trigger] order@[k] as int) >= p,
                    decreases order@.len() - pos,
                {
                    pos = pos + 1;
                }
                let ghost old_order = order@;
                order.insert(pos, i);
                proof {
                    assert(is_hit(ps, i as int, f, h));
                    assert forall|k: int| 0 <= k < order@.len() implies is_hit(ps, #[trigger] order@[k] as int, f, h) && order@[k] < i + 1 by {
                        if k < pos {
                            assert(order@[k] == old_order[k]);
                        } else if k > pos {
                            assert(order@[k] == old_order[k - 1]);
                        }
                    }
                    assert forall|x: int| #[trigger] is_hit(ps, x, f, h) && x < i + 1 implies in_order(order@, x) by {
                        if x == i {
                            assert(order@[pos as int] as int == x);
                        } else {
                            assert(in_order(old_order, x));
                            let k = choose|k: int| 0 <= k < old_order.len() && old_order[k] as int == x;
                            if k < pos {
                                assert(order@[k] as int == x);
                            } else {
                                assert(order@[k + 1] as int == x);
                            }
                        }
                    }
                    assert forall|a: int, b: int| 0 <= a < b < order@.len() implies before(ps, #[trigger] order@[a] as int, #[trigger] order@[b] as int) by {
                        if a < pos && b < pos {
                            assert(order@[a] == old_order[a] && order@[b] == old_order[b]);
                        } else if a < pos && b == pos {
                            assert(order@[a] == old_order[a]);
                            assert(prio(ps, old_order[a] as int) >= p);
                            assert(old_order[a] < i);
                        } else if a < pos {
                            assert(order@[a] == old_order[a] && order@[b] == old_order[b - 1]);
                        } else if a == pos {
                            assert(order@[b] == old_order[b - 1]);
                            // The element right after the insertion point has lower priority.
                            assert(prio(ps, old_order[pos as int] as int) < p);
                            if b - 1 > pos {
                                assert(before(ps, old_order[pos as int] as int, old_order[b - 1] as int));
                            }
                        } else {
                            assert(order@[a] == old_order[a - 1] && order@[b] == old_order[b - 1]);
                        }
                    }
                }
            }
            i = i + 1;
        }
        let ghost om = order@.map_values(|u: usize| u as int);
        proof {
            assert forall|x: int| om.contains(x) <==> is_hit(ps, x, f, h) by {
                if om.contains(x) {
                    let k = choose|k: int| 0 <= k < om.len() && om[k] == x;
                    assert(om[k] == order@[k] as int);
                }
                if is_hit(ps, x, f, h) {
                    assert(in_order(order@, x));
                    let k = choose|k: int| 0 <= k < order@.len() && order@[k] as int == x;
                    assert(om[k] == x);
                }
            }
            assert forall|a: int, b: int| 0 <= a < b < om.len() implies before(ps, #[trigger] om[a], #[trigger] om[b]) by {
                assert(om[a] == order@[a] as int && om[b] == order@[b] as int);
            }
            assert(priority_order(ps, f, h, om));
        }
        if order.len() == 0 {
            proof {
                assert forall|x: int| !is_hit(ps, x, f, h) by {
                    if is_hit(ps, x, f, h) {
                        assert(om.contains(x));
                    }
                }
            }
            return Err(ProfileError::NoMatch { file: filename.to_owned() });
        }
        let first = order[0];
        proof {
            assert(om.contains(first as int)) by {
                assert(om[0] == first as int);
            }
        }
        if order.len() > 1 && self.profiles[order[1]].profile.match_rules.priority == self.profiles[first].profile.match_rules.priority {
            let mut names: Vec<String> = Vec::new();
            let mut k: usize = 0;
            while k < order.len()
                invariant
                    k <= order@.len(),
                    n == ps.len(),
                    ps == self.entries(),
                    om == order@.map_values(|u: usize| u as int),
                    forall|x: int| om.contains(x) ==> 0 <= x < n,
                    views(names@) =~= om.subrange(0, k as int).map_values(|i: int| ps[i].profile.name@),
                decreases order@.len() - k,
            {
                proof {
                    assert(om[k as int] == order@[k as int] as int);
                    assert(om.contains(om[k as int]));
                }
                let ghost before_names = names@;
                names.push(self.profiles[order[k]].profile.name.clone());
                proof {
                    assert(views(names@) =~= views(before_names).push(ps[om[k as int]].profile.name@));
                    assert(om.subrange(0, k + 1).map_values(|i: int| ps[i].profile.name@)
                        =~= om.subrange(0, k as int).map_values(|i: int| ps[i].profile.name@).push(ps[om[k as int]].profile.name@));
                }
                k = k + 1;
            }
            proof {
                assert(om.subrange(0, order@.len() as int) =~= om);
                assert(om[1] == order@[1] as int);
                assert(om.contains(om[1]));
                assert forall|i: int| !sole_best(ps, i, f, h) by {
                    if sole_best(ps, i, f, h) {
                        assert(om.contains(i));
                        let k = choose|k: int| 0 <= k < om.len() && om[k] == i;
                        if k == 0 {
                            assert(is_hit(ps, om[1], f, h));
                        } else {
                            assert(before(ps, om[0], om[k]));
                            assert(is_hit(ps, om[0], f, h));
                        }
                    }
                }
            }
            return Err(ProfileError::AmbiguousMatch { file: filename.to_owned(), names });
        }
        proof {
            assert forall|j: int| #[trigger] is_hit(ps, j, f, h) && j != first as int implies prio(ps, j) < prio(ps, first as int) by {
                assert(om.contains(j));
                let k = choose|k: int| 0 <= k < om.len() && om[k] == j;
                assert(om[0] == first as int);
                assert(k != 0);
                assert(before(ps, om[0], om[k]));
                if k > 1 {
                    assert(before(ps, om[1], om[k]));
                }
                assert(om[1] == order@[1] as int);
            }
            assert(sole_best(ps, first as int, f, h));
        }
        let picked = &self.profiles[first];
        let signature_ok = match &picked.profile.match_rules.header_signature {
            Some(expected) => *expected == actual_signature,
            None => true,
        };
        Ok(MatchResult {
            profile: &picked.profile,
            path: picked.path.as_str(),
            signature_ok,
            actual_signature,
        })
    }
}

/// The first row of a grid, empty for an empty grid.
pub open spec fn first_row_spec(g: Seq<Seq<Seq<char>>>) -> Seq<Seq<char>> {
    if g.len() == 0 { Seq::empty() } else { g[0] }
}

/// The first row of a grid (empty for an empty grid): the header a file is
/// routed by.
pub fn first_row(grid: &Grid) -> (res: Vec<String>)
    ensures
        views(res@) == first_row_spec(grid_view(*grid)),
{
    if grid.len() == 0 {
        return Vec::new();
    }
    let first = grid[0].clone();
    proof {
        assert(views(first@) =~= grid_view(*grid)[0]) by {
            assert forall|k: int| 0 <= k < first@.len() implies #[trigger] first@[k]@ == grid@[0]@[k]@ by {
                assert(cloned::<String>(grid@[0]@[k], first@[k]));
            }
        }
    }
    first
}

/// A profile file: a path whose extension is exactly `json`.
pub open spec fn profile_file_spec(path: Seq<char>) -> bool {
    crate::path::extension(path) == Some("json"@)
}

/// Whether a directory entry is loaded as a profile.
pub fn is_profile_file(path: &str) -> (res: bool)
    ensures
        res == profile_file_spec(path@),
{
    let p = chars_of(path);
    match file_name_chars(&p) {
        Some(f) => match crate::path::extension_of_name_chars(&f) {
            Some(e) => {
                proof {
                    reveal_strlit("json");
                }
                crate::text::chars_equal_str(&e, "json")
            },
            None => false,
        },
        None => false,
    }
}

/// Whatever the directive, a year-month that is read is six ASCII digits.
pub proof fn law_year_month_is_six_digits(directive: Seq<char>, path: Seq<char>)
    ensures
        year_month_spec(directive, path) matches Ok(ym) ==> is_year_month(ym),
{
}

/// `filename:<s>..<e>` reads characters `s` to `e` of the file name (the
/// range end is a position, not a length): with `s <= e` and the name at
/// least `e` characters long, the year-month is exactly those characters
/// when they are six digits, and `BadYearMonth` of them otherwise.
pub proof fn law_filename_range_reads_those_characters(path: Seq<char>, s: nat, e: nat)
    requires
        s <= e <= usize::MAX,
        file_name(path) matches Some(f) && e <= f.len(),
    ensures
        ({
            let f = file_name(path)->Some_0;
            let directive = "filename:"@ + nat_text(s) + ".."@ + nat_text(e);
            let ym = f.subrange(s as int, e as int);
            &&& (is_year_month(ym) ==> year_month_spec(directive, path) == Ok::<Seq<char>, ReshapeErrorView>(ym))
            &&& (!is_year_month(ym) ==> year_month_spec(directive, path) == Err::<Seq<char>, ReshapeErrorView>(ReshapeErrorView::BadYearMonth(ym)))
        }),
{
    reveal_strlit("filename:");
    reveal_strlit("..");
    let f = file_name(path)->Some_0;
    let a = nat_text(s);
    let b = nat_text(e);
    let directive = "filename:"@ + a + ".."@ + b;
    assert(has_prefix(directive, "filename:"@)) by {
        assert(directive.subrange(0, 9) =~= "filename:"@);
    }
    let spec = directive.subrange(9, directive.len() as int);
    assert(spec =~= a + ".."@ + b);
    crate::text::lemma_nat_text_digits(s);
    crate::text::lemma_nat_text_digits(e);
    let k = a.len() as int;
    assert(crate::text::occurs_at(spec, ".."@, k)) by {
        assert(spec.subrange(k, k + 2) =~= ".."@);
    }
    assert forall|j: int| 0 <= j < k implies !crate::text::occurs_at(spec, ".."@, j) by {
        assert(spec[j] == a[j]);
        assert(crate::text::is_ascii_digit(a[j]));
        if crate::text::occurs_at(spec, ".."@, j) {
            assert(spec.subrange(j, j + 2)[0] == spec[j]);
            assert(".."@[0] == '.');
        }
    }
    crate::text::lemma_first_occurrence(spec, ".."@, k);
    assert(spec.subrange(0, k) =~= a);
    assert(spec.subrange(k + 2, spec.len() as int) =~= b);
    crate::text::lemma_parse_nat_text(s, usize::MAX as nat);
    crate::text::lemma_parse_nat_text(e, usize::MAX as nat);
    assert(clip(f, s as int, e as int) =~= f.subrange(s as int, e as int));
}

} // verus!
