//! Reshaping a wide grid (one column per day) into long rows.
pub mod anchor;
pub mod calendar;
pub mod cast;
pub mod header;
pub mod unpivot;

use vstd::prelude::*;
use crate::dao::row::{DailyKwhRow, RowView};
use crate::error::{ReshapeError, ReshapeErrorView};
use crate::grid::{Grid, grid_view, get_or_empty, str_trim};
use crate::profile::{Profile, caseid_col_spec, plant_col_spec};
use crate::text::{all_ascii_digits, chars_of, views};
use self::anchor::find_spec;
use self::calendar::is_valid_spec;
use self::cast::cast_spec;
use self::header::{blank, promote_spec, max_width};
use self::unpivot::row_spec;

verus! {

/// Six ASCII digits.
pub open spec fn is_year_month(s: Seq<char>) -> bool {
    s.len() == 6 && all_ascii_digits(s)
}

/// The 0-indexed first data row (`data_start_row` is 1-indexed; 0 saturates).
pub open spec fn data_start(p: &Profile) -> int {
    if p.data_start_row >= 1 { p.data_start_row - 1 } else { 0 }
}

/// The plant name of a row: its plant-name cell when the profile has one, the
/// row reaches it and it is not blank.
pub open spec fn plant_of(row: Seq<Seq<char>>, plant_col: Option<usize>) -> Option<Seq<char>> {
    match plant_col {
        Some(c) => if c < row.len() && !blank(row[c as int]) { Some(row[c as int]) } else { None },
        None => None,
    }
}

/// Prepends rows to a result; an error stays as it is.
pub open spec fn prepend(rows: Seq<RowView>, rest: Result<Seq<RowView>, ReshapeErrorView>) -> Result<Seq<RowView>, ReshapeErrorView> {
    match rest {
        Ok(r) => Ok(rows + r),
        Err(e) => Err(e),
    }
}

/// The rows that days `d..day_cols` of data row `rno` give: one per day (only
/// real calendar days when the profile asks for it), with the cell `d`
/// columns right of the anchor cast by the value rules; the first cast error
/// stops everything.
pub open spec fn day_rows(
    row: Seq<Seq<char>>,
    p: &Profile,
    ym: Seq<char>,
    anchor_col: usize,
    caseid: Seq<char>,
    plant: Option<Seq<char>>,
    rno: usize,
    d: int,
) -> Result<Seq<RowView>, ReshapeErrorView>
    decreases p.unpivot.day_cols - d,
{
    if d < 0 || d >= p.unpivot.day_cols {
        Ok(Seq::empty())
    } else {
        let day = (d + 1) as u32;
        if p.unpivot.validate_calendar_day && !is_valid_spec(ym, day) {
            day_rows(row, p, ym, anchor_col, caseid, plant, rno, d + 1)
        } else {
            let col = (anchor_col + d) as usize;
            match cast_spec(get_or_empty(row, col as int), &p.value_rules, rno, col) {
                Err(e) => Err(e),
                Ok(v) => prepend(
                    seq![row_spec(caseid, plant, ym, day, v)],
                    day_rows(row, p, ym, anchor_col, caseid, plant, rno, d + 1),
                ),
            }
        }
    }
}

/// The rows that data rows `r..` give: rows whose case id is blank are skipped
/// when the profile asks for it; each other row gives its day rows.
pub open spec fn rows_from(
    g: Seq<Seq<Seq<char>>>,
    p: &Profile,
    ym: Seq<char>,
    anchor_col: usize,
    caseid_col: usize,
    plant_col: Option<usize>,
    r: int,
) -> Result<Seq<RowView>, ReshapeErrorView>
    decreases g.len() - r,
{
    if r < 0 || r >= g.len() {
        Ok(Seq::empty())
    } else {
        let row = g[r];
        let id = get_or_empty(row, caseid_col as int);
        if p.skip_blank_id && blank(id) {
            rows_from(g, p, ym, anchor_col, caseid_col, plant_col, r + 1)
        } else {
            match day_rows(row, p, ym, anchor_col, id, plant_of(row, plant_col), r as usize, 0) {
                Err(e) => Err(e),
                Ok(rs) => prepend(rs, rows_from(g, p, ym, anchor_col, caseid_col, plant_col, r + 1)),
            }
        }
    }
}

/// What `apply` gives: `BadYearMonth` unless the year-month is six ASCII
/// digits, then the anchor column of the promoted header (or its error), the
/// case-id column (or `BadProfile`), then the rows from the first data row on.
pub open spec fn apply_spec(g: Seq<Seq<Seq<char>>>, p: &Profile, ym: Seq<char>) -> Result<Seq<RowView>, ReshapeErrorView> {
    if !is_year_month(ym) {
        Err(ReshapeErrorView::BadYearMonth(ym))
    } else {
        let header = promote_spec(g, p.header_rows as nat, p.fill_merged);
        match find_spec(header, p.unpivot.anchor@, p.unpivot.anchor_match) {
            Err(e) => Err(e),
            Ok(ac) => match caseid_col_spec(p) {
                None => Err(ReshapeErrorView::BadProfile("id_cols must have at least one entry"@)),
                Some(cc) => rows_from(g, p, ym, ac, cc, plant_col_spec(p), data_start(p)),
            },
        }
    }
}

/// The views of a sequence of rows.
pub open spec fn rows_view(rows: Seq<DailyKwhRow>) -> Seq<RowView> {
    rows.map_values(|r: DailyKwhRow| r@)
}

/// The widest row of a grid.
pub open spec fn widest(g: Seq<Seq<Seq<char>>>) -> nat {
    max_width(g, g.len() as int)
}

proof fn lemma_max_width_le(g: Seq<Seq<Seq<char>>>, n: int)
    ensures
        max_width(g, n) <= widest(g),
        forall|i: int| 0 <= i < n && i < g.len() ==> #[trigger] g[i].len() <= max_width(g, n),
    decreases n,
{
    if n > g.len() {
        lemma_max_width_le(g, n - 1);
    } else if n > 0 {
        lemma_max_width_le(g, n - 1);
        lemma_max_width_mono(g, n, g.len() as int);
    }
}

proof fn lemma_max_width_mono(g: Seq<Seq<Seq<char>>>, n: int, m: int)
    requires
        n <= m,
    ensures
        max_width(g, n) <= max_width(g, m),
    decreases m - n,
{
    if n < m {
        lemma_max_width_mono(g, n, m - 1);
    }
}

proof fn lemma_header_width(g: Seq<Seq<Seq<char>>>, n: nat, fill: bool)
    ensures
        promote_spec(g, n, fill).len() <= widest(g),
{
    lemma_max_width_le(g, n as int);
    if g.len() > 0 && n == 1 {
        lemma_max_width_le(g, g.len() as int);
    }
}

proof fn lemma_prepend_assoc(a: Seq<RowView>, b: Seq<RowView>, x: Result<Seq<RowView>, ReshapeErrorView>)
    ensures
        prepend(a, prepend(b, x)) == prepend(a + b, x),
{
    match x {
        Ok(r) => {
            assert(a + (b + r) =~= (a + b) + r);
        },
        Err(e) => {},
    }
}

/// The view of an optional text.
pub open spec fn opt_view(o: Option<&str>) -> Option<Seq<char>> {
    match o {
        Some(s) => Some(s@),
        None => None,
    }
}

/// The day rows of one data row.
fn day_rows_exec(
    row: &Vec<String>,
    profile: &Profile,
    year_month: &str,
    anchor_col: usize,
    caseid: &str,
    plant_name: Option<&str>,
    rno: usize,
    Ghost(rv): Ghost<Seq<Seq<char>>>,
) -> (res: Result<Vec<DailyKwhRow>, ReshapeError>)
    requires
        rv == views(row@),
        profile.value_rules.wf(),
        anchor_col + profile.unpivot.day_cols <= usize::MAX,
    ensures
        match res {
            Ok(rs) => day_rows(rv, profile, year_month@, anchor_col, caseid@, opt_view(plant_name), rno, 0)
                == Ok::<Seq<RowView>, ReshapeErrorView>(rows_view(rs@)),
            Err(e) => day_rows(rv, profile, year_month@, anchor_col, caseid@, opt_view(plant_name), rno, 0)
                == Err::<Seq<RowView>, ReshapeErrorView>(e@),
        },
{
    let ghost total = day_rows(rv, profile, year_month@, anchor_col, caseid@, opt_view(plant_name), rno, 0);
    let n = profile.unpivot.day_cols;
    let mut out: Vec<DailyKwhRow> = Vec::new();
    let mut d: usize = 0;
    while d < n
        invariant
            d <= n,
            n == profile.unpivot.day_cols,
            rv == views(row@),
            profile.value_rules.wf(),
            anchor_col + n <= usize::MAX,
            total == day_rows(rv, profile, year_month@, anchor_col, caseid@, opt_view(plant_name), rno, 0),
            total == prepend(rows_view(out@), day_rows(rv, profile, year_month@, anchor_col, caseid@, opt_view(plant_name), rno, d as int)),
        decreases n - d,
    {
        let day = (d + 1) as u32;
        let ghost dr = day_rows(rv, profile, year_month@, anchor_col, caseid@, opt_view(plant_name), rno, d as int);
        let ghost next = day_rows(rv, profile, year_month@, anchor_col, caseid@, opt_view(plant_name), rno, d + 1);
        if profile.unpivot.validate_calendar_day && !calendar::is_valid(year_month, day) {
            proof {
                assert(dr == next);
            }
            d = d + 1;
            continue;
        }
        let cell_col = anchor_col + d;
        let raw: &str = if cell_col < row.len() {
            row[cell_col].as_str()
        } else {
            proof {
                reveal_strlit("");
            }
            ""
        };
        proof {
            assert(raw@ == get_or_empty(rv, cell_col as int));
        }
        let value = match cast::cast_value(raw, &profile.value_rules, rno, cell_col) {
            Ok(v) => v,
            Err(e) => {
                proof {
                    assert(dr == Err::<Seq<RowView>, ReshapeErrorView>(e@));
                    assert(total == Err::<Seq<RowView>, ReshapeErrorView>(e@));
                }
                return Err(e);
            },
        };
        let made = unpivot::make_row(caseid, plant_name, year_month, day, value);
        proof {
            assert(dr == prepend(seq![made@], next));
            lemma_prepend_assoc(rows_view(out@), seq![made@], next);
        }
        let ghost before = out@;
        out.push(made);
        proof {
            assert(rows_view(out@) =~= rows_view(before) + seq![made@]);
        }
        d = d + 1;
    }
    proof {
        assert(rows_view(out@) + Seq::<RowView>::empty() =~= rows_view(out@));
    }
    Ok(out)
}

/// Applies a profile to a grid for a year-month (`"YYYYMM"`), giving one row
/// per (case × day), only real calendar days when the profile asks for it.
pub fn apply(grid: &Grid, profile: &Profile, year_month: &str) -> (res: Result<Vec<DailyKwhRow>, ReshapeError>)
    requires
        profile.value_rules.wf(),
        widest(grid_view(*grid)) + profile.unpivot.day_cols <= usize::MAX,
    ensures
        match res {
            Ok(rows) => apply_spec(grid_view(*grid), profile, year_month@) == Ok::<Seq<RowView>, ReshapeErrorView>(rows_view(rows@)),
            Err(e) => apply_spec(grid_view(*grid), profile, year_month@) == Err::<Seq<RowView>, ReshapeErrorView>(e@),
        },
{
    let ghost g = grid_view(*grid);
    let ym = chars_of(year_month);
    let mut k: usize = 0;
    while k < ym.len()
        invariant
            k <= ym.len(),
            ym@ == year_month@,
            forall|j: int| 0 <= j < k ==> crate::text::is_ascii_digit(#[trigger] ym@[j]),
        decreases ym.len() - k,
    {
        if !('0' <= ym[k] && ym[k] <= '9') {
            proof {
                assert(!crate::text::is_ascii_digit(ym@[k as int]));
            }
            return Err(ReshapeError::BadYearMonth(year_month.to_owned()));
        }
        k = k + 1;
    }
    if ym.len() != 6 {
        return Err(ReshapeError::BadYearMonth(year_month.to_owned()));
    }
    proof {
        assert(is_year_month(year_month@));
    }
    let header = header::promote(grid, profile.header_rows, profile.fill_merged);
    let ghost hv = promote_spec(g, profile.header_rows as nat, profile.fill_merged);
    let ghost fs = find_spec(hv, profile.unpivot.anchor@, profile.unpivot.anchor_match);
    proof {
        assert(views(header@) == hv);
        assert(apply_spec(g, profile, year_month@) == match fs {
            Err(e) => Err(e),
            Ok(ac) => match caseid_col_spec(profile) {
                None => Err(ReshapeErrorView::BadProfile("id_cols must have at least one entry"@)),
                Some(cc) => rows_from(g, profile, year_month@, ac, cc, plant_col_spec(profile), data_start(profile)),
            },
        });
    }
    let anchor_col = match anchor::find(header.as_slice(), profile.unpivot.anchor.as_str(), profile.unpivot.anchor_match) {
        Ok(c) => c,
        Err(e) => return Err(e),
    };
    let caseid_col = match profile.caseid_col_index() {
        Ok(c) => c,
        Err(e) => return Err(e),
    };
    let plant_name_col = profile.plant_name_col_index();
    proof {
        lemma_header_width(g, profile.header_rows as nat, profile.fill_merged);
        anchor::lemma_find_bound(hv, profile.unpivot.anchor@, profile.unpivot.anchor_match);
        assert(anchor_col < hv.len());
    }
    let data_start: usize = if profile.data_start_row >= 1 { profile.data_start_row - 1 } else { 0 };
    collect_rows(grid, profile, year_month, anchor_col, caseid_col, plant_name_col, data_start)
}

/// The rows of the data rows from `start` on.
fn collect_rows(
    grid: &Grid,
    profile: &Profile,
    year_month: &str,
    anchor_col: usize,
    caseid_col: usize,
    plant_name_col: Option<usize>,
    start: usize,
) -> (res: Result<Vec<DailyKwhRow>, ReshapeError>)
    requires
        profile.value_rules.wf(),
        anchor_col + profile.unpivot.day_cols <= usize::MAX,
    ensures
        match res {
            Ok(rows) => rows_from(grid_view(*grid), profile, year_month@, anchor_col, caseid_col, plant_name_col, start as int)
                == Ok::<Seq<RowView>, ReshapeErrorView>(rows_view(rows@)),
            Err(e) => rows_from(grid_view(*grid), profile, year_month@, anchor_col, caseid_col, plant_name_col, start as int)
                == Err::<Seq<RowView>, ReshapeErrorView>(e@),
        },
{
    let ghost g = grid_view(*grid);
    let ghost total = rows_from(g, profile, year_month@, anchor_col, caseid_col, plant_name_col, start as int);
    let mut out: Vec<DailyKwhRow> = Vec::new();
    let mut r = start;
    proof {
        assert(rows_view(out@) + Seq::<RowView>::empty() =~= Seq::<RowView>::empty());
        match total {
            Ok(t) => assert(rows_view(out@) + t =~= t),
            Err(_) => {},
        }
    }
    while r < grid.len()
        invariant
            g == grid_view(*grid),
            profile.value_rules.wf(),
            anchor_col + profile.unpivot.day_cols <= usize::MAX,
            total == rows_from(g, profile, year_month@, anchor_col, caseid_col, plant_name_col, start as int),
            total == prepend(rows_view(out@), rows_from(g, profile, year_month@, anchor_col, caseid_col, plant_name_col, r as int)),
        decreases grid.len() - r,
    {
        let row = &grid[r];
        let ghost rv = g[r as int];
        let ghost here = rows_from(g, profile, year_month@, anchor_col, caseid_col, plant_name_col, r as int);
        let ghost next = rows_from(g, profile, year_month@, anchor_col, caseid_col, plant_name_col, r + 1);
        proof {
            assert(rv == views(row@));
        }
        let id_trim = match crate::grid::cell(grid, r, caseid_col) {
            Some(s) => str_trim(s),
            None => {
                proof {
                    reveal_strlit("");
                }
                ""
            },
        };
        proof {
            assert(id_trim@ == crate::text::trim(get_or_empty(rv, caseid_col as int)));
        }
        if profile.skip_blank_id && id_trim.is_empty() {
            proof {
                assert(here == next);
            }
            r = r + 1;
            continue;
        }
        let caseid: &str = if caseid_col < row.len() {
            row[caseid_col].as_str()
        } else {
            proof {
                reveal_strlit("");
            }
            ""
        };
        let plant_name: Option<&str> = match plant_name_col {
            Some(c) => {
                if c < row.len() && !str_trim(row[c].as_str()).is_empty() {
                    Some(row[c].as_str())
                } else {
                    None
                }
            },
            None => None,
        };
        proof {
            assert(caseid@ == get_or_empty(rv, caseid_col as int));
            assert(opt_view(plant_name) == plant_of(rv, plant_name_col));
        }
        match day_rows_exec(row, profile, year_month, anchor_col, caseid, plant_name, r, Ghost(rv)) {
            Err(e) => {
                proof {
                    assert(here == Err::<Seq<RowView>, ReshapeErrorView>(e@));
                    assert(total == Err::<Seq<RowView>, ReshapeErrorView>(e@));
                }
                return Err(e);
            },
            Ok(rs) => {
                let ghost before = out@;
                let ghost rs_v = rs@;
                proof {
                    assert(here == prepend(rows_view(rs_v), next));
                    lemma_prepend_assoc(rows_view(before), rows_view(rs_v), next);
                }
                let mut rs = rs;
                out.append(&mut rs);
                proof {
                    assert(rows_view(out@) =~= rows_view(before) + rows_view(rs_v));
                }
            },
        }
        r = r + 1;
    }
    proof {
        assert(rows_view(out@) + Seq::<RowView>::empty() =~= rows_view(out@));
    }
    Ok(out)
}

/// A row for a real calendar day of the year-month: its `shift_hour` is the
/// year-month followed by the day, a day in `1..=day_cols` that the month has.
pub open spec fn calendar_row(r: RowView, ym: Seq<char>, day_cols: usize) -> bool {
    exists|day: u32| 1 <= day <= day_cols && #[trigger] is_valid_spec(ym, day) && r.shift_hour == ym + crate::text::nat_text2(day as nat)
}

/// What every emitted row satisfies under a profile: a real calendar day when
/// the profile validates days, a filled case id when it skips blank ones.
pub open spec fn row_ok(r: RowView, p: &Profile, ym: Seq<char>) -> bool {
    &&& (p.unpivot.validate_calendar_day ==> calendar_row(r, ym, p.unpivot.day_cols))
    &&& (p.skip_blank_id ==> !blank(r.caseid))
}

proof fn lemma_day_rows_ok(
    row: Seq<Seq<char>>,
    p: &Profile,
    ym: Seq<char>,
    anchor_col: usize,
    caseid: Seq<char>,
    plant: Option<Seq<char>>,
    rno: usize,
    d: int,
)
    requires
        0 <= d,
        p.skip_blank_id ==> !blank(caseid),
    ensures
        day_rows(row, p, ym, anchor_col, caseid, plant, rno, d) matches Ok(rs) ==> forall|k: int| 0 <= k < rs.len() ==> row_ok(#[trigger] rs[k], p, ym),
    decreases p.unpivot.day_cols - d,
{
    if d < p.unpivot.day_cols {
        lemma_day_rows_ok(row, p, ym, anchor_col, caseid, plant, rno, d + 1);
        let day = (d + 1) as u32;
        if !(p.unpivot.validate_calendar_day && !is_valid_spec(ym, day)) {
            let col = (anchor_col + d) as usize;
            match cast_spec(get_or_empty(row, col as int), &p.value_rules, rno, col) {
                Err(e) => {},
                Ok(v) => {
                    let first = row_spec(caseid, plant, ym, day, v);
                    match day_rows(row, p, ym, anchor_col, caseid, plant, rno, d + 1) {
                        Ok(rest) => {
                            let rs = seq![first] + rest;
                            assert forall|k: int| 0 <= k < rs.len() implies row_ok(#[trigger] rs[k], p, ym) by {
                                if k == 0 {
                                    if p.unpivot.validate_calendar_day {
                                        assert(is_valid_spec(ym, day));
                                    }
                                } else {
                                    assert(rs[k] == rest[k - 1]);
                                }
                            }
                        },
                        Err(e) => {},
                    }
                },
            }
        }
    }
}

proof fn lemma_rows_from_ok(
    g: Seq<Seq<Seq<char>>>,
    p: &Profile,
    ym: Seq<char>,
    anchor_col: usize,
    caseid_col: usize,
    plant_col: Option<usize>,
    r: int,
)
    ensures
        rows_from(g, p, ym, anchor_col, caseid_col, plant_col, r) matches Ok(rs) ==> forall|k: int| 0 <= k < rs.len() ==> row_ok(#[trigger] rs[k], p, ym),
    decreases g.len() - r,
{
    if 0 <= r < g.len() {
        lemma_rows_from_ok(g, p, ym, anchor_col, caseid_col, plant_col, r + 1);
        let row = g[r];
        let id = get_or_empty(row, caseid_col as int);
        if !(p.skip_blank_id && blank(id)) {
            lemma_day_rows_ok(row, p, ym, anchor_col, id, plant_of(row, plant_col), r as usize, 0);
            match day_rows(row, p, ym, anchor_col, id, plant_of(row, plant_col), r as usize, 0) {
                Err(e) => {},
                Ok(a) => match rows_from(g, p, ym, anchor_col, caseid_col, plant_col, r + 1) {
                    Err(e) => {},
                    Ok(b) => {
                        let rs = a + b;
                        assert forall|k: int| 0 <= k < rs.len() implies row_ok(#[trigger] rs[k], p, ym) by {
                            if k < a.len() {
                                assert(rs[k] == a[k]);
                            } else {
                                assert(rs[k] == b[k - a.len()]);
                            }
                        }
                    },
                },
            }
        }
    }
}

/// Reshaping never emits a row for a day the month does not have (such as
/// 31 April) when the profile validates calendar days, nor a row whose case
/// id is blank when the profile skips blank ids.
pub proof fn law_apply_emits_only_valid_rows(g: Seq<Seq<Seq<char>>>, p: &Profile, ym: Seq<char>)
    ensures
        apply_spec(g, p, ym) matches Ok(rows) ==> forall|k: int| 0 <= k < rows.len() ==> row_ok(#[trigger] rows[k], p, ym),
{
    if is_year_month(ym) {
        let header = promote_spec(g, p.header_rows as nat, p.fill_merged);
        match find_spec(header, p.unpivot.anchor@, p.unpivot.anchor_match) {
            Err(e) => {},
            Ok(ac) => match caseid_col_spec(p) {
                None => {},
                Some(cc) => lemma_rows_from_ok(g, p, ym, ac, cc, plant_col_spec(p), data_start(p)),
            },
        }
    }
}

/// The number of days from `d` on that give a row: every day up to
/// `day_cols`, or only the real calendar days when the profile asks for it.
pub open spec fn valid_days_from(p: &Profile, ym: Seq<char>, d: int) -> nat
    decreases p.unpivot.day_cols - d,
{
    if d < 0 || d >= p.unpivot.day_cols {
        0
    } else {
        let here: nat = if p.unpivot.validate_calendar_day && !is_valid_spec(ym, (d + 1) as u32) { 0 } else { 1 };
        here + valid_days_from(p, ym, d + 1)
    }
}

/// The number of data rows from `r` on that are not skipped for a blank case
/// id.
pub open spec fn kept_from(g: Seq<Seq<Seq<char>>>, p: &Profile, caseid_col: usize, r: int) -> nat
    decreases g.len() - r,
{
    if r < 0 || r >= g.len() {
        0
    } else {
        let here: nat = if p.skip_blank_id && blank(get_or_empty(g[r], caseid_col as int)) { 0 } else { 1 };
        here + kept_from(g, p, caseid_col, r + 1)
    }
}

/// The number of data rows of a grid that give rows.
pub open spec fn kept_rows(g: Seq<Seq<Seq<char>>>, p: &Profile) -> nat {
    match caseid_col_spec(p) {
        Some(cc) => kept_from(g, p, cc, data_start(p)),
        None => 0,
    }
}

proof fn lemma_day_rows_count(
    row: Seq<Seq<char>>,
    p: &Profile,
    ym: Seq<char>,
    anchor_col: usize,
    caseid: Seq<char>,
    plant: Option<Seq<char>>,
    rno: usize,
    d: int,
)
    requires
        0 <= d,
    ensures
        day_rows(row, p, ym, anchor_col, caseid, plant, rno, d) matches Ok(rs) ==> rs.len() == valid_days_from(p, ym, d),
    decreases p.unpivot.day_cols - d,
{
    if d < p.unpivot.day_cols {
        lemma_day_rows_count(row, p, ym, anchor_col, caseid, plant, rno, d + 1);
    }
}

proof fn lemma_rows_from_count(
    g: Seq<Seq<Seq<char>>>,
    p: &Profile,
    ym: Seq<char>,
    anchor_col: usize,
    caseid_col: usize,
    plant_col: Option<usize>,
    r: int,
)
    requires
        0 <= r,
    ensures
        rows_from(g, p, ym, anchor_col, caseid_col, plant_col, r) matches Ok(rs)
            ==> rs.len() == kept_from(g, p, caseid_col, r) * valid_days_from(p, ym, 0),
    decreases g.len() - r,
{
    if r < g.len() {
        lemma_rows_from_count(g, p, ym, anchor_col, caseid_col, plant_col, r + 1);
        let row = g[r];
        let id = get_or_empty(row, caseid_col as int);
        let v = valid_days_from(p, ym, 0);
        let k = kept_from(g, p, caseid_col, r + 1);
        if !(p.skip_blank_id && blank(id)) {
            lemma_day_rows_count(row, p, ym, anchor_col, id, plant_of(row, plant_col), r as usize, 0);
            assert((1 + k) * v == v + k * v) by (nonlinear_arith);
        }
    }
}

/// Reshaping gives one row per (kept data row × day that gives a row): with
/// calendar validation, 30 rows per case for April and 31 for March.
pub proof fn law_apply_row_count(g: Seq<Seq<Seq<char>>>, p: &Profile, ym: Seq<char>)
    ensures
        apply_spec(g, p, ym) matches Ok(rows) ==> rows.len() == kept_rows(g, p) * valid_days_from(p, ym, 0),
{
    if is_year_month(ym) {
        let header = promote_spec(g, p.header_rows as nat, p.fill_merged);
        match find_spec(header, p.unpivot.anchor@, p.unpivot.anchor_match) {
            Err(e) => {},
            Ok(ac) => match caseid_col_spec(p) {
                None => {},
                Some(cc) => lemma_rows_from_count(g, p, ym, ac, cc, plant_col_spec(p), data_start(p)),
            },
        }
    }
}

} // verus!
