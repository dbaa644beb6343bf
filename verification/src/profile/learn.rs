//! Drafting a profile from a structure template.
use vstd::prelude::*;
use super::{Profile, MatchRules, IdCol, Unpivot, AnchorMatch, ValueRules, ValueKind};
use super::signature::{compute, signature_spec};
use crate::decimal::DecimalValue;
use crate::grid::{Grid, grid_view, get_or_empty, str_trim};
use crate::reader::Format;
use crate::reshape::header::blank;
use crate::text::{trim, views, has_suffix, parse_unsigned, nat_text, chars_of, string_of,
    chars_equal_str, ends_with, slice_chars, parse_u32, push_decimal, push_str_chars};

verus! {

/// The structure found in a template.
#[derive(Debug, Clone)]
pub struct StructureDraft {
    /// 1-indexed header row.
    pub header_row: usize,
    /// 0-indexed anchor column.
    pub anchor_col: usize,
    pub anchor_value: String,
    pub day_cols: usize,
    /// 1-indexed first data row.
    pub data_start_row: usize,
    pub signature: String,
    pub header_contains: Vec<String>,
}

/// A day header such as `"1日"`: a `u32` number (as `str::parse` reads it)
/// followed by `日`.
pub open spec fn day_token(s: Seq<char>) -> bool {
    has_suffix(s, "日"@) && parse_unsigned(s.subrange(0, s.len() - 1), u32::MAX as nat) is Some
}

/// Whether a (trimmed) header cell is a day header.
pub fn is_day_token(s: &str) -> (res: bool)
    ensures
        res == day_token(s@),
{
    proof {
        reveal_strlit("日");
    }
    let cs = chars_of(s);
    let suffix = chars_of("日");
    if !ends_with(&cs, &suffix) {
        return false;
    }
    let head = slice_chars(&cs, 0, cs.len() - 1);
    parse_u32(&head).is_some()
}

/// Some cell of the row is a day header once trimmed.
pub open spec fn has_day(row: Seq<Seq<char>>) -> bool {
    exists|j: int| 0 <= j < row.len() && day_token(trim(#[trigger] row[j]))
}

/// The first row from `i` on that has a day header, or 0 when none has.
pub open spec fn header_from(g: Seq<Seq<Seq<char>>>, i: int) -> int
    decreases g.len() - i,
{
    if i < 0 || i >= g.len() {
        0
    } else if has_day(g[i]) {
        i
    } else {
        header_from(g, i + 1)
    }
}

/// The first cell from `j` on whose trimmed text is `1日`, or 0 when none is.
pub open spec fn anchor_from(row: Seq<Seq<char>>, j: int) -> int
    decreases row.len() - j,
{
    if j < 0 || j >= row.len() {
        0
    } else if trim(row[j]) == "1日"@ {
        j
    } else {
        anchor_from(row, j + 1)
    }
}

/// The number of consecutive day headers from `j` on.
pub open spec fn run_from(row: Seq<Seq<char>>, j: int) -> nat
    decreases row.len() - j,
{
    if j < 0 || j >= row.len() {
        0
    } else if day_token(trim(row[j])) {
        1 + run_from(row, j + 1)
    } else {
        0
    }
}

/// The 1-indexed first row from `r` on with a non-blank first cell, or
/// `fallback` when none has.
pub open spec fn data_from(g: Seq<Seq<Seq<char>>>, r: int, fallback: int) -> int
    decreases g.len() - r,
{
    if r < 0 || r >= g.len() {
        fallback
    } else if !blank(get_or_empty(g[r], 0)) {
        r + 1
    } else {
        data_from(g, r + 1, fallback)
    }
}

/// The first non-blank cell from `j` on, trimmed.
pub open spec fn first_filled(row: Seq<Seq<char>>, j: int) -> Option<Seq<char>>
    decreases row.len() - j,
{
    if j < 0 || j >= row.len() {
        None
    } else if !blank(row[j]) {
        Some(trim(row[j]))
    } else {
        first_filled(row, j + 1)
    }
}

/// The tokens a drafted profile requires in the header: its first non-blank
/// cell, `1日`, and `<day_cols>日` when there are day columns.
pub open spec fn contains_spec(row: Seq<Seq<char>>, day_cols: nat) -> Seq<Seq<char>> {
    let first = match first_filled(row, 0) {
        Some(t) => seq![t],
        None => Seq::empty(),
    };
    let days = if day_cols > 0 { seq![nat_text(day_cols) + "日"@] } else { Seq::empty() };
    first + seq!["1日"@] + days
}

/// The header row of a template, as the draft finds it.
pub open spec fn draft_header(g: Seq<Seq<Seq<char>>>) -> Seq<Seq<char>> {
    let i = header_from(g, 0);
    if i < g.len() { g[i] } else { Seq::empty() }
}

/// What `learn_structure` finds: the first row with a day header (0 when
/// none), its `1日` column (0 when none), the run of day headers from there,
/// the first later row with a non-blank first cell (or two rows below the
/// header), the header's signature and its required tokens.
pub open spec fn draft_ok(g: Seq<Seq<Seq<char>>>, d: StructureDraft) -> bool {
    let i = header_from(g, 0);
    let row = draft_header(g);
    let ac = anchor_from(row, 0);
    let dc = run_from(row, ac);
    &&& d.header_row == i + 1
    &&& d.anchor_col == ac
    &&& d.anchor_value@ == "1日"@
    &&& d.day_cols == dc
    &&& d.data_start_row == data_from(g, i + 1, i + 2)
    &&& d.signature@ == signature_spec(row)
    &&& views(d.header_contains@) == contains_spec(row, dc)
}

fn row_has_day(row: &Vec<String>) -> (res: bool)
    ensures
        res == has_day(views(row@)),
{
    let mut j: usize = 0;
    while j < row.len()
        invariant
            j <= row@.len(),
            forall|k: int| 0 <= k < j ==> !day_token(trim(#[trigger] views(row@)[k])),
        decreases row.len() - j,
    {
        if is_day_token(str_trim(row[j].as_str())) {
            proof {
                assert(day_token(trim(views(row@)[j as int])));
            }
            return true;
        }
        j = j + 1;
    }
    false
}

fn find_header(grid: &Grid) -> (res: usize)
    ensures
        res == header_from(grid_view(*grid), 0),
        res < grid@.len() || res == 0,
{
    let ghost g = grid_view(*grid);
    let mut i: usize = 0;
    while i < grid.len()
        invariant
            i <= grid@.len(),
            g == grid_view(*grid),
            header_from(g, 0) == header_from(g, i as int),
        decreases grid.len() - i,
    {
        if row_has_day(&grid[i]) {
            return i;
        }
        i = i + 1;
    }
    0
}

fn find_anchor(row: &Vec<String>) -> (res: usize)
    ensures
        res == anchor_from(views(row@), 0),
        res < row@.len() || res == 0,
{
    proof {
        reveal_strlit("1日");
    }
    let ghost rv = views(row@);
    let mut j: usize = 0;
    while j < row.len()
        invariant
            j <= row@.len(),
            rv == views(row@),
            anchor_from(rv, 0) == anchor_from(rv, j as int),
        decreases row.len() - j,
    {
        let t = chars_of(str_trim(row[j].as_str()));
        if chars_equal_str(&t, "1日") {
            return j;
        }
        j = j + 1;
    }
    0
}

fn find_data_start(grid: &Grid, hdr_idx: usize) -> (res: usize)
    requires
        hdr_idx < grid@.len() || hdr_idx == 0,
        grid@.len() + 2 <= usize::MAX,
    ensures
        res == data_from(grid_view(*grid), hdr_idx + 1, hdr_idx + 2),
{
    let ghost g = grid_view(*grid);
    let mut r: usize = hdr_idx + 1;
    while r < grid.len()
        invariant
            hdr_idx + 1 <= r,
            hdr_idx + 2 <= usize::MAX,
            g == grid_view(*grid),
            data_from(g, hdr_idx + 1, hdr_idx + 2) == data_from(g, r as int, hdr_idx + 2),
        decreases grid.len() - r,
    {
        let id = if grid[r].len() > 0 {
            str_trim(grid[r][0].as_str())
        } else {
            proof {
                reveal_strlit("");
            }
            ""
        };
        proof {
            assert(id@ == trim(get_or_empty(g[r as int], 0)));
        }
        if !id.is_empty() {
            return r + 1;
        }
        r = r + 1;
    }
    hdr_idx + 2
}

fn first_filled_exec(row: &Vec<String>) -> (res: Option<String>)
    ensures
        match res {
            Some(s) => first_filled(views(row@), 0) == Some(s@),
            None => first_filled(views(row@), 0) is None,
        },
{
    let ghost rv = views(row@);
    let mut f: usize = 0;
    while f < row.len()
        invariant
            f <= row@.len(),
            rv == views(row@),
            first_filled(rv, 0) == first_filled(rv, f as int),
        decreases row.len() - f,
    {
        let t = str_trim(row[f].as_str());
        if !t.is_empty() {
            return Some(t.to_owned());
        }
        f = f + 1;
    }
    None
}

/// Infers the structure of a template: header row, anchor, day columns, first
/// data row, signature and header tokens.
pub fn learn_structure(grid: &Grid) -> (res: StructureDraft)
    requires
        grid@.len() + 2 <= usize::MAX,
    ensures
        draft_ok(grid_view(*grid), res),
{
    let ghost g = grid_view(*grid);
    proof {
        reveal_strlit("1日");
        reveal_strlit("日");
    }
    let hdr_idx = find_header(grid);
    let empty_row: Vec<String> = Vec::new();
    let hdr_row: &Vec<String> = if hdr_idx < grid.len() {
        &grid[hdr_idx]
    } else {
        &empty_row
    };
    let ghost row = draft_header(g);
    proof {
        assert(views(hdr_row@) =~= row);
    }
    let anchor_col = find_anchor(hdr_row);
    // The day columns: the run of day headers from the anchor.
    let mut day_cols: usize = 0;
    let mut k: usize = anchor_col;
    while k < hdr_row.len() && is_day_token(str_trim(hdr_row[k].as_str()))
        invariant
            anchor_col <= k <= hdr_row@.len() || (k == anchor_col && anchor_col == 0),
            row == views(hdr_row@),
            day_cols == k - anchor_col,
            run_from(row, anchor_col as int) == day_cols + run_from(row, k as int),
        decreases hdr_row.len() - k,
    {
        k = k + 1;
        day_cols = day_cols + 1;
    }
    proof {
        assert(run_from(row, k as int) == 0);
    }
    let data_start_row = find_data_start(grid, hdr_idx);
    let signature = compute(hdr_row.as_slice());
    let mut header_contains: Vec<String> = Vec::new();
    match first_filled_exec(hdr_row) {
        Some(t) => header_contains.push(t),
        None => {},
    }
    proof {
        assert(views(header_contains@) =~= match first_filled(row, 0) {
            Some(t) => seq![t],
            None => Seq::<Seq<char>>::empty(),
        });
    }
    let ghost first_part = views(header_contains@);
    header_contains.push("1日".to_owned());
    let ghost with_one = views(header_contains@);
    proof {
        assert(with_one =~= first_part + seq!["1日"@]);
    }
    if day_cols > 0 {
        let mut tok: Vec<char> = Vec::new();
        push_decimal(&mut tok, day_cols as u64);
        push_str_chars(&mut tok, "日");
        header_contains.push(string_of(tok.as_slice()));
        proof {
            assert(views(header_contains@) =~= with_one.push(nat_text(day_cols as nat) + "日"@));
        }
    }
    proof {
        assert(views(header_contains@) =~= contains_spec(row, day_cols as nat));
    }
    StructureDraft {
        header_row: hdr_idx + 1,
        anchor_col,
        anchor_value: "1日".to_owned(),
        day_cols,
        data_start_row,
        signature,
        header_contains,
    }
}

/// The missing-value tokens a drafted profile starts with.
pub open spec fn default_missing() -> Seq<Seq<char>> {
    seq![""@, "-"@, "#DIV/0!"@, "#N/A"@, "#VALUE!"@]
}

fn default_missing_values() -> (res: Vec<String>)
    ensures
        views(res@) == default_missing(),
{
    let mut v: Vec<String> = Vec::new();
    v.push("".to_owned());
    v.push("-".to_owned());
    v.push("#DIV/0!".to_owned());
    v.push("#N/A".to_owned());
    v.push("#VALUE!".to_owned());
    proof {
        assert(views(v@) =~= default_missing());
    }
    v
}

/// The value rules used when no sample is given: decimals with 4 places, the
/// usual spreadsheet error tokens as missing, zero allowed, range 0..=1,000,000.
pub fn default_value_rules() -> (res: ValueRules)
    ensures
        res.kind == ValueKind::Decimal,
        res.decimals == 4,
        views(res.missing_values@) == default_missing(),
        res.zero_is_valid,
        res.min == Some(DecimalValue { negative: false, magnitude: 0, scale: 0 }),
        res.max == Some(DecimalValue { negative: false, magnitude: 1_000_000, scale: 0 }),
        res.wf(),
{
    ValueRules {
        kind: ValueKind::Decimal,
        decimals: 4,
        missing_values: default_missing_values(),
        zero_is_valid: true,
        min: Some(DecimalValue { negative: false, magnitude: 0, scale: 0 }),
        max: Some(DecimalValue { negative: false, magnitude: 1_000_000, scale: 0 }),
    }
}

/// The encoding a drafted profile guesses: UTF-8 for CSV, Big5 for XLSX.
pub open spec fn learn_encoding_spec(format: Format) -> Seq<char> {
    match format {
        Format::Csv => "utf-8"@,
        Format::Xlsx => "big5"@,
    }
}

/// The file extension of a format.
pub open spec fn format_ext_spec(format: Format) -> Seq<char> {
    match format {
        Format::Csv => "csv"@,
        Format::Xlsx => "xlsx"@,
    }
}

pub fn default_learn_encoding(format: Format) -> (res: String)
    ensures
        res@ == learn_encoding_spec(format),
{
    match format {
        Format::Csv => "utf-8".to_owned(),
        Format::Xlsx => "big5".to_owned(),
    }
}

pub fn format_ext(format: Format) -> (res: &'static str)
    ensures
        res@ == format_ext_spec(format),
{
    match format {
        Format::Csv => "csv",
        Format::Xlsx => "xlsx",
    }
}

/// The text of the first cell of the header row, if the template has one.
pub open spec fn header_cell(g: Seq<Seq<Seq<char>>>, i: int, col: int) -> Option<Seq<char>> {
    if 0 <= i < g.len() && col < g[i].len() { Some(g[i][col]) } else { None }
}

pub open spec fn opt_string_view(o: Option<String>) -> Option<Seq<char>> {
    match o {
        Some(s) => Some(s@),
        None => None,
    }
}

fn cell_owned(grid: &Grid, row: usize, col: usize) -> (res: Option<String>)
    ensures
        opt_string_view(res) == header_cell(grid_view(*grid), row as int, col as int),
{
    if row < grid.len() && col < grid[row].len() {
        Some(grid[row][col].clone())
    } else {
        None
    }
}

/// What a profile drafted from template `g` is: a best guess of every field
/// from the template's structure (see `learn`).
pub open spec fn drafted(p: Profile, g: Seq<Seq<Seq<char>>>, value_rules: Option<ValueRules>, name: Seq<char>, format: Format) -> bool {
    let i = header_from(g, 0);
    let row = draft_header(g);
    let ac = anchor_from(row, 0);
    let dc = run_from(row, ac);
    &&& p.name@ == name
    &&& p.match_rules.filename matches Some(f) && f@ == "*."@ + format_ext_spec(format)
    &&& views(p.match_rules.header_contains@) == contains_spec(row, dc)
    &&& p.match_rules.header_signature matches Some(s) && s@ == signature_spec(row)
    &&& p.match_rules.priority == 0
    &&& p.encoding@ == learn_encoding_spec(format)
    &&& p.format == format
    &&& p.sheet == Some(1u32)
    &&& p.header_rows == 1
    &&& p.data_start_row == data_from(g, i + 1, i + 2)
    &&& p.skip_blank_id
    &&& !p.fill_merged
    &&& p.id_cols@.len() == 2
    &&& p.id_cols@[0].name@ == "caseid"@ && p.id_cols@[0].col == 1
    &&& opt_string_view(p.id_cols@[0].header) == header_cell(g, i, 0)
    &&& p.id_cols@[0].kind@ == "string"@
    &&& p.id_cols@[1].name@ == "plant_name"@ && p.id_cols@[1].col == 2
    &&& opt_string_view(p.id_cols@[1].header) == header_cell(g, i, 1)
    &&& p.id_cols@[1].kind@ == "string"@
    &&& p.unpivot.anchor@ == "1日"@
    &&& p.unpivot.anchor_match == AnchorMatch::Exact
    &&& p.unpivot.day_cols == dc
    &&& p.unpivot.validate_calendar_day
    &&& p.unpivot.var_name@ == "shift_hour"@
    &&& p.unpivot.value_name@ == "daily_kwh"@
    &&& p.unpivot.year_month_from@ == "filename:0..6"@
    &&& p.unpivot.anchor_col_observed == Some((ac + 1) as usize)
    &&& match value_rules {
        Some(v) => p.value_rules == v,
        None => p.value_rules.kind == ValueKind::Decimal && p.value_rules.decimals == 4
            && views(p.value_rules.missing_values@) == default_missing()
            && p.value_rules.zero_is_valid
            && p.value_rules.min == Some(DecimalValue { negative: false, magnitude: 0, scale: 0 })
            && p.value_rules.max == Some(DecimalValue { negative: false, magnitude: 1_000_000, scale: 0 }),
    }
}

/// Drafts a profile from a structure template. `value_rules` are the rules
/// learned from a sample, if one was given; otherwise the default rules are
/// used. The file pattern, encoding, id columns and year-month directive are
/// best guesses.
pub fn learn(structure_grid: &Grid, value_rules: Option<ValueRules>, name: &str, format: Format) -> (res: Profile)
    requires
        structure_grid@.len() + 2 <= usize::MAX,
    ensures
        drafted(res, grid_view(*structure_grid), value_rules, name@, format),
{
    let draft = learn_structure(structure_grid);
    let ghost g = grid_view(*structure_grid);
    let ghost i = header_from(g, 0);
    let ghost row = draft_header(g);
    let rules = match value_rules {
        Some(v) => v,
        None => default_value_rules(),
    };
    proof {
        lemma_header_from_bound(g, 0);
        assert(draft_ok(g, draft));
        assert(draft.header_row == i + 1);
    }
    let hdr = if draft.header_row >= 1 { draft.header_row - 1 } else { 0 };
    assert(hdr == i);
    let mut pattern = chars_of("*.");
    push_str_chars(&mut pattern, format_ext(format));
    let row_len: usize = if hdr < structure_grid.len() { structure_grid[hdr].len() } else { 0 };
    proof {
        let ac = anchor_from(row, 0);
        lemma_anchor_from_bound(row, 0);
        lemma_header_from_bound(g, 0);
        if 0 <= i < g.len() {
            assert(row == views(structure_grid@[i]@));
            assert(row.len() == structure_grid@[i]@.len());
            assert(structure_grid@[i]@.len() == row_len);
        } else {
            assert(row.len() == 0);
        }
        assert(ac < usize::MAX);
    }
    let mut id_cols: Vec<IdCol> = Vec::new();
    id_cols.push(IdCol {
        name: "caseid".to_owned(),
        col: 1,
        header: cell_owned(structure_grid, hdr, 0),
        kind: "string".to_owned(),
    });
    id_cols.push(IdCol {
        name: "plant_name".to_owned(),
        col: 2,
        header: cell_owned(structure_grid, hdr, 1),
        kind: "string".to_owned(),
    });
    let match_rules = MatchRules {
        filename: Some(string_of(pattern.as_slice())),
        header_contains: draft.header_contains,
        header_signature: Some(draft.signature),
        priority: 0,
    };
    let unpivot = Unpivot {
        anchor: draft.anchor_value,
        anchor_match: AnchorMatch::Exact,
        day_cols: draft.day_cols,
        validate_calendar_day: true,
        var_name: "shift_hour".to_owned(),
        value_name: "daily_kwh".to_owned(),
        year_month_from: "filename:0..6".to_owned(),
        anchor_col_observed: Some(draft.anchor_col + 1),
    };
    Profile {
        name: name.to_owned(),
        match_rules,
        encoding: default_learn_encoding(format),
        format,
        sheet: Some(1),
        header_rows: 1,
        data_start_row: draft.data_start_row,
        skip_blank_id: true,
        fill_merged: false,
        id_cols,
        unpivot,
        value_rules: rules,
    }
}

proof fn lemma_header_from_bound(g: Seq<Seq<Seq<char>>>, i: int)
    ensures
        0 <= header_from(g, i) < g.len() || header_from(g, i) == 0,
    decreases g.len() - i,
{
    if 0 <= i < g.len() && !has_day(g[i]) {
        lemma_header_from_bound(g, i + 1);
    }
}

proof fn lemma_anchor_from_bound(row: Seq<Seq<char>>, j: int)
    ensures
        anchor_from(row, j) < row.len() || anchor_from(row, j) == 0,
    decreases row.len() - j,
{
    if 0 <= j < row.len() && trim(row[j]) != "1日"@ {
        lemma_anchor_from_bound(row, j + 1);
    }
}

/// The trimmed, non-empty cells of columns `a .. a + n` of a row, left to right.
pub open spec fn row_values(r: Seq<Seq<char>>, a: int, n: nat) -> Seq<Seq<char>>
    decreases n,
{
    if n == 0 {
        Seq::empty()
    } else {
        let prev = row_values(r, a, (n - 1) as nat);
        let t = trim(get_or_empty(r, a + n - 1));
        if t.len() > 0 { prev.push(t) } else { prev }
    }
}

/// The value cells of rows `start .. end` whose first cell is filled.
pub open spec fn values_upto(g: Seq<Seq<Seq<char>>>, start: int, a: int, n: nat, end: int) -> Seq<Seq<char>>
    decreases end - start,
{
    if end <= start {
        Seq::empty()
    } else {
        let prev = values_upto(g, start, a, n, end - 1);
        let r = g[end - 1];
        if trim(get_or_empty(r, 0)).len() > 0 { prev + row_values(r, a, n) } else { prev }
    }
}

/// The cells a sample offers for learning value rules: in each row from the
/// draft's first data row on whose first cell is filled, the trimmed
/// non-empty cells of the day columns, row by row and left to right.
pub open spec fn value_cells_spec(g: Seq<Seq<Seq<char>>>, d: StructureDraft) -> Seq<Seq<char>> {
    let start = if d.data_start_row >= 1 { d.data_start_row - 1 } else { 0 };
    values_upto(g, start as int, d.anchor_col as int, d.day_cols as nat, g.len() as int)
}

/// Collects the cells of a sample that value rules are learned from.
pub fn value_cells(sample: &Grid, draft: &StructureDraft) -> (res: Vec<String>)
    requires
        draft.anchor_col + draft.day_cols <= usize::MAX,
    ensures
        views(res@) == value_cells_spec(grid_view(*sample), *draft),
{
    let ghost g = grid_view(*sample);
    let start: usize = if draft.data_start_row >= 1 { draft.data_start_row - 1 } else { 0 };
    let end_col = draft.anchor_col + draft.day_cols;
    let mut out: Vec<String> = Vec::new();
    let mut r: usize = start;
    proof {
        if start >= sample.len() {
            assert(values_upto(g, start as int, draft.anchor_col as int, draft.day_cols as nat, g.len() as int)
                == Seq::<Seq<char>>::empty());
        }
    }
    if r >= sample.len() {
        return out;
    }
    while r < sample.len()
        invariant
            start <= r <= sample.len(),
            g == grid_view(*sample),
            end_col == draft.anchor_col + draft.day_cols,
            views(out@) == values_upto(g, start as int, draft.anchor_col as int, draft.day_cols as nat, r as int),
        decreases sample.len() - r,
    {
        let row = &sample[r];
        let ghost rv = g[r as int];
        proof {
            assert(rv == views(row@));
        }
        let id = if row.len() > 0 { str_trim(row[0].as_str()) } else { "" };
        proof {
            assert(id@ == trim(get_or_empty(rv, 0))) by {
                if row.len() == 0 {
                    reveal_strlit("");
                    assert(trim(Seq::<char>::empty()) =~= Seq::<char>::empty());
                }
            }
        }
        if !id.is_empty() {
            let ghost before = views(out@);
            let mut c: usize = draft.anchor_col;
            while c < end_col
                invariant
                    draft.anchor_col <= c <= end_col,
                    end_col == draft.anchor_col + draft.day_cols,
                    rv == views(row@),
                    views(out@) == before + row_values(rv, draft.anchor_col as int, (c - draft.anchor_col) as nat),
                decreases end_col - c,
            {
                let t = if c < row.len() { str_trim(row[c].as_str()) } else { "" };
                proof {
                    if c >= row.len() {
                        reveal_strlit("");
                        assert(trim(Seq::<char>::empty()) =~= Seq::<char>::empty());
                    }
                    assert(t@ == trim(get_or_empty(rv, c as int)));
                }
                let ghost mid = views(out@);
                if !t.is_empty() {
                    out.push(t.to_owned());
                    proof {
                        assert(views(out@) =~= mid.push(t@));
                    }
                }
                proof {
                    let k = (c + 1 - draft.anchor_col) as nat;
                    let k1 = (c - draft.anchor_col) as nat;
                    assert(k == k1 + 1);
                    assert(mid == before + row_values(rv, draft.anchor_col as int, k1));
                    if t@.len() > 0 {
                        assert((before + row_values(rv, draft.anchor_col as int, k1)).push(t@)
                            =~= before + row_values(rv, draft.anchor_col as int, k1).push(t@));
                    }
                    assert(draft.anchor_col + k - 1 == c);
                    assert(row_values(rv, draft.anchor_col as int, k) == (if t@.len() > 0 {
                        row_values(rv, draft.anchor_col as int, (k - 1) as nat).push(t@)
                    } else {
                        row_values(rv, draft.anchor_col as int, (k - 1) as nat)
                    }));
                    assert(views(out@) =~= before + row_values(rv, draft.anchor_col as int, k));
                }
                c = c + 1;
            }
        }
        proof {
            assert(g[r as int] == rv);
            let a = draft.anchor_col as int;
            let n = draft.day_cols as nat;
            assert(values_upto(g, start as int, a, n, r + 1) == (if trim(get_or_empty(rv, 0)).len() > 0 {
                values_upto(g, start as int, a, n, r as int) + row_values(rv, a, n)
            } else {
                values_upto(g, start as int, a, n, r as int)
            }));
        }
        r = r + 1;
    }
    out
}

/// The decimal places of a number as written: the characters after its
/// first `.`, none without one.
pub open spec fn decimals_spec(raw: Seq<char>) -> u32 {
    match crate::text::first_occurrence(raw, "."@) {
        Some(i) => (raw.len() - i - 1) as u32,
        None => 0,
    }
}

/// The decimal places written in a number.
pub fn decimals_of(raw: &str) -> (res: u32)
    ensures
        res == decimals_spec(raw@),
{
    let cs = chars_of(raw);
    let dot = chars_of(".");
    match crate::text::find_chars(&cs, &dot) {
        Some(i) => {
            proof {
                assert(i + dot@.len() <= cs@.len());
                reveal_strlit(".");
            }
            (cs.len() - i - 1) as u32
        },
        None => 0,
    }
}

/// What a scan of a sample's value cells has learned: the most decimal places
/// written in a number, and the texts that are not numbers, in order and
/// without repeats.
#[derive(Debug)]
pub struct ValueScan {
    decimals: u32,
    unknown: Vec<String>,
}

impl ValueScan {
    /// The texts seen that are not numbers, ascending.
    pub closed spec fn unknown_tokens(&self) -> Seq<Seq<char>> {
        views(self.unknown@)
    }

    /// The most decimal places seen in a number.
    pub closed spec fn max_decimals(&self) -> u32 {
        self.decimals
    }

    pub closed spec fn wf(&self) -> bool {
        crate::order::strictly_sorted(views(self.unknown@))
    }

    pub fn decimals(&self) -> (res: u32)
        ensures
            res == self.max_decimals(),
    {
        self.decimals
    }

    pub fn new() -> (res: Self)
        ensures
            res.wf(),
            res.max_decimals() == 0,
            res.unknown_tokens() == Seq::<Seq<char>>::empty(),
    {
        let res = ValueScan { decimals: 0, unknown: Vec::new() };
        proof {
            assert(views(res.unknown@) =~= Seq::<Seq<char>>::empty());
        }
        res
    }

    /// Records a cell that reads as a number: keeps the most decimal places.
    pub fn record_number(&mut self, raw: &str)
        requires
            old(self).wf(),
        ensures
            final(self).wf(),
            final(self).max_decimals() == (if decimals_spec(raw@) > old(self).max_decimals() { decimals_spec(raw@) } else { old(self).max_decimals() }),
            final(self).unknown_tokens() == old(self).unknown_tokens(),
    {
        let d = decimals_of(raw);
        if d > self.decimals {
            self.decimals = d;
        }
    }

    /// Records a cell that does not read as a number.
    pub fn record_unknown(&mut self, raw: &str)
        requires
            old(self).wf(),
        ensures
            final(self).wf(),
            final(self).max_decimals() == old(self).max_decimals(),
            forall|y: Seq<char>| final(self).unknown_tokens().contains(y) <==> (old(self).unknown_tokens().contains(y) || y == raw@),
    {
        crate::order::insert_unique(&mut self.unknown, raw.to_owned());
    }

    /// The missing-value tokens of learned rules: the defaults, then the
    /// texts seen that are not numbers and not among the defaults, ascending.
    pub fn missing_values(&self) -> (res: Vec<String>)
        requires
            self.wf(),
        ensures
            views(res@) == default_missing() + self.unknown_tokens().filter(|t: Seq<char>| !default_missing().contains(t)),
            crate::order::strictly_sorted(self.unknown_tokens()),
    {
        let mut out = default_missing_values();
        let ghost u = views(self.unknown@);
        let ghost keep = |t: Seq<char>| !default_missing().contains(t);
        let mut i: usize = 0;
        while i < self.unknown.len()
            invariant
                i <= self.unknown@.len(),
                u == views(self.unknown@),
                keep == (|t: Seq<char>| !default_missing().contains(t)),
                views(out@) == default_missing() + u.subrange(0, i as int).filter(keep),
            decreases self.unknown.len() - i,
        {
            let tok = &self.unknown[i];
            let known = is_default_missing(tok.as_str());
            let ghost mid = views(out@);
            if !known {
                out.push(tok.clone());
                proof {
                    assert(cloned::<String>(self.unknown@[i as int], out@[out@.len() - 1]));
                }
            }
            proof {
                u.subrange(0, i as int).lemma_filter_push(u[i as int], keep);
                assert(u.subrange(0, i + 1) =~= u.subrange(0, i as int).push(u[i as int]));
                if !known {
                    assert(views(out@) =~= mid.push(u[i as int]));
                }
            }
            i = i + 1;
        }
        proof {
            assert(u.subrange(0, self.unknown@.len() as int) =~= u);
        }
        out
    }
}

/// Whether a text is one of the default missing-value tokens.
fn is_default_missing(t: &str) -> (res: bool)
    ensures
        res == default_missing().contains(t@),
{
    let cs = chars_of(t);
    let r = chars_equal_str(&cs, "") || chars_equal_str(&cs, "-") || chars_equal_str(&cs, "#DIV/0!")
        || chars_equal_str(&cs, "#N/A") || chars_equal_str(&cs, "#VALUE!");
    proof {
        let d = default_missing();
        if d.contains(t@) {
            let k = choose|k: int| 0 <= k < d.len() && d[k] == t@;
            assert(k == 0 || k == 1 || k == 2 || k == 3 || k == 4);
        }
        if r {
            if t@ == ""@ { assert(d[0] == t@); }
            else if t@ == "-"@ { assert(d[1] == t@); }
            else if t@ == "#DIV/0!"@ { assert(d[2] == t@); }
            else if t@ == "#N/A"@ { assert(d[3] == t@); }
            else { assert(d[4] == t@); }
        }
    }
    r
}

/// The name of a drafted profile: the one given, else the structure file's
/// stem, else `unnamed`.
pub open spec fn draft_name_spec(name: Option<Seq<char>>, structure: Seq<char>) -> Seq<char> {
    match name {
        Some(n) => n,
        None => match crate::path::file_stem(structure) {
            Some(s) => s,
            None => "unnamed"@,
        },
    }
}

/// Names a drafted profile.
pub fn draft_name(name: Option<String>, structure: &str) -> (res: String)
    ensures
        res@ == draft_name_spec(opt_string_view(name), structure@),
{
    match name {
        Some(n) => n,
        None => {
            let p = chars_of(structure);
            match crate::path::file_name_chars(&p) {
                Some(f) => string_of(crate::path::stem_of_name_chars(&f).as_slice()),
                None => "unnamed".to_owned(),
            }
        },
    }
}

proof fn lemma_day_token_text(m: nat)
    requires
        1 <= m <= u32::MAX,
    ensures
        day_token(nat_text(m) + "日"@),
{
    reveal_strlit("日");
    let t = nat_text(m) + "日"@;
    assert(t.subrange(t.len() - 1, t.len() as int) =~= "日"@);
    assert(t.subrange(0, t.len() - 1) =~= nat_text(m));
    crate::text::lemma_parse_nat_text(m, u32::MAX as nat);
}

proof fn lemma_one_day()
    ensures
        "1日"@ == nat_text(1) + "日"@,
{
    reveal_strlit("1日");
    reveal_strlit("日");
    assert(nat_text(1) == seq!['1']);
    assert("1日"@ =~= nat_text(1) + "日"@);
}

proof fn lemma_anchor_first(row: Seq<Seq<char>>, ac: int, j: int)
    requires
        0 <= j <= ac < row.len(),
        trim(row[ac]) == "1日"@,
        forall|k: int| 0 <= k < ac ==> trim(#[trigger] row[k]) != "1日"@,
    ensures
        anchor_from(row, j) == ac,
    decreases ac - j,
{
    if j < ac {
        lemma_anchor_first(row, ac, j + 1);
    }
}

proof fn lemma_run_of_days(row: Seq<Seq<char>>, ac: int, n: nat, k: nat)
    requires
        0 <= ac,
        k <= n <= u32::MAX,
        ac + n <= row.len(),
        forall|i: int| 0 <= i < n ==> trim(#[trigger] row[ac + i]) == nat_text((i + 1) as nat) + "日"@,
        ac + n == row.len() || !day_token(trim(row[ac + n])),
    ensures
        run_from(row, ac + k) == n - k,
    decreases n - k,
{
    if k < n {
        lemma_run_of_days(row, ac, n, k + 1);
        assert(trim(row[ac + k]) == nat_text((k + 1) as nat) + "日"@);
        lemma_day_token_text((k + 1) as nat);
    }
}

proof fn lemma_cell_in_header(row: Seq<Seq<char>>, j: int)
    requires
        0 <= j < row.len(),
    ensures
        crate::text::contains_seq(crate::text::join(row, "|"@), trim(row[j])),
{
    crate::text::lemma_part_in_join(row, "|"@, j);
    crate::text::lemma_trim_in(row[j]);
    crate::text::lemma_contains_transitive(crate::text::join(row, "|"@), row[j], trim(row[j]));
}

proof fn lemma_first_filled_in_header(row: Seq<Seq<char>>, j: int)
    requires
        0 <= j,
    ensures
        first_filled(row, j) matches Some(t) ==> crate::text::contains_seq(crate::text::join(row, "|"@), t),
    decreases row.len() - j,
{
    if j < row.len() {
        if blank(row[j]) {
            lemma_first_filled_in_header(row, j + 1);
        } else {
            lemma_cell_in_header(row, j);
        }
    }
}

/// A profile drafted from a template routes that template: given a first row
/// whose day headers run `1日`, `2日`, …, `n日` from its first `1日` cell and
/// then stop (at the row's end or a cell that is no day header), the drafted
/// profile matches any file of its format by name and that row by its
/// tokens, its signature is the row's, and a registry holding only it routes
/// the file to it.
pub proof fn law_draft_routes_its_template(
    p: Profile,
    g: Seq<Seq<Seq<char>>>,
    value_rules: Option<ValueRules>,
    name: Seq<char>,
    format: Format,
    filename: Seq<char>,
    ps: Seq<super::LoadedProfile>,
    ac: int,
    n: nat,
)
    requires
        drafted(p, g, value_rules, name, format),
        g.len() > 0,
        0 <= ac,
        1 <= n <= u32::MAX,
        ac + n <= g[0].len(),
        forall|k: int| 0 <= k < ac ==> trim(#[trigger] g[0][k]) != "1日"@,
        forall|i: int| 0 <= i < n ==> trim(#[trigger] g[0][ac + i]) == nat_text((i + 1) as nat) + "日"@,
        ac + n == g[0].len() || !day_token(trim(g[0][ac + n])),
        has_suffix(filename, "."@ + format_ext_spec(format)),
        ps.len() == 1,
        ps[0].profile == p,
    ensures
        super::match_rules::matches_spec(&p, filename, g[0]),
        super::signature_ok_spec(&p, g[0]),
        super::sole_best(ps, 0, filename, g[0]),
{
    let row = g[0];
    // The first row is the header row, `1日` its anchor and `n` its day count.
    assert(trim(g[0][ac + 0]) == nat_text((0 + 1) as nat) + "日"@);
    assert(ac + 0 == ac);
    assert(trim(row[ac]) == nat_text(1) + "日"@);
    lemma_one_day();
    lemma_day_token_text(1);
    assert(day_token(trim(row[ac])));
    assert(has_day(g[0]));
    assert(header_from(g, 0) == 0);
    assert(draft_header(g) == row);
    lemma_anchor_first(row, ac, 0);
    lemma_run_of_days(row, ac, n, 0);
    assert(run_from(row, ac) == n);
    // Every required token occurs in the header.
    let joined = crate::text::join(row, "|"@);
    let toks = contains_spec(row, n);
    lemma_first_filled_in_header(row, 0);
    lemma_cell_in_header(row, ac);
    lemma_cell_in_header(row, ac + n - 1);
    assert(trim(g[0][ac + (n - 1)]) == nat_text(((n - 1) + 1) as nat) + "日"@);
    assert(trim(row[ac + n - 1]) == nat_text(n) + "日"@);
    assert forall|k: int| 0 <= k < toks.len() implies crate::text::contains_seq(joined, #[trigger] toks[k]) by {
        let first = match first_filled(row, 0) {
            Some(t) => seq![t],
            None => Seq::<Seq<char>>::empty(),
        };
        assert(toks == first + seq!["1日"@] + seq![nat_text(n) + "日"@]);
        if k < first.len() {
            assert(toks[k] == first[k]);
        } else if k == first.len() {
            assert(toks[k] == "1日"@);
        } else {
            assert(toks[k] == nat_text(n) + "日"@);
        }
    }
    assert forall|k: int| 0 <= k < p.match_rules.header_contains@.len()
        implies crate::text::contains_seq(joined, #[trigger] p.match_rules.header_contains@[k]@) by {
        assert(views(p.match_rules.header_contains@)[k] == p.match_rules.header_contains@[k]@);
        assert(toks[k] == p.match_rules.header_contains@[k]@);
    }
    // The file name pattern `*.<ext>` matches the name.
    reveal_strlit("*.");
    reveal_strlit(".");
    reveal_strlit("csv");
    reveal_strlit("xlsx");
    let lit = "."@ + format_ext_spec(format);
    let pat = p.match_rules.filename->Some_0;
    assert(pat@ =~= seq!['*'] + lit);
    assert(crate::profile::glob::literal_from(lit, 0));
    crate::profile::glob::law_star_suffix(lit, filename);
    assert(super::match_rules::matches_spec(&p, filename, g[0]));
    assert(super::is_hit(ps, 0, filename, g[0]));
}

proof fn lemma_header_from_first(g: Seq<Seq<Seq<char>>>, i: int, j: int)
    requires
        0 <= j <= i < g.len(),
        has_day(g[i]),
        forall|k: int| 0 <= k < i ==> !has_day(#[trigger] g[k]),
    ensures
        header_from(g, j) == i,
    decreases i - j,
{
    if j < i {
        assert(!has_day(g[j]));
        lemma_header_from_first(g, i, j + 1);
    }
}

/// The drafted header row is the first row of the template that holds a day
/// header (`N日`, trimmed): if row `i` holds one at column `c` and no earlier
/// row holds any, the draft names row `i + 1` (1-indexed), reads its anchor,
/// day columns and signature from that row, and takes the first data row
/// after it. Rows above it (titles) play no part.
pub proof fn law_header_is_first_row_with_a_day(g: Seq<Seq<Seq<char>>>, d: StructureDraft, i: int, c: int)
    requires
        draft_ok(g, d),
        0 <= i < g.len(),
        0 <= c < g[i].len(),
        day_token(trim(g[i][c])),
        forall|k: int, m: int| 0 <= k < i && 0 <= m < g[k].len() ==> !day_token(trim(#[trigger] g[k][m])),
    ensures
        d.header_row == i + 1,
        d.anchor_col == anchor_from(g[i], 0),
        d.day_cols == run_from(g[i], anchor_from(g[i], 0)),
        d.signature@ == signature_spec(g[i]),
        d.data_start_row == data_from(g, i + 1, i + 2),
{
    assert(has_day(g[i]));
    assert forall|k: int| 0 <= k < i implies !has_day(#[trigger] g[k]) by {
        if has_day(g[k]) {
            let m = choose|m: int| 0 <= m < g[k].len() && day_token(trim(#[trigger] g[k][m]));
            assert(!day_token(trim(g[k][m])));
        }
    }
    lemma_header_from_first(g, i, 0);
}

} // verus!
