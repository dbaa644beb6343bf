//! A grid of cell texts, rows first.
use vstd::prelude::*;
use crate::text::{trim, views, chars_of, trim_bounds};
use vstd::string::StrSliceExecFns;

verus! {

pub type Grid = Vec<Vec<String>>;

/// The cell texts of a row.
pub open spec fn row_view(r: Vec<String>) -> Seq<Seq<char>> {
    views(r@)
}

/// The cell texts of a grid.
pub open spec fn grid_view(g: Grid) -> Seq<Seq<Seq<char>>> {
    g@.map_values(|r: Vec<String>| row_view(r))
}

/// The text at `(row, col)`, if the grid has such a cell.
pub open spec fn cell_at(g: Seq<Seq<Seq<char>>>, row: int, col: int) -> Option<Seq<char>> {
    if 0 <= row < g.len() && 0 <= col < g[row].len() {
        Some(g[row][col])
    } else {
        None
    }
}

/// The text of a cell of a row, or the empty text when the row is shorter.
pub open spec fn get_or_empty(r: Seq<Seq<char>>, col: int) -> Seq<char> {
    if 0 <= col < r.len() {
        r[col]
    } else {
        Seq::empty()
    }
}

/// The text without leading and trailing characters of the Unicode
/// `White_Space` property (`str::trim`), as a part of the same text.
pub fn str_trim(s: &str) -> (res: &str)
    ensures
        res@ == trim(s@),
{
    let cs = chars_of(s);
    let (lo, hi) = trim_bounds(&cs);
    s.substring_char(lo, hi)
}

/// The cell at `(row, col)`, if any.
pub fn cell<'a>(grid: &'a Grid, row: usize, col: usize) -> (res: Option<&'a str>)
    ensures
        res matches Some(s) ==> cell_at(grid_view(*grid), row as int, col as int) == Some(s@),
        res is None ==> cell_at(grid_view(*grid), row as int, col as int) is None,
{
    if row < grid.len() && col < grid[row].len() {
        Some(grid[row][col].as_str())
    } else {
        None
    }
}

/// The trimmed cell at `(row, col)`, or the empty text when there is none.
pub fn cell_trim<'a>(grid: &'a Grid, row: usize, col: usize) -> (res: &'a str)
    ensures
        res@ == match cell_at(grid_view(*grid), row as int, col as int) {
            Some(s) => trim(s),
            None => Seq::empty(),
        },
{
    match cell(grid, row, col) {
        Some(s) => str_trim(s),
        None => {
            proof {
                reveal_strlit("");
            }
            ""
        },
    }
}

} // verus!
