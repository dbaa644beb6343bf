//! Promotion of the first rows of a grid to a single header row.
use vstd::prelude::*;
use crate::grid::{Grid, grid_view, get_or_empty, str_trim};
use crate::text::{trim, join, views, chars_of, string_of, push_all};

verus! {

/// Whether a cell is blank after trimming.
pub open spec fn blank(s: Seq<char>) -> bool {
    trim(s).len() == 0
}

/// The value an empty cell at position `j` takes when filling forward: the
/// nearest non-blank cell to its left, or the empty text.
pub open spec fn ffill_val(r: Seq<Seq<char>>, j: int) -> Seq<char>
    decreases j,
{
    if j <= 0 {
        Seq::empty()
    } else if !blank(r[j - 1]) {
        r[j - 1]
    } else {
        ffill_val(r, j - 1)
    }
}

/// A row with each blank cell replaced by the nearest non-blank cell to its left.
pub open spec fn ffill(r: Seq<Seq<char>>) -> Seq<Seq<char>> {
    Seq::new(r.len(), |j: int| if blank(r[j]) { ffill_val(r, j) } else { r[j] })
}

/// Header row `i` before concatenation: the grid row (empty when the grid is
/// shorter), filled forward when `fill` is set.
pub open spec fn header_part(g: Seq<Seq<Seq<char>>>, i: int, fill: bool) -> Seq<Seq<char>> {
    let r = if i < g.len() { g[i] } else { Seq::empty() };
    if fill { ffill(r) } else { r }
}

/// The widest of the first `n` rows.
pub open spec fn max_width(g: Seq<Seq<Seq<char>>>, n: int) -> nat
    decreases n,
{
    if n <= 0 {
        0
    } else {
        let w = if n - 1 < g.len() { g[n - 1].len() } else { 0 };
        let m = max_width(g, n - 1);
        if w > m { w } else { m }
    }
}

/// The trimmed fragments of column `c` over the first `n` header rows.
pub open spec fn fragments(g: Seq<Seq<Seq<char>>>, n: int, fill: bool, c: int) -> Seq<Seq<char>> {
    Seq::new(n as nat, |i: int| trim(get_or_empty(header_part(g, i, fill), c)))
}

pub open spec fn non_empty(s: Seq<char>) -> bool {
    s.len() > 0
}

/// Column `c` of the promoted header: the non-empty fragments joined with `/`.
pub open spec fn header_column(g: Seq<Seq<Seq<char>>>, n: int, fill: bool, c: int) -> Seq<char> {
    join(fragments(g, n, fill, c).filter(|s: Seq<char>| non_empty(s)), "/"@)
}

/// The promoted header: nothing for no header rows (or an empty grid), the
/// first row itself for one header row, and otherwise one column per column
/// of the widest header row, each the `/`-join of the column's non-empty
/// trimmed fragments (blank cells filled forward first when `fill` is set).
pub open spec fn promote_spec(g: Seq<Seq<Seq<char>>>, n: nat, fill: bool) -> Seq<Seq<char>> {
    if g.len() == 0 || n == 0 {
        Seq::empty()
    } else if n == 1 {
        g[0]
    } else {
        Seq::new(max_width(g, n as int), |c: int| header_column(g, n as int, fill, c))
    }
}

/// Fills blank cells forward, from the nearest non-blank cell to the left.
fn ffill_row(row: &Vec<String>) -> (res: Vec<String>)
    ensures
        views(res@) == ffill(views(row@)),
{
    let ghost r = views(row@);
    let mut out: Vec<String> = Vec::new();
    let mut last = String::new();
    let mut j: usize = 0;
    while j < row.len()
        invariant
            j <= row.len(),
            r == views(row@),
            last@ == ffill_val(r, j as int),
            views(out@) =~= ffill(r).subrange(0, j as int),
        decreases row.len() - j,
    {
        let t = str_trim(row[j].as_str());
        let ghost before = out@;
        if t.is_empty() {
            out.push(last.clone());
        } else {
            out.push(row[j].clone());
            last = row[j].clone();
        }
        proof {
            assert(r[j as int] == row@[j as int]@);
            assert(views(out@) =~= views(before).push(ffill(r)[j as int]));
            assert(ffill(r).subrange(0, j + 1) =~= ffill(r).subrange(0, j as int).push(
                ffill(r)[j as int],
            ));
        }
        j = j + 1;
    }
    proof {
        assert(ffill(r).subrange(0, row.len() as int) =~= ffill(r));
    }
    out
}

/// Builds a single promoted header row from the first `header_rows` rows of
/// `grid`.
pub fn promote(grid: &Grid, header_rows: usize, fill_merged: bool) -> (res: Vec<String>)
    ensures
        views(res@) == promote_spec(grid_view(*grid), header_rows as nat, fill_merged),
{
    let ghost g = grid_view(*grid);
    if grid.len() == 0 || header_rows == 0 {
        return Vec::new();
    }
    if header_rows == 1 {
        let first = grid[0].clone();
        proof {
            assert(views(first@) =~= views(grid@[0]@)) by {
                assert forall|k: int| 0 <= k < first@.len() implies #[trigger] first@[k]@
                    == grid@[0]@[k]@ by {
                    assert(cloned::<String>(grid@[0]@[k], first@[k]));
                }
            }
        }
        return first;
    }
    // The header rows, filled forward when asked.
    let mut rows: Vec<Vec<String>> = Vec::new();
    let mut width: usize = 0;
    let mut i: usize = 0;
    while i < header_rows
        invariant
            i <= header_rows,
            g == grid_view(*grid),
            rows@.len() == i,
            forall|k: int| 0 <= k < i ==> views(#[trigger] rows@[k]@) == header_part(g, k, fill_merged),
            width == max_width(g, i as int),
        decreases header_rows - i,
    {
        let row: Vec<String> = if i < grid.len() {
            grid[i].clone()
        } else {
            Vec::new()
        };
        proof {
            if i < grid.len() {
                assert(views(row@) =~= g[i as int]) by {
                    assert forall|k: int| 0 <= k < row@.len() implies #[trigger] row@[k]@
                        == grid@[i as int]@[k]@ by {
                        assert(cloned::<String>(grid@[i as int]@[k], row@[k]));
                    }
                }
            } else {
                assert(views(row@) =~= Seq::<Seq<char>>::empty());
            }
        }
        let part = if fill_merged { ffill_row(&row) } else { row };
        proof {
            assert(part@.len() == views(part@).len());
            let r = if i < g.len() { g[i as int] } else { Seq::empty() };
            assert(ffill(r).len() == r.len());
            assert(header_part(g, i as int, fill_merged).len() == r.len());
        }
        if part.len() > width {
            width = part.len();
        }
        rows.push(part);
        i = i + 1;
    }
    let mut out: Vec<String> = Vec::new();
    let mut c: usize = 0;
    while c < width
        invariant
            c <= width,
            g == grid_view(*grid),
            header_rows > 1,
            rows@.len() == header_rows,
            forall|k: int| 0 <= k < header_rows ==> views(#[trigger] rows@[k]@) == header_part(g, k, fill_merged),
            width == max_width(g, header_rows as int),
            views(out@) =~= Seq::new(c as nat, |cc: int| header_column(g, header_rows as int, fill_merged, cc)),
        decreases width - c,
    {
        let col = join_column(&rows, c, Ghost(g), fill_merged);
        let s = string_of(col.as_slice());
        let ghost before = out@;
        out.push(s);
        proof {
            assert(views(out@) =~= views(before).push(s@));
        }
        c = c + 1;
    }
    proof {
        let ps = promote_spec(g, header_rows as nat, fill_merged);
        assert(views(out@) =~= ps);
    }
    out
}

/// Column `c`: the non-empty trimmed fragments of the header rows joined with `/`.
fn join_column(rows: &Vec<Vec<String>>, c: usize, Ghost(g): Ghost<Seq<Seq<Seq<char>>>>, fill: bool) -> (res: Vec<char>)
    requires
        forall|k: int| 0 <= k < rows@.len() ==> views(#[trigger] rows@[k]@) == header_part(g, k, fill),
    ensures
        res@ == header_column(g, rows@.len() as int, fill, c as int),
{
    let n = rows.len();
    let ghost fr = fragments(g, n as int, fill, c as int);
    let mut out: Vec<char> = Vec::new();
    let mut any = false;
    let mut i: usize = 0;
    while i < n
        invariant
            i <= n,
            n == rows@.len(),
            fr == fragments(g, n as int, fill, c as int),
            forall|k: int| 0 <= k < rows@.len() ==> views(#[trigger] rows@[k]@) == header_part(g, k, fill),
            out@ == join(fr.subrange(0, i as int).filter(|s: Seq<char>| non_empty(s)), "/"@),
            any == (fr.subrange(0, i as int).filter(|s: Seq<char>| non_empty(s)).len() > 0),
        decreases n - i,
    {
        let ghost prev = fr.subrange(0, i as int).filter(|s: Seq<char>| non_empty(s));
        let frag: &str = if c < rows[i].len() {
            str_trim(rows[i][c].as_str())
        } else {
            proof {
                reveal_strlit("");
            }
            ""
        };
        proof {
            assert(views(rows@[i as int]@) == header_part(g, i as int, fill));
            assert(frag@ == fr[i as int]) by {
                if c < rows@[i as int]@.len() {
                    assert(views(rows@[i as int]@)[c as int] == rows@[i as int]@[c as int]@);
                } else {
                    assert(trim(Seq::<char>::empty()) =~= Seq::<char>::empty());
                }
            }
            assert(fr.subrange(0, i + 1) =~= fr.subrange(0, i as int).push(fr[i as int]));
            fr.subrange(0, i as int).lemma_filter_push(fr[i as int], |s: Seq<char>| non_empty(s));
        }
        if !frag.is_empty() {
            if any {
                out.push('/');
            }
            let fc = chars_of(frag);
            push_all(&mut out, &fc);
            proof {
                reveal_strlit("/");
                let next = prev.push(fr[i as int]);
                assert(next.drop_last() =~= prev);
                if any {
                    assert(prev.len() >= 1);
                    assert(join(next, "/"@) == join(prev, "/"@) + "/"@ + fr[i as int]);
                    assert(out@ =~= join(prev, "/"@) + "/"@ + fr[i as int]);
                } else {
                    assert(prev.len() == 0);
                    assert(out@ =~= join(next, "/"@));
                }
            }
            any = true;
        }
        i = i + 1;
    }
    proof {
        assert(fr.subrange(0, n as int) =~= fr);
    }
    out
}

proof fn lemma_ffill_val_nearest(r: Seq<Seq<char>>, j: int, k: int)
    requires
        0 <= k < j <= r.len(),
        !blank(r[k]),
        forall|m: int| k < m < j ==> blank(#[trigger] r[m]),
    ensures
        ffill_val(r, j) == r[k],
    decreases j - k,
{
    if j - 1 > k {
        assert(blank(r[j - 1]));
        lemma_ffill_val_nearest(r, j - 1, k);
    }
}

proof fn lemma_ffill_val_none(r: Seq<Seq<char>>, j: int)
    requires
        0 <= j <= r.len(),
        forall|m: int| 0 <= m < j ==> blank(#[trigger] r[m]),
    ensures
        ffill_val(r, j) == Seq::<char>::empty(),
    decreases j,
{
    if j > 0 {
        assert(blank(r[j - 1]));
        lemma_ffill_val_none(r, j - 1);
    }
}

/// Filling a merged header row forward: a blank cell takes the nearest
/// non-blank cell to its left, however many blank cells lie between; a blank
/// cell with no non-blank cell to its left becomes empty; every other cell
/// and the row's length stay as they are. This is what each header row
/// becomes before concatenation when `fill_merged` is set.
pub proof fn law_fill_takes_nearest_filled_cell(g: Seq<Seq<Seq<char>>>, i: int, j: int, k: int)
    requires
        0 <= i < g.len(),
        0 <= j < g[i].len(),
    ensures
        header_part(g, i, true).len() == g[i].len(),
        !blank(g[i][j]) ==> header_part(g, i, true)[j] == g[i][j],
        (0 <= k < j && !blank(g[i][k]) && forall|m: int| k < m <= j ==> blank(#[trigger] g[i][m]))
            ==> header_part(g, i, true)[j] == g[i][k],
        (forall|m: int| 0 <= m <= j ==> blank(#[trigger] g[i][m])) ==> header_part(g, i, true)[j] == Seq::<char>::empty(),
{
    let r = g[i];
    if 0 <= k < j && !blank(r[k]) && forall|m: int| k < m <= j ==> blank(#[trigger] r[m]) {
        assert(blank(r[j]));
        lemma_ffill_val_nearest(r, j, k);
    }
    if forall|m: int| 0 <= m <= j ==> blank(#[trigger] r[m]) {
        assert(blank(r[j]));
        lemma_ffill_val_none(r, j);
    }
}

} // verus!
