//! Whole-grid reshaping: padding, transposing, rotating, reversing,
//! aligning and framing.
use vstd::prelude::*;

use crate::ast::{table_view, Call, Expr, Grid};
use crate::grid::coords::{
    point_call_error, point_call_spec, point_expr_error, point_expr_spec, resolve_point_call,
    resolve_point_expr,
};
use crate::grid::line::{set_cell, set_grid_cell};
use crate::num::{parse_usize, parse_usize_spec};
use crate::table::{clone_row, lemma_strs_push, lemma_table_push};
use crate::text::{concat2, str_is, str_is2, strs_view};
use crate::util::{arg_string, arg_text_error, expr_text, expr_to_string};

verus! {

// ---------------------------------------------------------------------------
// Width and padding
// ---------------------------------------------------------------------------

/// The length of the longest row (zero for no rows).
pub open spec fn row_width(t: Seq<Seq<Seq<char>>>) -> nat
    decreases t.len(),
{
    if t.len() == 0 {
        0
    } else {
        let w = row_width(t.drop_last());
        if t.last().len() > w {
            t.last().len()
        } else {
            w
        }
    }
}

/// Every row is at most as long as the widest, and some row reaches it.
pub proof fn lemma_row_width(t: Seq<Seq<Seq<char>>>)
    ensures
        forall|y: int| 0 <= y < t.len() ==> #[trigger] t[y].len() <= row_width(t),
        t.len() > 0 ==> exists|y: int| 0 <= y < t.len() && #[trigger] t[y].len() == row_width(t),
        t.len() == 0 ==> row_width(t) == 0,
    decreases t.len(),
{
    if t.len() > 0 {
        let s = t.drop_last();
        lemma_row_width(s);
        assert forall|y: int| 0 <= y < t.len() implies #[trigger] t[y].len() <= row_width(t) by {
            if y < s.len() {
                assert(s[y] == t[y]);
            }
        }
        if t.last().len() > row_width(s) {
            assert(t[t.len() - 1].len() == row_width(t));
        } else if s.len() > 0 {
            let y = choose|y: int| 0 <= y < s.len() && #[trigger] s[y].len() == row_width(s);
            assert(t[y].len() == row_width(t));
        } else {
            assert(t[0].len() == row_width(t));
        }
    }
}

/// The length of the longest row.
pub fn grid_width(cells: &Vec<Vec<String>>) -> (w: usize)
    ensures
        w == row_width(table_view(cells@)),
{
    let ghost t = table_view(cells@);
    let mut w: usize = 0;
    let mut i: usize = 0;
    while i < cells.len()
        invariant
            i <= cells.len(),
            t == table_view(cells@),
            w == row_width(t.take(i as int)),
        decreases cells.len() - i,
    {
        assert(t.take(i + 1).drop_last() =~= t.take(i as int));
        assert(t[i as int].len() == cells@[i as int].len());
        if cells[i].len() > w {
            w = cells[i].len();
        }
        i += 1;
    }
    assert(t.take(cells.len() as int) =~= t);
    w
}

/// `n` copies of `p`.
pub open spec fn repeat(p: Seq<char>, n: nat) -> Seq<Seq<char>> {
    Seq::new(n, |k: int| p)
}

/// Every row filled with `p` up to the widest row's length.
pub open spec fn pad_rows(t: Seq<Seq<Seq<char>>>, p: Seq<char>) -> Seq<Seq<Seq<char>>> {
    Seq::new(t.len(), |y: int| t[y] + repeat(p, (row_width(t) - t[y].len()) as nat))
}

/// Appends `n` copies of `p` to `row`.
fn push_copies(row: &mut Vec<String>, p: &String, n: usize)
    ensures
        strs_view(final(row)@) == strs_view(old(row)@) + repeat(p@, n as nat),
{
    let ghost start = strs_view(row@);
    let mut k: usize = 0;
    while k < n
        invariant
            k <= n,
            strs_view(row@) == start + repeat(p@, k as nat),
        decreases n - k,
    {
        let c = p.clone();
        proof {
            lemma_strs_push(row@, c);
        }
        row.push(c);
        k += 1;
        assert(strs_view(row@) =~= start + repeat(p@, k as nat));
    }
}

/// The rows filled with `p` up to the widest row's length.
pub fn padded_cells(cells: &Vec<Vec<String>>, p: &String) -> (out: Vec<Vec<String>>)
    ensures
        table_view(out@) == pad_rows(table_view(cells@), p@),
{
    let ghost t = table_view(cells@);
    let w = grid_width(cells);
    proof {
        lemma_row_width(t);
    }
    let mut out: Vec<Vec<String>> = Vec::new();
    let mut i: usize = 0;
    while i < cells.len()
        invariant
            i <= cells.len(),
            t == table_view(cells@),
            w == row_width(t),
            forall|y: int| 0 <= y < t.len() ==> #[trigger] t[y].len() <= row_width(t),
            table_view(out@) == pad_rows(t, p@).take(i as int),
        decreases cells.len() - i,
    {
        let mut row = clone_row(&cells[i]);
        assert(strs_view(row@) == t[i as int]);
        assert(t[i as int].len() <= w);
        push_copies(&mut row, p, w - cells[i].len());
        proof {
            lemma_table_push(out@, row);
            assert(pad_rows(t, p@).take(i + 1) =~= pad_rows(t, p@).take(i as int).push(
                pad_rows(t, p@)[i as int],
            ));
        }
        out.push(row);
        i += 1;
    }
    assert(pad_rows(t, p@).take(cells.len() as int) =~= pad_rows(t, p@));
    out
}

/// Fills every row of the grid with `pad_value` up to the widest row.
pub fn pad_grid_rows(grid: &mut Grid, pad_value: &String)
    ensures
        table_view(final(grid).cells@) == pad_rows(table_view(old(grid).cells@), pad_value@),
        final(grid).cfg == old(grid).cfg,
{
    let cells = padded_cells(&grid.cells, pad_value);
    grid.cells = cells;
}

// ---------------------------------------------------------------------------
// Transposing and rotating
// ---------------------------------------------------------------------------

/// The cell at row `y`, column `x`, or empty text outside the rows.
pub open spec fn cell_at(t: Seq<Seq<Seq<char>>>, y: int, x: int) -> Seq<char> {
    if 0 <= y < t.len() && 0 <= x < t[y].len() {
        t[y][x]
    } else {
        seq![]
    }
}

/// How cells move: transposed, or turned right, left or half way round.
#[derive(Debug, Clone, Copy, PartialEq, Eq, Structural)]
pub enum Turn {
    Transpose,
    Right,
    Left,
    Half,
}

/// The number of rows after the move (the grid is `h` high, `w` wide).
pub open spec fn turned_rows(m: Turn, h: int, w: int) -> int {
    match m {
        Turn::Half => h,
        _ => w,
    }
}

/// The number of columns after the move.
pub open spec fn turned_cols(m: Turn, h: int, w: int) -> int {
    match m {
        Turn::Half => w,
        _ => h,
    }
}

/// The source row of output cell `(i, j)`.
pub open spec fn source_row(m: Turn, h: int, w: int, i: int, j: int) -> int {
    match m {
        Turn::Transpose => j,
        Turn::Right => h - 1 - j,
        Turn::Left => j,
        Turn::Half => h - 1 - i,
    }
}

/// The source column of output cell `(i, j)`.
pub open spec fn source_col(m: Turn, h: int, w: int, i: int, j: int) -> int {
    match m {
        Turn::Transpose => i,
        Turn::Right => i,
        Turn::Left => w - 1 - i,
        Turn::Half => w - 1 - j,
    }
}

/// The grid moved by `m`, with missing cells read as empty text: the
/// width is that of the widest row.
pub open spec fn turned(t: Seq<Seq<Seq<char>>>, m: Turn) -> Seq<Seq<Seq<char>>> {
    let h = t.len() as int;
    let w = row_width(t) as int;
    Seq::new(
        turned_rows(m, h, w) as nat,
        |i: int|
            Seq::new(
                turned_cols(m, h, w) as nat,
                |j: int| cell_at(t, source_row(m, h, w, i, j), source_col(m, h, w, i, j)),
            ),
    )
}

/// The cell at row `y`, column `x`, or empty text.
fn cell_or_empty(cells: &Vec<Vec<String>>, y: usize, x: usize) -> (out: String)
    requires
        y < cells.len(),
    ensures
        out@ == cell_at(table_view(cells@), y as int, x as int),
{
    if x < cells[y].len() {
        assert(strs_view(cells@[y as int]@)[x as int] == cells@[y as int]@[x as int]@);
        cells[y][x].clone()
    } else {
        String::new()
    }
}

/// Moves the cells by `m`.
pub fn turn_cells(cells: &Vec<Vec<String>>, m: Turn) -> (out: Vec<Vec<String>>)
    ensures
        table_view(out@) == turned(table_view(cells@), m),
{
    let ghost t = table_view(cells@);
    let h = cells.len();
    let w = grid_width(cells);
    let ghost target = turned(t, m);
    let rows = match m {
        Turn::Half => h,
        _ => w,
    };
    let cols = match m {
        Turn::Half => w,
        _ => h,
    };
    let mut out: Vec<Vec<String>> = Vec::new();
    let mut i: usize = 0;
    while i < rows
        invariant
            i <= rows,
            t == table_view(cells@),
            h == t.len(),
            w == row_width(t),
            rows == turned_rows(m, h as int, w as int),
            cols == turned_cols(m, h as int, w as int),
            target == turned(t, m),
            table_view(out@) == target.take(i as int),
        decreases rows - i,
    {
        let mut row: Vec<String> = Vec::new();
        let mut j: usize = 0;
        while j < cols
            invariant
                i < rows,
                j <= cols,
                t == table_view(cells@),
                h == t.len(),
                w == row_width(t),
                rows == turned_rows(m, h as int, w as int),
                cols == turned_cols(m, h as int, w as int),
                target == turned(t, m),
                strs_view(row@) == target[i as int].take(j as int),
            decreases cols - j,
        {
            let (y, x) = match m {
                Turn::Transpose => (j, i),
                Turn::Right => (h - 1 - j, i),
                Turn::Left => (j, w - 1 - i),
                Turn::Half => (h - 1 - i, w - 1 - j),
            };
            let c = cell_or_empty(cells, y, x);
            proof {
                lemma_strs_push(row@, c);
                assert(target[i as int].take(j + 1) =~= target[i as int].take(j as int).push(
                    target[i as int][j as int],
                ));
            }
            row.push(c);
            j += 1;
        }
        proof {
            assert(target[i as int].take(cols as int) =~= target[i as int]);
            lemma_table_push(out@, row);
            assert(target.take(i + 1) =~= target.take(i as int).push(target[i as int]));
        }
        out.push(row);
        i += 1;
    }
    assert(target.take(rows as int) =~= target);
    out
}

// ---------------------------------------------------------------------------
// Reversing
// ---------------------------------------------------------------------------

/// Each row reversed.
pub open spec fn mirror_rows(t: Seq<Seq<Seq<char>>>) -> Seq<Seq<Seq<char>>> {
    t.map_values(|row: Seq<Seq<char>>| row.reverse())
}

/// A reversed copy of a row.
fn reversed_row(row: &Vec<String>) -> (out: Vec<String>)
    ensures
        strs_view(out@) == strs_view(row@).reverse(),
{
    let ghost r = strs_view(row@);
    let mut out: Vec<String> = Vec::new();
    let mut k: usize = row.len();
    while k > 0
        invariant
            k <= row.len(),
            r == strs_view(row@),
            strs_view(out@) == r.reverse().take(row.len() - k),
        decreases k,
    {
        let c = row[k - 1].clone();
        proof {
            lemma_strs_push(out@, c);
            assert(r.reverse().take(row.len() - k + 1) =~= r.reverse().take(row.len() - k).push(
                r[k - 1],
            ));
        }
        out.push(c);
        k -= 1;
    }
    assert(r.reverse().take(row.len() as int) =~= r.reverse());
    out
}

/// Each row reversed.
pub fn mirrored_cells(cells: &Vec<Vec<String>>) -> (out: Vec<Vec<String>>)
    ensures
        table_view(out@) == mirror_rows(table_view(cells@)),
{
    let ghost t = table_view(cells@);
    let mut out: Vec<Vec<String>> = Vec::new();
    let mut i: usize = 0;
    while i < cells.len()
        invariant
            i <= cells.len(),
            t == table_view(cells@),
            table_view(out@) == mirror_rows(t).take(i as int),
        decreases cells.len() - i,
    {
        let row = reversed_row(&cells[i]);
        proof {
            lemma_table_push(out@, row);
            assert(mirror_rows(t).take(i + 1) =~= mirror_rows(t).take(i as int).push(
                mirror_rows(t)[i as int],
            ));
        }
        out.push(row);
        i += 1;
    }
    assert(mirror_rows(t).take(cells.len() as int) =~= mirror_rows(t));
    out
}

/// The rows in reverse order.
pub fn flipped_cells(cells: Vec<Vec<String>>) -> (out: Vec<Vec<String>>)
    ensures
        table_view(out@) == table_view(cells@).reverse(),
{
    let ghost t = table_view(cells@);
    let mut src = cells;
    let mut out: Vec<Vec<String>> = Vec::new();
    while src.len() > 0
        invariant
            src.len() <= t.len(),
            table_view(src@) == t.take(src.len() as int),
            table_view(out@) == t.reverse().take(t.len() - src.len()),
        decreases src.len(),
    {
        let ghost n = src.len();
        let ghost before = src@;
        let row = src.pop().unwrap();
        proof {
            assert(row == before[n - 1]);
            assert(table_view(before)[n - 1] == t.take(n as int)[n - 1]);
            assert(table_view(src@) =~= t.take(n - 1));
            assert(strs_view(row@) == t[n - 1]);
            lemma_table_push(out@, row);
            assert(t.reverse().take(t.len() - n + 1) =~= t.reverse().take(t.len() - n).push(
                t[n - 1],
            ));
        }
        out.push(row);
    }
    assert(t.reverse().take(t.len() as int) =~= t.reverse());
    out
}

// ---------------------------------------------------------------------------
// Aligning
// ---------------------------------------------------------------------------

/// Where short rows go.
#[derive(Debug, Clone, Copy, PartialEq, Eq, Structural)]
pub enum AlignMode {
    Left,
    Center,
    Right,
}

/// The mode a name selects: `left` / `l`, `center` / `c`, `right` / `r`.
pub open spec fn align_mode_of(m: Seq<char>) -> Option<AlignMode> {
    if m == "left"@ || m == "l"@ {
        Some(AlignMode::Left)
    } else if m == "center"@ || m == "c"@ {
        Some(AlignMode::Center)
    } else if m == "right"@ || m == "r"@ {
        Some(AlignMode::Right)
    } else {
        None
    }
}

/// A row filled with `p` up to `w` cells: after it (left), around it with
/// the odd one after (center), or before it (right).
pub open spec fn align_row(row: Seq<Seq<char>>, w: nat, mode: AlignMode, p: Seq<char>) -> Seq<
    Seq<char>,
> {
    let m = if row.len() < w {
        (w - row.len()) as nat
    } else {
        0
    };
    match mode {
        AlignMode::Left => row + repeat(p, m),
        AlignMode::Center => repeat(p, m / 2) + row + repeat(p, (m - m / 2) as nat),
        AlignMode::Right => repeat(p, m) + row,
    }
}

/// Rows `lo..hi` (0-based) aligned to the widest row of the whole grid.
pub open spec fn aligned(
    t: Seq<Seq<Seq<char>>>,
    mode: AlignMode,
    lo: int,
    hi: int,
    p: Seq<char>,
) -> Seq<Seq<Seq<char>>> {
    Seq::new(
        t.len(),
        |y: int|
            if lo <= y < hi {
                align_row(t[y], row_width(t), mode, p)
            } else {
                t[y]
            },
    )
}

/// Some row in `lo..hi` is shorter than the widest row.
pub open spec fn has_short_row(t: Seq<Seq<Seq<char>>>, lo: int, hi: int) -> bool {
    exists|y: int| lo <= y < hi && 0 <= y < t.len() && #[trigger] t[y].len() < row_width(t)
}

/// Aligns rows `lo..hi` (see [`aligned`]).
pub fn aligned_cells(
    cells: &Vec<Vec<String>>,
    mode: AlignMode,
    lo: usize,
    hi: usize,
    p: &String,
) -> (out: Vec<Vec<String>>)
    ensures
        table_view(out@) == aligned(table_view(cells@), mode, lo as int, hi as int, p@),
{
    let ghost t = table_view(cells@);
    let ghost target = aligned(t, mode, lo as int, hi as int, p@);
    let w = grid_width(cells);
    let mut out: Vec<Vec<String>> = Vec::new();
    let mut i: usize = 0;
    while i < cells.len()
        invariant
            i <= cells.len(),
            t == table_view(cells@),
            w == row_width(t),
            target == aligned(t, mode, lo as int, hi as int, p@),
            table_view(out@) == target.take(i as int),
        decreases cells.len() - i,
    {
        assert(strs_view(cells@[i as int]@) == t[i as int]);
        let row = if lo <= i && i < hi {
            let n = cells[i].len();
            let m = if n < w {
                w - n
            } else {
                0
            };
            let mut r: Vec<String> = Vec::new();
            match mode {
                AlignMode::Left => {
                    r = clone_row(&cells[i]);
                    push_copies(&mut r, p, m);
                },
                AlignMode::Center => {
                    push_copies(&mut r, p, m / 2);
                    let mut k: usize = 0;
                    let ghost start = strs_view(r@);
                    while k < n
                        invariant
                            k <= n == cells@[i as int].len(),
                            i < cells.len(),
                            strs_view(r@) == start + strs_view(cells@[i as int]@).take(k as int),
                        decreases n - k,
                    {
                        let c = cells[i][k].clone();
                        proof {
                            lemma_strs_push(r@, c);
                            assert(strs_view(cells@[i as int]@).take(k + 1) =~= strs_view(
                                cells@[i as int]@,
                            ).take(k as int).push(c@));
                        }
                        r.push(c);
                        k += 1;
                    }
                    assert(strs_view(cells@[i as int]@).take(n as int) =~= strs_view(
                        cells@[i as int]@,
                    ));
                    push_copies(&mut r, p, m - m / 2);
                },
                AlignMode::Right => {
                    push_copies(&mut r, p, m);
                    let mut k: usize = 0;
                    let ghost start = strs_view(r@);
                    while k < n
                        invariant
                            k <= n == cells@[i as int].len(),
                            i < cells.len(),
                            strs_view(r@) == start + strs_view(cells@[i as int]@).take(k as int),
                        decreases n - k,
                    {
                        let c = cells[i][k].clone();
                        proof {
                            lemma_strs_push(r@, c);
                            assert(strs_view(cells@[i as int]@).take(k + 1) =~= strs_view(
                                cells@[i as int]@,
                            ).take(k as int).push(c@));
                        }
                        r.push(c);
                        k += 1;
                    }
                    assert(strs_view(cells@[i as int]@).take(n as int) =~= strs_view(
                        cells@[i as int]@,
                    ));
                },
            }
            assert(strs_view(r@) =~= align_row(t[i as int], w as nat, mode, p@));
            r
        } else {
            clone_row(&cells[i])
        };
        proof {
            lemma_table_push(out@, row);
            assert(target.take(i + 1) =~= target.take(i as int).push(target[i as int]));
        }
        out.push(row);
        i += 1;
    }
    assert(target.take(cells.len() as int) =~= target);
    out
}

/// Whether some row in `lo..hi` is shorter than the widest row.
pub fn any_short_row(cells: &Vec<Vec<String>>, lo: usize, hi: usize) -> (r: bool)
    ensures
        r == has_short_row(table_view(cells@), lo as int, hi as int),
{
    let ghost t = table_view(cells@);
    let w = grid_width(cells);
    let mut i: usize = 0;
    while i < cells.len()
        invariant
            i <= cells.len(),
            t == table_view(cells@),
            w == row_width(t),
            forall|y: int| lo <= y < hi && 0 <= y < i ==> #[trigger] t[y].len() >= row_width(t),
        decreases cells.len() - i,
    {
        assert(t[i as int].len() == cells@[i as int].len());
        if lo <= i && i < hi && cells[i].len() < w {
            return true;
        }
        i += 1;
    }
    false
}

// ---------------------------------------------------------------------------
// Framing
// ---------------------------------------------------------------------------

/// `n` copies of a row.
pub open spec fn repeat_row(row: Seq<Seq<char>>, n: nat) -> Seq<Seq<Seq<char>>> {
    Seq::new(n, |k: int| row)
}

/// The grid filled to a rectangle with `p`, then framed by `left` and
/// `right` cells of `p` on each row and `top` and `bottom` rows of `p`.
pub open spec fn framed(
    t: Seq<Seq<Seq<char>>>,
    top: nat,
    bottom: nat,
    left: nat,
    right: nat,
    p: Seq<char>,
) -> Seq<Seq<Seq<char>>> {
    let u = pad_rows(t, p);
    let border = repeat(p, left + row_width(t) + right);
    repeat_row(border, top) + Seq::new(u.len(), |y: int| repeat(p, left) + u[y] + repeat(p, right))
        + repeat_row(border, bottom)
}

/// Frames the grid (see [`framed`]).
pub fn framed_cells(
    cells: &Vec<Vec<String>>,
    top: usize,
    bottom: usize,
    left: usize,
    right: usize,
    p: &String,
) -> (out: Vec<Vec<String>>)
    ensures
        table_view(out@) == framed(
            table_view(cells@),
            top as nat,
            bottom as nat,
            left as nat,
            right as nat,
            p@,
        ),
{
    let ghost t = table_view(cells@);
    let u = padded_cells(cells, p);
    let ghost uv = table_view(u@);
    let w = grid_width(cells);
    let mut border: Vec<String> = Vec::new();
    push_copies(&mut border, p, left);
    push_copies(&mut border, p, w);
    push_copies(&mut border, p, right);
    let ghost bv = repeat(p@, (left + row_width(t) + right) as nat);
    assert(strs_view(border@) =~= bv);
    let ghost mid = Seq::new(uv.len(), |y: int| repeat(p@, left as nat) + uv[y] + repeat(p@, right as nat));
    let mut out: Vec<Vec<String>> = Vec::new();
    let mut k: usize = 0;
    while k < top
        invariant
            k <= top,
            strs_view(border@) == bv,
            table_view(out@) == repeat_row(bv, k as nat),
        decreases top - k,
    {
        let b = clone_row(&border);
        proof {
            lemma_table_push(out@, b);
        }
        out.push(b);
        k += 1;
        assert(table_view(out@) =~= repeat_row(bv, k as nat));
    }
    let mut y: usize = 0;
    while y < u.len()
        invariant
            y <= u.len(),
            uv == table_view(u@),
            mid == Seq::new(uv.len(), |y: int| repeat(p@, left as nat) + uv[y] + repeat(p@, right as nat)),
            table_view(out@) == repeat_row(bv, top as nat) + mid.take(y as int),
        decreases u.len() - y,
    {
        let mut row: Vec<String> = Vec::new();
        push_copies(&mut row, p, left);
        let mut x: usize = 0;
        let ghost start = strs_view(row@);
        while x < u[y].len()
            invariant
                y < u.len(),
                x <= u@[y as int].len(),
                strs_view(row@) == start + strs_view(u@[y as int]@).take(x as int),
            decreases u@[y as int].len() - x,
        {
            let c = u[y][x].clone();
            proof {
                lemma_strs_push(row@, c);
                assert(strs_view(u@[y as int]@).take(x + 1) =~= strs_view(u@[y as int]@).take(
                    x as int,
                ).push(c@));
            }
            row.push(c);
            x += 1;
        }
        assert(strs_view(u@[y as int]@).take(u@[y as int].len() as int) =~= strs_view(
            u@[y as int]@,
        ));
        push_copies(&mut row, p, right);
        proof {
            assert(strs_view(row@) =~= mid[y as int]);
            lemma_table_push(out@, row);
            assert(mid.take(y + 1) =~= mid.take(y as int).push(mid[y as int]));
        }
        out.push(row);
        y += 1;
    }
    assert(mid.take(u.len() as int) =~= mid);
    let ghost upper = table_view(out@);
    let mut k: usize = 0;
    while k < bottom
        invariant
            k <= bottom,
            strs_view(border@) == bv,
            table_view(out@) == upper + repeat_row(bv, k as nat),
        decreases bottom - k,
    {
        let b = clone_row(&border);
        proof {
            lemma_table_push(out@, b);
        }
        out.push(b);
        k += 1;
        assert(table_view(out@) =~= upper + repeat_row(bv, k as nat));
    }
    out
}

// ---------------------------------------------------------------------------
// Arguments
// ---------------------------------------------------------------------------

/// The value of a `pad(value)` argument.
pub open spec fn pad_arg(e: Expr) -> Option<Seq<char>> {
    match e {
        Expr::Call(c) => if c.name@ == "pad"@ && c.args.len() == 1 {
            expr_text(c.args@[0])
        } else {
            None
        },
        _ => None,
    }
}

/// The message of an optional argument of `opname` that is not
/// `pad(value)`.
pub open spec fn pad_arg_error(e: Expr, opname: Seq<char>) -> Seq<char> {
    match e {
        Expr::Call(c) => if c.name@ == "pad"@ {
            if c.args.len() != 1 {
                "pad expects exactly one value"@
            } else {
                "nested call cannot be converted to string here"@
            }
        } else {
            opname + " optional arg must be pad(...)"@
        },
        _ => opname + " optional arg must be pad(...)"@,
    }
}

/// The message of a `pad` argument that is not a non-negative integer.
pub open spec fn nonneg_error(name: Seq<char>) -> Seq<char> {
    "expected non-negative integer arg for "@ + name
}

/// Reads an optional `pad(value)` argument of `opname`.
pub fn parse_optional_pad_call(arg: &Expr, opname: &str) -> (r: Result<String, String>)
    ensures
        match r {
            Ok(s) => pad_arg(*arg) == Some(s@),
            Err(m) => pad_arg(*arg) is None && m@ == pad_arg_error(*arg, opname@),
        },
{
    match arg {
        Expr::Call(c) => {
            if str_is(c.name.as_str(), "pad") {
                if c.args.len() != 1 {
                    return Err(String::from_str("pad expects exactly one value"));
                }
                return expr_to_string(&c.args[0]);
            }
        },
        _ => {},
    }
    Err(concat2(opname, " optional arg must be pad(...)"))
}

/// A non-negative integer argument: a number, or a text that parses as one.
pub open spec fn nonneg_of(e: Expr) -> Option<usize> {
    match e {
        Expr::Num(n) => if n >= 0 {
            Some(n as usize)
        } else {
            None
        },
        Expr::Str(s) => parse_usize_spec(s@),
        Expr::Ident(s) => parse_usize_spec(s@),
        Expr::Call(_) => None,
    }
}

/// Reads a non-negative integer argument of the call `name`.
pub fn parse_nonnegative_usize_expr(expr: &Expr, name: &str) -> (r: Result<usize, String>)
    ensures
        match r {
            Ok(n) => nonneg_of(*expr) == Some(n),
            Err(m) => nonneg_of(*expr) is None && m@ == nonneg_error(name@),
        },
{
    let bad = concat2("expected non-negative integer arg for ", name);
    match expr {
        Expr::Num(n) => {
            if *n >= 0 {
                return Ok(*n as usize);
            }
        },
        Expr::Str(s) => {
            return match parse_usize(s.as_str()) {
                Ok(v) => Ok(v),
                Err(_) => Err(bad),
            };
        },
        Expr::Ident(s) => {
            return match parse_usize(s.as_str()) {
                Ok(v) => Ok(v),
                Err(_) => Err(bad),
            };
        },
        Expr::Call(_) => {},
    }
    Err(bad)
}

/// The margins and fill value of `pad`: `(n)`, `(n, value)` with a
/// non-number value, `(top, bottom, left, right)` or `(top, bottom, left,
/// right, value)`; the value defaults to a space.
pub open spec fn pad_args_spec(c: Call) -> Option<(usize, usize, usize, usize, Seq<char>)> {
    let a = c.args@;
    if a.len() == 1 {
        match nonneg_of(a[0]) {
            Some(n) => Some((n, n, n, n, seq![' '])),
            None => None,
        }
    } else if a.len() == 4 {
        match (nonneg_of(a[0]), nonneg_of(a[1]), nonneg_of(a[2]), nonneg_of(a[3])) {
            (Some(t), Some(b), Some(l), Some(r)) => Some((t, b, l, r, seq![' '])),
            _ => None,
        }
    } else if a.len() == 2 && !(a[1] is Num) {
        match (nonneg_of(a[0]), expr_text(a[1])) {
            (Some(n), Some(v)) => Some((n, n, n, n, v)),
            _ => None,
        }
    } else if a.len() == 5 {
        match (nonneg_of(a[0]), nonneg_of(a[1]), nonneg_of(a[2]), nonneg_of(a[3]), expr_text(a[4])) {
            (Some(t), Some(b), Some(l), Some(r), Some(v)) => Some((t, b, l, r, v)),
            _ => None,
        }
    } else {
        None
    }
}

/// The message of `pad` arguments that do not read (see
/// [`pad_args_spec`]).
pub open spec fn pad_args_error(c: Call) -> Seq<char> {
    let a = c.args@;
    if a.len() == 1 {
        nonneg_error(c.name@)
    } else if a.len() == 4 || a.len() == 5 {
        if nonneg_of(a[0]) is None || nonneg_of(a[1]) is None || nonneg_of(a[2]) is None
            || nonneg_of(a[3]) is None {
            nonneg_error(c.name@)
        } else {
            "nested call cannot be converted to string here"@
        }
    } else if a.len() == 2 && !(a[1] is Num) {
        if nonneg_of(a[0]) is None {
            nonneg_error(c.name@)
        } else {
            "nested call cannot be converted to string here"@
        }
    } else {
        "pad expects (n, value?) or (top, bottom, left, right, value?)"@
    }
}

/// Reads the arguments of `pad` (see [`pad_args_spec`]).
pub fn parse_grid_pad_args(call: &Call) -> (r: Result<(usize, usize, usize, usize, String), String>)
    ensures
        match r {
            Ok((t, b, l, rt, v)) => pad_args_spec(*call) == Some((t, b, l, rt, v@)),
            Err(m) => pad_args_spec(*call) is None && m@ == pad_args_error(*call),
        },
{
    proof {
        reveal_strlit(" ");
        assert(" "@ =~= seq![' ']);
    }
    let name = call.name.as_str();
    let n = call.args.len();
    if n == 1 {
        let v = match parse_nonnegative_usize_expr(&call.args[0], name) {
            Ok(v) => v,
            Err(e) => return Err(e),
        };
        return Ok((v, v, v, v, String::from_str(" ")));
    }
    if n == 4 || n == 5 {
        let t = match parse_nonnegative_usize_expr(&call.args[0], name) {
            Ok(v) => v,
            Err(e) => return Err(e),
        };
        let b = match parse_nonnegative_usize_expr(&call.args[1], name) {
            Ok(v) => v,
            Err(e) => return Err(e),
        };
        let l = match parse_nonnegative_usize_expr(&call.args[2], name) {
            Ok(v) => v,
            Err(e) => return Err(e),
        };
        let r = match parse_nonnegative_usize_expr(&call.args[3], name) {
            Ok(v) => v,
            Err(e) => return Err(e),
        };
        let value = if n == 5 {
            match expr_to_string(&call.args[4]) {
                Ok(v) => v,
                Err(e) => return Err(e),
            }
        } else {
            String::from_str(" ")
        };
        return Ok((t, b, l, r, value));
    }
    if n == 2 {
        let not_num = match &call.args[1] {
            Expr::Num(_) => false,
            _ => true,
        };
        if not_num {
            let v = match parse_nonnegative_usize_expr(&call.args[0], name) {
                Ok(v) => v,
                Err(e) => return Err(e),
            };
            let value = match expr_to_string(&call.args[1]) {
                Ok(s) => s,
                Err(e) => return Err(e),
            };
            return Ok((v, v, v, v, value));
        }
    }
    Err(String::from_str("pad expects (n, value?) or (top, bottom, left, right, value?)"))
}

/// The rows an `align` call selects, 1-based and inclusive: `rows(n)` is
/// row `n` to the last, `rows(a, b)` and `rows("a:b")` rows `a` to `b`.
pub open spec fn rows_call_spec(rc: Call, h: nat) -> Option<(int, int)> {
    if rc.args.len() == 1 {
        match rc.args@[0] {
            Expr::Num(n) => Some((n as int, h as int)),
            Expr::Str(s) => range_text(s@, h),
            Expr::Ident(s) => range_text(s@, h),
            Expr::Call(_) => None,
        }
    } else if rc.args.len() == 2 {
        match (whole_of(rc.args@[0]), whole_of(rc.args@[1])) {
            (Some(a), Some(b)) => Some((a, b)),
            _ => None,
        }
    } else {
        None
    }
}

/// A whole-number argument.
pub open spec fn whole_of(e: Expr) -> Option<int> {
    match e {
        Expr::Num(n) => Some(n as int),
        Expr::Str(s) => match parse_usize_spec(s@) {
            Some(v) => Some(v as int),
            None => None,
        },
        Expr::Ident(s) => match parse_usize_spec(s@) {
            Some(v) => Some(v as int),
            None => None,
        },
        Expr::Call(_) => None,
    }
}

/// Index of the first `:` in `s`, or -1.
pub open spec fn colon_at(s: Seq<char>, i: int) -> int
    decreases s.len() - i,
{
    if i < 0 || i >= s.len() {
        -1
    } else if s[i] == ':' {
        i
    } else {
        colon_at(s, i + 1)
    }
}

/// `"a:b"`, or `"n"` for row `n` to the last.
pub open spec fn range_text(s: Seq<char>, h: nat) -> Option<(int, int)> {
    let k = colon_at(s, 0);
    if k >= 0 {
        match (parse_usize_spec(s.take(k)), parse_usize_spec(s.skip(k + 1))) {
            (Some(a), Some(b)) => Some((a as int, b as int)),
            _ => None,
        }
    } else {
        match parse_usize_spec(s) {
            Some(n) => Some((n as int, h as int)),
            None => None,
        }
    }
}

/// Reads `align`'s optional arguments from index `i` on: at most one
/// `pad(value)` and one `rows(..)`.
pub open spec fn align_scan(
    c: Call,
    h: nat,
    i: int,
    pad: Option<Seq<char>>,
    rows: Option<(int, int)>,
) -> Option<(Option<Seq<char>>, Option<(int, int)>)>
    decreases c.args.len() - i,
{
    if i < 0 || i >= c.args.len() {
        Some((pad, rows))
    } else {
        match c.args@[i] {
            Expr::Call(rc) => if rc.name@ == "pad"@ {
                if pad is Some || rc.args.len() != 1 {
                    None
                } else {
                    match expr_text(rc.args@[0]) {
                        Some(p) => align_scan(c, h, i + 1, Some(p), rows),
                        None => None,
                    }
                }
            } else if rc.name@ == "rows"@ {
                if rows is Some {
                    None
                } else {
                    match rows_call_spec(rc, h) {
                        Some(r) => align_scan(c, h, i + 1, pad, Some(r)),
                        None => None,
                    }
                }
            } else {
                None
            },
            _ => None,
        }
    }
}

/// The message of the first optional `align` argument from `i` on that
/// does not read (see [`align_scan`]).
pub open spec fn align_scan_error(
    c: Call,
    h: nat,
    i: int,
    pad: Option<Seq<char>>,
    rows: Option<(int, int)>,
) -> Seq<char>
    decreases c.args.len() - i,
{
    let bad = "align optional arg must be rows(...) or pad(...)"@;
    if i < 0 || i >= c.args.len() {
        bad
    } else {
        match c.args@[i] {
            Expr::Call(rc) => if rc.name@ == "pad"@ {
                if pad is Some {
                    "pad can only be given once"@
                } else if rc.args.len() != 1 {
                    "pad expects exactly one value"@
                } else {
                    match expr_text(rc.args@[0]) {
                        Some(p) => align_scan_error(c, h, i + 1, Some(p), rows),
                        None => "nested call cannot be converted to string here"@,
                    }
                }
            } else if rc.name@ == "rows"@ {
                if rows is Some {
                    "rows can only be given once"@
                } else {
                    match rows_call_spec(rc, h) {
                        Some(r) => align_scan_error(c, h, i + 1, pad, Some(r)),
                        None => "rows expects (n), (start, end), or \"start:end\""@,
                    }
                }
            } else {
                bad
            },
            _ => bad,
        }
    }
}

/// The integer view of an optional row range.
pub open spec fn range_view(r: Option<(i128, i128)>) -> Option<(int, int)> {
    match r {
        Some((a, b)) => Some((a as int, b as int)),
        None => None,
    }
}

/// A whole number read from an argument (see [`whole_of`]).
fn whole_arg(e: &Expr) -> (r: Option<i128>)
    ensures
        match r {
            Some(v) => whole_of(*e) == Some(v as int),
            None => whole_of(*e) is None,
        },
{
    match e {
        Expr::Num(n) => Some(*n as i128),
        Expr::Str(s) => match parse_usize(s.as_str()) {
            Ok(v) => Some(v as i128),
            Err(_) => None,
        },
        Expr::Ident(s) => match parse_usize(s.as_str()) {
            Ok(v) => Some(v as i128),
            Err(_) => None,
        },
        Expr::Call(_) => None,
    }
}

/// Reads `"a:b"` or `"n"` (see [`range_text`]).
fn range_arg(s: &String, h: usize) -> (r: Option<(i128, i128)>)
    ensures
        match r {
            Some((a, b)) => range_text(s@, h as nat) == Some((a as int, b as int)),
            None => range_text(s@, h as nat) is None,
        },
{
    let v = crate::text::chars_of(s.as_str());
    let mut k: usize = 0;
    while k < v.len() && v[k] != ':'
        invariant
            k <= v.len(),
            v@ == s@,
            colon_at(s@, 0) == colon_at(s@, k as int),
        decreases v.len() - k,
    {
        k += 1;
    }
    if k < v.len() {
        let first = crate::text::string_of_range(&v, 0, k);
        let second = crate::text::string_of_range(&v, k + 1, v.len());
        assert(first@ =~= s@.take(k as int));
        assert(second@ =~= s@.skip(k + 1));
        match (parse_usize(first.as_str()), parse_usize(second.as_str())) {
            (Ok(a), Ok(b)) => Some((a as i128, b as i128)),
            _ => None,
        }
    } else {
        match parse_usize(s.as_str()) {
            Ok(n) => Some((n as i128, h as i128)),
            Err(_) => None,
        }
    }
}

/// Reads a `rows(..)` call (see [`rows_call_spec`]).
fn rows_arg(rc: &Call, h: usize) -> (r: Option<(i128, i128)>)
    ensures
        match r {
            Some((a, b)) => rows_call_spec(*rc, h as nat) == Some((a as int, b as int)),
            None => rows_call_spec(*rc, h as nat) is None,
        },
{
    if rc.args.len() == 1 {
        match &rc.args[0] {
            Expr::Num(n) => Some((*n as i128, h as i128)),
            Expr::Str(s) => range_arg(s, h),
            Expr::Ident(s) => range_arg(s, h),
            Expr::Call(_) => None,
        }
    } else if rc.args.len() == 2 {
        match (whole_arg(&rc.args[0]), whole_arg(&rc.args[1])) {
            (Some(a), Some(b)) => Some((a, b)),
            _ => None,
        }
    } else {
        None
    }
}

// ---------------------------------------------------------------------------
// Calls
// ---------------------------------------------------------------------------

/// The grid with the optional `pad(..)` at `idx` applied first.
pub open spec fn with_pad(t: Seq<Seq<Seq<char>>>, c: Call, idx: int) -> Option<Seq<Seq<Seq<char>>>> {
    if idx < c.args.len() {
        match pad_arg(c.args@[idx]) {
            Some(p) => Some(pad_rows(t, p)),
            None => None,
        }
    } else {
        Some(t)
    }
}

/// `transpose(pad(..)?)`.
pub open spec fn transpose_spec(t: Seq<Seq<Seq<char>>>, c: Call) -> Option<Seq<Seq<Seq<char>>>> {
    if c.args.len() > 1 {
        None
    } else {
        match with_pad(t, c, 0) {
            Some(u) => Some(turned(u, Turn::Transpose)),
            None => None,
        }
    }
}

/// The turn a `rotate` direction names: `r` / `right`, `l` / `left`, `180`.
pub open spec fn rotate_turn(d: Seq<char>) -> Option<Turn> {
    if d == "r"@ || d == "right"@ {
        Some(Turn::Right)
    } else if d == "l"@ || d == "left"@ {
        Some(Turn::Left)
    } else if d == "180"@ {
        Some(Turn::Half)
    } else {
        None
    }
}

/// `rotate(dir, pad(..)?)`.
pub open spec fn rotate_spec(t: Seq<Seq<Seq<char>>>, c: Call) -> Option<Seq<Seq<Seq<char>>>> {
    if c.args.len() == 0 || c.args.len() > 2 {
        None
    } else {
        match (expr_text(c.args@[0]), with_pad(t, c, 1)) {
            (Some(d), Some(u)) => match rotate_turn(d) {
                Some(m) => Some(turned(u, m)),
                None => None,
            },
            _ => None,
        }
    }
}

/// `rev(mode, pad(..)?)`: `h` / `horizontal` reverses each row, `v` /
/// `vertical` the row order, `hv` / `vh` / `180` both.
pub open spec fn reverse_spec(t: Seq<Seq<Seq<char>>>, c: Call) -> Option<Seq<Seq<Seq<char>>>> {
    if c.args.len() == 0 || c.args.len() > 2 {
        None
    } else {
        match (expr_text(c.args@[0]), with_pad(t, c, 1)) {
            (Some(m), Some(u)) => if m == "h"@ || m == "horizontal"@ {
                Some(mirror_rows(u))
            } else if m == "v"@ || m == "vertical"@ {
                Some(u.reverse())
            } else if m == "hv"@ || m == "vh"@ || m == "180"@ {
                Some(mirror_rows(u).reverse())
            } else {
                None
            },
            _ => None,
        }
    }
}

/// `align(mode, rows(..)?, pad(..)?)`: the selected rows (all by default)
/// aligned to the widest row, filled with the pad value (a space by
/// default). An unknown mode fails only when a selected row is short.
pub open spec fn align_spec(t: Seq<Seq<Seq<char>>>, c: Call) -> Option<Seq<Seq<Seq<char>>>> {
    if c.args.len() == 0 || c.args.len() > 3 {
        None
    } else {
        match (expr_text(c.args@[0]), align_scan(c, t.len(), 1, None, None)) {
            (Some(m), Some((pad, rows))) => {
                let p = match pad {
                    Some(p) => p,
                    None => seq![' '],
                };
                let (a, b) = match rows {
                    Some(r) => r,
                    None => (1, t.len() as int),
                };
                if rows is Some && !(1 <= a <= b <= t.len()) {
                    None
                } else {
                    match align_mode_of(m) {
                        Some(md) => Some(aligned(t, md, a - 1, b, p)),
                        None => if has_short_row(t, a - 1, b) {
                            None
                        } else {
                            Some(t)
                        },
                    }
                }
            },
            _ => None,
        }
    }
}

/// An `align` call whose arguments read well but whose `rows(..)` range
/// does not lie within the grid's `h` rows.
pub open spec fn align_rows_outside(c: Call, h: nat) -> bool {
    &&& 1 <= c.args.len() <= 3
    &&& expr_text(c.args@[0]) is Some
    &&& align_scan(c, h, 1, None, None) matches Some((pad, rows))
    &&& rows matches Some((a, b))
    &&& !(1 <= a <= b <= h)
}

/// The message of an `align` call that does not apply: bad arguments, a
/// row range outside the grid, or an unknown mode with a short row.
pub open spec fn align_error(t: Seq<Seq<Seq<char>>>, c: Call) -> Seq<char> {
    if c.args.len() == 0 || c.args.len() > 3 {
        "align expects 1 to 3 args: mode, optional rows(...), optional pad(...)"@
    } else if expr_text(c.args@[0]) is None {
        "nested call cannot be converted to string here"@
    } else if align_scan(c, t.len(), 1, None, None) is None {
        align_scan_error(c, t.len(), 1, None, None)
    } else if align_rows_outside(c, t.len()) {
        "align rows out of range"@
    } else {
        "align mode must be left, center, right, l, c, or r"@
    }
}

/// `pad(..)`: the grid framed (see [`framed`]); no rows stay no rows.
pub open spec fn pad_spec(t: Seq<Seq<Seq<char>>>, c: Call) -> Option<Seq<Seq<Seq<char>>>> {
    match pad_args_spec(c) {
        Some((top, bottom, left, right, p)) => if t.len() == 0 {
            Some(t)
        } else {
            Some(framed(t, top as nat, bottom as nat, left as nat, right as nat, p))
        },
        None => None,
    }
}

/// The cell `get` reads: `(x, y)` or `(origin_call)`.
pub open spec fn get_point(t: Seq<Seq<Seq<char>>>, c: Call) -> Option<(usize, usize)> {
    if c.args.len() == 1 {
        point_expr_spec(t, c.args@[0])
    } else if c.args.len() == 2 {
        point_call_spec(t, c)
    } else {
        None
    }
}

/// `get`: a one-cell grid holding the cell.
pub open spec fn get_spec(t: Seq<Seq<Seq<char>>>, c: Call) -> Option<Seq<Seq<Seq<char>>>> {
    match get_point(t, c) {
        Some(p) => Some(seq![seq![t[p.1 as int][p.0 as int]]]),
        None => None,
    }
}

/// `set`: `(x, y, value)` or `(origin_call, value)`.
pub open spec fn set_spec(t: Seq<Seq<Seq<char>>>, c: Call) -> Option<Seq<Seq<Seq<char>>>> {
    if c.args.len() == 2 {
        match (point_expr_spec(t, c.args@[0]), expr_text(c.args@[1])) {
            (Some(p), Some(v)) => Some(set_cell(t, p, v)),
            _ => None,
        }
    } else if c.args.len() == 3 {
        match (point_call_spec(t, c), expr_text(c.args@[2])) {
            (Some(p), Some(v)) => Some(set_cell(t, p, v)),
            _ => None,
        }
    } else {
        None
    }
}

/// A grid call's result: the new cells under the same separators, or the
/// message `err` when there are none.
pub open spec fn grid_result(
    grid: Grid,
    r: Result<Grid, String>,
    spec: Option<Seq<Seq<Seq<char>>>>,
    err: Seq<char>,
) -> bool {
    match r {
        Ok(g) => spec == Some(table_view(g.cells@)) && g.cfg == grid.cfg,
        Err(m) => spec is None && m@ == err,
    }
}

/// The message of `transpose` arguments that do not read.
pub open spec fn transpose_error(c: Call) -> Seq<char> {
    if c.args.len() > 1 {
        "transpose expects 0 or 1 args: optional pad(...)"@
    } else {
        pad_arg_error(c.args@[0], "transpose"@)
    }
}

/// The message of `rotate` arguments that do not read.
pub open spec fn rotate_error(c: Call) -> Seq<char> {
    if c.args.len() == 0 || c.args.len() > 2 {
        "rotate expects 1 or 2 args: direction, optional pad(...)"@
    } else if expr_text(c.args@[0]) is None {
        arg_text_error(c, 0)
    } else if c.args.len() == 2 && pad_arg(c.args@[1]) is None {
        pad_arg_error(c.args@[1], "rotate"@)
    } else {
        "rotate direction must be r, l, or 180"@
    }
}

/// The message of `rev` arguments that do not read.
pub open spec fn reverse_error(c: Call) -> Seq<char> {
    if c.args.len() == 0 || c.args.len() > 2 {
        "rev expects 1 or 2 args: mode, optional pad(...)"@
    } else if expr_text(c.args@[0]) is None {
        "nested call cannot be converted to string here"@
    } else if c.args.len() == 2 && pad_arg(c.args@[1]) is None {
        pad_arg_error(c.args@[1], "rev"@)
    } else {
        "rev mode must be h, v, hv, or 180"@
    }
}

/// The message of `get` arguments that name no cell.
pub open spec fn get_error(t: Seq<Seq<Seq<char>>>, c: Call) -> Seq<char> {
    if c.args.len() == 1 {
        point_expr_error(t, c.args@[0])
    } else if c.args.len() == 2 {
        point_call_error(t, c)
    } else {
        "get expects either (x, y) or (pick(...))"@
    }
}

/// The message of `set` arguments that do not read.
pub open spec fn set_error(t: Seq<Seq<Seq<char>>>, c: Call) -> Seq<char> {
    if c.args.len() == 2 {
        if point_expr_spec(t, c.args@[0]) is None {
            point_expr_error(t, c.args@[0])
        } else {
            "nested call cannot be converted to string here"@
        }
    } else if c.args.len() == 3 {
        if point_call_spec(t, c) is None {
            point_call_error(t, c)
        } else {
            "nested call cannot be converted to string here"@
        }
    } else {
        "set expects either (x, y, value) or (pick(...), value)"@
    }
}

/// Applies the optional `pad(..)` at `idx`.
fn pad_option(grid: Grid, call: &Call, idx: usize, opname: &str) -> (r: Result<Grid, String>)
    ensures
        grid_result(
            grid,
            r,
            with_pad(table_view(grid.cells@), *call, idx as int),
            pad_arg_error(call.args@[idx as int], opname@),
        ),
{
    if idx < call.args.len() {
        let p = match parse_optional_pad_call(&call.args[idx], opname) {
            Ok(p) => p,
            Err(e) => return Err(e),
        };
        let mut g = grid;
        pad_grid_rows(&mut g, &p);
        Ok(g)
    } else {
        Ok(grid)
    }
}

/// `transpose`: rows become columns; missing cells become empty.
pub fn grid_transpose(grid: Grid, call: &Call) -> (r: Result<Grid, String>)
    ensures
        grid_result(grid, r, transpose_spec(table_view(grid.cells@), *call), transpose_error(*call)),
{
    if call.args.len() > 1 {
        return Err(String::from_str("transpose expects 0 or 1 args: optional pad(...)"));
    }
    let g = match pad_option(grid, call, 0, "transpose") {
        Ok(g) => g,
        Err(e) => return Err(e),
    };
    let cells = turn_cells(&g.cells, Turn::Transpose);
    Ok(Grid { cells, cfg: g.cfg })
}

/// `rotate`: a quarter turn right or left, or a half turn.
pub fn grid_rotate(grid: Grid, call: &Call) -> (r: Result<Grid, String>)
    ensures
        grid_result(grid, r, rotate_spec(table_view(grid.cells@), *call), rotate_error(*call)),
{
    proof {
        reveal_strlit("r");
        reveal_strlit("right");
        reveal_strlit("l");
        reveal_strlit("left");
        reveal_strlit("180");
    }
    if call.args.len() == 0 || call.args.len() > 2 {
        return Err(String::from_str("rotate expects 1 or 2 args: direction, optional pad(...)"));
    }
    let dir = match arg_string(call, 0) {
        Ok(d) => d,
        Err(e) => return Err(e),
    };
    let g = match pad_option(grid, call, 1, "rotate") {
        Ok(g) => g,
        Err(e) => return Err(e),
    };
    let m = if str_is2(dir.as_str(), "r", "right") {
        Turn::Right
    } else if str_is2(dir.as_str(), "l", "left") {
        Turn::Left
    } else if str_is(dir.as_str(), "180") {
        Turn::Half
    } else {
        return Err(String::from_str("rotate direction must be r, l, or 180"));
    };
    let cells = turn_cells(&g.cells, m);
    Ok(Grid { cells, cfg: g.cfg })
}

/// `rev`: reverses rows, row order, or both.
pub fn grid_reverse(grid: Grid, call: &Call) -> (r: Result<Grid, String>)
    ensures
        grid_result(grid, r, reverse_spec(table_view(grid.cells@), *call), reverse_error(*call)),
{
    if call.args.len() == 0 || call.args.len() > 2 {
        return Err(String::from_str("rev expects 1 or 2 args: mode, optional pad(...)"));
    }
    let mode = match expr_to_string(&call.args[0]) {
        Ok(m) => m,
        Err(e) => return Err(e),
    };
    let g = match pad_option(grid, call, 1, "rev") {
        Ok(g) => g,
        Err(e) => return Err(e),
    };
    if str_is2(mode.as_str(), "h", "horizontal") {
        let cells = mirrored_cells(&g.cells);
        Ok(Grid { cells, cfg: g.cfg })
    } else if str_is2(mode.as_str(), "v", "vertical") {
        let cells = flipped_cells(g.cells);
        Ok(Grid { cells, cfg: g.cfg })
    } else if str_is2(mode.as_str(), "hv", "vh") || str_is(mode.as_str(), "180") {
        let m = mirrored_cells(&g.cells);
        let cells = flipped_cells(m);
        Ok(Grid { cells, cfg: g.cfg })
    } else {
        Err(String::from_str("rev mode must be h, v, hv, or 180"))
    }
}

/// `align`: fills the selected short rows to the widest row.
pub fn grid_align(grid: Grid, call: &Call) -> (r: Result<Grid, String>)
    ensures
        grid_result(
            grid,
            r,
            align_spec(table_view(grid.cells@), *call),
            align_error(table_view(grid.cells@), *call),
        ),
        align_rows_outside(*call, grid.cells.len() as nat) ==> (r matches Err(m) && m@
            == "align rows out of range"@),
{
    let ghost t = table_view(grid.cells@);
    proof {
        reveal_strlit(" ");
        assert(" "@ =~= seq![' ']);
    }
    if call.args.len() == 0 || call.args.len() > 3 {
        return Err(
            String::from_str("align expects 1 to 3 args: mode, optional rows(...), optional pad(...)"),
        );
    }
    let mode = match expr_to_string(&call.args[0]) {
        Ok(m) => m,
        Err(e) => return Err(e),
    };
    let h = grid.cells.len();
    let mut pad: Option<String> = None;
    let mut rows: Option<(i128, i128)> = None;
    let mut i: usize = 1;
    let ghost total = align_scan(*call, h as nat, 1, None, None);
    assert(total is None ==> align_spec(t, *call) is None);
    while i < call.args.len()
        invariant
            1 <= i <= call.args.len(),
            h == t.len(),
            t == table_view(grid.cells@),
            total is None ==> align_spec(t, *call) is None,
            total == align_scan(*call, h as nat, 1, None, None),
            total == align_scan(
                *call,
                h as nat,
                i as int,
                crate::text::opt_view(pad),
                range_view(rows),
            ),
            expr_text(call.args@[0]) is Some,
            1 <= call.args.len() <= 3,
            align_scan_error(*call, h as nat, 1, None, None) == align_scan_error(
                *call,
                h as nat,
                i as int,
                crate::text::opt_view(pad),
                range_view(rows),
            ),
        decreases call.args.len() - i,
    {
        let bad = String::from_str("align optional arg must be rows(...) or pad(...)");
        match &call.args[i] {
            Expr::Call(rc) => {
                if str_is(rc.name.as_str(), "pad") {
                    if pad.is_some() {
                        assert(align_scan(*call, h as nat, i as int, crate::text::opt_view(pad), range_view(rows)) is None);
                assert(total is None);
                        return Err(String::from_str("pad can only be given once"));
                    }
                    if rc.args.len() != 1 {
                        assert(align_scan(*call, h as nat, i as int, crate::text::opt_view(pad), range_view(rows)) is None);
                assert(total is None);
                        return Err(String::from_str("pad expects exactly one value"));
                    }
                    match expr_to_string(&rc.args[0]) {
                        Ok(p) => {
                            pad = Some(p);
                        },
                        Err(e) => {
                            assert(align_scan(*call, h as nat, i as int, crate::text::opt_view(pad), range_view(rows)) is None);
                assert(total is None);
                            return Err(e);
                        },
                    }
                } else if str_is(rc.name.as_str(), "rows") {
                    if rows.is_some() {
                        assert(align_scan(*call, h as nat, i as int, crate::text::opt_view(pad), range_view(rows)) is None);
                assert(total is None);
                        return Err(String::from_str("rows can only be given once"));
                    }
                    match rows_arg(rc, h) {
                        Some(r) => {
                            rows = Some(r);
                        },
                        None => {
                            assert(align_scan(*call, h as nat, i as int, crate::text::opt_view(pad), range_view(rows)) is None);
                assert(total is None);
                            return Err(
                                String::from_str(
                                    "rows expects (n), (start, end), or \"start:end\"",
                                ),
                            )
                        },
                    }
                } else {
                    assert(align_scan(*call, h as nat, i as int, crate::text::opt_view(pad), range_view(rows)) is None);
                assert(total is None);
                    return Err(bad);
                }
            },
            _ => {
                assert(align_scan(*call, h as nat, i as int, crate::text::opt_view(pad), range_view(rows)) is None);
                assert(total is None);
                return Err(bad);
            },
        }
        i += 1;
    }
    let p = match pad {
        Some(p) => p,
        None => String::from_str(" "),
    };
    let (a, b): (i128, i128) = match rows {
        Some(r) => r,
        None => (1, h as i128),
    };
    if rows.is_some() && !(1 <= a && a <= b && b <= h as i128) {
        return Err(String::from_str("align rows out of range"));
    }
    let lo: usize = if a >= 1 {
        (a - 1) as usize
    } else {
        0
    };
    let hi: usize = if b >= 0 && b <= h as i128 {
        b as usize
    } else {
        0
    };
    proof {
        if rows is None {
            assert(a == 1 && b == h);
        }
        assert(lo == a - 1 || (rows is None && h == 0));
    }
    let md = if str_is2(mode.as_str(), "left", "l") {
        Some(AlignMode::Left)
    } else if str_is2(mode.as_str(), "center", "c") {
        Some(AlignMode::Center)
    } else if str_is2(mode.as_str(), "right", "r") {
        Some(AlignMode::Right)
    } else {
        None
    };
    assert(md == align_mode_of(mode@));
    match md {
        Some(m) => {
            let cells = aligned_cells(&grid.cells, m, lo, hi, &p);
            assert(aligned(t, m, lo as int, hi as int, p@) =~= aligned(t, m, a - 1, b as int, p@));
            Ok(Grid { cells, cfg: grid.cfg })
        },
        None => {
            let short = any_short_row(&grid.cells, lo, hi);
            assert(short == has_short_row(t, a - 1, b as int));
            if short {
                Err(String::from_str("align mode must be left, center, right, l, c, or r"))
            } else {
                Ok(grid)
            }
        },
    }
}

/// `pad`: frames the grid with the pad value.
pub fn grid_pad(grid: Grid, call: &Call) -> (r: Result<Grid, String>)
    ensures
        grid_result(grid, r, pad_spec(table_view(grid.cells@), *call), pad_args_error(*call)),
{
    let (top, bottom, left, right, p) = match parse_grid_pad_args(call) {
        Ok(v) => v,
        Err(e) => return Err(e),
    };
    if grid.cells.len() == 0 {
        return Ok(grid);
    }
    let cells = framed_cells(&grid.cells, top, bottom, left, right, &p);
    Ok(Grid { cells, cfg: grid.cfg })
}

/// The cell `get` or `set` names.
fn get_coord(grid: &Grid, call: &Call) -> (r: Result<(usize, usize), String>)
    ensures
        match r {
            Ok(p) => get_point(table_view(grid.cells@), *call) == Some(p),
            Err(m) => get_point(table_view(grid.cells@), *call) is None && m@ == get_error(
                table_view(grid.cells@),
                *call,
            ),
        },
{
    if call.args.len() == 1 {
        resolve_point_expr(grid, &call.args[0])
    } else if call.args.len() == 2 {
        resolve_point_call(call, grid)
    } else {
        Err(String::from_str("get expects either (x, y) or (pick(...))"))
    }
}

/// `get`: the grid becomes the one cell.
pub fn grid_get(grid: Grid, call: &Call) -> (r: Result<Grid, String>)
    ensures
        grid_result(
            grid,
            r,
            get_spec(table_view(grid.cells@), *call),
            get_error(table_view(grid.cells@), *call),
        ),
{
    let ghost t = table_view(grid.cells@);
    let (x, y) = match get_coord(&grid, call) {
        Ok(p) => p,
        Err(e) => return Err(e),
    };
    proof {
        assert forall|q: int| 0 <= q < t.len() implies #[trigger] t[q].len() <= usize::MAX by {
            assert(t[q].len() == grid.cells@[q].len());
        }
        assert(t.len() == grid.cells.len());
        crate::grid::coords::lemma_points_inside(t, *call);
    }
    assert(t[y as int][x as int] == grid.cells@[y as int]@[x as int]@);
    let cell = grid.cells[y][x].clone();
    let mut row: Vec<String> = Vec::new();
    row.push(cell);
    let mut cells: Vec<Vec<String>> = Vec::new();
    cells.push(row);
    assert(strs_view(row@) =~= seq![t[y as int][x as int]]);
    assert(table_view(cells@) =~= seq![seq![t[y as int][x as int]]]);
    Ok(Grid { cells, cfg: grid.cfg })
}

/// `set`: writes a value into one cell.
pub fn grid_set(grid: Grid, call: &Call) -> (r: Result<Grid, String>)
    ensures
        grid_result(
            grid,
            r,
            set_spec(table_view(grid.cells@), *call),
            set_error(table_view(grid.cells@), *call),
        ),
{
    let (p, idx) = if call.args.len() == 2 {
        match resolve_point_expr(&grid, &call.args[0]) {
            Ok(p) => (p, 1usize),
            Err(e) => return Err(e),
        }
    } else if call.args.len() == 3 {
        match resolve_point_call(call, &grid) {
            Ok(p) => (p, 2usize),
            Err(e) => return Err(e),
        }
    } else {
        return Err(String::from_str("set expects either (x, y, value) or (pick(...), value)"));
    };
    let value = match expr_to_string(&call.args[idx]) {
        Ok(v) => v,
        Err(e) => return Err(e),
    };
    let mut g = grid;
    set_grid_cell(&mut g, p, value);
    Ok(g)
}

} // verus!
