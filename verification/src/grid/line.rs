//! Placing values along lines, and marking cells along rays.
use vstd::prelude::*;

use crate::ast::{table_view, Call, Expr, Grid};
use crate::grid::coords::{
    point_call_error, point_call_spec, point_expr_error, point_expr_spec, resolve_point_call,
    resolve_point_expr,
};
use crate::grid::ops::row_width;
use crate::record::ops::{all_texts, texts_of};
use crate::table::clone_row;
use crate::text::{opt_view, str_is, str_is2, strs_view};
use crate::util::{arg_positive, arg_positive_error, arg_usize_expr, expr_text, expr_to_string};

verus! {

// ---------------------------------------------------------------------------
// Directions and straight lines
// ---------------------------------------------------------------------------

/// The line directions.
#[derive(Debug, Clone, Copy, PartialEq, Eq, Structural)]
pub enum LineDir {
    Right,
    Left,
    Up,
    Down,
    UpRight,
    UpLeft,
    DownRight,
    DownLeft,
    Horiz,
    Vert,
    DiagDownRight,
    DiagDownLeft,
    FillUpRight,
    FillUpLeft,
}

/// The direction a name denotes.
pub open spec fn line_dir_of(n: Seq<char>) -> Option<LineDir> {
    if n == "right"@ || n == "r"@ {
        Some(LineDir::Right)
    } else if n == "left"@ || n == "l"@ {
        Some(LineDir::Left)
    } else if n == "up"@ || n == "u"@ {
        Some(LineDir::Up)
    } else if n == "down"@ || n == "d"@ {
        Some(LineDir::Down)
    } else if n == "ur"@ {
        Some(LineDir::UpRight)
    } else if n == "ul"@ {
        Some(LineDir::UpLeft)
    } else if n == "dr"@ {
        Some(LineDir::DownRight)
    } else if n == "dl"@ {
        Some(LineDir::DownLeft)
    } else if n == "horiz"@ || n == "h"@ {
        Some(LineDir::Horiz)
    } else if n == "vert"@ || n == "v"@ {
        Some(LineDir::Vert)
    } else if n == "diag_dr"@ || n == "xr"@ {
        Some(LineDir::DiagDownRight)
    } else if n == "diag_dl"@ || n == "xl"@ {
        Some(LineDir::DiagDownLeft)
    } else if n == "fill_ur"@ || n == "fur"@ {
        Some(LineDir::FillUpRight)
    } else if n == "fill_ul"@ || n == "ful"@ {
        Some(LineDir::FillUpLeft)
    } else {
        None
    }
}

/// Looks up a line direction by name.
pub fn line_dir(n: &str) -> (r: Option<LineDir>)
    ensures
        r == line_dir_of(n@),
{
    if str_is2(n, "right", "r") {
        Some(LineDir::Right)
    } else if str_is2(n, "left", "l") {
        Some(LineDir::Left)
    } else if str_is2(n, "up", "u") {
        Some(LineDir::Up)
    } else if str_is2(n, "down", "d") {
        Some(LineDir::Down)
    } else if crate::text::str_is(n, "ur") {
        Some(LineDir::UpRight)
    } else if crate::text::str_is(n, "ul") {
        Some(LineDir::UpLeft)
    } else if crate::text::str_is(n, "dr") {
        Some(LineDir::DownRight)
    } else if crate::text::str_is(n, "dl") {
        Some(LineDir::DownLeft)
    } else if str_is2(n, "horiz", "h") {
        Some(LineDir::Horiz)
    } else if str_is2(n, "vert", "v") {
        Some(LineDir::Vert)
    } else if str_is2(n, "diag_dr", "xr") {
        Some(LineDir::DiagDownRight)
    } else if str_is2(n, "diag_dl", "xl") {
        Some(LineDir::DiagDownLeft)
    } else if str_is2(n, "fill_ur", "fur") {
        Some(LineDir::FillUpRight)
    } else if str_is2(n, "fill_ul", "ful") {
        Some(LineDir::FillUpLeft)
    } else {
        None
    }
}

/// Lines centred on the origin.
pub open spec fn is_centered(d: LineDir) -> bool {
    d == LineDir::Horiz || d == LineDir::Vert || d == LineDir::DiagDownRight || d
        == LineDir::DiagDownLeft
}

/// Lines that fill diagonals one after another.
pub open spec fn is_fill(d: LineDir) -> bool {
    d == LineDir::FillUpRight || d == LineDir::FillUpLeft
}

/// The step `(dx, dy)` of a straight direction (y grows downwards).
pub open spec fn dir_step(d: LineDir) -> (int, int) {
    match d {
        LineDir::Right => (1, 0),
        LineDir::Left => (-1, 0),
        LineDir::Up => (0, -1),
        LineDir::Down => (0, 1),
        LineDir::UpRight => (1, -1),
        LineDir::UpLeft => (-1, -1),
        LineDir::DownRight => (1, 1),
        LineDir::DownLeft => (-1, 1),
        LineDir::Horiz => (1, 0),
        LineDir::Vert => (0, 1),
        LineDir::DiagDownRight => (1, 1),
        LineDir::DiagDownLeft => (-1, 1),
        _ => (0, 0),
    }
}

/// `o` moved `s` steps of `d` (each step -1, 0 or 1).
pub open spec fn moved(o: int, d: int, s: int) -> int {
    if d > 0 {
        o + s
    } else if d < 0 {
        o - s
    } else {
        o
    }
}

/// `(x, y)` lies inside the grid.
pub open spec fn inside(t: Seq<Seq<Seq<char>>>, x: int, y: int) -> bool {
    0 <= y < t.len() && 0 <= x < t[y].len()
}

/// The `count` points from `first` steps of `d` away from `o` onwards.
pub open spec fn straight(o: (usize, usize), d: (int, int), first: int, count: nat) -> Seq<
    (int, int),
> {
    Seq::new(count, |s: int| (moved(o.0 as int, d.0, first + s), moved(o.1 as int, d.1, first + s)))
}

/// The points as positions, when all lie inside the grid.
pub open spec fn all_inside(t: Seq<Seq<Seq<char>>>, pts: Seq<(int, int)>) -> Option<
    Seq<(usize, usize)>,
> {
    if forall|i: int| 0 <= i < pts.len() ==> inside(t, #[trigger] pts[i].0, pts[i].1) {
        Some(pts.map_values(|p: (int, int)| (p.0 as usize, p.1 as usize)))
    } else {
        None
    }
}

/// The points of a straight line: from the origin for a ray, centred on it
/// (an odd number of points) for a centred direction.
pub open spec fn straight_points(
    t: Seq<Seq<Seq<char>>>,
    o: (usize, usize),
    d: LineDir,
    count: nat,
) -> Option<Seq<(usize, usize)>> {
    if is_centered(d) {
        if count % 2 == 0 {
            None
        } else {
            all_inside(t, straight(o, dir_step(d), -((count / 2) as int), count))
        }
    } else {
        all_inside(t, straight(o, dir_step(d), 0, count))
    }
}

/// The point `s` steps from the origin along `(dx, dy)`, when inside.
pub fn offset_point(grid: &Grid, o: (usize, usize), dx: i8, dy: i8, s: i128) -> (r: Option<
    (usize, usize),
>)
    requires
        -1 <= dx <= 1,
        -1 <= dy <= 1,
        -0x1_0000_0000_0000_0000_0000 <= s <= 0x1_0000_0000_0000_0000_0000,
    ensures
        ({
            let x = moved(o.0 as int, dx as int, s as int);
            let y = moved(o.1 as int, dy as int, s as int);
            match r {
                Some(p) => inside(table_view(grid.cells@), x, y) && p.0 == x && p.1 == y,
                None => !inside(table_view(grid.cells@), x, y),
            }
        }),
{
    let ox = o.0 as i128;
    let oy = o.1 as i128;
    let x: i128 = if dx > 0 {
        ox + s
    } else if dx < 0 {
        ox - s
    } else {
        ox
    };
    let y: i128 = if dy > 0 {
        oy + s
    } else if dy < 0 {
        oy - s
    } else {
        oy
    };
    if x < 0 || y < 0 {
        return None;
    }
    if y >= grid.cells.len() as i128 {
        return None;
    }
    let yi = y as usize;
    assert(table_view(grid.cells@)[yi as int].len() == grid.cells@[yi as int].len());
    if x >= grid.cells[yi].len() as i128 {
        return None;
    }
    Some((x as usize, yi))
}

/// The exec step of a straight direction.
fn step_of(d: LineDir) -> (r: (i8, i8))
    ensures
        r.0 as int == dir_step(d).0,
        r.1 as int == dir_step(d).1,
{
    match d {
        LineDir::Right => (1, 0),
        LineDir::Left => (-1, 0),
        LineDir::Up => (0, -1),
        LineDir::Down => (0, 1),
        LineDir::UpRight => (1, -1),
        LineDir::UpLeft => (-1, -1),
        LineDir::DownRight => (1, 1),
        LineDir::DownLeft => (-1, 1),
        LineDir::Horiz => (1, 0),
        LineDir::Vert => (0, 1),
        LineDir::DiagDownRight => (1, 1),
        LineDir::DiagDownLeft => (-1, 1),
        _ => (0, 0),
    }
}

/// The points of a straight line (see [`straight_points`]).
pub fn straight_line(grid: &Grid, o: (usize, usize), d: LineDir, count: usize) -> (r: Option<
    Vec<(usize, usize)>,
>)
    ensures
        match r {
            Some(v) => straight_points(table_view(grid.cells@), o, d, count as nat) == Some(v@),
            None => straight_points(table_view(grid.cells@), o, d, count as nat) is None,
        },
{
    let ghost t = table_view(grid.cells@);
    let centered = match d {
        LineDir::Horiz | LineDir::Vert | LineDir::DiagDownRight | LineDir::DiagDownLeft => true,
        _ => false,
    };
    if centered && count % 2 == 0 {
        return None;
    }
    let first: i128 = if centered {
        0 - (count / 2) as i128
    } else {
        0
    };
    assert(centered == is_centered(d));
    assert(centered ==> first as int == -((count / 2) as int));
    let (dx, dy) = step_of(d);
    let ghost pts = straight(o, dir_step(d), first as int, count as nat);
    proof {
        if centered {
            assert(pts == straight(o, dir_step(d), -((count / 2) as int), count as nat));
        } else {
            assert(pts == straight(o, dir_step(d), 0, count as nat));
        }
    }
    assert(straight_points(t, o, d, count as nat) == all_inside(t, pts));
    let mut out: Vec<(usize, usize)> = Vec::new();
    let mut s: usize = 0;
    while s < count
        invariant
            s <= count,
            t == table_view(grid.cells@),
            -0x1_0000_0000_0000_0000 <= first <= 0,
            dx as int == dir_step(d).0,
            dy as int == dir_step(d).1,
            -1 <= dx <= 1,
            -1 <= dy <= 1,
            pts == straight(o, dir_step(d), first as int, count as nat),
            straight_points(t, o, d, count as nat) == all_inside(t, pts),
            forall|i: int| 0 <= i < s ==> inside(t, #[trigger] pts[i].0, pts[i].1),
            out@ == pts.take(s as int).map_values(|p: (int, int)| (p.0 as usize, p.1 as usize)),
        decreases count - s,
    {
        match offset_point(grid, o, dx, dy, first + s as i128) {
            Some(p) => {
                assert(pts[s as int] == (p.0 as int, p.1 as int));
                out.push(p);
                assert(pts.take(s + 1).map_values(|p: (int, int)| (p.0 as usize, p.1 as usize))
                    =~= pts.take(s as int).map_values(
                    |p: (int, int)| (p.0 as usize, p.1 as usize),
                ).push(p));
            },
            None => {
                assert(!inside(t, pts[s as int].0, pts[s as int].1));
                assert(all_inside(t, pts) is None);
                return None;
            },
        }
        s += 1;
    }
    assert(pts.take(count as int) =~= pts);
    Some(out)
}

// ---------------------------------------------------------------------------
// Position orders for wrapped and filled lines
// ---------------------------------------------------------------------------

/// The segments `f(0)`, ..., `f(n - 1)` one after another.
pub open spec fn cat(f: spec_fn(int) -> Seq<(usize, usize)>, n: int) -> Seq<(usize, usize)>
    decreases n,
{
    if n <= 0 {
        seq![]
    } else {
        cat(f, n - 1) + f(n - 1)
    }
}

/// A segment, reversed when `rev` holds.
pub open spec fn oriented(s: Seq<(usize, usize)>, rev: bool) -> Seq<(usize, usize)> {
    if rev {
        s.reverse()
    } else {
        s
    }
}

/// The cells met on `n` steps down from `(sx, sy)`, moving `dx` (-1, 0 or 1)
/// sideways each step, skipping points outside the grid.
pub open spec fn walk(t: Seq<Seq<Seq<char>>>, sx: int, sy: int, dx: int, n: int) -> Seq<
    (usize, usize),
>
    decreases n,
{
    if n <= 0 {
        seq![]
    } else {
        let x = moved(sx, dx, n - 1);
        let y = sy + n - 1;
        walk(t, sx, sy, dx, n - 1) + if inside(t, x, y) {
            seq![(x as usize, y as usize)]
        } else {
            seq![]
        }
    }
}

/// Row `y`, left to right.
pub open spec fn row_seg(t: Seq<Seq<Seq<char>>>, y: int) -> Seq<(usize, usize)> {
    Seq::new(t[y].len(), |i: int| (i as usize, y as usize))
}

/// Positions row by row (each row reversed when `rev`).
pub open spec fn row_wrap(t: Seq<Seq<Seq<char>>>, rev: bool) -> Seq<(usize, usize)> {
    cat(|y: int| oriented(row_seg(t, y), rev), t.len() as int)
}

/// Positions column by column, top to bottom (bottom to top when `rev`).
pub open spec fn col_wrap(t: Seq<Seq<Seq<char>>>, rev: bool) -> Seq<(usize, usize)> {
    cat(|x: int| oriented(walk(t, x, 0, 0, t.len() as int), rev), row_width(t) as int)
}

/// Down-right diagonals: those starting on the top row left to right, then
/// those starting on the left column below it.
pub open spec fn dr_wrap(t: Seq<Seq<Seq<char>>>, rev: bool) -> Seq<(usize, usize)> {
    cat(|sx: int| oriented(walk(t, sx, 0, 1, t.len() as int), rev), row_width(t) as int) + cat(
        |k: int| oriented(walk(t, 0, k + 1, 1, t.len() - (k + 1)), rev),
        t.len() - 1,
    )
}

/// Down-left diagonals: those starting on the top row right to left, then
/// those starting on the rightmost column below it.
pub open spec fn dl_wrap(t: Seq<Seq<Seq<char>>>, rev: bool) -> Seq<(usize, usize)> {
    let w = row_width(t) as int;
    if w == 0 {
        seq![]
    } else {
        cat(|k: int| oriented(walk(t, w - 1 - k, 0, -1, t.len() as int), rev), w) + cat(
            |k: int| oriented(walk(t, w - 1, k + 1, -1, t.len() - (k + 1)), rev),
            t.len() - 1,
        )
    }
}

/// The points of anti-diagonal `dg` (those with `dx + dy == dg`) going
/// right (left when `left`) and up from the origin, `dx` from 0 to `n - 1`.
pub open spec fn fill_diag(t: Seq<Seq<Seq<char>>>, o: (usize, usize), dg: int, n: int, left: bool) -> Seq<
    (usize, usize),
>
    decreases n,
{
    if n <= 0 {
        seq![]
    } else {
        let dx = n - 1;
        let x = if left {
            o.0 - dx
        } else {
            o.0 + dx
        };
        let y = o.1 + dg - dx;
        fill_diag(t, o, dg, n - 1, left) + if inside(t, x, y) {
            seq![(x as usize, y as usize)]
        } else {
            seq![]
        }
    }
}

/// Positions filling the diagonals from the origin one after another.
pub open spec fn fill_positions(t: Seq<Seq<Seq<char>>>, o: (usize, usize), left: bool) -> Seq<
    (usize, usize),
> {
    cat(|dg: int| fill_diag(t, o, dg, dg + 1, left), (t.len() + row_width(t)) as int)
}

/// Whether `(x, y)` (any integers) lies inside the grid.
fn inside_exec(grid: &Grid, x: i128, y: i128) -> (r: bool)
    ensures
        r == inside(table_view(grid.cells@), x as int, y as int),
{
    if x < 0 || y < 0 || y >= grid.cells.len() as i128 {
        return false;
    }
    let yi = y as usize;
    assert(table_view(grid.cells@)[yi as int].len() == grid.cells@[yi as int].len());
    x < grid.cells[yi].len() as i128
}

/// Appends the segment, reversed when `rev`.
fn push_segment(out: &mut Vec<(usize, usize)>, seg: &Vec<(usize, usize)>, rev: bool)
    ensures
        final(out)@ == old(out)@ + oriented(seg@, rev),
{
    let ghost start = out@;
    let ghost o = oriented(seg@, rev);
    let mut k: usize = 0;
    while k < seg.len()
        invariant
            k <= seg.len(),
            o == oriented(seg@, rev),
            o.len() == seg.len(),
            out@ == start + o.take(k as int),
        decreases seg.len() - k,
    {
        let p = if rev {
            seg[seg.len() - 1 - k]
        } else {
            seg[k]
        };
        assert(p == o[k as int]);
        out.push(p);
        assert(o.take(k + 1) =~= o.take(k as int).push(o[k as int]));
        k += 1;
    }
    assert(o.take(seg.len() as int) =~= o);
}

/// The cells met walking (see [`walk`]).
fn walk_exec(grid: &Grid, sx: i128, sy: i128, dx: i8, n: i128) -> (out: Vec<(usize, usize)>)
    requires
        -1 <= dx <= 1,
        -0x1_0000_0000_0000_0000 <= sx <= 0x1_0000_0000_0000_0000,
        -0x1_0000_0000_0000_0000 <= sy <= 0x1_0000_0000_0000_0000,
        n <= 0x1_0000_0000_0000_0000,
    ensures
        out@ == walk(table_view(grid.cells@), sx as int, sy as int, dx as int, n as int),
{
    let ghost t = table_view(grid.cells@);
    let mut out: Vec<(usize, usize)> = Vec::new();
    let mut k: i128 = 0;
    if n <= 0 {
        return out;
    }
    while k < n
        invariant
            0 <= k <= n,
            n <= 0x1_0000_0000_0000_0000,
            -1 <= dx <= 1,
            -0x1_0000_0000_0000_0000 <= sx <= 0x1_0000_0000_0000_0000,
            -0x1_0000_0000_0000_0000 <= sy <= 0x1_0000_0000_0000_0000,
            t == table_view(grid.cells@),
            out@ == walk(t, sx as int, sy as int, dx as int, k as int),
        decreases n - k,
    {
        let x: i128 = if dx > 0 {
            sx + k
        } else if dx < 0 {
            sx - k
        } else {
            sx
        };
        let y: i128 = sy + k;
        if inside_exec(grid, x, y) {
            out.push((x as usize, y as usize));
        }
        k += 1;
    }
    out
}

/// The positions of a wrapped line: `kind` 0 rows, 1 columns, 2 down-right
/// diagonals, 3 down-left diagonals.
fn wrap_positions(grid: &Grid, kind: u8, rev: bool) -> (out: Vec<(usize, usize)>)
    requires
        kind < 4,
    ensures
        kind == 0 ==> out@ == row_wrap(table_view(grid.cells@), rev),
        kind == 1 ==> out@ == col_wrap(table_view(grid.cells@), rev),
        kind == 2 ==> out@ == dr_wrap(table_view(grid.cells@), rev),
        kind == 3 ==> out@ == dl_wrap(table_view(grid.cells@), rev),
{
    let ghost t = table_view(grid.cells@);
    let h = grid.cells.len();
    let w = crate::grid::ops::grid_width(&grid.cells);
    let hi = h as i128;
    let mut out: Vec<(usize, usize)> = Vec::new();
    if kind == 0 {
        let ghost f = |y: int| oriented(row_seg(t, y), rev);
        let mut y: usize = 0;
        while y < h
            invariant
                y <= h == t.len(),
                t == table_view(grid.cells@),
                f == (|y: int| oriented(row_seg(t, y), rev)),
                out@ == cat(f, y as int),
            decreases h - y,
        {
            let mut seg: Vec<(usize, usize)> = Vec::new();
            let n = grid.cells[y].len();
            assert(t[y as int].len() == n);
            let mut x: usize = 0;
            while x < n
                invariant
                    y < h == t.len(),
                    x <= n == t[y as int].len(),
                    seg@ == row_seg(t, y as int).take(x as int),
                decreases n - x,
            {
                seg.push((x, y));
                assert(row_seg(t, y as int).take(x + 1) =~= row_seg(t, y as int).take(
                    x as int,
                ).push((x, y)));
                x += 1;
            }
            assert(row_seg(t, y as int).take(n as int) =~= row_seg(t, y as int));
            push_segment(&mut out, &seg, rev);
            y += 1;
        }
        return out;
    }
    if kind == 1 {
        let ghost f = |x: int| oriented(walk(t, x, 0, 0, t.len() as int), rev);
        let mut x: usize = 0;
        while x < w
            invariant
                x <= w == row_width(t),
                h == t.len(),
                hi == h,
                t == table_view(grid.cells@),
                f == (|x: int| oriented(walk(t, x, 0, 0, t.len() as int), rev)),
                out@ == cat(f, x as int),
            decreases w - x,
        {
            let seg = walk_exec(grid, x as i128, 0, 0, hi);
            push_segment(&mut out, &seg, rev);
            x += 1;
        }
        return out;
    }
    if kind == 2 {
        let ghost f = |sx: int| oriented(walk(t, sx, 0, 1, t.len() as int), rev);
        let ghost g = |k: int| oriented(walk(t, 0, k + 1, 1, t.len() - (k + 1)), rev);
        let mut sx: usize = 0;
        while sx < w
            invariant
                sx <= w == row_width(t),
                h == t.len(),
                hi == h,
                t == table_view(grid.cells@),
                f == (|sx: int| oriented(walk(t, sx, 0, 1, t.len() as int), rev)),
                out@ == cat(f, sx as int),
            decreases w - sx,
        {
            let seg = walk_exec(grid, sx as i128, 0, 1, hi);
            push_segment(&mut out, &seg, rev);
            sx += 1;
        }
        let ghost first = out@;
        let mut sy: usize = 1;
        while sy < h
            invariant
                1 <= sy,
                sy <= h || (h == 0 && sy == 1),
                h == t.len(),
                hi == h,
                t == table_view(grid.cells@),
                g == (|k: int| oriented(walk(t, 0, k + 1, 1, t.len() - (k + 1)), rev)),
                out@ == first + cat(g, sy - 1),
            decreases h - sy,
        {
            let seg = walk_exec(grid, 0, sy as i128, 1, hi - sy as i128);
            push_segment(&mut out, &seg, rev);
            sy += 1;
        }
        proof {
            if h == 0 {
                assert(cat(g, sy - 1) =~= cat(g, h - 1));
            }
        }
        return out;
    }
    if w == 0 {
        return out;
    }
    let ghost f = |k: int| oriented(walk(t, w - 1 - k, 0, -1, t.len() as int), rev);
    let ghost g = |k: int| oriented(walk(t, w - 1, k + 1, -1, t.len() - (k + 1)), rev);
    let mut k: usize = 0;
    while k < w
        invariant
            k <= w == row_width(t),
            w > 0,
            h == t.len(),
            hi == h,
            t == table_view(grid.cells@),
            f == (|k: int| oriented(walk(t, w - 1 - k, 0, -1, t.len() as int), rev)),
            out@ == cat(f, k as int),
        decreases w - k,
    {
        let seg = walk_exec(grid, (w - 1 - k) as i128, 0, -1, hi);
        push_segment(&mut out, &seg, rev);
        k += 1;
    }
    let ghost first = out@;
    let mut sy: usize = 1;
    while sy < h
        invariant
            1 <= sy,
            sy <= h || h == 0,
            w == row_width(t),
            w > 0,
            h == t.len(),
            hi == h,
            t == table_view(grid.cells@),
            g == (|k: int| oriented(walk(t, w - 1, k + 1, -1, t.len() - (k + 1)), rev)),
            out@ == first + cat(g, sy - 1),
        decreases h - sy,
    {
        let seg = walk_exec(grid, (w - 1) as i128, sy as i128, -1, hi - sy as i128);
        push_segment(&mut out, &seg, rev);
        sy += 1;
    }
    out
}

/// The positions filling diagonals from the origin (see [`fill_positions`]).
fn fill_positions_exec(grid: &Grid, o: (usize, usize), left: bool) -> (out: Vec<(usize, usize)>)
    ensures
        out@ == fill_positions(table_view(grid.cells@), o, left),
{
    let ghost t = table_view(grid.cells@);
    let w = crate::grid::ops::grid_width(&grid.cells);
    let total: i128 = grid.cells.len() as i128 + w as i128;
    let ox = o.0 as i128;
    let oy = o.1 as i128;
    let ghost f = |dg: int| fill_diag(t, o, dg, dg + 1, left);
    let mut out: Vec<(usize, usize)> = Vec::new();
    let mut dg: i128 = 0;
    while dg < total
        invariant
            0 <= dg,
            total == t.len() + row_width(t),
            total <= 0x2_0000_0000_0000_0000,
            dg <= total,
            ox == o.0,
            oy == o.1,
            t == table_view(grid.cells@),
            f == (|dg: int| fill_diag(t, o, dg, dg + 1, left)),
            out@ == cat(f, dg as int),
        decreases total - dg,
    {
        let ghost before = out@;
        let mut dx: i128 = 0;
        while dx <= dg
            invariant
                0 <= dx <= dg + 1,
                0 <= dg < total,
                total <= 0x2_0000_0000_0000_0000,
                ox == o.0,
                oy == o.1,
                t == table_view(grid.cells@),
                out@ == before + fill_diag(t, o, dg as int, dx as int, left),
            decreases dg + 1 - dx,
        {
            let x: i128 = if left {
                ox - dx
            } else {
                ox + dx
            };
            let y: i128 = oy + dg - dx;
            if inside_exec(grid, x, y) {
                out.push((x as usize, y as usize));
            }
            dx += 1;
        }
        dg += 1;
    }
    out
}

// ---------------------------------------------------------------------------
// Line points
// ---------------------------------------------------------------------------

/// Options at the end of a line's values: `wrap(mode)` and `skip(n)`.
#[derive(Debug)]
pub struct LineOptions {
    pub wrap_mode: Option<String>,
    pub skip: usize,
}

/// The text of the wrap mode.
pub open spec fn wrap_view(o: LineOptions) -> Option<Seq<char>> {
    opt_view(o.wrap_mode)
}

/// The first index at or after `i` holding `p`, or -1.
pub open spec fn first_index(s: Seq<(usize, usize)>, p: (usize, usize), i: int) -> int
    decreases s.len() - i,
{
    if i < 0 || i >= s.len() {
        -1
    } else if s[i] == p {
        i
    } else {
        first_index(s, p, i + 1)
    }
}

/// The `count` positions from `start` on, when there are that many.
pub open spec fn take_from(pos: Seq<(usize, usize)>, start: int, count: nat) -> Option<
    Seq<(usize, usize)>,
> {
    if start < 0 || start + count > pos.len() {
        None
    } else {
        Some(pos.subrange(start, start + count))
    }
}

/// The position order a wrap mode gives a direction: rows for `r` / `l`,
/// columns for `d` / `u`, diagonals for `dr` / `ul` and `dl` / `ur`.
pub open spec fn wrap_order(t: Seq<Seq<Seq<char>>>, d: LineDir, mode: Seq<char>) -> Option<
    Seq<(usize, usize)>,
> {
    if mode == "row"@ && d == LineDir::Right {
        Some(row_wrap(t, false))
    } else if mode == "row"@ && d == LineDir::Left {
        Some(row_wrap(t, true))
    } else if mode == "col"@ && d == LineDir::Down {
        Some(col_wrap(t, false))
    } else if mode == "col"@ && d == LineDir::Up {
        Some(col_wrap(t, true))
    } else if mode == "diag_dr"@ && d == LineDir::DownRight {
        Some(dr_wrap(t, false))
    } else if mode == "diag_dr"@ && d == LineDir::UpLeft {
        Some(dr_wrap(t, true))
    } else if mode == "diag_dl"@ && d == LineDir::DownLeft {
        Some(dl_wrap(t, false))
    } else if mode == "diag_dl"@ && d == LineDir::UpRight {
        Some(dl_wrap(t, true))
    } else {
        None
    }
}

/// Where `count` values go from the origin in direction `dir`: along the
/// fill order after `skip` positions, along the wrap order from the origin,
/// or on a straight line.
pub open spec fn line_points_spec(
    t: Seq<Seq<Seq<char>>>,
    o: (usize, usize),
    dir: Seq<char>,
    count: nat,
    wrap: Option<Seq<char>>,
    skip: usize,
) -> Option<Seq<(usize, usize)>> {
    let d = line_dir_of(dir);
    if d is Some && is_fill(d->0) {
        take_from(fill_positions(t, o, d->0 == LineDir::FillUpLeft), skip as int, count)
    } else if skip != 0 {
        None
    } else if wrap is Some {
        match d {
            Some(dd) => match wrap_order(t, dd, wrap->0) {
                Some(pos) => take_from(pos, first_index(pos, o, 0), count),
                None => None,
            },
            None => None,
        }
    } else {
        match d {
            Some(dd) => straight_points(t, o, dd, count),
            None => None,
        }
    }
}

/// The first index of `p` in `v`, if any.
fn index_of_point(v: &Vec<(usize, usize)>, p: (usize, usize)) -> (r: Option<usize>)
    ensures
        match r {
            Some(i) => first_index(v@, p, 0) == i && i < v.len(),
            None => first_index(v@, p, 0) == -1,
        },
{
    let mut i: usize = 0;
    while i < v.len()
        invariant
            i <= v.len(),
            first_index(v@, p, 0) == first_index(v@, p, i as int),
        decreases v.len() - i,
    {
        if v[i].0 == p.0 && v[i].1 == p.1 {
            return Some(i);
        }
        i += 1;
    }
    None
}

/// The positions `start..start + count` of `pos`.
fn slice_points(pos: &Vec<(usize, usize)>, start: usize, count: usize) -> (out: Vec<(usize, usize)>)
    requires
        start + count <= pos.len(),
    ensures
        out@ == pos@.subrange(start as int, start + count),
{
    let mut out: Vec<(usize, usize)> = Vec::new();
    let mut k: usize = 0;
    while k < count
        invariant
            k <= count,
            start + count <= pos.len(),
            out@ == pos@.subrange(start as int, start + k),
        decreases count - k,
    {
        out.push(pos[start + k]);
        k += 1;
        assert(out@ =~= pos@.subrange(start as int, start + k));
    }
    out
}

/// The message when `count` values do not fit from the origin (see
/// [`line_points_spec`]).
pub open spec fn line_points_error(
    t: Seq<Seq<Seq<char>>>,
    o: (usize, usize),
    dir: Seq<char>,
    count: nat,
    wrap: Option<Seq<char>>,
    skip: usize,
) -> Seq<char> {
    let d = line_dir_of(dir);
    if d is Some && is_fill(d->0) {
        "filled line placement runs out of space"@
    } else if skip != 0 {
        "skip(...) is only supported for fill_* line directions"@
    } else if wrap is Some {
        match d {
            Some(dd) => match wrap_order(t, dd, wrap->0) {
                Some(pos) => if first_index(pos, o, 0) < 0 {
                    "wrap start point not found"@
                } else {
                    "wrapped line placement runs out of space"@
                },
                None => if is_centered(dd) {
                    "wrap is not supported for centered line directions"@
                } else {
                    "wrap("@ + wrap->0 + ") is not compatible with line direction "@ + dir
                },
            },
            None => "wrap("@ + wrap->0 + ") is not compatible with line direction "@ + dir,
        }
    } else {
        match d {
            Some(dd) => if is_centered(dd) && count % 2 == 0 {
                "centered line directions require an odd number of values"@
            } else {
                "line placement goes out of bounds"@
            },
            None => "unknown line direction: "@ + dir,
        }
    }
}

/// The message when drawing from the first `n` origins fails: that of the
/// first origin whose line does not fit.
pub open spec fn draw_error(
    t: Seq<Seq<Seq<char>>>,
    origins: Seq<(usize, usize)>,
    dir: Seq<char>,
    vals: Seq<Seq<char>>,
    wrap: Option<Seq<char>>,
    skip: usize,
    n: int,
) -> Seq<char>
    decreases n,
{
    if n <= 0 {
        seq![]
    } else {
        match draw_lines(t, origins, dir, vals, wrap, skip, n - 1) {
            Some(u) => line_points_error(u, origins[n - 1], dir, vals.len(), wrap, skip),
            None => draw_error(t, origins, dir, vals, wrap, skip, n - 1),
        }
    }
}

/// Where the values go (see [`line_points_spec`]).
pub fn line_points(
    grid: &Grid,
    origin: (usize, usize),
    dir: &str,
    count: usize,
    options: &LineOptions,
) -> (r: Result<Vec<(usize, usize)>, String>)
    ensures
        match r {
            Ok(v) => line_points_spec(
                table_view(grid.cells@),
                origin,
                dir@,
                count as nat,
                wrap_view(*options),
                options.skip,
            ) == Some(v@),
            Err(m) => line_points_spec(
                table_view(grid.cells@),
                origin,
                dir@,
                count as nat,
                wrap_view(*options),
                options.skip,
            ) is None && m@ == line_points_error(
                table_view(grid.cells@),
                origin,
                dir@,
                count as nat,
                wrap_view(*options),
                options.skip,
            ),
        },
{
    let d = line_dir(dir);
    match d {
        Some(LineDir::FillUpRight) | Some(LineDir::FillUpLeft) => {
            let left = match d {
                Some(LineDir::FillUpLeft) => true,
                _ => false,
            };
            let pos = fill_positions_exec(grid, origin, left);
            if options.skip > pos.len() || count > pos.len() - options.skip {
                return Err(String::from_str("filled line placement runs out of space"));
            }
            return Ok(slice_points(&pos, options.skip, count));
        },
        _ => {},
    }
    if options.skip != 0 {
        return Err(String::from_str("skip(...) is only supported for fill_* line directions"));
    }
    match &options.wrap_mode {
        Some(mode) => {
            let order: Option<(u8, bool)> = match d {
                Some(LineDir::Right) => if str_is(mode.as_str(), "row") {
                    Some((0, false))
                } else {
                    None
                },
                Some(LineDir::Left) => if str_is(mode.as_str(), "row") {
                    Some((0, true))
                } else {
                    None
                },
                Some(LineDir::Down) => if str_is(mode.as_str(), "col") {
                    Some((1, false))
                } else {
                    None
                },
                Some(LineDir::Up) => if str_is(mode.as_str(), "col") {
                    Some((1, true))
                } else {
                    None
                },
                Some(LineDir::DownRight) => if str_is(mode.as_str(), "diag_dr") {
                    Some((2, false))
                } else {
                    None
                },
                Some(LineDir::UpLeft) => if str_is(mode.as_str(), "diag_dr") {
                    Some((2, true))
                } else {
                    None
                },
                Some(LineDir::DownLeft) => if str_is(mode.as_str(), "diag_dl") {
                    Some((3, false))
                } else {
                    None
                },
                Some(LineDir::UpRight) => if str_is(mode.as_str(), "diag_dl") {
                    Some((3, true))
                } else {
                    None
                },
                _ => None,
            };
            let (kind, rev) = match order {
                Some(o) => o,
                None => {
                    let centered = match d {
                        Some(LineDir::Horiz) | Some(LineDir::Vert) | Some(
                            LineDir::DiagDownRight,
                        ) | Some(LineDir::DiagDownLeft) => true,
                        _ => false,
                    };
                    if centered {
                        return Err(
                            String::from_str("wrap is not supported for centered line directions"),
                        );
                    }
                    let mut m = crate::text::concat3("wrap(", mode.as_str(), ") is not compatible with line direction ");
                    m.append(dir);
                    return Err(m);
                },
            };
            let pos = wrap_positions(grid, kind, rev);
            assert(wrap_order(table_view(grid.cells@), d->0, mode@) == Some(pos@));
            let start = match index_of_point(&pos, origin) {
                Some(i) => i,
                None => return Err(String::from_str("wrap start point not found")),
            };
            if count > pos.len() - start {
                return Err(String::from_str("wrapped line placement runs out of space"));
            }
            Ok(slice_points(&pos, start, count))
        },
        None => match d {
            Some(dd) => match straight_line(grid, origin, dd, count) {
                Some(v) => Ok(v),
                None => {
                    let centered = match dd {
                        LineDir::Horiz | LineDir::Vert | LineDir::DiagDownRight
                        | LineDir::DiagDownLeft => true,
                        _ => false,
                    };
                    if centered && count % 2 == 0 {
                        Err(
                            String::from_str(
                                "centered line directions require an odd number of values",
                            ),
                        )
                    } else {
                        Err(String::from_str("line placement goes out of bounds"))
                    }
                },
            },
            None => Err(crate::text::concat2("unknown line direction: ", dir)),
        },
    }
}

// ---------------------------------------------------------------------------
// Values and options
// ---------------------------------------------------------------------------

/// Reads the options at the end of `args[start..end]`, from the last one
/// back: `wrap(mode)` and `skip(n)`, each at most once. The result is where
/// the values end and the options read, or `None` for a malformed option.
pub open spec fn opts_scan(
    args: Seq<Expr>,
    start: int,
    end: int,
    wrap: Option<Seq<char>>,
    skip: usize,
) -> Option<(int, Option<Seq<char>>, usize)>
    decreases end - start,
{
    if end <= start || end > args.len() {
        Some((end, wrap, skip))
    } else {
        match args[end - 1] {
            Expr::Call(c) => if c.name@ == "wrap"@ {
                if wrap is Some || c.args.len() != 1 {
                    None
                } else {
                    match expr_text(c.args@[0]) {
                        Some(m) => opts_scan(args, start, end - 1, Some(m), skip),
                        None => None,
                    }
                }
            } else if c.name@ == "skip"@ {
                if skip != 0 {
                    None
                } else {
                    match arg_positive(c, 0) {
                        Some(k) => opts_scan(args, start, end - 1, wrap, k),
                        None => None,
                    }
                }
            } else {
                Some((end, wrap, skip))
            },
            _ => Some((end, wrap, skip)),
        }
    }
}

/// The values and options of `args[start..]`: at least one value, each a
/// text, followed by the options.
pub open spec fn line_tail(args: Seq<Expr>, start: int) -> Option<
    (Seq<Seq<char>>, Option<Seq<char>>, usize),
> {
    if start >= args.len() {
        None
    } else {
        match opts_scan(args, start, args.len() as int, None, 0) {
            Some((end, w, k)) => if end <= start || !all_texts(args.subrange(start, end)) {
                None
            } else {
                Some((texts_of(args.subrange(start, end)), w, k))
            },
            None => None,
        }
    }
}

/// The message of the first bad option scanning back from `end` (see
/// [`opts_scan`]).
pub open spec fn opts_scan_error(
    args: Seq<Expr>,
    start: int,
    end: int,
    wrap: Option<Seq<char>>,
    skip: usize,
) -> Seq<char>
    decreases end - start,
{
    if end <= start || end > args.len() {
        seq![]
    } else {
        match args[end - 1] {
            Expr::Call(c) => if c.name@ == "wrap"@ {
                if wrap is Some {
                    "wrap can only be specified once"@
                } else if c.args.len() != 1 {
                    "wrap expects exactly one mode"@
                } else {
                    match expr_text(c.args@[0]) {
                        Some(m) => opts_scan_error(args, start, end - 1, Some(m), skip),
                        None => "nested call cannot be converted to string here"@,
                    }
                }
            } else if c.name@ == "skip"@ {
                if skip != 0 {
                    "skip can only be specified once"@
                } else {
                    match arg_positive(c, 0) {
                        Some(k) => opts_scan_error(args, start, end - 1, wrap, k),
                        None => arg_positive_error(c, 0),
                    }
                }
            } else {
                seq![]
            },
            _ => seq![],
        }
    }
}

/// The message when `args[start..]` holds no values and options (see
/// [`line_tail`]).
pub open spec fn line_tail_error(args: Seq<Expr>, start: int) -> Seq<char> {
    if start >= args.len() {
        "line expects at least one value"@
    } else {
        match opts_scan(args, start, args.len() as int, None, 0) {
            Some((end, w, k)) => if end <= start {
                "line expects at least one value before options"@
            } else {
                "nested call cannot be converted to string here"@
            },
            None => opts_scan_error(args, start, args.len() as int, None, 0),
        }
    }
}

/// Splits `args[start..]` into the values and the trailing options.
pub fn parse_line_tail(args: &Vec<Expr>, start: usize) -> (r: Result<
    (Vec<String>, LineOptions),
    String,
>)
    ensures
        match r {
            Ok((vals, o)) => line_tail(args@, start as int) == Some(
                (strs_view(vals@), wrap_view(o), o.skip),
            ),
            Err(m) => line_tail(args@, start as int) is None && m@ == line_tail_error(
                args@,
                start as int,
            ),
        },
{
    if start >= args.len() {
        return Err(String::from_str("line expects at least one value"));
    }
    let mut wrap: Option<String> = None;
    let mut skip: usize = 0;
    let mut end: usize = args.len();
    let ghost total = opts_scan(args@, start as int, args.len() as int, None, 0);
    let mut scanning = true;
    while scanning && end > start
        invariant
            start < args.len(),
            start <= end <= args.len(),
            total == opts_scan(args@, start as int, args.len() as int, None, 0),
            scanning ==> total == opts_scan(
                args@,
                start as int,
                end as int,
                opt_view(wrap),
                skip,
            ),
            !scanning ==> total == Some(
                (
                    end as int,
                    opt_view(wrap),
                    skip,
                ),
            ),
            scanning ==> opts_scan_error(args@, start as int, args.len() as int, None, 0)
                == opts_scan_error(args@, start as int, end as int, opt_view(wrap), skip),
        decreases end as int + if scanning { 1int } else { 0int },
    {
        match &args[end - 1] {
            Expr::Call(c) => {
                if str_is(c.name.as_str(), "wrap") {
                    if wrap.is_some() {
                        return Err(String::from_str("wrap can only be specified once"));
                    }
                    if c.args.len() != 1 {
                        return Err(String::from_str("wrap expects exactly one mode"));
                    }
                    match expr_to_string(&c.args[0]) {
                        Ok(m) => {
                            wrap = Some(m);
                        },
                        Err(e) => return Err(e),
                    }
                    end -= 1;
                } else if str_is(c.name.as_str(), "skip") {
                    if skip != 0 {
                        return Err(String::from_str("skip can only be specified once"));
                    }
                    match arg_usize_expr(c, 0) {
                        Ok(k) => {
                            skip = k;
                        },
                        Err(e) => return Err(e),
                    }
                    end -= 1;
                } else {
                    scanning = false;
                }
            },
            _ => {
                scanning = false;
            },
        }
    }
    proof {
        if scanning {
            assert(end <= start);
        }
    }
    if end == start {
        return Err(String::from_str("line expects at least one value before options"));
    }
    let ghost wv = opt_view(wrap);
    let ghost part = args@.subrange(start as int, end as int);
    assert(total == Some((end as int, wv, skip)));
    assert(line_tail(args@, start as int) == if all_texts(part) {
        Some((texts_of(part), wv, skip))
    } else {
        None::<(Seq<Seq<char>>, Option<Seq<char>>, usize)>
    });
    let mut vals: Vec<String> = Vec::new();
    let mut i: usize = start;
    while i < end
        invariant
            start <= i <= end <= args.len(),
            part == args@.subrange(start as int, end as int),
            line_tail(args@, start as int) == if all_texts(part) {
                Some((texts_of(part), wv, skip))
            } else {
                None::<(Seq<Seq<char>>, Option<Seq<char>>, usize)>
            },
            wv == opt_view(wrap),
            start < end,
            opts_scan(args@, start as int, args.len() as int, None, 0) == Some(
                (end as int, wv, skip),
            ),
            forall|q: int| 0 <= q < i - start ==> (#[trigger] expr_text(part[q])) is Some,
            strs_view(vals@) == texts_of(part.take(i - start)),
        decreases end - i,
    {
        match expr_to_string(&args[i]) {
            Ok(v) => {
                assert(part[i - start] == args@[i as int]);
                proof {
                    crate::table::lemma_strs_push(vals@, v);
                    assert(texts_of(part.take(i - start + 1)) =~= texts_of(part.take(i - start)).push(
                        v@,
                    ));
                }
                vals.push(v);
            },
            Err(e) => {
                assert(part[i - start] == args@[i as int]);
                assert(!all_texts(part));
                return Err(e);
            },
        }
        i += 1;
    }
    assert(part.take(end - start) =~= part);
    Ok((vals, LineOptions { wrap_mode: wrap, skip }))
}

/// The cell at `p` set to `v`, when `p` lies inside the grid.
pub open spec fn set_cell(t: Seq<Seq<Seq<char>>>, p: (usize, usize), v: Seq<char>) -> Seq<
    Seq<Seq<char>>,
> {
    if p.1 < t.len() && p.0 < t[p.1 as int].len() {
        t.update(p.1 as int, t[p.1 as int].update(p.0 as int, v))
    } else {
        t
    }
}

/// The first `n` values written at their points, in order.
pub open spec fn write_points(
    t: Seq<Seq<Seq<char>>>,
    pts: Seq<(usize, usize)>,
    vals: Seq<Seq<char>>,
    n: int,
) -> Seq<Seq<Seq<char>>>
    decreases n,
{
    if n <= 0 {
        t
    } else {
        set_cell(write_points(t, pts, vals, n - 1), pts[n - 1], vals[n - 1])
    }
}

/// The values drawn from the first `n` origins in turn; `None` when a line
/// does not fit.
pub open spec fn draw_lines(
    t: Seq<Seq<Seq<char>>>,
    origins: Seq<(usize, usize)>,
    dir: Seq<char>,
    vals: Seq<Seq<char>>,
    wrap: Option<Seq<char>>,
    skip: usize,
    n: int,
) -> Option<Seq<Seq<Seq<char>>>>
    decreases n,
{
    if n <= 0 {
        Some(t)
    } else {
        match draw_lines(t, origins, dir, vals, wrap, skip, n - 1) {
            Some(u) => match line_points_spec(u, origins[n - 1], dir, vals.len(), wrap, skip) {
                Some(pts) => Some(write_points(u, pts, vals, vals.len() as int)),
                None => None,
            },
            None => None,
        }
    }
}

/// Sets one cell, when it lies inside the grid.
pub fn set_grid_cell(grid: &mut Grid, p: (usize, usize), v: String)
    ensures
        table_view(final(grid).cells@) == set_cell(table_view(old(grid).cells@), p, v@),
        final(grid).cfg == old(grid).cfg,
{
    let ghost t = table_view(grid.cells@);
    let (x, y) = p;
    if y < grid.cells.len() && x < grid.cells[y].len() {
        let mut row = clone_row(&grid.cells[y]);
        row.set(x, v);
        grid.cells.set(y, row);
        proof {
            assert(strs_view(row@) =~= t[y as int].update(x as int, v@));
            assert(table_view(grid.cells@) =~= t.update(y as int, t[y as int].update(x as int, v@)));
        }
    }
}

/// Once a line does not fit, drawing more origins still fails.
pub proof fn lemma_draw_none(
    t: Seq<Seq<Seq<char>>>,
    origins: Seq<(usize, usize)>,
    dir: Seq<char>,
    vals: Seq<Seq<char>>,
    wrap: Option<Seq<char>>,
    skip: usize,
    m: int,
    n: int,
)
    requires
        0 < m <= n,
        draw_lines(t, origins, dir, vals, wrap, skip, m) is None,
    ensures
        draw_lines(t, origins, dir, vals, wrap, skip, n) is None,
    decreases n - m,
{
    if m < n {
        lemma_draw_none(t, origins, dir, vals, wrap, skip, m, n - 1);
    }
}

/// Once drawing fails at `m`, the message stays that of the failure.
proof fn lemma_draw_error_stays(
    t: Seq<Seq<Seq<char>>>,
    origins: Seq<(usize, usize)>,
    dir: Seq<char>,
    vals: Seq<Seq<char>>,
    wrap: Option<Seq<char>>,
    skip: usize,
    m: int,
    n: int,
)
    requires
        0 < m <= n,
        draw_lines(t, origins, dir, vals, wrap, skip, m) is None,
    ensures
        draw_error(t, origins, dir, vals, wrap, skip, n) == draw_error(
            t,
            origins,
            dir,
            vals,
            wrap,
            skip,
            m,
        ),
    decreases n - m,
{
    if m < n {
        lemma_draw_error_stays(t, origins, dir, vals, wrap, skip, m, n - 1);
        lemma_draw_none(t, origins, dir, vals, wrap, skip, m, n - 1);
    }
}

/// A line has one point per value.
pub proof fn lemma_line_points_len(
    t: Seq<Seq<Seq<char>>>,
    o: (usize, usize),
    dir: Seq<char>,
    count: nat,
    wrap: Option<Seq<char>>,
    skip: usize,
)
    ensures
        line_points_spec(t, o, dir, count, wrap, skip) matches Some(p) ==> p.len() == count,
{
}

/// Writes the values along the line from each origin in turn.
pub fn apply_line_values(
    grid: Grid,
    origins: Vec<(usize, usize)>,
    dir: &str,
    values: Vec<String>,
    options: LineOptions,
) -> (r: Result<Grid, String>)
    ensures
        match r {
            Ok(g) => draw_lines(
                table_view(grid.cells@),
                origins@,
                dir@,
                strs_view(values@),
                wrap_view(options),
                options.skip,
                origins.len() as int,
            ) == Some(table_view(g.cells@)) && g.cfg == grid.cfg,
            Err(m) => draw_lines(
                table_view(grid.cells@),
                origins@,
                dir@,
                strs_view(values@),
                wrap_view(options),
                options.skip,
                origins.len() as int,
            ) is None && m@ == draw_error(
                table_view(grid.cells@),
                origins@,
                dir@,
                strs_view(values@),
                wrap_view(options),
                options.skip,
                origins.len() as int,
            ),
        },
{
    let ghost t = table_view(grid.cells@);
    let ghost vs = strs_view(values@);
    let ghost w = wrap_view(options);
    let mut g = grid;
    let mut i: usize = 0;
    while i < origins.len()
        invariant
            i <= origins.len(),
            vs == strs_view(values@),
            w == wrap_view(options),
            t == table_view(grid.cells@),
            g.cfg == grid.cfg,
            draw_lines(t, origins@, dir@, vs, w, options.skip, i as int) == Some(table_view(g.cells@)),
        decreases origins.len() - i,
    {
        let pts = match line_points(&g, origins[i], dir, values.len(), &options) {
            Ok(p) => p,
            Err(e) => {
                proof {
                    assert(vs.len() == values.len());
                    assert(draw_lines(t, origins@, dir@, vs, w, options.skip, i as int + 1) is None);
                    lemma_draw_none(t, origins@, dir@, vs, w, options.skip, i as int + 1, origins.len() as int);
                    lemma_draw_error_stays(t, origins@, dir@, vs, w, options.skip, i as int + 1, origins.len() as int);
                }
                return Err(e);
            },
        };
        let ghost u = table_view(g.cells@);
        proof {
            lemma_line_points_len(u, origins@[i as int], dir@, values.len() as nat, w, options.skip);
        }
        let mut k: usize = 0;
        while k < values.len() && k < pts.len()
            invariant
                k <= values.len(),
                vs == strs_view(values@),
                pts@.len() == values.len(),
                g.cfg == grid.cfg,
                table_view(g.cells@) == write_points(u, pts@, vs, k as int),
            decreases values.len() - k,
        {
            let v = values[k].clone();
            set_grid_cell(&mut g, pts[k], v);
            k += 1;
        }
        i += 1;
    }
    Ok(g)
}

/// `line(x, y, dir, values.., options..)` or `line(origin_call, dir,
/// values.., options..)`: the values drawn from the one origin.
pub open spec fn line_call_spec(t: Seq<Seq<Seq<char>>>, c: Call) -> Option<Seq<Seq<Seq<char>>>> {
    if c.args.len() < 3 {
        None
    } else if c.args@[0] is Call {
        match (point_expr_spec(t, c.args@[0]), expr_text(c.args@[1]), line_tail(c.args@, 2)) {
            (Some(o), Some(dir), Some((vals, w, k))) => draw_lines(t, seq![o], dir, vals, w, k, 1),
            _ => None,
        }
    } else {
        match (point_call_spec(t, c), expr_text(c.args@[2]), line_tail(c.args@, 3)) {
            (Some(o), Some(dir), Some((vals, w, k))) => draw_lines(t, seq![o], dir, vals, w, k, 1),
            _ => None,
        }
    }
}

/// The message of a `line` call that does not apply.
pub open spec fn line_call_error(t: Seq<Seq<Seq<char>>>, c: Call) -> Seq<char> {
    if c.args.len() < 3 {
        "line expects at least origin, direction, and one value"@
    } else if c.args@[0] is Call {
        if point_expr_spec(t, c.args@[0]) is None {
            point_expr_error(t, c.args@[0])
        } else if expr_text(c.args@[1]) is None {
            "nested call cannot be converted to string here"@
        } else {
            match line_tail(c.args@, 2) {
                Some((vals, w, k)) => draw_error(
                    t,
                    seq![point_expr_spec(t, c.args@[0])->0],
                    expr_text(c.args@[1])->0,
                    vals,
                    w,
                    k,
                    1,
                ),
                None => line_tail_error(c.args@, 2),
            }
        }
    } else {
        if point_call_spec(t, c) is None {
            point_call_error(t, c)
        } else if expr_text(c.args@[2]) is None {
            "nested call cannot be converted to string here"@
        } else {
            match line_tail(c.args@, 3) {
                Some((vals, w, k)) => draw_error(
                    t,
                    seq![point_call_spec(t, c)->0],
                    expr_text(c.args@[2])->0,
                    vals,
                    w,
                    k,
                    1,
                ),
                None => line_tail_error(c.args@, 3),
            }
        }
    }
}

/// `line`: writes the values from a point along a direction.
pub fn grid_line(grid: Grid, call: &Call) -> (r: Result<Grid, String>)
    ensures
        match r {
            Ok(g) => line_call_spec(table_view(grid.cells@), *call) == Some(table_view(g.cells@))
                && g.cfg == grid.cfg,
            Err(m) => line_call_spec(table_view(grid.cells@), *call) is None && m@
                == line_call_error(table_view(grid.cells@), *call),
        },
{
    if call.args.len() < 3 {
        return Err(String::from_str("line expects at least origin, direction, and one value"));
    }
    let by_call = match &call.args[0] {
        Expr::Call(_) => true,
        _ => false,
    };
    let (origin, dir_at, start) = if by_call {
        match resolve_point_expr(&grid, &call.args[0]) {
            Ok(o) => (o, 1usize, 2usize),
            Err(e) => return Err(e),
        }
    } else {
        match resolve_point_call(call, &grid) {
            Ok(o) => (o, 2usize, 3usize),
            Err(e) => return Err(e),
        }
    };
    let dir = match expr_to_string(&call.args[dir_at]) {
        Ok(d) => d,
        Err(e) => return Err(e),
    };
    let (values, options) = match parse_line_tail(&call.args, start) {
        Ok(v) => v,
        Err(e) => return Err(e),
    };
    let mut origins: Vec<(usize, usize)> = Vec::new();
    origins.push(origin);
    assert(origins@ =~= seq![origin]);
    apply_line_values(grid, origins, dir.as_str(), values, options)
}

} // verus!
