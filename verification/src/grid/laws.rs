//! Laws of the grid operations.
use vstd::prelude::*;

use crate::ast::{table_view, Call, Grid};
use crate::grid::coords::{in_grid, point_call_spec};
use crate::grid::line::{
    all_inside, dir_step, inside, is_centered, is_fill, line_call_error, line_call_spec,
    line_dir_of, line_points_spec, set_cell,
    straight, LineDir,
};
use crate::grid::mark::{mark_post, ray_marks};
use crate::grid::ops::{
    align_error, align_mode_of, align_spec, aligned, framed, get_error, get_spec, grid_result,
    lemma_row_width, mirror_rows, pad_args_error, pad_rows, pad_spec, reverse_error, reverse_spec,
    rotate_error, rotate_spec, row_width, set_error, transpose_error, transpose_spec,
    set_spec, turned, AlignMode, Turn,
};
use crate::grid::{grid_call_post, grid_rows};
use crate::table::{char_cells, raw_lines, render_rows};
use crate::text::{join_spec, lemma_lines_concat, lemma_lines_single, lines_spec, strip_cr, trim_end_cr};
use crate::text::opt_view;
use crate::util::expr_text;

verus! {

/// Every row has `w` cells.
pub open spec fn rectangular(t: Seq<Seq<Seq<char>>>, w: nat) -> bool {
    forall|y: int| 0 <= y < t.len() ==> #[trigger] t[y].len() == w
}

/// A rectangular grid with rows is exactly as wide as its rows.
pub proof fn lemma_rect_width(t: Seq<Seq<Seq<char>>>, w: nat)
    requires
        rectangular(t, w),
        t.len() > 0,
    ensures
        row_width(t) == w,
{
    lemma_row_width(t);
    let y = choose|y: int| 0 <= y < t.len() && #[trigger] t[y].len() == row_width(t);
    assert(t[y].len() == w);
}

/// A moved grid is rectangular: `turned_cols` cells in every row.
proof fn lemma_turned_rect(t: Seq<Seq<Seq<char>>>, m: Turn)
    ensures
        rectangular(turned(t, m), crate::grid::ops::turned_cols(m, t.len() as int, row_width(t) as int) as nat),
        turned(t, m).len() == crate::grid::ops::turned_rows(m, t.len() as int, row_width(t) as int),
{
}

/// Reversing each row twice gives the grid back.
pub proof fn law_mirror_twice(t: Seq<Seq<Seq<char>>>)
    ensures
        mirror_rows(mirror_rows(t)) == t,
{
    assert forall|y: int| 0 <= y < t.len() implies #[trigger] mirror_rows(mirror_rows(t))[y] == t[y] by {
        assert(t[y].reverse().reverse() =~= t[y]);
    }
    assert(mirror_rows(mirror_rows(t)) =~= t);
}

/// Reversing both ways twice gives the grid back.
pub proof fn law_reverse_both_twice(t: Seq<Seq<Seq<char>>>)
    ensures
        mirror_rows(mirror_rows(t).reverse()).reverse() == t,
{
    let u = mirror_rows(t).reverse();
    assert(mirror_rows(u).reverse() =~= mirror_rows(mirror_rows(t)));
    law_mirror_twice(t);
}

/// Transposing a rectangular grid twice gives it back (its rows must not
/// be empty: a grid of empty rows transposes to no rows).
pub proof fn law_transpose_twice(t: Seq<Seq<Seq<char>>>, w: nat)
    requires
        rectangular(t, w),
        w > 0,
    ensures
        turned(turned(t, Turn::Transpose), Turn::Transpose) == t,
{
    let u = turned(t, Turn::Transpose);
    if t.len() > 0 {
        lemma_rect_width(t, w);
        lemma_turned_rect(t, Turn::Transpose);
        lemma_rect_width(u, t.len());
        assert forall|y: int| 0 <= y < t.len() implies #[trigger] turned(u, Turn::Transpose)[y] =~= t[y] by {
        }
    } else {
        assert(row_width(t) == 0);
    }
    assert(turned(u, Turn::Transpose) =~= t);
}

/// Turning a rectangular grid right and then left gives it back.
pub proof fn law_rotate_right_then_left(t: Seq<Seq<Seq<char>>>, w: nat)
    requires
        rectangular(t, w),
        w > 0,
    ensures
        turned(turned(t, Turn::Right), Turn::Left) == t,
{
    let u = turned(t, Turn::Right);
    if t.len() > 0 {
        lemma_rect_width(t, w);
        lemma_turned_rect(t, Turn::Right);
        lemma_rect_width(u, t.len());
        assert forall|y: int| 0 <= y < t.len() implies #[trigger] turned(u, Turn::Left)[y] =~= t[y] by {
        }
    } else {
        assert(row_width(t) == 0);
    }
    assert(turned(u, Turn::Left) =~= t);
}

/// Turning a rectangular grid left and then right gives it back.
pub proof fn law_rotate_left_then_right(t: Seq<Seq<Seq<char>>>, w: nat)
    requires
        rectangular(t, w),
        w > 0,
    ensures
        turned(turned(t, Turn::Left), Turn::Right) == t,
{
    let u = turned(t, Turn::Left);
    if t.len() > 0 {
        lemma_rect_width(t, w);
        lemma_turned_rect(t, Turn::Left);
        lemma_rect_width(u, t.len());
        assert forall|y: int| 0 <= y < t.len() implies #[trigger] turned(u, Turn::Right)[y] =~= t[y] by {
        }
    } else {
        assert(row_width(t) == 0);
    }
    assert(turned(u, Turn::Right) =~= t);
}

/// A half turn of a rectangular grid is reversing it both ways.
pub proof fn law_half_turn_is_reverse_both(t: Seq<Seq<Seq<char>>>, w: nat)
    requires
        rectangular(t, w),
    ensures
        turned(t, Turn::Half) == mirror_rows(t).reverse(),
{
    if t.len() > 0 {
        lemma_rect_width(t, w);
        assert forall|y: int| 0 <= y < t.len() implies #[trigger] turned(t, Turn::Half)[y] =~= mirror_rows(t).reverse()[y] by {
        }
    }
    assert(turned(t, Turn::Half) =~= mirror_rows(t).reverse());
}

/// Transposing a rectangular grid and turning it right reverses each row.
pub proof fn law_transpose_then_right_mirrors(t: Seq<Seq<Seq<char>>>, w: nat)
    requires
        rectangular(t, w),
        w > 0,
    ensures
        turned(turned(t, Turn::Transpose), Turn::Right) == mirror_rows(t),
{
    let u = turned(t, Turn::Transpose);
    if t.len() > 0 {
        lemma_rect_width(t, w);
        lemma_turned_rect(t, Turn::Transpose);
        lemma_rect_width(u, t.len());
        assert forall|y: int| 0 <= y < t.len() implies #[trigger] turned(u, Turn::Right)[y] =~= mirror_rows(t)[y] by {
        }
    } else {
        assert(row_width(t) == 0);
    }
    assert(turned(u, Turn::Right) =~= mirror_rows(t));
}

/// Writing a cell inside the grid and reading it back gives the value
/// written; every other cell and the shape stay as they were.
pub proof fn law_set_cell_then_read(t: Seq<Seq<Seq<char>>>, p: (usize, usize), v: Seq<char>)
    requires
        in_grid(t, p),
    ensures
        set_cell(t, p, v)[p.1 as int][p.0 as int] == v,
        set_cell(t, p, v).len() == t.len(),
        forall|y: int| 0 <= y < t.len() ==> #[trigger] set_cell(t, p, v)[y].len() == t[y].len(),
        forall|y: int, x: int|
            0 <= y < t.len() && 0 <= x < t[y].len() && !(y == p.1 && x == p.0) ==> #[trigger] set_cell(
                t,
                p,
                v,
            )[y][x] == t[y][x],
{
}

/// `get(x, y)` after `set(x, y, v)` gives `v`.
pub proof fn law_get_after_set(t: Seq<Seq<Seq<char>>>, set_call: Call, get_call: Call)
    requires
        set_call.args.len() == 3,
        get_call.args.len() == 2,
        get_call.args@[0] == set_call.args@[0],
        get_call.args@[1] == set_call.args@[1],
        set_spec(t, set_call) is Some,
    ensures
        get_spec(set_spec(t, set_call)->0, get_call) == Some(seq![seq![expr_text(set_call.args@[2])->0]]),
{
    let p = point_call_spec(t, set_call)->0;
    let v = expr_text(set_call.args@[2])->0;
    let u = set_cell(t, p, v);
    assert(in_grid(t, p));
    law_set_cell_then_read(t, p, v);
    assert(point_call_spec(u, get_call) == point_call_spec(t, set_call));
}

/// Filling rows makes the grid rectangular and keeps every cell in place.
pub proof fn law_pad_rows_rectangular(t: Seq<Seq<Seq<char>>>, p: Seq<char>)
    ensures
        rectangular(pad_rows(t, p), row_width(t)),
        pad_rows(t, p).len() == t.len(),
        forall|y: int, x: int|
            0 <= y < t.len() && 0 <= x < t[y].len() ==> #[trigger] pad_rows(t, p)[y][x] == t[y][x],
{
    lemma_row_width(t);
}

/// Framing gives a rectangle `top + h + bottom` high and `left + w +
/// right` wide, with every cell moved by `(left, top)`.
pub proof fn law_frame_shape(
    t: Seq<Seq<Seq<char>>>,
    top: nat,
    bottom: nat,
    left: nat,
    right: nat,
    p: Seq<char>,
)
    ensures
        framed(t, top, bottom, left, right, p).len() == top + t.len() + bottom,
        rectangular(framed(t, top, bottom, left, right, p), left + row_width(t) + right),
        forall|y: int, x: int|
            0 <= y < t.len() && 0 <= x < t[y].len() ==> #[trigger] framed(t, top, bottom, left, right, p)[top
                + y][left + x] == t[y][x],
{
    lemma_row_width(t);
    let f = framed(t, top, bottom, left, right, p);
    assert forall|y: int| 0 <= y < f.len() implies #[trigger] f[y].len() == left + row_width(t) + right by {
        if top <= y < top + t.len() {
            assert(pad_rows(t, p)[y - top].len() == row_width(t));
        }
    }
    assert forall|y: int, x: int| 0 <= y < t.len() && 0 <= x < t[y].len() implies #[trigger] f[top + y][left + x] == t[y][x] by {
        assert(f[top + y] == crate::grid::ops::repeat(p, left) + pad_rows(t, p)[y] + crate::grid::ops::repeat(p, right));
        assert(pad_rows(t, p)[y][x] == t[y][x]);
    }
}

/// Where an aligned row's own cells start: after the fill on the left.
pub open spec fn align_shift(len: nat, w: nat, mode: AlignMode) -> int {
    let m = if len < w {
        w - len
    } else {
        0
    };
    match mode {
        AlignMode::Left => 0,
        AlignMode::Center => m / 2,
        AlignMode::Right => m,
    }
}

/// Aligning gives each selected row the widest row's length and keeps its
/// cells in order (shifted by the fill on the left); other rows stay.
pub proof fn law_align_shape(t: Seq<Seq<Seq<char>>>, mode: AlignMode, lo: int, hi: int, p: Seq<char>)
    ensures
        aligned(t, mode, lo, hi, p).len() == t.len(),
        forall|y: int| lo <= y < hi && 0 <= y < t.len() ==> #[trigger] aligned(t, mode, lo, hi, p)[y].len()
            == row_width(t),
        forall|y: int| 0 <= y < t.len() && !(lo <= y < hi) ==> #[trigger] aligned(t, mode, lo, hi, p)[y]
            == t[y],
        forall|y: int|
            #![trigger aligned(t, mode, lo, hi, p)[y]]
            lo <= y < hi && 0 <= y < t.len() ==> aligned(t, mode, lo, hi, p)[y].subrange(
                align_shift(t[y].len(), row_width(t), mode),
                align_shift(t[y].len(), row_width(t), mode) + t[y].len(),
            ) == t[y],
{
    lemma_row_width(t);
    assert forall|y: int|
        #![trigger aligned(t, mode, lo, hi, p)[y]]
        lo <= y < hi && 0 <= y < t.len() implies aligned(t, mode, lo, hi, p)[y].subrange(
            align_shift(t[y].len(), row_width(t), mode),
            align_shift(t[y].len(), row_width(t), mode) + t[y].len(),
        ) == t[y] by {
        let sh = align_shift(t[y].len(), row_width(t), mode);
        assert(aligned(t, mode, lo, hi, p)[y].subrange(sh, sh + t[y].len()) =~= t[y]);
    }
}

/// Marking along rays leaves the origins as they were.
pub proof fn law_mark_keeps_origins(
    t: Seq<Seq<Seq<char>>>,
    os: Seq<(usize, usize)>,
    dirs: Seq<(int, int)>,
    put: Seq<char>,
    k: int,
)
    requires
        0 <= k < os.len(),
        in_grid(t, os[k]),
    ensures
        ray_marks(t, os, dirs, put)[os[k].1 as int][os[k].0 as int] == t[os[k].1 as int][os[k].0 as int],
{
    let p = os[k];
    assert(os.contains((p.0 as int as usize, p.1 as int as usize)));
}

/// Cells of one character each, no newline among them, and no row ending
/// in a carriage return: a character grid that renders and reads back
/// unchanged.
pub open spec fn char_grid(t: Seq<Seq<Seq<char>>>) -> bool {
    &&& forall|y: int, x: int| 0 <= y < t.len() && 0 <= x < t[y].len() ==> #[trigger] t[y][x].len() == 1
    &&& forall|y: int, x: int| 0 <= y < t.len() && 0 <= x < t[y].len() ==> #[trigger] t[y][x][0] != '\n'
    &&& forall|y: int| 0 <= y < t.len() && t[y].len() > 0 ==> #[trigger] t[y][t[y].len() - 1][0] != '\r'
}

proof fn lemma_join_cells(row: Seq<Seq<char>>)
    requires
        forall|x: int| 0 <= x < row.len() ==> #[trigger] row[x].len() == 1,
    ensures
        join_spec(row, seq![]).len() == row.len(),
        forall|x: int| 0 <= x < row.len() ==> #[trigger] join_spec(row, seq![])[x] == row[x][0],
    decreases row.len(),
{
    if row.len() > 0 {
        let init = row.drop_last();
        assert forall|x: int| 0 <= x < init.len() implies #[trigger] init[x].len() == 1 by {
            assert(init[x] == row[x]);
        }
        lemma_join_cells(init);
        if row.len() == 1 {
            assert(join_spec(row, seq![]) == row[0]);
        } else {
            let j = join_spec(row, seq![]);
            assert(j == join_spec(init, seq![]) + Seq::<char>::empty() + row.last());
            assert forall|x: int| 0 <= x < row.len() implies #[trigger] j[x] == row[x][0] by {
                if x < init.len() {
                    assert(init[x] == row[x]);
                }
            }
        }
    }
}

proof fn lemma_render_char_lines(t: Seq<Seq<Seq<char>>>)
    requires
        char_grid(t),
    ensures
        lines_spec(render_rows(t, seq![], seq!['\n'])) == t.map_values(
            |row: Seq<Seq<char>>| join_spec(row, seq![]),
        ),
        render_rows(t, seq![], seq!['\n']).len() == 0 || render_rows(t, seq![], seq!['\n']).last()
            == '\n',
    decreases t.len(),
{
    if t.len() > 0 {
        let init = t.drop_last();
        let y0 = t.len() - 1;
        let row = t[y0];
        assert(char_grid(init)) by {
            assert forall|y: int, x: int| 0 <= y < init.len() && 0 <= x < init[y].len() implies #[trigger] init[y][x].len() == 1 by {
                assert(init[y] == t[y]);
            }
            assert forall|y: int, x: int| 0 <= y < init.len() && 0 <= x < init[y].len() implies #[trigger] init[y][x][0] != '\n' by {
                assert(init[y] == t[y]);
            }
            assert forall|y: int| 0 <= y < init.len() && init[y].len() > 0 implies #[trigger] init[y][init[y].len() - 1][0] != '\r' by {
                assert(init[y] == t[y]);
            }
        }
        lemma_render_char_lines(init);
        assert forall|x: int| 0 <= x < row.len() implies #[trigger] row[x].len() == 1 by {
            assert(t[y0][x].len() == 1);
        }
        lemma_join_cells(row);
        let line = join_spec(row, seq![]);
        assert(!line.contains('\n')) by {
            if line.contains('\n') {
                let j = choose|j: int| 0 <= j < line.len() && line[j] == '\n';
                assert(t[y0][j][0] != '\n');
            }
        }
        assert(strip_cr(line) == line) by {
            if line.len() > 0 {
                assert(t[y0][row.len() - 1][0] != '\r');
            }
        }
        let before = render_rows(init, seq![], seq!['\n']);
        assert(render_rows(t, seq![], seq!['\n']) == before + line + seq!['\n']);
        assert(before + line + seq!['\n'] =~= before + (line + seq!['\n']));
        lemma_lines_concat(before, line + seq!['\n']);
        lemma_lines_single(line);
        assert(t.map_values(|row: Seq<Seq<char>>| join_spec(row, seq![])) =~= init.map_values(
            |row: Seq<Seq<char>>| join_spec(row, seq![]),
        ).push(line));
    }
}

/// A character grid rendered with no separator between cells and a
/// newline after each row reads back, one cell per character, as the same
/// grid (empty rows included).
pub proof fn law_render_then_parse_grid(t: Seq<Seq<Seq<char>>>)
    requires
        char_grid(t),
    ensures
        grid_rows(render_rows(t, seq![], seq!['\n']), seq!['\n'], None) == t,
{
    let text = render_rows(t, seq![], seq!['\n']);
    lemma_render_char_lines(t);
    crate::text::law_unescape_plain(seq!['\n']);
    let lines = t.map_values(|row: Seq<Seq<char>>| join_spec(row, seq![]));
    assert(raw_lines(text, seq!['\n']) =~= lines) by {
        assert forall|y: int| 0 <= y < t.len() implies #[trigger] trim_end_cr(lines[y]) == lines[y] by {
            let row = t[y];
            assert forall|x: int| 0 <= x < row.len() implies #[trigger] row[x].len() == 1 by {
                assert(t[y][x].len() == 1);
            }
            lemma_join_cells(row);
            if lines[y].len() > 0 {
                assert(t[y][row.len() - 1][0] != '\r');
            }
        }
    }
    assert forall|y: int| 0 <= y < t.len() implies #[trigger] char_cells(lines[y]) == t[y] by {
        let row = t[y];
        assert forall|x: int| 0 <= x < row.len() implies #[trigger] row[x].len() == 1 by {
            assert(t[y][x].len() == 1);
        }
        lemma_join_cells(row);
        assert forall|x: int| 0 <= x < row.len() implies #[trigger] char_cells(lines[y])[x] == row[x] by {
            assert(row[x] =~= seq![row[x][0]]);
        }
        assert(char_cells(lines[y]) =~= row);
    }
    assert(grid_rows(text, seq!['\n'], None) =~= t);
}

/// Two grids that read the same: equal cells and separators, as text.
pub open spec fn same_grid(a: Grid, b: Grid) -> bool {
    &&& table_view(a.cells@) == table_view(b.cells@)
    &&& opt_view(a.cfg.fs) == opt_view(b.cfg.fs)
    &&& a.cfg.rs@ == b.cfg.rs@
    &&& a.cfg.ofs@ == b.cfg.ofs@
    &&& a.cfg.ors@ == b.cfg.ors@
}

/// A grid call gives grids that read the same for grids that read the
/// same.
pub proof fn law_grid_call_deterministic(a: Grid, b: Grid, call: Call, x: Grid, y: Grid)
    requires
        same_grid(a, b),
        grid_call_post(a, call, Ok(x)),
        grid_call_post(b, call, Ok(y)),
    ensures
        same_grid(x, y),
{
}

/// A grid call cannot succeed on a grid and fail on a grid that reads the
/// same.
pub proof fn law_grid_call_ok_or_err(a: Grid, b: Grid, call: Call, x: Grid, m: String)
    requires
        same_grid(a, b),
    ensures
        !(grid_call_post(a, call, Ok(x)) && grid_call_post(b, call, Err(m))),
{
}

/// A grid call that fails on grids that read the same fails with the same
/// message.
pub proof fn law_grid_call_same_error(a: Grid, b: Grid, call: Call, m1: String, m2: String)
    requires
        same_grid(a, b),
        grid_call_post(a, call, Err(m1)),
        grid_call_post(b, call, Err(m2)),
    ensures
        m1@ == m2@,
{
}

/// The column `k` steps of `dx` from the origin.
pub open spec fn step_x(o: (usize, usize), dx: int, k: int) -> int {
    o.0 + k * dx
}

/// The row `k` steps of `dy` from the origin.
pub open spec fn step_y(o: (usize, usize), dy: int, k: int) -> int {
    o.1 + k * dy
}

/// A straight one-way line puts its `k`-th value (from 0) `k` steps from
/// the origin: `right`/`r` one column right per step, `left`/`l` one column
/// left, `up`/`u` one row up, `down`/`d` one row down, `ur` one column right
/// and one row up, `ul` left and up, `dr` right and down, `dl` left and down
/// (rows grow downwards). It fits exactly when every such point lies inside
/// the grid.
pub proof fn law_one_way_line(
    t: Seq<Seq<Seq<char>>>,
    o: (usize, usize),
    n: Seq<char>,
    dx: int,
    dy: int,
    count: nat,
)
    requires
        ((n == "right"@ || n == "r"@) && dx == 1 && dy == 0) || ((n == "left"@ || n == "l"@) && dx
            == -1 && dy == 0) || ((n == "up"@ || n == "u"@) && dx == 0 && dy == -1) || ((n
            == "down"@ || n == "d"@) && dx == 0 && dy == 1) || (n == "ur"@ && dx == 1 && dy == -1)
            || (n == "ul"@ && dx == -1 && dy == -1) || (n == "dr"@ && dx == 1 && dy == 1) || (n
            == "dl"@ && dx == -1 && dy == 1),
        t.len() <= usize::MAX,
        forall|y: int| 0 <= y < t.len() ==> #[trigger] t[y].len() <= usize::MAX,
    ensures
        line_points_spec(t, o, n, count, None, 0) is Some <==> forall|k: int|
            0 <= k < count ==> inside(t, #[trigger] step_x(o, dx, k + 0), step_y(o, dy, k + 0)),
        line_points_spec(t, o, n, count, None, 0) matches Some(pts) ==> pts.len() == count
            && forall|k: int|
            0 <= k < count ==> #[trigger] pts[k].0 as int == o.0 + k * dx && pts[k].1 as int == o.1 + k
                * dy,
{
    lemma_line_dirs();
    let d = line_dir_of(n)->0;
    assert(line_dir_of(n) is Some && !is_fill(d) && !is_centered(d) && dir_step(d) == (dx, dy));
    lemma_steps_are_products(o, dx, dy, 0, count);
    let pts0 = straight(o, (dx, dy), 0, count);
    assert forall|k: int| 0 <= k < count implies #[trigger] pts0[k] == (
        step_x(o, dx, k),
        step_y(o, dy, k),
    ) by {
        assert(0 + k == k);
    }
    assert(line_points_spec(t, o, n, count, None, 0) == all_inside(t, pts0));
    lemma_all_inside_steps(t, o, dx, dy, 0, count);
}

/// The points `first + k` steps of `(dx, dy)` from the origin, for `k` below
/// `count`, all lie inside exactly when `all_inside` gives them, and it gives
/// them as those positions.
proof fn lemma_all_inside_steps(
    t: Seq<Seq<Seq<char>>>,
    o: (usize, usize),
    dx: int,
    dy: int,
    first: int,
    count: nat,
)
    requires
        -1 <= dx <= 1,
        -1 <= dy <= 1,
        t.len() <= usize::MAX,
        forall|y: int| 0 <= y < t.len() ==> #[trigger] t[y].len() <= usize::MAX,
    ensures
        all_inside(t, straight(o, (dx, dy), first, count)) is Some <==> forall|k: int|
            0 <= k < count ==> inside(t, #[trigger] step_x(o, dx, k + first), step_y(o, dy, k + first)),
        all_inside(t, straight(o, (dx, dy), first, count)) matches Some(pts) ==> pts.len() == count
            && forall|k: int|
            0 <= k < count ==> #[trigger] pts[k].0 as int == step_x(o, dx, k + first) && pts[k].1 as int
                == step_y(o, dy, k + first),
{
    lemma_steps_are_products(o, dx, dy, first, count);
    let pts0 = straight(o, (dx, dy), first, count);
    assert forall|k: int| 0 <= k < count implies #[trigger] pts0[k] == (
        step_x(o, dx, k + first),
        step_y(o, dy, k + first),
    ) by {
        assert(first + k == k + first);
    }
    if forall|k: int|
        0 <= k < count ==> inside(t, #[trigger] step_x(o, dx, k + first), step_y(o, dy, k + first)) {
        assert forall|i: int| 0 <= i < pts0.len() implies inside(t, #[trigger] pts0[i].0, pts0[i].1) by {
            assert(pts0[i] == (step_x(o, dx, i + first), step_y(o, dy, i + first)));
        }
    }
    if all_inside(t, pts0) is Some {
        assert forall|k: int| 0 <= k < count implies inside(
            t,
            #[trigger] step_x(o, dx, k + first),
            step_y(o, dy, k + first),
        ) by {
            assert(inside(t, pts0[k].0, pts0[k].1));
        }
        let pts = all_inside(t, pts0)->0;
        assert forall|k: int| 0 <= k < count implies #[trigger] pts[k].0 as int == step_x(
            o,
            dx,
            k + first,
        ) && pts[k].1 as int == step_y(o, dy, k + first) by {
            assert(inside(t, pts0[k].0, pts0[k].1));
            assert(t[pts0[k].1].len() <= usize::MAX);
            assert(pts[k] == (pts0[k].0 as usize, pts0[k].1 as usize));
        }
    }
}

/// A centred line of an odd number of values puts its `k`-th value (from 0)
/// `k - count / 2` steps from the origin, the middle one on the origin:
/// `horiz`/`h` along the row, `vert`/`v` along the column, `diag_dr`/`xr`
/// down and right, `diag_dl`/`xl` down and left. An even number of values
/// never fits.
pub proof fn law_centred_line(
    t: Seq<Seq<Seq<char>>>,
    o: (usize, usize),
    n: Seq<char>,
    dx: int,
    dy: int,
    count: nat,
)
    requires
        ((n == "horiz"@ || n == "h"@) && dx == 1 && dy == 0) || ((n == "vert"@ || n == "v"@) && dx
            == 0 && dy == 1) || ((n == "diag_dr"@ || n == "xr"@) && dx == 1 && dy == 1) || ((n
            == "diag_dl"@ || n == "xl"@) && dx == -1 && dy == 1),
        t.len() <= usize::MAX,
        forall|y: int| 0 <= y < t.len() ==> #[trigger] t[y].len() <= usize::MAX,
    ensures
        count % 2 == 0 ==> line_points_spec(t, o, n, count, None, 0) is None,
        count % 2 == 1 ==> (line_points_spec(t, o, n, count, None, 0) is Some <==> forall|k: int|
            0 <= k < count ==> inside(
                t,
                #[trigger] step_x(o, dx, k - count / 2),
                step_y(o, dy, k - count / 2),
            )),
        line_points_spec(t, o, n, count, None, 0) matches Some(pts) ==> pts.len() == count
            && forall|k: int|
            0 <= k < count ==> #[trigger] pts[k].0 as int == o.0 + (k - count / 2) * dx
                && pts[k].1 as int == o.1 + (k - count / 2) * dy,
{
    lemma_line_dirs();
    let d = line_dir_of(n)->0;
    assert(line_dir_of(n) is Some && !is_fill(d) && is_centered(d) && dir_step(d) == (dx, dy));
    let first = -((count / 2) as int);
    lemma_steps_are_products(o, dx, dy, first, count);
    let pts0 = straight(o, (dx, dy), first, count);
    assert forall|k: int| 0 <= k < count implies #[trigger] pts0[k] == (
        step_x(o, dx, k - count / 2),
        step_y(o, dy, k - count / 2),
    ) by {
        assert(first + k == k - count / 2);
    }
    if count % 2 == 1 {
        assert(line_points_spec(t, o, n, count, None, 0) == all_inside(t, pts0));
    } else {
        assert(line_points_spec(t, o, n, count, None, 0) is None);
    }
    lemma_all_inside_steps(t, o, dx, dy, first, count);
    assert forall|k: int| 0 <= k < count implies #[trigger] step_x(o, dx, k - count / 2) == step_x(
        o,
        dx,
        k + first,
    ) && step_y(o, dy, k - count / 2) == step_y(o, dy, k + first) by {
        assert(k - count / 2 == k + first);
    }
    if count % 2 == 1 {
        if forall|k: int|
            0 <= k < count ==> inside(
                t,
                #[trigger] step_x(o, dx, k - count / 2),
                step_y(o, dy, k - count / 2),
            ) {
            assert forall|k: int| 0 <= k < count implies inside(
                t,
                #[trigger] step_x(o, dx, k + first),
                step_y(o, dy, k + first),
            ) by {
                assert(inside(t, step_x(o, dx, k - count / 2), step_y(o, dy, k - count / 2)));
            }
        }
        if line_points_spec(t, o, n, count, None, 0) is Some {
            assert forall|k: int| 0 <= k < count implies inside(
                t,
                #[trigger] step_x(o, dx, k - count / 2),
                step_y(o, dy, k - count / 2),
            ) by {
                assert(inside(t, step_x(o, dx, k + first), step_y(o, dy, k + first)));
            }
            let pts = line_points_spec(t, o, n, count, None, 0)->0;
            assert forall|k: int| 0 <= k < count implies #[trigger] pts[k].0 as int == o.0 + (k
                - count / 2) * dx && pts[k].1 as int == o.1 + (k - count / 2) * dy by {
                assert(pts[k].0 as int == step_x(o, dx, k + first));
            }
        }
    }
}

proof fn lemma_steps_are_products(o: (usize, usize), dx: int, dy: int, first: int, count: nat)
    requires
        -1 <= dx <= 1,
        -1 <= dy <= 1,
    ensures
        forall|s: int|
            0 <= s < count ==> #[trigger] crate::grid::line::moved(o.0 as int, dx, first + s) == o.0
                + (first + s) * dx && crate::grid::line::moved(o.1 as int, dy, first + s) == o.1
                + (first + s) * dy,
{
    assert forall|s: int| 0 <= s < count implies #[trigger] crate::grid::line::moved(
        o.0 as int,
        dx,
        first + s,
    ) == o.0 + (first + s) * dx && crate::grid::line::moved(o.1 as int, dy, first + s) == o.1 + (
    first + s) * dy by {
        let q = first + s;
        if dx == 1 {
            assert(q * dx == q);
        } else if dx == -1 {
            assert(q * dx == -q);
        } else {
            assert(q * dx == 0);
        }
        if dy == 1 {
            assert(q * dy == q);
        } else if dy == -1 {
            assert(q * dy == -q);
        } else {
            assert(q * dy == 0);
        }
    }
}

proof fn lemma_line_dirs()
    ensures
        line_dir_of("right"@) == Some(LineDir::Right),
        line_dir_of("r"@) == Some(LineDir::Right),
        line_dir_of("left"@) == Some(LineDir::Left),
        line_dir_of("l"@) == Some(LineDir::Left),
        line_dir_of("up"@) == Some(LineDir::Up),
        line_dir_of("u"@) == Some(LineDir::Up),
        line_dir_of("down"@) == Some(LineDir::Down),
        line_dir_of("d"@) == Some(LineDir::Down),
        line_dir_of("ur"@) == Some(LineDir::UpRight),
        line_dir_of("ul"@) == Some(LineDir::UpLeft),
        line_dir_of("dr"@) == Some(LineDir::DownRight),
        line_dir_of("dl"@) == Some(LineDir::DownLeft),
        line_dir_of("horiz"@) == Some(LineDir::Horiz),
        line_dir_of("h"@) == Some(LineDir::Horiz),
        line_dir_of("vert"@) == Some(LineDir::Vert),
        line_dir_of("v"@) == Some(LineDir::Vert),
        line_dir_of("diag_dr"@) == Some(LineDir::DiagDownRight),
        line_dir_of("xr"@) == Some(LineDir::DiagDownRight),
        line_dir_of("diag_dl"@) == Some(LineDir::DiagDownLeft),
        line_dir_of("xl"@) == Some(LineDir::DiagDownLeft),
{
    lemma_line_names();
    assert("r"@ != "right"@) by {
        assert("r"@.len() != "right"@.len());
    }
    assert("left"@ != "right"@) by {
        assert("left"@.len() != "right"@.len());
    }
    assert("left"@ != "r"@) by {
        assert("left"@.len() != "r"@.len());
    }
    assert("l"@ != "right"@) by {
        assert("l"@.len() != "right"@.len());
    }
    assert("l"@ != "r"@) by {
        assert("l"@[0] != "r"@[0]);
    }
    assert("l"@ != "left"@) by {
        assert("l"@.len() != "left"@.len());
    }
    assert("up"@ != "right"@) by {
        assert("up"@.len() != "right"@.len());
    }
    assert("up"@ != "r"@) by {
        assert("up"@.len() != "r"@.len());
    }
    assert("up"@ != "left"@) by {
        assert("up"@.len() != "left"@.len());
    }
    assert("up"@ != "l"@) by {
        assert("up"@.len() != "l"@.len());
    }
    assert("u"@ != "right"@) by {
        assert("u"@.len() != "right"@.len());
    }
    assert("u"@ != "r"@) by {
        assert("u"@[0] != "r"@[0]);
    }
    assert("u"@ != "left"@) by {
        assert("u"@.len() != "left"@.len());
    }
    assert("u"@ != "l"@) by {
        assert("u"@[0] != "l"@[0]);
    }
    assert("u"@ != "up"@) by {
        assert("u"@.len() != "up"@.len());
    }
    assert("down"@ != "right"@) by {
        assert("down"@.len() != "right"@.len());
    }
    assert("down"@ != "r"@) by {
        assert("down"@.len() != "r"@.len());
    }
    assert("down"@ != "left"@) by {
        assert("down"@[0] != "left"@[0]);
    }
    assert("down"@ != "l"@) by {
        assert("down"@.len() != "l"@.len());
    }
    assert("down"@ != "up"@) by {
        assert("down"@.len() != "up"@.len());
    }
    assert("down"@ != "u"@) by {
        assert("down"@.len() != "u"@.len());
    }
    assert("d"@ != "right"@) by {
        assert("d"@.len() != "right"@.len());
    }
    assert("d"@ != "r"@) by {
        assert("d"@[0] != "r"@[0]);
    }
    assert("d"@ != "left"@) by {
        assert("d"@.len() != "left"@.len());
    }
    assert("d"@ != "l"@) by {
        assert("d"@[0] != "l"@[0]);
    }
    assert("d"@ != "up"@) by {
        assert("d"@.len() != "up"@.len());
    }
    assert("d"@ != "u"@) by {
        assert("d"@[0] != "u"@[0]);
    }
    assert("d"@ != "down"@) by {
        assert("d"@.len() != "down"@.len());
    }
    assert("ur"@ != "right"@) by {
        assert("ur"@.len() != "right"@.len());
    }
    assert("ur"@ != "r"@) by {
        assert("ur"@.len() != "r"@.len());
    }
    assert("ur"@ != "left"@) by {
        assert("ur"@.len() != "left"@.len());
    }
    assert("ur"@ != "l"@) by {
        assert("ur"@.len() != "l"@.len());
    }
    assert("ur"@ != "up"@) by {
        assert("ur"@[1] != "up"@[1]);
    }
    assert("ur"@ != "u"@) by {
        assert("ur"@.len() != "u"@.len());
    }
    assert("ur"@ != "down"@) by {
        assert("ur"@.len() != "down"@.len());
    }
    assert("ur"@ != "d"@) by {
        assert("ur"@.len() != "d"@.len());
    }
    assert("ul"@ != "right"@) by {
        assert("ul"@.len() != "right"@.len());
    }
    assert("ul"@ != "r"@) by {
        assert("ul"@.len() != "r"@.len());
    }
    assert("ul"@ != "left"@) by {
        assert("ul"@.len() != "left"@.len());
    }
    assert("ul"@ != "l"@) by {
        assert("ul"@.len() != "l"@.len());
    }
    assert("ul"@ != "up"@) by {
        assert("ul"@[1] != "up"@[1]);
    }
    assert("ul"@ != "u"@) by {
        assert("ul"@.len() != "u"@.len());
    }
    assert("ul"@ != "down"@) by {
        assert("ul"@.len() != "down"@.len());
    }
    assert("ul"@ != "d"@) by {
        assert("ul"@.len() != "d"@.len());
    }
    assert("ul"@ != "ur"@) by {
        assert("ul"@[1] != "ur"@[1]);
    }
    assert("dr"@ != "right"@) by {
        assert("dr"@.len() != "right"@.len());
    }
    assert("dr"@ != "r"@) by {
        assert("dr"@.len() != "r"@.len());
    }
    assert("dr"@ != "left"@) by {
        assert("dr"@.len() != "left"@.len());
    }
    assert("dr"@ != "l"@) by {
        assert("dr"@.len() != "l"@.len());
    }
    assert("dr"@ != "up"@) by {
        assert("dr"@[0] != "up"@[0]);
    }
    assert("dr"@ != "u"@) by {
        assert("dr"@.len() != "u"@.len());
    }
    assert("dr"@ != "down"@) by {
        assert("dr"@.len() != "down"@.len());
    }
    assert("dr"@ != "d"@) by {
        assert("dr"@.len() != "d"@.len());
    }
    assert("dr"@ != "ur"@) by {
        assert("dr"@[0] != "ur"@[0]);
    }
    assert("dr"@ != "ul"@) by {
        assert("dr"@[0] != "ul"@[0]);
    }
    assert("dl"@ != "right"@) by {
        assert("dl"@.len() != "right"@.len());
    }
    assert("dl"@ != "r"@) by {
        assert("dl"@.len() != "r"@.len());
    }
    assert("dl"@ != "left"@) by {
        assert("dl"@.len() != "left"@.len());
    }
    assert("dl"@ != "l"@) by {
        assert("dl"@.len() != "l"@.len());
    }
    assert("dl"@ != "up"@) by {
        assert("dl"@[0] != "up"@[0]);
    }
    assert("dl"@ != "u"@) by {
        assert("dl"@.len() != "u"@.len());
    }
    assert("dl"@ != "down"@) by {
        assert("dl"@.len() != "down"@.len());
    }
    assert("dl"@ != "d"@) by {
        assert("dl"@.len() != "d"@.len());
    }
    assert("dl"@ != "ur"@) by {
        assert("dl"@[0] != "ur"@[0]);
    }
    assert("dl"@ != "ul"@) by {
        assert("dl"@[0] != "ul"@[0]);
    }
    assert("dl"@ != "dr"@) by {
        assert("dl"@[1] != "dr"@[1]);
    }
    assert("horiz"@ != "right"@) by {
        assert("horiz"@[0] != "right"@[0]);
    }
    assert("horiz"@ != "r"@) by {
        assert("horiz"@.len() != "r"@.len());
    }
    assert("horiz"@ != "left"@) by {
        assert("horiz"@.len() != "left"@.len());
    }
    assert("horiz"@ != "l"@) by {
        assert("horiz"@.len() != "l"@.len());
    }
    assert("horiz"@ != "up"@) by {
        assert("horiz"@.len() != "up"@.len());
    }
    assert("horiz"@ != "u"@) by {
        assert("horiz"@.len() != "u"@.len());
    }
    assert("horiz"@ != "down"@) by {
        assert("horiz"@.len() != "down"@.len());
    }
    assert("horiz"@ != "d"@) by {
        assert("horiz"@.len() != "d"@.len());
    }
    assert("horiz"@ != "ur"@) by {
        assert("horiz"@.len() != "ur"@.len());
    }
    assert("horiz"@ != "ul"@) by {
        assert("horiz"@.len() != "ul"@.len());
    }
    assert("horiz"@ != "dr"@) by {
        assert("horiz"@.len() != "dr"@.len());
    }
    assert("horiz"@ != "dl"@) by {
        assert("horiz"@.len() != "dl"@.len());
    }
    assert("h"@ != "right"@) by {
        assert("h"@.len() != "right"@.len());
    }
    assert("h"@ != "r"@) by {
        assert("h"@[0] != "r"@[0]);
    }
    assert("h"@ != "left"@) by {
        assert("h"@.len() != "left"@.len());
    }
    assert("h"@ != "l"@) by {
        assert("h"@[0] != "l"@[0]);
    }
    assert("h"@ != "up"@) by {
        assert("h"@.len() != "up"@.len());
    }
    assert("h"@ != "u"@) by {
        assert("h"@[0] != "u"@[0]);
    }
    assert("h"@ != "down"@) by {
        assert("h"@.len() != "down"@.len());
    }
    assert("h"@ != "d"@) by {
        assert("h"@[0] != "d"@[0]);
    }
    assert("h"@ != "ur"@) by {
        assert("h"@.len() != "ur"@.len());
    }
    assert("h"@ != "ul"@) by {
        assert("h"@.len() != "ul"@.len());
    }
    assert("h"@ != "dr"@) by {
        assert("h"@.len() != "dr"@.len());
    }
    assert("h"@ != "dl"@) by {
        assert("h"@.len() != "dl"@.len());
    }
    assert("h"@ != "horiz"@) by {
        assert("h"@.len() != "horiz"@.len());
    }
    assert("vert"@ != "right"@) by {
        assert("vert"@.len() != "right"@.len());
    }
    assert("vert"@ != "r"@) by {
        assert("vert"@.len() != "r"@.len());
    }
    assert("vert"@ != "left"@) by {
        assert("vert"@[0] != "left"@[0]);
    }
    assert("vert"@ != "l"@) by {
        assert("vert"@.len() != "l"@.len());
    }
    assert("vert"@ != "up"@) by {
        assert("vert"@.len() != "up"@.len());
    }
    assert("vert"@ != "u"@) by {
        assert("vert"@.len() != "u"@.len());
    }
    assert("vert"@ != "down"@) by {
        assert("vert"@[0] != "down"@[0]);
    }
    assert("vert"@ != "d"@) by {
        assert("vert"@.len() != "d"@.len());
    }
    assert("vert"@ != "ur"@) by {
        assert("vert"@.len() != "ur"@.len());
    }
    assert("vert"@ != "ul"@) by {
        assert("vert"@.len() != "ul"@.len());
    }
    assert("vert"@ != "dr"@) by {
        assert("vert"@.len() != "dr"@.len());
    }
    assert("vert"@ != "dl"@) by {
        assert("vert"@.len() != "dl"@.len());
    }
    assert("vert"@ != "horiz"@) by {
        assert("vert"@.len() != "horiz"@.len());
    }
    assert("vert"@ != "h"@) by {
        assert("vert"@.len() != "h"@.len());
    }
    assert("v"@ != "right"@) by {
        assert("v"@.len() != "right"@.len());
    }
    assert("v"@ != "r"@) by {
        assert("v"@[0] != "r"@[0]);
    }
    assert("v"@ != "left"@) by {
        assert("v"@.len() != "left"@.len());
    }
    assert("v"@ != "l"@) by {
        assert("v"@[0] != "l"@[0]);
    }
    assert("v"@ != "up"@) by {
        assert("v"@.len() != "up"@.len());
    }
    assert("v"@ != "u"@) by {
        assert("v"@[0] != "u"@[0]);
    }
    assert("v"@ != "down"@) by {
        assert("v"@.len() != "down"@.len());
    }
    assert("v"@ != "d"@) by {
        assert("v"@[0] != "d"@[0]);
    }
    assert("v"@ != "ur"@) by {
        assert("v"@.len() != "ur"@.len());
    }
    assert("v"@ != "ul"@) by {
        assert("v"@.len() != "ul"@.len());
    }
    assert("v"@ != "dr"@) by {
        assert("v"@.len() != "dr"@.len());
    }
    assert("v"@ != "dl"@) by {
        assert("v"@.len() != "dl"@.len());
    }
    assert("v"@ != "horiz"@) by {
        assert("v"@.len() != "horiz"@.len());
    }
    assert("v"@ != "h"@) by {
        assert("v"@[0] != "h"@[0]);
    }
    assert("v"@ != "vert"@) by {
        assert("v"@.len() != "vert"@.len());
    }
    assert("diag_dr"@ != "right"@) by {
        assert("diag_dr"@.len() != "right"@.len());
    }
    assert("diag_dr"@ != "r"@) by {
        assert("diag_dr"@.len() != "r"@.len());
    }
    assert("diag_dr"@ != "left"@) by {
        assert("diag_dr"@.len() != "left"@.len());
    }
    assert("diag_dr"@ != "l"@) by {
        assert("diag_dr"@.len() != "l"@.len());
    }
    assert("diag_dr"@ != "up"@) by {
        assert("diag_dr"@.len() != "up"@.len());
    }
    assert("diag_dr"@ != "u"@) by {
        assert("diag_dr"@.len() != "u"@.len());
    }
    assert("diag_dr"@ != "down"@) by {
        assert("diag_dr"@.len() != "down"@.len());
    }
    assert("diag_dr"@ != "d"@) by {
        assert("diag_dr"@.len() != "d"@.len());
    }
    assert("diag_dr"@ != "ur"@) by {
        assert("diag_dr"@.len() != "ur"@.len());
    }
    assert("diag_dr"@ != "ul"@) by {
        assert("diag_dr"@.len() != "ul"@.len());
    }
    assert("diag_dr"@ != "dr"@) by {
        assert("diag_dr"@.len() != "dr"@.len());
    }
    assert("diag_dr"@ != "dl"@) by {
        assert("diag_dr"@.len() != "dl"@.len());
    }
    assert("diag_dr"@ != "horiz"@) by {
        assert("diag_dr"@.len() != "horiz"@.len());
    }
    assert("diag_dr"@ != "h"@) by {
        assert("diag_dr"@.len() != "h"@.len());
    }
    assert("diag_dr"@ != "vert"@) by {
        assert("diag_dr"@.len() != "vert"@.len());
    }
    assert("diag_dr"@ != "v"@) by {
        assert("diag_dr"@.len() != "v"@.len());
    }
    assert("xr"@ != "right"@) by {
        assert("xr"@.len() != "right"@.len());
    }
    assert("xr"@ != "r"@) by {
        assert("xr"@.len() != "r"@.len());
    }
    assert("xr"@ != "left"@) by {
        assert("xr"@.len() != "left"@.len());
    }
    assert("xr"@ != "l"@) by {
        assert("xr"@.len() != "l"@.len());
    }
    assert("xr"@ != "up"@) by {
        assert("xr"@[0] != "up"@[0]);
    }
    assert("xr"@ != "u"@) by {
        assert("xr"@.len() != "u"@.len());
    }
    assert("xr"@ != "down"@) by {
        assert("xr"@.len() != "down"@.len());
    }
    assert("xr"@ != "d"@) by {
        assert("xr"@.len() != "d"@.len());
    }
    assert("xr"@ != "ur"@) by {
        assert("xr"@[0] != "ur"@[0]);
    }
    assert("xr"@ != "ul"@) by {
        assert("xr"@[0] != "ul"@[0]);
    }
    assert("xr"@ != "dr"@) by {
        assert("xr"@[0] != "dr"@[0]);
    }
    assert("xr"@ != "dl"@) by {
        assert("xr"@[0] != "dl"@[0]);
    }
    assert("xr"@ != "horiz"@) by {
        assert("xr"@.len() != "horiz"@.len());
    }
    assert("xr"@ != "h"@) by {
        assert("xr"@.len() != "h"@.len());
    }
    assert("xr"@ != "vert"@) by {
        assert("xr"@.len() != "vert"@.len());
    }
    assert("xr"@ != "v"@) by {
        assert("xr"@.len() != "v"@.len());
    }
    assert("xr"@ != "diag_dr"@) by {
        assert("xr"@.len() != "diag_dr"@.len());
    }
    assert("diag_dl"@ != "right"@) by {
        assert("diag_dl"@.len() != "right"@.len());
    }
    assert("diag_dl"@ != "r"@) by {
        assert("diag_dl"@.len() != "r"@.len());
    }
    assert("diag_dl"@ != "left"@) by {
        assert("diag_dl"@.len() != "left"@.len());
    }
    assert("diag_dl"@ != "l"@) by {
        assert("diag_dl"@.len() != "l"@.len());
    }
    assert("diag_dl"@ != "up"@) by {
        assert("diag_dl"@.len() != "up"@.len());
    }
    assert("diag_dl"@ != "u"@) by {
        assert("diag_dl"@.len() != "u"@.len());
    }
    assert("diag_dl"@ != "down"@) by {
        assert("diag_dl"@.len() != "down"@.len());
    }
    assert("diag_dl"@ != "d"@) by {
        assert("diag_dl"@.len() != "d"@.len());
    }
    assert("diag_dl"@ != "ur"@) by {
        assert("diag_dl"@.len() != "ur"@.len());
    }
    assert("diag_dl"@ != "ul"@) by {
        assert("diag_dl"@.len() != "ul"@.len());
    }
    assert("diag_dl"@ != "dr"@) by {
        assert("diag_dl"@.len() != "dr"@.len());
    }
    assert("diag_dl"@ != "dl"@) by {
        assert("diag_dl"@.len() != "dl"@.len());
    }
    assert("diag_dl"@ != "horiz"@) by {
        assert("diag_dl"@.len() != "horiz"@.len());
    }
    assert("diag_dl"@ != "h"@) by {
        assert("diag_dl"@.len() != "h"@.len());
    }
    assert("diag_dl"@ != "vert"@) by {
        assert("diag_dl"@.len() != "vert"@.len());
    }
    assert("diag_dl"@ != "v"@) by {
        assert("diag_dl"@.len() != "v"@.len());
    }
    assert("diag_dl"@ != "diag_dr"@) by {
        assert("diag_dl"@[6] != "diag_dr"@[6]);
    }
    assert("diag_dl"@ != "xr"@) by {
        assert("diag_dl"@.len() != "xr"@.len());
    }
    assert("xl"@ != "right"@) by {
        assert("xl"@.len() != "right"@.len());
    }
    assert("xl"@ != "r"@) by {
        assert("xl"@.len() != "r"@.len());
    }
    assert("xl"@ != "left"@) by {
        assert("xl"@.len() != "left"@.len());
    }
    assert("xl"@ != "l"@) by {
        assert("xl"@.len() != "l"@.len());
    }
    assert("xl"@ != "up"@) by {
        assert("xl"@[0] != "up"@[0]);
    }
    assert("xl"@ != "u"@) by {
        assert("xl"@.len() != "u"@.len());
    }
    assert("xl"@ != "down"@) by {
        assert("xl"@.len() != "down"@.len());
    }
    assert("xl"@ != "d"@) by {
        assert("xl"@.len() != "d"@.len());
    }
    assert("xl"@ != "ur"@) by {
        assert("xl"@[0] != "ur"@[0]);
    }
    assert("xl"@ != "ul"@) by {
        assert("xl"@[0] != "ul"@[0]);
    }
    assert("xl"@ != "dr"@) by {
        assert("xl"@[0] != "dr"@[0]);
    }
    assert("xl"@ != "dl"@) by {
        assert("xl"@[0] != "dl"@[0]);
    }
    assert("xl"@ != "horiz"@) by {
        assert("xl"@.len() != "horiz"@.len());
    }
    assert("xl"@ != "h"@) by {
        assert("xl"@.len() != "h"@.len());
    }
    assert("xl"@ != "vert"@) by {
        assert("xl"@.len() != "vert"@.len());
    }
    assert("xl"@ != "v"@) by {
        assert("xl"@.len() != "v"@.len());
    }
    assert("xl"@ != "diag_dr"@) by {
        assert("xl"@.len() != "diag_dr"@.len());
    }
    assert("xl"@ != "xr"@) by {
        assert("xl"@[1] != "xr"@[1]);
    }
    assert("xl"@ != "diag_dl"@) by {
        assert("xl"@.len() != "diag_dl"@.len());
    }
    assert("fill_ur"@ != "right"@) by {
        assert("fill_ur"@.len() != "right"@.len());
    }
    assert("fill_ur"@ != "r"@) by {
        assert("fill_ur"@.len() != "r"@.len());
    }
    assert("fill_ur"@ != "left"@) by {
        assert("fill_ur"@.len() != "left"@.len());
    }
    assert("fill_ur"@ != "l"@) by {
        assert("fill_ur"@.len() != "l"@.len());
    }
    assert("fill_ur"@ != "up"@) by {
        assert("fill_ur"@.len() != "up"@.len());
    }
    assert("fill_ur"@ != "u"@) by {
        assert("fill_ur"@.len() != "u"@.len());
    }
    assert("fill_ur"@ != "down"@) by {
        assert("fill_ur"@.len() != "down"@.len());
    }
    assert("fill_ur"@ != "d"@) by {
        assert("fill_ur"@.len() != "d"@.len());
    }
    assert("fill_ur"@ != "ur"@) by {
        assert("fill_ur"@.len() != "ur"@.len());
    }
    assert("fill_ur"@ != "ul"@) by {
        assert("fill_ur"@.len() != "ul"@.len());
    }
    assert("fill_ur"@ != "dr"@) by {
        assert("fill_ur"@.len() != "dr"@.len());
    }
    assert("fill_ur"@ != "dl"@) by {
        assert("fill_ur"@.len() != "dl"@.len());
    }
    assert("fill_ur"@ != "horiz"@) by {
        assert("fill_ur"@.len() != "horiz"@.len());
    }
    assert("fill_ur"@ != "h"@) by {
        assert("fill_ur"@.len() != "h"@.len());
    }
    assert("fill_ur"@ != "vert"@) by {
        assert("fill_ur"@.len() != "vert"@.len());
    }
    assert("fill_ur"@ != "v"@) by {
        assert("fill_ur"@.len() != "v"@.len());
    }
    assert("fill_ur"@ != "diag_dr"@) by {
        assert("fill_ur"@[0] != "diag_dr"@[0]);
    }
    assert("fill_ur"@ != "xr"@) by {
        assert("fill_ur"@.len() != "xr"@.len());
    }
    assert("fill_ur"@ != "diag_dl"@) by {
        assert("fill_ur"@[0] != "diag_dl"@[0]);
    }
    assert("fill_ur"@ != "xl"@) by {
        assert("fill_ur"@.len() != "xl"@.len());
    }
    assert("fur"@ != "right"@) by {
        assert("fur"@.len() != "right"@.len());
    }
    assert("fur"@ != "r"@) by {
        assert("fur"@.len() != "r"@.len());
    }
    assert("fur"@ != "left"@) by {
        assert("fur"@.len() != "left"@.len());
    }
    assert("fur"@ != "l"@) by {
        assert("fur"@.len() != "l"@.len());
    }
    assert("fur"@ != "up"@) by {
        assert("fur"@.len() != "up"@.len());
    }
    assert("fur"@ != "u"@) by {
        assert("fur"@.len() != "u"@.len());
    }
    assert("fur"@ != "down"@) by {
        assert("fur"@.len() != "down"@.len());
    }
    assert("fur"@ != "d"@) by {
        assert("fur"@.len() != "d"@.len());
    }
    assert("fur"@ != "ur"@) by {
        assert("fur"@.len() != "ur"@.len());
    }
    assert("fur"@ != "ul"@) by {
        assert("fur"@.len() != "ul"@.len());
    }
    assert("fur"@ != "dr"@) by {
        assert("fur"@.len() != "dr"@.len());
    }
    assert("fur"@ != "dl"@) by {
        assert("fur"@.len() != "dl"@.len());
    }
    assert("fur"@ != "horiz"@) by {
        assert("fur"@.len() != "horiz"@.len());
    }
    assert("fur"@ != "h"@) by {
        assert("fur"@.len() != "h"@.len());
    }
    assert("fur"@ != "vert"@) by {
        assert("fur"@.len() != "vert"@.len());
    }
    assert("fur"@ != "v"@) by {
        assert("fur"@.len() != "v"@.len());
    }
    assert("fur"@ != "diag_dr"@) by {
        assert("fur"@.len() != "diag_dr"@.len());
    }
    assert("fur"@ != "xr"@) by {
        assert("fur"@.len() != "xr"@.len());
    }
    assert("fur"@ != "diag_dl"@) by {
        assert("fur"@.len() != "diag_dl"@.len());
    }
    assert("fur"@ != "xl"@) by {
        assert("fur"@.len() != "xl"@.len());
    }
    assert("fur"@ != "fill_ur"@) by {
        assert("fur"@.len() != "fill_ur"@.len());
    }
    assert("fill_ul"@ != "right"@) by {
        assert("fill_ul"@.len() != "right"@.len());
    }
    assert("fill_ul"@ != "r"@) by {
        assert("fill_ul"@.len() != "r"@.len());
    }
    assert("fill_ul"@ != "left"@) by {
        assert("fill_ul"@.len() != "left"@.len());
    }
    assert("fill_ul"@ != "l"@) by {
        assert("fill_ul"@.len() != "l"@.len());
    }
    assert("fill_ul"@ != "up"@) by {
        assert("fill_ul"@.len() != "up"@.len());
    }
    assert("fill_ul"@ != "u"@) by {
        assert("fill_ul"@.len() != "u"@.len());
    }
    assert("fill_ul"@ != "down"@) by {
        assert("fill_ul"@.len() != "down"@.len());
    }
    assert("fill_ul"@ != "d"@) by {
        assert("fill_ul"@.len() != "d"@.len());
    }
    assert("fill_ul"@ != "ur"@) by {
        assert("fill_ul"@.len() != "ur"@.len());
    }
    assert("fill_ul"@ != "ul"@) by {
        assert("fill_ul"@.len() != "ul"@.len());
    }
    assert("fill_ul"@ != "dr"@) by {
        assert("fill_ul"@.len() != "dr"@.len());
    }
    assert("fill_ul"@ != "dl"@) by {
        assert("fill_ul"@.len() != "dl"@.len());
    }
    assert("fill_ul"@ != "horiz"@) by {
        assert("fill_ul"@.len() != "horiz"@.len());
    }
    assert("fill_ul"@ != "h"@) by {
        assert("fill_ul"@.len() != "h"@.len());
    }
    assert("fill_ul"@ != "vert"@) by {
        assert("fill_ul"@.len() != "vert"@.len());
    }
    assert("fill_ul"@ != "v"@) by {
        assert("fill_ul"@.len() != "v"@.len());
    }
    assert("fill_ul"@ != "diag_dr"@) by {
        assert("fill_ul"@[0] != "diag_dr"@[0]);
    }
    assert("fill_ul"@ != "xr"@) by {
        assert("fill_ul"@.len() != "xr"@.len());
    }
    assert("fill_ul"@ != "diag_dl"@) by {
        assert("fill_ul"@[0] != "diag_dl"@[0]);
    }
    assert("fill_ul"@ != "xl"@) by {
        assert("fill_ul"@.len() != "xl"@.len());
    }
    assert("fill_ul"@ != "fill_ur"@) by {
        assert("fill_ul"@[6] != "fill_ur"@[6]);
    }
    assert("fill_ul"@ != "fur"@) by {
        assert("fill_ul"@.len() != "fur"@.len());
    }
    assert("ful"@ != "right"@) by {
        assert("ful"@.len() != "right"@.len());
    }
    assert("ful"@ != "r"@) by {
        assert("ful"@.len() != "r"@.len());
    }
    assert("ful"@ != "left"@) by {
        assert("ful"@.len() != "left"@.len());
    }
    assert("ful"@ != "l"@) by {
        assert("ful"@.len() != "l"@.len());
    }
    assert("ful"@ != "up"@) by {
        assert("ful"@.len() != "up"@.len());
    }
    assert("ful"@ != "u"@) by {
        assert("ful"@.len() != "u"@.len());
    }
    assert("ful"@ != "down"@) by {
        assert("ful"@.len() != "down"@.len());
    }
    assert("ful"@ != "d"@) by {
        assert("ful"@.len() != "d"@.len());
    }
    assert("ful"@ != "ur"@) by {
        assert("ful"@.len() != "ur"@.len());
    }
    assert("ful"@ != "ul"@) by {
        assert("ful"@.len() != "ul"@.len());
    }
    assert("ful"@ != "dr"@) by {
        assert("ful"@.len() != "dr"@.len());
    }
    assert("ful"@ != "dl"@) by {
        assert("ful"@.len() != "dl"@.len());
    }
    assert("ful"@ != "horiz"@) by {
        assert("ful"@.len() != "horiz"@.len());
    }
    assert("ful"@ != "h"@) by {
        assert("ful"@.len() != "h"@.len());
    }
    assert("ful"@ != "vert"@) by {
        assert("ful"@.len() != "vert"@.len());
    }
    assert("ful"@ != "v"@) by {
        assert("ful"@.len() != "v"@.len());
    }
    assert("ful"@ != "diag_dr"@) by {
        assert("ful"@.len() != "diag_dr"@.len());
    }
    assert("ful"@ != "xr"@) by {
        assert("ful"@.len() != "xr"@.len());
    }
    assert("ful"@ != "diag_dl"@) by {
        assert("ful"@.len() != "diag_dl"@.len());
    }
    assert("ful"@ != "xl"@) by {
        assert("ful"@.len() != "xl"@.len());
    }
    assert("ful"@ != "fill_ur"@) by {
        assert("ful"@.len() != "fill_ur"@.len());
    }
    assert("ful"@ != "fur"@) by {
        assert("ful"@[2] != "fur"@[2]);
    }
    assert("ful"@ != "fill_ul"@) by {
        assert("ful"@.len() != "fill_ul"@.len());
    }
}

proof fn lemma_line_names()
    ensures
        "right"@ == seq!['r', 'i', 'g', 'h', 't'],
        "r"@ == seq!['r'],
        "left"@ == seq!['l', 'e', 'f', 't'],
        "l"@ == seq!['l'],
        "up"@ == seq!['u', 'p'],
        "u"@ == seq!['u'],
        "down"@ == seq!['d', 'o', 'w', 'n'],
        "d"@ == seq!['d'],
        "ur"@ == seq!['u', 'r'],
        "ul"@ == seq!['u', 'l'],
        "dr"@ == seq!['d', 'r'],
        "dl"@ == seq!['d', 'l'],
        "horiz"@ == seq!['h', 'o', 'r', 'i', 'z'],
        "h"@ == seq!['h'],
        "vert"@ == seq!['v', 'e', 'r', 't'],
        "v"@ == seq!['v'],
        "diag_dr"@ == seq!['d', 'i', 'a', 'g', '_', 'd', 'r'],
        "xr"@ == seq!['x', 'r'],
        "diag_dl"@ == seq!['d', 'i', 'a', 'g', '_', 'd', 'l'],
        "xl"@ == seq!['x', 'l'],
        "fill_ur"@ == seq!['f', 'i', 'l', 'l', '_', 'u', 'r'],
        "fur"@ == seq!['f', 'u', 'r'],
        "fill_ul"@ == seq!['f', 'i', 'l', 'l', '_', 'u', 'l'],
        "ful"@ == seq!['f', 'u', 'l'],
{
    reveal_strlit("right");
    reveal_strlit("r");
    reveal_strlit("left");
    reveal_strlit("l");
    reveal_strlit("up");
    reveal_strlit("u");
    reveal_strlit("down");
    reveal_strlit("d");
    reveal_strlit("ur");
    reveal_strlit("ul");
    reveal_strlit("dr");
    reveal_strlit("dl");
    reveal_strlit("horiz");
    reveal_strlit("h");
    reveal_strlit("vert");
    reveal_strlit("v");
    reveal_strlit("diag_dr");
    reveal_strlit("xr");
    reveal_strlit("diag_dl");
    reveal_strlit("xl");
    reveal_strlit("fill_ur");
    reveal_strlit("fur");
    reveal_strlit("fill_ul");
    reveal_strlit("ful");
    assert("right"@ =~= seq!['r', 'i', 'g', 'h', 't']);
    assert("r"@ =~= seq!['r']);
    assert("left"@ =~= seq!['l', 'e', 'f', 't']);
    assert("l"@ =~= seq!['l']);
    assert("up"@ =~= seq!['u', 'p']);
    assert("u"@ =~= seq!['u']);
    assert("down"@ =~= seq!['d', 'o', 'w', 'n']);
    assert("d"@ =~= seq!['d']);
    assert("ur"@ =~= seq!['u', 'r']);
    assert("ul"@ =~= seq!['u', 'l']);
    assert("dr"@ =~= seq!['d', 'r']);
    assert("dl"@ =~= seq!['d', 'l']);
    assert("horiz"@ =~= seq!['h', 'o', 'r', 'i', 'z']);
    assert("h"@ =~= seq!['h']);
    assert("vert"@ =~= seq!['v', 'e', 'r', 't']);
    assert("v"@ =~= seq!['v']);
    assert("diag_dr"@ =~= seq!['d', 'i', 'a', 'g', '_', 'd', 'r']);
    assert("xr"@ =~= seq!['x', 'r']);
    assert("diag_dl"@ =~= seq!['d', 'i', 'a', 'g', '_', 'd', 'l']);
    assert("xl"@ =~= seq!['x', 'l']);
    assert("fill_ur"@ =~= seq!['f', 'i', 'l', 'l', '_', 'u', 'r']);
    assert("fur"@ =~= seq!['f', 'u', 'r']);
    assert("fill_ul"@ =~= seq!['f', 'i', 'l', 'l', '_', 'u', 'l']);
    assert("ful"@ =~= seq!['f', 'u', 'l']);
}

proof fn lemma_turn_names()
    ensures
        "right"@ != "r"@,
        "l"@ != "r"@,
        "l"@ != "right"@,
        "left"@ != "r"@,
        "left"@ != "right"@,
        "left"@ != "l"@,
        "180"@ != "r"@,
        "180"@ != "right"@,
        "180"@ != "l"@,
        "180"@ != "left"@,
        "h"@ != "r"@,
        "h"@ != "right"@,
        "h"@ != "l"@,
        "h"@ != "left"@,
        "h"@ != "180"@,
        "horizontal"@ != "r"@,
        "horizontal"@ != "right"@,
        "horizontal"@ != "l"@,
        "horizontal"@ != "left"@,
        "horizontal"@ != "180"@,
        "horizontal"@ != "h"@,
        "v"@ != "r"@,
        "v"@ != "right"@,
        "v"@ != "l"@,
        "v"@ != "left"@,
        "v"@ != "180"@,
        "v"@ != "h"@,
        "v"@ != "horizontal"@,
        "vertical"@ != "r"@,
        "vertical"@ != "right"@,
        "vertical"@ != "l"@,
        "vertical"@ != "left"@,
        "vertical"@ != "180"@,
        "vertical"@ != "h"@,
        "vertical"@ != "horizontal"@,
        "vertical"@ != "v"@,
        "hv"@ != "r"@,
        "hv"@ != "right"@,
        "hv"@ != "l"@,
        "hv"@ != "left"@,
        "hv"@ != "180"@,
        "hv"@ != "h"@,
        "hv"@ != "horizontal"@,
        "hv"@ != "v"@,
        "hv"@ != "vertical"@,
        "vh"@ != "r"@,
        "vh"@ != "right"@,
        "vh"@ != "l"@,
        "vh"@ != "left"@,
        "vh"@ != "180"@,
        "vh"@ != "h"@,
        "vh"@ != "horizontal"@,
        "vh"@ != "v"@,
        "vh"@ != "vertical"@,
        "vh"@ != "hv"@,
{
    reveal_strlit("r");
    reveal_strlit("right");
    reveal_strlit("l");
    reveal_strlit("left");
    reveal_strlit("180");
    reveal_strlit("h");
    reveal_strlit("horizontal");
    reveal_strlit("v");
    reveal_strlit("vertical");
    reveal_strlit("hv");
    reveal_strlit("vh");
    assert("r"@ =~= seq!['r']);
    assert("right"@ =~= seq!['r', 'i', 'g', 'h', 't']);
    assert("l"@ =~= seq!['l']);
    assert("left"@ =~= seq!['l', 'e', 'f', 't']);
    assert("180"@ =~= seq!['1', '8', '0']);
    assert("h"@ =~= seq!['h']);
    assert("horizontal"@ =~= seq!['h', 'o', 'r', 'i', 'z', 'o', 'n', 't', 'a', 'l']);
    assert("v"@ =~= seq!['v']);
    assert("vertical"@ =~= seq!['v', 'e', 'r', 't', 'i', 'c', 'a', 'l']);
    assert("hv"@ =~= seq!['h', 'v']);
    assert("vh"@ =~= seq!['v', 'h']);
    assert("right"@ != "r"@) by {
        assert("right"@.len() != "r"@.len());
    }
    assert("l"@ != "r"@) by {
        assert("l"@[0] != "r"@[0]);
    }
    assert("l"@ != "right"@) by {
        assert("l"@.len() != "right"@.len());
    }
    assert("left"@ != "r"@) by {
        assert("left"@.len() != "r"@.len());
    }
    assert("left"@ != "right"@) by {
        assert("left"@.len() != "right"@.len());
    }
    assert("left"@ != "l"@) by {
        assert("left"@.len() != "l"@.len());
    }
    assert("180"@ != "r"@) by {
        assert("180"@.len() != "r"@.len());
    }
    assert("180"@ != "right"@) by {
        assert("180"@.len() != "right"@.len());
    }
    assert("180"@ != "l"@) by {
        assert("180"@.len() != "l"@.len());
    }
    assert("180"@ != "left"@) by {
        assert("180"@.len() != "left"@.len());
    }
    assert("h"@ != "r"@) by {
        assert("h"@[0] != "r"@[0]);
    }
    assert("h"@ != "right"@) by {
        assert("h"@.len() != "right"@.len());
    }
    assert("h"@ != "l"@) by {
        assert("h"@[0] != "l"@[0]);
    }
    assert("h"@ != "left"@) by {
        assert("h"@.len() != "left"@.len());
    }
    assert("h"@ != "180"@) by {
        assert("h"@.len() != "180"@.len());
    }
    assert("horizontal"@ != "r"@) by {
        assert("horizontal"@.len() != "r"@.len());
    }
    assert("horizontal"@ != "right"@) by {
        assert("horizontal"@.len() != "right"@.len());
    }
    assert("horizontal"@ != "l"@) by {
        assert("horizontal"@.len() != "l"@.len());
    }
    assert("horizontal"@ != "left"@) by {
        assert("horizontal"@.len() != "left"@.len());
    }
    assert("horizontal"@ != "180"@) by {
        assert("horizontal"@.len() != "180"@.len());
    }
    assert("horizontal"@ != "h"@) by {
        assert("horizontal"@.len() != "h"@.len());
    }
    assert("v"@ != "r"@) by {
        assert("v"@[0] != "r"@[0]);
    }
    assert("v"@ != "right"@) by {
        assert("v"@.len() != "right"@.len());
    }
    assert("v"@ != "l"@) by {
        assert("v"@[0] != "l"@[0]);
    }
    assert("v"@ != "left"@) by {
        assert("v"@.len() != "left"@.len());
    }
    assert("v"@ != "180"@) by {
        assert("v"@.len() != "180"@.len());
    }
    assert("v"@ != "h"@) by {
        assert("v"@[0] != "h"@[0]);
    }
    assert("v"@ != "horizontal"@) by {
        assert("v"@.len() != "horizontal"@.len());
    }
    assert("vertical"@ != "r"@) by {
        assert("vertical"@.len() != "r"@.len());
    }
    assert("vertical"@ != "right"@) by {
        assert("vertical"@.len() != "right"@.len());
    }
    assert("vertical"@ != "l"@) by {
        assert("vertical"@.len() != "l"@.len());
    }
    assert("vertical"@ != "left"@) by {
        assert("vertical"@.len() != "left"@.len());
    }
    assert("vertical"@ != "180"@) by {
        assert("vertical"@.len() != "180"@.len());
    }
    assert("vertical"@ != "h"@) by {
        assert("vertical"@.len() != "h"@.len());
    }
    assert("vertical"@ != "horizontal"@) by {
        assert("vertical"@.len() != "horizontal"@.len());
    }
    assert("vertical"@ != "v"@) by {
        assert("vertical"@.len() != "v"@.len());
    }
    assert("hv"@ != "r"@) by {
        assert("hv"@.len() != "r"@.len());
    }
    assert("hv"@ != "right"@) by {
        assert("hv"@.len() != "right"@.len());
    }
    assert("hv"@ != "l"@) by {
        assert("hv"@.len() != "l"@.len());
    }
    assert("hv"@ != "left"@) by {
        assert("hv"@.len() != "left"@.len());
    }
    assert("hv"@ != "180"@) by {
        assert("hv"@.len() != "180"@.len());
    }
    assert("hv"@ != "h"@) by {
        assert("hv"@.len() != "h"@.len());
    }
    assert("hv"@ != "horizontal"@) by {
        assert("hv"@.len() != "horizontal"@.len());
    }
    assert("hv"@ != "v"@) by {
        assert("hv"@.len() != "v"@.len());
    }
    assert("hv"@ != "vertical"@) by {
        assert("hv"@.len() != "vertical"@.len());
    }
    assert("vh"@ != "r"@) by {
        assert("vh"@.len() != "r"@.len());
    }
    assert("vh"@ != "right"@) by {
        assert("vh"@.len() != "right"@.len());
    }
    assert("vh"@ != "l"@) by {
        assert("vh"@.len() != "l"@.len());
    }
    assert("vh"@ != "left"@) by {
        assert("vh"@.len() != "left"@.len());
    }
    assert("vh"@ != "180"@) by {
        assert("vh"@.len() != "180"@.len());
    }
    assert("vh"@ != "h"@) by {
        assert("vh"@.len() != "h"@.len());
    }
    assert("vh"@ != "horizontal"@) by {
        assert("vh"@.len() != "horizontal"@.len());
    }
    assert("vh"@ != "v"@) by {
        assert("vh"@.len() != "v"@.len());
    }
    assert("vh"@ != "vertical"@) by {
        assert("vh"@.len() != "vertical"@.len());
    }
    assert("vh"@ != "hv"@) by {
        assert("vh"@[0] != "hv"@[0]);
    }
}

/// Rotating a grid of `h >= 1` rows of `w` cells a quarter turn right
/// (`right` or `r`) gives `w` rows of `h` cells whose row `i` is column `i`
/// read from the bottom up: cell `(i, j)` of the result is cell
/// `(h - 1 - j, i)` of the grid.
pub proof fn law_rotate_right_cells(t: Seq<Seq<Seq<char>>>, c: Call, w: nat)
    requires
        rectangular(t, w),
        t.len() > 0,
        c.args.len() == 1,
        expr_text(c.args@[0]) == Some("right"@) || expr_text(c.args@[0]) == Some("r"@),
    ensures
        rotate_spec(t, c) matches Some(u) && u.len() == w && forall|i: int|
            0 <= i < w ==> (#[trigger] u[i]).len() == t.len() && forall|j: int|
                0 <= j < t.len() ==> u[i][j] == t[t.len() - 1 - j][i],
{
    lemma_turn_names();
    lemma_rect_width(t, w);
}

/// Rotating a grid of `h >= 1` rows of `w` cells a quarter turn left
/// (`left` or `l`) gives `w` rows of `h` cells whose row `i` is column
/// `w - 1 - i` read from the top down: cell `(i, j)` of the result is cell
/// `(j, w - 1 - i)` of the grid.
pub proof fn law_rotate_left_cells(t: Seq<Seq<Seq<char>>>, c: Call, w: nat)
    requires
        rectangular(t, w),
        t.len() > 0,
        c.args.len() == 1,
        expr_text(c.args@[0]) == Some("left"@) || expr_text(c.args@[0]) == Some("l"@),
    ensures
        rotate_spec(t, c) matches Some(u) && u.len() == w && forall|i: int|
            0 <= i < w ==> (#[trigger] u[i]).len() == t.len() && forall|j: int|
                0 <= j < t.len() ==> u[i][j] == t[j][w - 1 - i],
{
    lemma_turn_names();
    lemma_rect_width(t, w);
}

/// Rotating a grid of `h >= 1` rows of `w` cells half way round (`180`)
/// keeps its shape and puts cell `(h - 1 - i, w - 1 - j)` at `(i, j)`.
pub proof fn law_rotate_half_cells(t: Seq<Seq<Seq<char>>>, c: Call, w: nat)
    requires
        rectangular(t, w),
        t.len() > 0,
        c.args.len() == 1,
        expr_text(c.args@[0]) == Some("180"@),
    ensures
        rotate_spec(t, c) matches Some(u) && u.len() == t.len() && forall|i: int|
            0 <= i < t.len() ==> (#[trigger] u[i]).len() == w && forall|j: int|
                0 <= j < w ==> u[i][j] == t[t.len() - 1 - i][w - 1 - j],
{
    lemma_turn_names();
    lemma_rect_width(t, w);
}

/// `rev` with `vertical` or `v` reverses the order of the rows and keeps
/// each row as it is.
pub proof fn law_reverse_vertical(t: Seq<Seq<Seq<char>>>, c: Call)
    requires
        c.args.len() == 1,
        expr_text(c.args@[0]) == Some("vertical"@) || expr_text(c.args@[0]) == Some("v"@),
    ensures
        reverse_spec(t, c) matches Some(u) && u.len() == t.len() && forall|i: int|
            0 <= i < t.len() ==> #[trigger] u[i] == t[t.len() - 1 - i],
{
    lemma_turn_names();
}

/// `rev` with `horizontal` or `h` keeps the order of the rows and reverses
/// the cells of each row.
pub proof fn law_reverse_horizontal(t: Seq<Seq<Seq<char>>>, c: Call)
    requires
        c.args.len() == 1,
        expr_text(c.args@[0]) == Some("horizontal"@) || expr_text(c.args@[0]) == Some("h"@),
    ensures
        reverse_spec(t, c) matches Some(u) && u.len() == t.len() && forall|i: int|
            0 <= i < t.len() ==> (#[trigger] u[i]).len() == t[i].len() && forall|j: int|
                0 <= j < t[i].len() ==> u[i][j] == t[i][t[i].len() - 1 - j],
{
    lemma_turn_names();
}

/// `rev` with `hv`, `vh` or `180` reverses both the order of the rows and
/// the cells of each row.
pub proof fn law_reverse_both(t: Seq<Seq<Seq<char>>>, c: Call)
    requires
        c.args.len() == 1,
        expr_text(c.args@[0]) == Some("hv"@) || expr_text(c.args@[0]) == Some("vh"@) || expr_text(
            c.args@[0],
        ) == Some("180"@),
    ensures
        reverse_spec(t, c) matches Some(u) && u.len() == t.len() && forall|i: int|
            0 <= i < t.len() ==> (#[trigger] u[i]).len() == t[t.len() - 1 - i].len() && forall|
                j: int,
            |
                0 <= j < t[t.len() - 1 - i].len() ==> u[i][j] == t[t.len() - 1 - i][t[t.len() - 1
                    - i].len() - 1 - j],
{
    lemma_turn_names();
}

proof fn lemma_grid_method_names()
    ensures
        "rs"@ != "fs"@,
        "ofs"@ != "fs"@,
        "ofs"@ != "rs"@,
        "ors"@ != "fs"@,
        "ors"@ != "rs"@,
        "ors"@ != "ofs"@,
        "transpose"@ != "fs"@,
        "transpose"@ != "rs"@,
        "transpose"@ != "ofs"@,
        "transpose"@ != "ors"@,
        "t"@ != "fs"@,
        "t"@ != "rs"@,
        "t"@ != "ofs"@,
        "t"@ != "ors"@,
        "t"@ != "transpose"@,
        "rotate"@ != "fs"@,
        "rotate"@ != "rs"@,
        "rotate"@ != "ofs"@,
        "rotate"@ != "ors"@,
        "rotate"@ != "transpose"@,
        "rotate"@ != "t"@,
        "rt"@ != "fs"@,
        "rt"@ != "rs"@,
        "rt"@ != "ofs"@,
        "rt"@ != "ors"@,
        "rt"@ != "transpose"@,
        "rt"@ != "t"@,
        "rt"@ != "rotate"@,
        "pad"@ != "fs"@,
        "pad"@ != "rs"@,
        "pad"@ != "ofs"@,
        "pad"@ != "ors"@,
        "pad"@ != "transpose"@,
        "pad"@ != "t"@,
        "pad"@ != "rotate"@,
        "pad"@ != "rt"@,
        "pd"@ != "fs"@,
        "pd"@ != "rs"@,
        "pd"@ != "ofs"@,
        "pd"@ != "ors"@,
        "pd"@ != "transpose"@,
        "pd"@ != "t"@,
        "pd"@ != "rotate"@,
        "pd"@ != "rt"@,
        "pd"@ != "pad"@,
        "align"@ != "fs"@,
        "align"@ != "rs"@,
        "align"@ != "ofs"@,
        "align"@ != "ors"@,
        "align"@ != "transpose"@,
        "align"@ != "t"@,
        "align"@ != "rotate"@,
        "align"@ != "rt"@,
        "align"@ != "pad"@,
        "align"@ != "pd"@,
        "al"@ != "fs"@,
        "al"@ != "rs"@,
        "al"@ != "ofs"@,
        "al"@ != "ors"@,
        "al"@ != "transpose"@,
        "al"@ != "t"@,
        "al"@ != "rotate"@,
        "al"@ != "rt"@,
        "al"@ != "pad"@,
        "al"@ != "pd"@,
        "al"@ != "align"@,
        "reverse"@ != "fs"@,
        "reverse"@ != "rs"@,
        "reverse"@ != "ofs"@,
        "reverse"@ != "ors"@,
        "reverse"@ != "transpose"@,
        "reverse"@ != "t"@,
        "reverse"@ != "rotate"@,
        "reverse"@ != "rt"@,
        "reverse"@ != "pad"@,
        "reverse"@ != "pd"@,
        "reverse"@ != "align"@,
        "reverse"@ != "al"@,
        "rev"@ != "fs"@,
        "rev"@ != "rs"@,
        "rev"@ != "ofs"@,
        "rev"@ != "ors"@,
        "rev"@ != "transpose"@,
        "rev"@ != "t"@,
        "rev"@ != "rotate"@,
        "rev"@ != "rt"@,
        "rev"@ != "pad"@,
        "rev"@ != "pd"@,
        "rev"@ != "align"@,
        "rev"@ != "al"@,
        "rev"@ != "reverse"@,
        "rv"@ != "fs"@,
        "rv"@ != "rs"@,
        "rv"@ != "ofs"@,
        "rv"@ != "ors"@,
        "rv"@ != "transpose"@,
        "rv"@ != "t"@,
        "rv"@ != "rotate"@,
        "rv"@ != "rt"@,
        "rv"@ != "pad"@,
        "rv"@ != "pd"@,
        "rv"@ != "align"@,
        "rv"@ != "al"@,
        "rv"@ != "reverse"@,
        "rv"@ != "rev"@,
        "get"@ != "fs"@,
        "get"@ != "rs"@,
        "get"@ != "ofs"@,
        "get"@ != "ors"@,
        "get"@ != "transpose"@,
        "get"@ != "t"@,
        "get"@ != "rotate"@,
        "get"@ != "rt"@,
        "get"@ != "pad"@,
        "get"@ != "pd"@,
        "get"@ != "align"@,
        "get"@ != "al"@,
        "get"@ != "reverse"@,
        "get"@ != "rev"@,
        "get"@ != "rv"@,
        "set"@ != "fs"@,
        "set"@ != "rs"@,
        "set"@ != "ofs"@,
        "set"@ != "ors"@,
        "set"@ != "transpose"@,
        "set"@ != "t"@,
        "set"@ != "rotate"@,
        "set"@ != "rt"@,
        "set"@ != "pad"@,
        "set"@ != "pd"@,
        "set"@ != "align"@,
        "set"@ != "al"@,
        "set"@ != "reverse"@,
        "set"@ != "rev"@,
        "set"@ != "rv"@,
        "set"@ != "get"@,
        "line"@ != "fs"@,
        "line"@ != "rs"@,
        "line"@ != "ofs"@,
        "line"@ != "ors"@,
        "line"@ != "transpose"@,
        "line"@ != "t"@,
        "line"@ != "rotate"@,
        "line"@ != "rt"@,
        "line"@ != "pad"@,
        "line"@ != "pd"@,
        "line"@ != "align"@,
        "line"@ != "al"@,
        "line"@ != "reverse"@,
        "line"@ != "rev"@,
        "line"@ != "rv"@,
        "line"@ != "get"@,
        "line"@ != "set"@,
        "ln"@ != "fs"@,
        "ln"@ != "rs"@,
        "ln"@ != "ofs"@,
        "ln"@ != "ors"@,
        "ln"@ != "transpose"@,
        "ln"@ != "t"@,
        "ln"@ != "rotate"@,
        "ln"@ != "rt"@,
        "ln"@ != "pad"@,
        "ln"@ != "pd"@,
        "ln"@ != "align"@,
        "ln"@ != "al"@,
        "ln"@ != "reverse"@,
        "ln"@ != "rev"@,
        "ln"@ != "rv"@,
        "ln"@ != "get"@,
        "ln"@ != "set"@,
        "ln"@ != "line"@,
        "mark"@ != "fs"@,
        "mark"@ != "rs"@,
        "mark"@ != "ofs"@,
        "mark"@ != "ors"@,
        "mark"@ != "transpose"@,
        "mark"@ != "t"@,
        "mark"@ != "rotate"@,
        "mark"@ != "rt"@,
        "mark"@ != "pad"@,
        "mark"@ != "pd"@,
        "mark"@ != "align"@,
        "mark"@ != "al"@,
        "mark"@ != "reverse"@,
        "mark"@ != "rev"@,
        "mark"@ != "rv"@,
        "mark"@ != "get"@,
        "mark"@ != "set"@,
        "mark"@ != "line"@,
        "mark"@ != "ln"@,
        "m"@ != "fs"@,
        "m"@ != "rs"@,
        "m"@ != "ofs"@,
        "m"@ != "ors"@,
        "m"@ != "transpose"@,
        "m"@ != "t"@,
        "m"@ != "rotate"@,
        "m"@ != "rt"@,
        "m"@ != "pad"@,
        "m"@ != "pd"@,
        "m"@ != "align"@,
        "m"@ != "al"@,
        "m"@ != "reverse"@,
        "m"@ != "rev"@,
        "m"@ != "rv"@,
        "m"@ != "get"@,
        "m"@ != "set"@,
        "m"@ != "line"@,
        "m"@ != "ln"@,
        "m"@ != "mark"@,
{
    reveal_strlit("fs");
    reveal_strlit("rs");
    reveal_strlit("ofs");
    reveal_strlit("ors");
    reveal_strlit("transpose");
    reveal_strlit("t");
    reveal_strlit("rotate");
    reveal_strlit("rt");
    reveal_strlit("pad");
    reveal_strlit("pd");
    reveal_strlit("align");
    reveal_strlit("al");
    reveal_strlit("reverse");
    reveal_strlit("rev");
    reveal_strlit("rv");
    reveal_strlit("get");
    reveal_strlit("set");
    reveal_strlit("line");
    reveal_strlit("ln");
    reveal_strlit("mark");
    reveal_strlit("m");
    assert("fs"@ =~= seq!['f', 's']);
    assert("rs"@ =~= seq!['r', 's']);
    assert("ofs"@ =~= seq!['o', 'f', 's']);
    assert("ors"@ =~= seq!['o', 'r', 's']);
    assert("transpose"@ =~= seq!['t', 'r', 'a', 'n', 's', 'p', 'o', 's', 'e']);
    assert("t"@ =~= seq!['t']);
    assert("rotate"@ =~= seq!['r', 'o', 't', 'a', 't', 'e']);
    assert("rt"@ =~= seq!['r', 't']);
    assert("pad"@ =~= seq!['p', 'a', 'd']);
    assert("pd"@ =~= seq!['p', 'd']);
    assert("align"@ =~= seq!['a', 'l', 'i', 'g', 'n']);
    assert("al"@ =~= seq!['a', 'l']);
    assert("reverse"@ =~= seq!['r', 'e', 'v', 'e', 'r', 's', 'e']);
    assert("rev"@ =~= seq!['r', 'e', 'v']);
    assert("rv"@ =~= seq!['r', 'v']);
    assert("get"@ =~= seq!['g', 'e', 't']);
    assert("set"@ =~= seq!['s', 'e', 't']);
    assert("line"@ =~= seq!['l', 'i', 'n', 'e']);
    assert("ln"@ =~= seq!['l', 'n']);
    assert("mark"@ =~= seq!['m', 'a', 'r', 'k']);
    assert("m"@ =~= seq!['m']);
    assert("rs"@ != "fs"@) by {
        assert("rs"@[0] != "fs"@[0]);
    }
    assert("ofs"@ != "fs"@) by {
        assert("ofs"@.len() != "fs"@.len());
    }
    assert("ofs"@ != "rs"@) by {
        assert("ofs"@.len() != "rs"@.len());
    }
    assert("ors"@ != "fs"@) by {
        assert("ors"@.len() != "fs"@.len());
    }
    assert("ors"@ != "rs"@) by {
        assert("ors"@.len() != "rs"@.len());
    }
    assert("ors"@ != "ofs"@) by {
        assert("ors"@[1] != "ofs"@[1]);
    }
    assert("transpose"@ != "fs"@) by {
        assert("transpose"@.len() != "fs"@.len());
    }
    assert("transpose"@ != "rs"@) by {
        assert("transpose"@.len() != "rs"@.len());
    }
    assert("transpose"@ != "ofs"@) by {
        assert("transpose"@.len() != "ofs"@.len());
    }
    assert("transpose"@ != "ors"@) by {
        assert("transpose"@.len() != "ors"@.len());
    }
    assert("t"@ != "fs"@) by {
        assert("t"@.len() != "fs"@.len());
    }
    assert("t"@ != "rs"@) by {
        assert("t"@.len() != "rs"@.len());
    }
    assert("t"@ != "ofs"@) by {
        assert("t"@.len() != "ofs"@.len());
    }
    assert("t"@ != "ors"@) by {
        assert("t"@.len() != "ors"@.len());
    }
    assert("t"@ != "transpose"@) by {
        assert("t"@.len() != "transpose"@.len());
    }
    assert("rotate"@ != "fs"@) by {
        assert("rotate"@.len() != "fs"@.len());
    }
    assert("rotate"@ != "rs"@) by {
        assert("rotate"@.len() != "rs"@.len());
    }
    assert("rotate"@ != "ofs"@) by {
        assert("rotate"@.len() != "ofs"@.len());
    }
    assert("rotate"@ != "ors"@) by {
        assert("rotate"@.len() != "ors"@.len());
    }
    assert("rotate"@ != "transpose"@) by {
        assert("rotate"@.len() != "transpose"@.len());
    }
    assert("rotate"@ != "t"@) by {
        assert("rotate"@.len() != "t"@.len());
    }
    assert("rt"@ != "fs"@) by {
        assert("rt"@[0] != "fs"@[0]);
    }
    assert("rt"@ != "rs"@) by {
        assert("rt"@[1] != "rs"@[1]);
    }
    assert("rt"@ != "ofs"@) by {
        assert("rt"@.len() != "ofs"@.len());
    }
    assert("rt"@ != "ors"@) by {
        assert("rt"@.len() != "ors"@.len());
    }
    assert("rt"@ != "transpose"@) by {
        assert("rt"@.len() != "transpose"@.len());
    }
    assert("rt"@ != "t"@) by {
        assert("rt"@.len() != "t"@.len());
    }
    assert("rt"@ != "rotate"@) by {
        assert("rt"@.len() != "rotate"@.len());
    }
    assert("pad"@ != "fs"@) by {
        assert("pad"@.len() != "fs"@.len());
    }
    assert("pad"@ != "rs"@) by {
        assert("pad"@.len() != "rs"@.len());
    }
    assert("pad"@ != "ofs"@) by {
        assert("pad"@[0] != "ofs"@[0]);
    }
    assert("pad"@ != "ors"@) by {
        assert("pad"@[0] != "ors"@[0]);
    }
    assert("pad"@ != "transpose"@) by {
        assert("pad"@.len() != "transpose"@.len());
    }
    assert("pad"@ != "t"@) by {
        assert("pad"@.len() != "t"@.len());
    }
    assert("pad"@ != "rotate"@) by {
        assert("pad"@.len() != "rotate"@.len());
    }
    assert("pad"@ != "rt"@) by {
        assert("pad"@.len() != "rt"@.len());
    }
    assert("pd"@ != "fs"@) by {
        assert("pd"@[0] != "fs"@[0]);
    }
    assert("pd"@ != "rs"@) by {
        assert("pd"@[0] != "rs"@[0]);
    }
    assert("pd"@ != "ofs"@) by {
        assert("pd"@.len() != "ofs"@.len());
    }
    assert("pd"@ != "ors"@) by {
        assert("pd"@.len() != "ors"@.len());
    }
    assert("pd"@ != "transpose"@) by {
        assert("pd"@.len() != "transpose"@.len());
    }
    assert("pd"@ != "t"@) by {
        assert("pd"@.len() != "t"@.len());
    }
    assert("pd"@ != "rotate"@) by {
        assert("pd"@.len() != "rotate"@.len());
    }
    assert("pd"@ != "rt"@) by {
        assert("pd"@[0] != "rt"@[0]);
    }
    assert("pd"@ != "pad"@) by {
        assert("pd"@.len() != "pad"@.len());
    }
    assert("align"@ != "fs"@) by {
        assert("align"@.len() != "fs"@.len());
    }
    assert("align"@ != "rs"@) by {
        assert("align"@.len() != "rs"@.len());
    }
    assert("align"@ != "ofs"@) by {
        assert("align"@.len() != "ofs"@.len());
    }
    assert("align"@ != "ors"@) by {
        assert("align"@.len() != "ors"@.len());
    }
    assert("align"@ != "transpose"@) by {
        assert("align"@.len() != "transpose"@.len());
    }
    assert("align"@ != "t"@) by {
        assert("align"@.len() != "t"@.len());
    }
    assert("align"@ != "rotate"@) by {
        assert("align"@.len() != "rotate"@.len());
    }
    assert("align"@ != "rt"@) by {
        assert("align"@.len() != "rt"@.len());
    }
    assert("align"@ != "pad"@) by {
        assert("align"@.len() != "pad"@.len());
    }
    assert("align"@ != "pd"@) by {
        assert("align"@.len() != "pd"@.len());
    }
    assert("al"@ != "fs"@) by {
        assert("al"@[0] != "fs"@[0]);
    }
    assert("al"@ != "rs"@) by {
        assert("al"@[0] != "rs"@[0]);
    }
    assert("al"@ != "ofs"@) by {
        assert("al"@.len() != "ofs"@.len());
    }
    assert("al"@ != "ors"@) by {
        assert("al"@.len() != "ors"@.len());
    }
    assert("al"@ != "transpose"@) by {
        assert("al"@.len() != "transpose"@.len());
    }
    assert("al"@ != "t"@) by {
        assert("al"@.len() != "t"@.len());
    }
    assert("al"@ != "rotate"@) by {
        assert("al"@.len() != "rotate"@.len());
    }
    assert("al"@ != "rt"@) by {
        assert("al"@[0] != "rt"@[0]);
    }
    assert("al"@ != "pad"@) by {
        assert("al"@.len() != "pad"@.len());
    }
    assert("al"@ != "pd"@) by {
        assert("al"@[0] != "pd"@[0]);
    }
    assert("al"@ != "align"@) by {
        assert("al"@.len() != "align"@.len());
    }
    assert("reverse"@ != "fs"@) by {
        assert("reverse"@.len() != "fs"@.len());
    }
    assert("reverse"@ != "rs"@) by {
        assert("reverse"@.len() != "rs"@.len());
    }
    assert("reverse"@ != "ofs"@) by {
        assert("reverse"@.len() != "ofs"@.len());
    }
    assert("reverse"@ != "ors"@) by {
        assert("reverse"@.len() != "ors"@.len());
    }
    assert("reverse"@ != "transpose"@) by {
        assert("reverse"@.len() != "transpose"@.len());
    }
    assert("reverse"@ != "t"@) by {
        assert("reverse"@.len() != "t"@.len());
    }
    assert("reverse"@ != "rotate"@) by {
        assert("reverse"@.len() != "rotate"@.len());
    }
    assert("reverse"@ != "rt"@) by {
        assert("reverse"@.len() != "rt"@.len());
    }
    assert("reverse"@ != "pad"@) by {
        assert("reverse"@.len() != "pad"@.len());
    }
    assert("reverse"@ != "pd"@) by {
        assert("reverse"@.len() != "pd"@.len());
    }
    assert("reverse"@ != "align"@) by {
        assert("reverse"@.len() != "align"@.len());
    }
    assert("reverse"@ != "al"@) by {
        assert("reverse"@.len() != "al"@.len());
    }
    assert("rev"@ != "fs"@) by {
        assert("rev"@.len() != "fs"@.len());
    }
    assert("rev"@ != "rs"@) by {
        assert("rev"@.len() != "rs"@.len());
    }
    assert("rev"@ != "ofs"@) by {
        assert("rev"@[0] != "ofs"@[0]);
    }
    assert("rev"@ != "ors"@) by {
        assert("rev"@[0] != "ors"@[0]);
    }
    assert("rev"@ != "transpose"@) by {
        assert("rev"@.len() != "transpose"@.len());
    }
    assert("rev"@ != "t"@) by {
        assert("rev"@.len() != "t"@.len());
    }
    assert("rev"@ != "rotate"@) by {
        assert("rev"@.len() != "rotate"@.len());
    }
    assert("rev"@ != "rt"@) by {
        assert("rev"@.len() != "rt"@.len());
    }
    assert("rev"@ != "pad"@) by {
        assert("rev"@[0] != "pad"@[0]);
    }
    assert("rev"@ != "pd"@) by {
        assert("rev"@.len() != "pd"@.len());
    }
    assert("rev"@ != "align"@) by {
        assert("rev"@.len() != "align"@.len());
    }
    assert("rev"@ != "al"@) by {
        assert("rev"@.len() != "al"@.len());
    }
    assert("rev"@ != "reverse"@) by {
        assert("rev"@.len() != "reverse"@.len());
    }
    assert("rv"@ != "fs"@) by {
        assert("rv"@[0] != "fs"@[0]);
    }
    assert("rv"@ != "rs"@) by {
        assert("rv"@[1] != "rs"@[1]);
    }
    assert("rv"@ != "ofs"@) by {
        assert("rv"@.len() != "ofs"@.len());
    }
    assert("rv"@ != "ors"@) by {
        assert("rv"@.len() != "ors"@.len());
    }
    assert("rv"@ != "transpose"@) by {
        assert("rv"@.len() != "transpose"@.len());
    }
    assert("rv"@ != "t"@) by {
        assert("rv"@.len() != "t"@.len());
    }
    assert("rv"@ != "rotate"@) by {
        assert("rv"@.len() != "rotate"@.len());
    }
    assert("rv"@ != "rt"@) by {
        assert("rv"@[1] != "rt"@[1]);
    }
    assert("rv"@ != "pad"@) by {
        assert("rv"@.len() != "pad"@.len());
    }
    assert("rv"@ != "pd"@) by {
        assert("rv"@[0] != "pd"@[0]);
    }
    assert("rv"@ != "align"@) by {
        assert("rv"@.len() != "align"@.len());
    }
    assert("rv"@ != "al"@) by {
        assert("rv"@[0] != "al"@[0]);
    }
    assert("rv"@ != "reverse"@) by {
        assert("rv"@.len() != "reverse"@.len());
    }
    assert("rv"@ != "rev"@) by {
        assert("rv"@.len() != "rev"@.len());
    }
    assert("get"@ != "fs"@) by {
        assert("get"@.len() != "fs"@.len());
    }
    assert("get"@ != "rs"@) by {
        assert("get"@.len() != "rs"@.len());
    }
    assert("get"@ != "ofs"@) by {
        assert("get"@[0] != "ofs"@[0]);
    }
    assert("get"@ != "ors"@) by {
        assert("get"@[0] != "ors"@[0]);
    }
    assert("get"@ != "transpose"@) by {
        assert("get"@.len() != "transpose"@.len());
    }
    assert("get"@ != "t"@) by {
        assert("get"@.len() != "t"@.len());
    }
    assert("get"@ != "rotate"@) by {
        assert("get"@.len() != "rotate"@.len());
    }
    assert("get"@ != "rt"@) by {
        assert("get"@.len() != "rt"@.len());
    }
    assert("get"@ != "pad"@) by {
        assert("get"@[0] != "pad"@[0]);
    }
    assert("get"@ != "pd"@) by {
        assert("get"@.len() != "pd"@.len());
    }
    assert("get"@ != "align"@) by {
        assert("get"@.len() != "align"@.len());
    }
    assert("get"@ != "al"@) by {
        assert("get"@.len() != "al"@.len());
    }
    assert("get"@ != "reverse"@) by {
        assert("get"@.len() != "reverse"@.len());
    }
    assert("get"@ != "rev"@) by {
        assert("get"@[0] != "rev"@[0]);
    }
    assert("get"@ != "rv"@) by {
        assert("get"@.len() != "rv"@.len());
    }
    assert("set"@ != "fs"@) by {
        assert("set"@.len() != "fs"@.len());
    }
    assert("set"@ != "rs"@) by {
        assert("set"@.len() != "rs"@.len());
    }
    assert("set"@ != "ofs"@) by {
        assert("set"@[0] != "ofs"@[0]);
    }
    assert("set"@ != "ors"@) by {
        assert("set"@[0] != "ors"@[0]);
    }
    assert("set"@ != "transpose"@) by {
        assert("set"@.len() != "transpose"@.len());
    }
    assert("set"@ != "t"@) by {
        assert("set"@.len() != "t"@.len());
    }
    assert("set"@ != "rotate"@) by {
        assert("set"@.len() != "rotate"@.len());
    }
    assert("set"@ != "rt"@) by {
        assert("set"@.len() != "rt"@.len());
    }
    assert("set"@ != "pad"@) by {
        assert("set"@[0] != "pad"@[0]);
    }
    assert("set"@ != "pd"@) by {
        assert("set"@.len() != "pd"@.len());
    }
    assert("set"@ != "align"@) by {
        assert("set"@.len() != "align"@.len());
    }
    assert("set"@ != "al"@) by {
        assert("set"@.len() != "al"@.len());
    }
    assert("set"@ != "reverse"@) by {
        assert("set"@.len() != "reverse"@.len());
    }
    assert("set"@ != "rev"@) by {
        assert("set"@[0] != "rev"@[0]);
    }
    assert("set"@ != "rv"@) by {
        assert("set"@.len() != "rv"@.len());
    }
    assert("set"@ != "get"@) by {
        assert("set"@[0] != "get"@[0]);
    }
    assert("line"@ != "fs"@) by {
        assert("line"@.len() != "fs"@.len());
    }
    assert("line"@ != "rs"@) by {
        assert("line"@.len() != "rs"@.len());
    }
    assert("line"@ != "ofs"@) by {
        assert("line"@.len() != "ofs"@.len());
    }
    assert("line"@ != "ors"@) by {
        assert("line"@.len() != "ors"@.len());
    }
    assert("line"@ != "transpose"@) by {
        assert("line"@.len() != "transpose"@.len());
    }
    assert("line"@ != "t"@) by {
        assert("line"@.len() != "t"@.len());
    }
    assert("line"@ != "rotate"@) by {
        assert("line"@.len() != "rotate"@.len());
    }
    assert("line"@ != "rt"@) by {
        assert("line"@.len() != "rt"@.len());
    }
    assert("line"@ != "pad"@) by {
        assert("line"@.len() != "pad"@.len());
    }
    assert("line"@ != "pd"@) by {
        assert("line"@.len() != "pd"@.len());
    }
    assert("line"@ != "align"@) by {
        assert("line"@.len() != "align"@.len());
    }
    assert("line"@ != "al"@) by {
        assert("line"@.len() != "al"@.len());
    }
    assert("line"@ != "reverse"@) by {
        assert("line"@.len() != "reverse"@.len());
    }
    assert("line"@ != "rev"@) by {
        assert("line"@.len() != "rev"@.len());
    }
    assert("line"@ != "rv"@) by {
        assert("line"@.len() != "rv"@.len());
    }
    assert("line"@ != "get"@) by {
        assert("line"@.len() != "get"@.len());
    }
    assert("line"@ != "set"@) by {
        assert("line"@.len() != "set"@.len());
    }
    assert("ln"@ != "fs"@) by {
        assert("ln"@[0] != "fs"@[0]);
    }
    assert("ln"@ != "rs"@) by {
        assert("ln"@[0] != "rs"@[0]);
    }
    assert("ln"@ != "ofs"@) by {
        assert("ln"@.len() != "ofs"@.len());
    }
    assert("ln"@ != "ors"@) by {
        assert("ln"@.len() != "ors"@.len());
    }
    assert("ln"@ != "transpose"@) by {
        assert("ln"@.len() != "transpose"@.len());
    }
    assert("ln"@ != "t"@) by {
        assert("ln"@.len() != "t"@.len());
    }
    assert("ln"@ != "rotate"@) by {
        assert("ln"@.len() != "rotate"@.len());
    }
    assert("ln"@ != "rt"@) by {
        assert("ln"@[0] != "rt"@[0]);
    }
    assert("ln"@ != "pad"@) by {
        assert("ln"@.len() != "pad"@.len());
    }
    assert("ln"@ != "pd"@) by {
        assert("ln"@[0] != "pd"@[0]);
    }
    assert("ln"@ != "align"@) by {
        assert("ln"@.len() != "align"@.len());
    }
    assert("ln"@ != "al"@) by {
        assert("ln"@[0] != "al"@[0]);
    }
    assert("ln"@ != "reverse"@) by {
        assert("ln"@.len() != "reverse"@.len());
    }
    assert("ln"@ != "rev"@) by {
        assert("ln"@.len() != "rev"@.len());
    }
    assert("ln"@ != "rv"@) by {
        assert("ln"@[0] != "rv"@[0]);
    }
    assert("ln"@ != "get"@) by {
        assert("ln"@.len() != "get"@.len());
    }
    assert("ln"@ != "set"@) by {
        assert("ln"@.len() != "set"@.len());
    }
    assert("ln"@ != "line"@) by {
        assert("ln"@.len() != "line"@.len());
    }
    assert("mark"@ != "fs"@) by {
        assert("mark"@.len() != "fs"@.len());
    }
    assert("mark"@ != "rs"@) by {
        assert("mark"@.len() != "rs"@.len());
    }
    assert("mark"@ != "ofs"@) by {
        assert("mark"@.len() != "ofs"@.len());
    }
    assert("mark"@ != "ors"@) by {
        assert("mark"@.len() != "ors"@.len());
    }
    assert("mark"@ != "transpose"@) by {
        assert("mark"@.len() != "transpose"@.len());
    }
    assert("mark"@ != "t"@) by {
        assert("mark"@.len() != "t"@.len());
    }
    assert("mark"@ != "rotate"@) by {
        assert("mark"@.len() != "rotate"@.len());
    }
    assert("mark"@ != "rt"@) by {
        assert("mark"@.len() != "rt"@.len());
    }
    assert("mark"@ != "pad"@) by {
        assert("mark"@.len() != "pad"@.len());
    }
    assert("mark"@ != "pd"@) by {
        assert("mark"@.len() != "pd"@.len());
    }
    assert("mark"@ != "align"@) by {
        assert("mark"@.len() != "align"@.len());
    }
    assert("mark"@ != "al"@) by {
        assert("mark"@.len() != "al"@.len());
    }
    assert("mark"@ != "reverse"@) by {
        assert("mark"@.len() != "reverse"@.len());
    }
    assert("mark"@ != "rev"@) by {
        assert("mark"@.len() != "rev"@.len());
    }
    assert("mark"@ != "rv"@) by {
        assert("mark"@.len() != "rv"@.len());
    }
    assert("mark"@ != "get"@) by {
        assert("mark"@.len() != "get"@.len());
    }
    assert("mark"@ != "set"@) by {
        assert("mark"@.len() != "set"@.len());
    }
    assert("mark"@ != "line"@) by {
        assert("mark"@[0] != "line"@[0]);
    }
    assert("mark"@ != "ln"@) by {
        assert("mark"@.len() != "ln"@.len());
    }
    assert("m"@ != "fs"@) by {
        assert("m"@.len() != "fs"@.len());
    }
    assert("m"@ != "rs"@) by {
        assert("m"@.len() != "rs"@.len());
    }
    assert("m"@ != "ofs"@) by {
        assert("m"@.len() != "ofs"@.len());
    }
    assert("m"@ != "ors"@) by {
        assert("m"@.len() != "ors"@.len());
    }
    assert("m"@ != "transpose"@) by {
        assert("m"@.len() != "transpose"@.len());
    }
    assert("m"@ != "t"@) by {
        assert("m"@[0] != "t"@[0]);
    }
    assert("m"@ != "rotate"@) by {
        assert("m"@.len() != "rotate"@.len());
    }
    assert("m"@ != "rt"@) by {
        assert("m"@.len() != "rt"@.len());
    }
    assert("m"@ != "pad"@) by {
        assert("m"@.len() != "pad"@.len());
    }
    assert("m"@ != "pd"@) by {
        assert("m"@.len() != "pd"@.len());
    }
    assert("m"@ != "align"@) by {
        assert("m"@.len() != "align"@.len());
    }
    assert("m"@ != "al"@) by {
        assert("m"@.len() != "al"@.len());
    }
    assert("m"@ != "reverse"@) by {
        assert("m"@.len() != "reverse"@.len());
    }
    assert("m"@ != "rev"@) by {
        assert("m"@.len() != "rev"@.len());
    }
    assert("m"@ != "rv"@) by {
        assert("m"@.len() != "rv"@.len());
    }
    assert("m"@ != "get"@) by {
        assert("m"@.len() != "get"@.len());
    }
    assert("m"@ != "set"@) by {
        assert("m"@.len() != "set"@.len());
    }
    assert("m"@ != "line"@) by {
        assert("m"@.len() != "line"@.len());
    }
    assert("m"@ != "ln"@) by {
        assert("m"@.len() != "ln"@.len());
    }
    assert("m"@ != "mark"@) by {
        assert("m"@.len() != "mark"@.len());
    }
}
proof fn lemma_align_names()
    ensures
        "l"@ != "left"@,
        "center"@ != "left"@,
        "center"@ != "l"@,
        "c"@ != "left"@,
        "c"@ != "l"@,
        "c"@ != "center"@,
        "right"@ != "left"@,
        "right"@ != "l"@,
        "right"@ != "center"@,
        "right"@ != "c"@,
        "r"@ != "left"@,
        "r"@ != "l"@,
        "r"@ != "center"@,
        "r"@ != "c"@,
        "r"@ != "right"@,
{
    reveal_strlit("left");
    reveal_strlit("l");
    reveal_strlit("center");
    reveal_strlit("c");
    reveal_strlit("right");
    reveal_strlit("r");
    assert("left"@ =~= seq!['l', 'e', 'f', 't']);
    assert("l"@ =~= seq!['l']);
    assert("center"@ =~= seq!['c', 'e', 'n', 't', 'e', 'r']);
    assert("c"@ =~= seq!['c']);
    assert("right"@ =~= seq!['r', 'i', 'g', 'h', 't']);
    assert("r"@ =~= seq!['r']);
    assert("l"@ != "left"@) by {
        assert("l"@.len() != "left"@.len());
    }
    assert("center"@ != "left"@) by {
        assert("center"@.len() != "left"@.len());
    }
    assert("center"@ != "l"@) by {
        assert("center"@.len() != "l"@.len());
    }
    assert("c"@ != "left"@) by {
        assert("c"@.len() != "left"@.len());
    }
    assert("c"@ != "l"@) by {
        assert("c"@[0] != "l"@[0]);
    }
    assert("c"@ != "center"@) by {
        assert("c"@.len() != "center"@.len());
    }
    assert("right"@ != "left"@) by {
        assert("right"@.len() != "left"@.len());
    }
    assert("right"@ != "l"@) by {
        assert("right"@.len() != "l"@.len());
    }
    assert("right"@ != "center"@) by {
        assert("right"@.len() != "center"@.len());
    }
    assert("right"@ != "c"@) by {
        assert("right"@.len() != "c"@.len());
    }
    assert("r"@ != "left"@) by {
        assert("r"@.len() != "left"@.len());
    }
    assert("r"@ != "l"@) by {
        assert("r"@[0] != "l"@[0]);
    }
    assert("r"@ != "center"@) by {
        assert("r"@.len() != "center"@.len());
    }
    assert("r"@ != "c"@) by {
        assert("r"@[0] != "c"@[0]);
    }
    assert("r"@ != "right"@) by {
        assert("r"@.len() != "right"@.len());
    }
}

/// Each grid method's long and short names call the same operation:
/// `transpose`/`t`, `rotate`/`rt`, `pad`/`pd`, `align`/`al`,
/// `reverse`/`rev`/`rv`, `line`/`ln`, `mark`/`m`, and `get`, `set`.
pub proof fn law_grid_method_names(g: Grid, c: Call, r: Result<Grid, String>)
    ensures
        (c.name@ == "transpose"@ || c.name@ == "t"@) ==> (grid_call_post(g, c, r) <==> grid_result(
            g,
            r,
            transpose_spec(table_view(g.cells@), c),
            transpose_error(c),
        )),
        (c.name@ == "rotate"@ || c.name@ == "rt"@) ==> (grid_call_post(g, c, r) <==> grid_result(
            g,
            r,
            rotate_spec(table_view(g.cells@), c),
            rotate_error(c),
        )),
        (c.name@ == "pad"@ || c.name@ == "pd"@) ==> (grid_call_post(g, c, r) <==> grid_result(
            g,
            r,
            pad_spec(table_view(g.cells@), c),
            pad_args_error(c),
        )),
        (c.name@ == "align"@ || c.name@ == "al"@) ==> (grid_call_post(g, c, r) <==> grid_result(
            g,
            r,
            align_spec(table_view(g.cells@), c),
            align_error(table_view(g.cells@), c),
        )),
        (c.name@ == "reverse"@ || c.name@ == "rev"@ || c.name@ == "rv"@) ==> (grid_call_post(
            g,
            c,
            r,
        ) <==> grid_result(g, r, reverse_spec(table_view(g.cells@), c), reverse_error(c))),
        c.name@ == "get"@ ==> (grid_call_post(g, c, r) <==> grid_result(
            g,
            r,
            get_spec(table_view(g.cells@), c),
            get_error(table_view(g.cells@), c),
        )),
        c.name@ == "set"@ ==> (grid_call_post(g, c, r) <==> grid_result(
            g,
            r,
            set_spec(table_view(g.cells@), c),
            set_error(table_view(g.cells@), c),
        )),
        (c.name@ == "line"@ || c.name@ == "ln"@) ==> (grid_call_post(g, c, r) <==> grid_result(
            g,
            r,
            line_call_spec(table_view(g.cells@), c),
            line_call_error(table_view(g.cells@), c),
        )),
        (c.name@ == "mark"@ || c.name@ == "m"@) ==> (grid_call_post(g, c, r) <==> mark_post(g, c, r)),
{
    lemma_grid_method_names();
}

/// `align` with only a mode fills every row shorter than the widest (`w`
/// cells) with spaces up to `w` cells: `left`/`l` keeps the cells first and
/// fills after them, `right`/`r` fills before them, `center`/`c` puts half
/// the fill (rounded down) before them and the rest after. Other rows stay.
pub proof fn law_align_modes(t: Seq<Seq<Seq<char>>>, c: Call)
    requires
        c.args.len() == 1,
        expr_text(c.args@[0]) is Some,
        align_mode_of(expr_text(c.args@[0])->0) is Some,
    ensures
        align_spec(t, c) matches Some(u) && u.len() == t.len() && forall|y: int|
            0 <= y < t.len() ==> {
                let w = row_width(t) as int;
                let n = t[y].len() as int;
                let m = expr_text(c.args@[0])->0;
                let before = if m == "left"@ || m == "l"@ {
                    0
                } else if m == "right"@ || m == "r"@ {
                    w - n
                } else {
                    (w - n) / 2
                };
                &&& (#[trigger] u[y]).len() == w
                &&& forall|j: int| 0 <= j < n ==> u[y][before + j] == t[y][j]
                &&& forall|j: int| 0 <= j < before ==> u[y][j] == seq![' ']
                &&& forall|j: int| before + n <= j < w ==> u[y][j] == seq![' ']
            },
{
    lemma_align_names();
    reveal_strlit(" ");
    lemma_row_width(t);
    let m = expr_text(c.args@[0])->0;
    let md = align_mode_of(m)->0;
    assert(align_spec(t, c) == Some(aligned(t, md, 0, t.len() as int, seq![' '])));
}

/// Transposing a grid of `h >= 1` rows of `w` cells gives `w` rows of `h`
/// cells: cell `(i, j)` of the result is cell `(j, i)` of the grid.
pub proof fn law_transpose_cells(t: Seq<Seq<Seq<char>>>, c: Call, w: nat)
    requires
        rectangular(t, w),
        t.len() > 0,
        c.args.len() == 0,
    ensures
        transpose_spec(t, c) matches Some(u) && u.len() == w && forall|i: int|
            0 <= i < w ==> (#[trigger] u[i]).len() == t.len() && forall|j: int|
                0 <= j < t.len() ==> u[i][j] == t[j][i],
{
    lemma_rect_width(t, w);
}

} // verus!
