//! Marking cells along rays from origins.
use vstd::prelude::*;

use crate::ast::{table_view, Call, Expr, Grid};
use crate::grid::coords::{mark_origins, origins_error, origins_spec};
use crate::grid::line::{
    apply_line_values, draw_error, draw_lines, inside, line_tail, line_tail_error, moved,
    parse_line_tail,
};
use crate::grid::ops::{lemma_row_width, row_width};
use crate::pattern::{compile, is_match, regex_compiles, regex_is_match, regex_new_error, Pattern};
use crate::table::{lemma_strs_push, lemma_table_push};
use crate::text::{str_is, strs_view};
use crate::util::{expr_text, expr_to_string};

verus! {

// ---------------------------------------------------------------------------
// Rays
// ---------------------------------------------------------------------------

/// The ray directions a name selects: `orth`, `diag`, or all eight
/// (`alldir` / `8`).
pub open spec fn dirs_of(ray: Seq<char>) -> Option<Seq<(int, int)>> {
    if ray == "orth"@ {
        Some(orth_dirs())
    } else if ray == "diag"@ {
        Some(diag_dirs())
    } else if ray == "alldir"@ || ray == "8"@ {
        Some(all_dirs())
    } else {
        None
    }
}

/// Right, left, down, up.
pub open spec fn orth_dirs() -> Seq<(int, int)> {
    seq![(1, 0), (-1, 0), (0, 1), (0, -1)]
}

/// The four diagonals.
pub open spec fn diag_dirs() -> Seq<(int, int)> {
    seq![(1, 1), (1, -1), (-1, 1), (-1, -1)]
}

/// All eight directions.
pub open spec fn all_dirs() -> Seq<(int, int)> {
    orth_dirs() + diag_dirs()
}

/// A direction is one of the eight unit steps.
pub open spec fn unit_dir(d: (int, int)) -> bool {
    -1 <= d.0 <= 1 && -1 <= d.1 <= 1 && (d.0 != 0 || d.1 != 0)
}

/// The point `k` steps from `o` along `d`.
pub open spec fn ray_x(o: (usize, usize), d: (int, int), k: int) -> int {
    moved(o.0 as int, d.0, k)
}

/// The point `k` steps from `o` along `d`.
pub open spec fn ray_y(o: (usize, usize), d: (int, int), k: int) -> int {
    moved(o.1 as int, d.1, k)
}

/// The number of steps from `o` along `d` to reach the column or row of
/// `(x, y)`.
pub open spec fn ray_k(o: (usize, usize), d: (int, int), x: int, y: int) -> int {
    if d.0 > 0 {
        x - o.0
    } else if d.0 < 0 {
        o.0 - x
    } else if d.1 > 0 {
        y - o.1
    } else {
        o.1 - y
    }
}

/// `(x, y)` lies on the ray from `o` along `d`, at least one step away.
pub open spec fn on_ray(o: (usize, usize), d: (int, int), x: int, y: int) -> bool {
    let k = ray_k(o, d, x, y);
    k >= 1 && ray_x(o, d, k) == x && ray_y(o, d, k) == y
}

/// The cell `k` steps along the ray, or empty text outside the grid.
pub open spec fn ray_cell(t: Seq<Seq<Seq<char>>>, o: (usize, usize), d: (int, int), k: int) -> Seq<
    char,
> {
    let x = ray_x(o, d, k);
    let y = ray_y(o, d, k);
    if inside(t, x, y) {
        t[y][x]
    } else {
        seq![]
    }
}

/// Step `k` of the ray is inside the grid on a nonempty cell.
pub open spec fn ray_ok(t: Seq<Seq<Seq<char>>>, o: (usize, usize), d: (int, int), k: int) -> bool {
    inside(t, ray_x(o, d, k), ray_y(o, d, k)) && ray_cell(t, o, d, k).len() > 0
}

/// Steps `1..=k` of the ray are all inside on nonempty cells.
pub open spec fn reach(t: Seq<Seq<Seq<char>>>, o: (usize, usize), d: (int, int), k: int) -> bool {
    forall|j: int| 1 <= j <= k ==> #[trigger] ray_ok(t, o, d, j)
}

/// The ray from `o` along `d` reaches `(x, y)` over nonempty cells.
pub open spec fn hit_by(t: Seq<Seq<Seq<char>>>, o: (usize, usize), d: (int, int), x: int, y: int) -> bool {
    on_ray(o, d, x, y) && reach(t, o, d, ray_k(o, d, x, y))
}

/// Some of the first `n` directions from `o` reach `(x, y)`.
pub open spec fn marked_d(
    t: Seq<Seq<Seq<char>>>,
    o: (usize, usize),
    dirs: Seq<(int, int)>,
    x: int,
    y: int,
    n: int,
) -> bool
    decreases n,
{
    n > 0 && (marked_d(t, o, dirs, x, y, n - 1) || hit_by(t, o, dirs[n - 1], x, y))
}

/// Some ray from the first `n` origins reaches `(x, y)`.
pub open spec fn marked_o(
    t: Seq<Seq<Seq<char>>>,
    os: Seq<(usize, usize)>,
    dirs: Seq<(int, int)>,
    x: int,
    y: int,
    n: int,
) -> bool
    decreases n,
{
    n > 0 && (marked_o(t, os, dirs, x, y, n - 1) || marked_d(t, os[n - 1], dirs, x, y, dirs.len() as int))
}

/// Each cell a ray reaches over nonempty cells becomes `put`; the origins
/// keep their values.
pub open spec fn ray_marks(
    t: Seq<Seq<Seq<char>>>,
    os: Seq<(usize, usize)>,
    dirs: Seq<(int, int)>,
    put: Seq<char>,
) -> Seq<Seq<Seq<char>>> {
    Seq::new(
        t.len(),
        |y: int|
            Seq::new(
                t[y].len(),
                |x: int|
                    if marked_o(t, os, dirs, x, y, os.len() as int) && !os.contains(
                        (x as usize, y as usize),
                    ) {
                        put
                    } else {
                        t[y][x]
                    },
            ),
    )
}

// ---------------------------------------------------------------------------
// Rays through a pattern
// ---------------------------------------------------------------------------

/// Step `k` is inside the grid on a cell the pattern matches.
pub open spec fn pat_ok(
    t: Seq<Seq<Seq<char>>>,
    pat: Seq<char>,
    o: (usize, usize),
    d: (int, int),
    k: int,
) -> bool {
    inside(t, ray_x(o, d, k), ray_y(o, d, k)) && regex_is_match(pat, ray_cell(t, o, d, k))
}

/// Steps `1..=k` all match the pattern.
pub open spec fn through(
    t: Seq<Seq<Seq<char>>>,
    pat: Seq<char>,
    o: (usize, usize),
    d: (int, int),
    k: int,
) -> bool {
    forall|j: int| 1 <= j <= k ==> #[trigger] pat_ok(t, pat, o, d, j)
}

/// The run of matching cells along the ray ends, after at least one of
/// them, at step `m` on a cell equal to `to` that the pattern does not
/// match.
pub open spec fn closes(
    t: Seq<Seq<Seq<char>>>,
    pat: Seq<char>,
    to: Seq<char>,
    o: (usize, usize),
    d: (int, int),
    m: int,
) -> bool {
    &&& m >= 2
    &&& through(t, pat, o, d, m - 1)
    &&& inside(t, ray_x(o, d, m), ray_y(o, d, m))
    &&& !regex_is_match(pat, ray_cell(t, o, d, m))
    &&& ray_cell(t, o, d, m) == to
}

/// `(x, y)` is in a closed run of matching cells along the ray.
pub open spec fn run_by(
    t: Seq<Seq<Seq<char>>>,
    pat: Seq<char>,
    to: Seq<char>,
    o: (usize, usize),
    d: (int, int),
    x: int,
    y: int,
) -> bool {
    on_ray(o, d, x, y) && exists|m: int| ray_k(o, d, x, y) < m && #[trigger] closes(t, pat, to, o, d, m)
}

/// Some of the first `n` directions from `o` has a closed run over `(x, y)`.
pub open spec fn run_d(
    t: Seq<Seq<Seq<char>>>,
    pat: Seq<char>,
    to: Seq<char>,
    o: (usize, usize),
    dirs: Seq<(int, int)>,
    x: int,
    y: int,
    n: int,
) -> bool
    decreases n,
{
    n > 0 && (run_d(t, pat, to, o, dirs, x, y, n - 1) || run_by(t, pat, to, o, dirs[n - 1], x, y))
}

/// Some of the first `n` origins has a closed run over `(x, y)`.
pub open spec fn run_o(
    t: Seq<Seq<Seq<char>>>,
    pat: Seq<char>,
    to: Seq<char>,
    os: Seq<(usize, usize)>,
    x: int,
    y: int,
    n: int,
) -> bool
    decreases n,
{
    n > 0 && (run_o(t, pat, to, os, x, y, n - 1) || run_d(
        t,
        pat,
        to,
        os[n - 1],
        all_dirs(),
        x,
        y,
        8,
    ))
}

/// Each cell of a closed run (in any of the eight directions from any
/// origin) becomes `put`.
pub open spec fn run_marks(
    t: Seq<Seq<Seq<char>>>,
    os: Seq<(usize, usize)>,
    pat: Seq<char>,
    to: Seq<char>,
    put: Seq<char>,
) -> Seq<Seq<Seq<char>>> {
    Seq::new(
        t.len(),
        |y: int|
            Seq::new(
                t[y].len(),
                |x: int|
                    if run_o(t, pat, to, os, x, y, os.len() as int) {
                        put
                    } else {
                        t[y][x]
                    },
            ),
    )
}

// ---------------------------------------------------------------------------
// Lemmas
// ---------------------------------------------------------------------------

/// Step `k` of a unit ray lies on the ray, `k` steps out.
pub proof fn lemma_on_ray_step(o: (usize, usize), d: (int, int), k: int)
    requires
        unit_dir(d),
        k >= 1,
    ensures
        on_ray(o, d, ray_x(o, d, k), ray_y(o, d, k)),
        ray_k(o, d, ray_x(o, d, k), ray_y(o, d, k)) == k,
{
}

/// A step inside the grid is fewer than `o.0 + o.1 + h + w + 1` steps out.
pub proof fn lemma_step_bound(t: Seq<Seq<Seq<char>>>, o: (usize, usize), d: (int, int), k: int)
    requires
        unit_dir(d),
        k >= 1,
        inside(t, ray_x(o, d, k), ray_y(o, d, k)),
    ensures
        k < o.0 + o.1 + t.len() + row_width(t),
{
    lemma_row_width(t);
    let y = ray_y(o, d, k);
    assert(t[y].len() <= row_width(t));
}

/// The run ending is unique: it is the first step that does not match.
pub proof fn lemma_closes_unique(
    t: Seq<Seq<Seq<char>>>,
    pat: Seq<char>,
    to: Seq<char>,
    o: (usize, usize),
    d: (int, int),
    k: int,
    m: int,
)
    requires
        k >= 1,
        through(t, pat, o, d, k - 1),
        !pat_ok(t, pat, o, d, k),
        closes(t, pat, to, o, d, m),
    ensures
        m == k,
{
    if m < k {
        assert(pat_ok(t, pat, o, d, m));
    }
    if m > k {
        assert(pat_ok(t, pat, o, d, k));
    }
}

// ---------------------------------------------------------------------------
// Masks
// ---------------------------------------------------------------------------

/// A mask has one flag per cell.
pub open spec fn same_shape(mask: Seq<Vec<bool>>, t: Seq<Seq<Seq<char>>>) -> bool {
    mask.len() == t.len() && forall|y: int| 0 <= y < t.len() ==> #[trigger] mask[y]@.len() == t[y].len()
}

/// A mask of `false` flags shaped like the grid.
fn empty_mask(cells: &Vec<Vec<String>>) -> (mask: Vec<Vec<bool>>)
    ensures
        same_shape(mask@, table_view(cells@)),
        forall|y: int, x: int|
            0 <= y < mask@.len() && 0 <= x < mask@[y]@.len() ==> !#[trigger] mask@[y]@[x],
{
    let ghost t = table_view(cells@);
    let mut mask: Vec<Vec<bool>> = Vec::new();
    let mut i: usize = 0;
    while i < cells.len()
        invariant
            i <= cells.len(),
            t == table_view(cells@),
            mask.len() == i,
            forall|y: int| 0 <= y < i ==> #[trigger] mask@[y]@.len() == t[y].len(),
            forall|y: int, x: int| 0 <= y < i && 0 <= x < mask@[y]@.len() ==> !#[trigger] mask@[y]@[x],
        decreases cells.len() - i,
    {
        let n = cells[i].len();
        assert(t[i as int].len() == n);
        let mut row: Vec<bool> = Vec::new();
        let mut x: usize = 0;
        while x < n
            invariant
                x <= n,
                row.len() == x,
                forall|q: int| 0 <= q < x ==> !#[trigger] row@[q],
            decreases n - x,
        {
            row.push(false);
            x += 1;
        }
        mask.push(row);
        i += 1;
    }
    mask
}

/// Raises the flag at `(x, y)`.
fn raise(mask: &mut Vec<Vec<bool>>, x: usize, y: usize)
    requires
        y < old(mask).len(),
        x < old(mask)@[y as int]@.len(),
    ensures
        final(mask).len() == old(mask).len(),
        forall|q: int| 0 <= q < final(mask).len() ==> #[trigger] final(mask)@[q]@.len() == old(mask)@[q]@.len(),
        forall|q: int, p: int|
            0 <= q < final(mask).len() && 0 <= p < final(mask)@[q]@.len() ==> #[trigger] final(mask)@[q]@[p]
                == (if q == y && p == x {
                true
            } else {
                old(mask)@[q]@[p]
            }),
{
    let n = mask[y].len();
    let mut row: Vec<bool> = Vec::new();
    let mut k: usize = 0;
    while k < n
        invariant
            k <= n == mask@[y as int]@.len(),
            y < mask.len(),
            row@ == mask@[y as int]@.take(k as int),
        decreases n - k,
    {
        row.push(mask[y][k]);
        k += 1;
        assert(row@ =~= mask@[y as int]@.take(k as int));
    }
    assert(row@ =~= mask@[y as int]@);
    row.set(x, true);
    mask.set(y, row);
}

/// Every direction a ray name selects is a unit step.
pub proof fn lemma_dirs_unit(ray: Seq<char>)
    ensures
        dirs_of(ray) matches Some(ds) ==> forall|j: int| 0 <= j < ds.len() ==> unit_dir(#[trigger] ds[j]),
{
    let o = orth_dirs();
    let g = diag_dirs();
    assert(o[0] == (1int, 0int) && o[1] == (-1int, 0int) && o[2] == (0int, 1int) && o[3] == (0int, -1int));
    assert(g[0] == (1int, 1int) && g[1] == (1int, -1int) && g[2] == (-1int, 1int) && g[3] == (-1int, -1int));
    assert forall|j: int| 0 <= j < o.len() implies unit_dir(#[trigger] o[j]) by {
        assert(j == 0 || j == 1 || j == 2 || j == 3);
    }
    assert forall|j: int| 0 <= j < g.len() implies unit_dir(#[trigger] g[j]) by {
        assert(j == 0 || j == 1 || j == 2 || j == 3);
    }
    assert forall|j: int| 0 <= j < all_dirs().len() implies unit_dir(#[trigger] all_dirs()[j]) by {
        if j < 4 {
            assert(all_dirs()[j] == o[j]);
        } else {
            assert(all_dirs()[j] == g[j - 4]);
        }
    }
}

/// The step directions as integers.
pub open spec fn dirs_view(v: Seq<(i8, i8)>) -> Seq<(int, int)> {
    v.map_values(|d: (i8, i8)| (d.0 as int, d.1 as int))
}

/// One more step of the walk flags only its own cell.
proof fn lemma_walk_step(t: Seq<Seq<Seq<char>>>, o: (usize, usize), d: (int, int), k: int, x: int, y: int)
    requires
        unit_dir(d),
        k >= 1,
        !(x == ray_x(o, d, k) && y == ray_y(o, d, k)),
    ensures
        (on_ray(o, d, x, y) && ray_k(o, d, x, y) < k + 1 && reach(t, o, d, ray_k(o, d, x, y))) == (
        on_ray(o, d, x, y) && ray_k(o, d, x, y) < k && reach(t, o, d, ray_k(o, d, x, y))),
{
}

/// When the walk stops at step `k`, the ray reaches exactly the cells
/// before it.
proof fn lemma_walk_end(t: Seq<Seq<Seq<char>>>, o: (usize, usize), d: (int, int), k: int, x: int, y: int)
    requires
        unit_dir(d),
        k >= 1,
        !ray_ok(t, o, d, k),
    ensures
        hit_by(t, o, d, x, y) == (on_ray(o, d, x, y) && ray_k(o, d, x, y) < k && reach(
            t,
            o,
            d,
            ray_k(o, d, x, y),
        )),
{
    if on_ray(o, d, x, y) && ray_k(o, d, x, y) >= k && reach(t, o, d, ray_k(o, d, x, y)) {
        assert(ray_ok(t, o, d, k));
    }
}

/// Whether the cell at a position inside the grid is nonempty.
fn cell_nonempty(grid: &Grid, x: usize, y: usize) -> (r: bool)
    requires
        inside(table_view(grid.cells@), x as int, y as int),
    ensures
        r == (table_view(grid.cells@)[y as int][x as int].len() > 0),
{
    assert(table_view(grid.cells@)[y as int][x as int] == grid.cells@[y as int]@[x as int]@);
    grid.cells[y][x].as_str().unicode_len() > 0
}

/// Flags every cell that a ray from an origin reaches over nonempty cells.
fn ray_mask(grid: &Grid, os: &Vec<(usize, usize)>, dirs: &Vec<(i8, i8)>) -> (mask: Vec<Vec<bool>>)
    requires
        forall|j: int| 0 <= j < dirs.len() ==> unit_dir(#[trigger] dirs_view(dirs@)[j]),
    ensures
        same_shape(mask@, table_view(grid.cells@)),
        forall|y: int, x: int|
            0 <= y < mask@.len() && 0 <= x < mask@[y]@.len() ==> #[trigger] mask@[y]@[x]
                == marked_o(table_view(grid.cells@), os@, dirs_view(dirs@), x, y, os.len() as int),
{
    let ghost t = table_view(grid.cells@);
    let ghost dv = dirs_view(dirs@);
    let h = grid.cells.len();
    let w = crate::grid::ops::grid_width(&grid.cells);
    let mut mask = empty_mask(&grid.cells);
    let mut i: usize = 0;
    while i < os.len()
        invariant
            i <= os.len(),
            t == table_view(grid.cells@),
            dv == dirs_view(dirs@),
            h == t.len(),
            w == row_width(t),
            forall|j: int| 0 <= j < dirs.len() ==> unit_dir(#[trigger] dv[j]),
            same_shape(mask@, t),
            forall|y: int, x: int|
                0 <= y < mask@.len() && 0 <= x < mask@[y]@.len() ==> #[trigger] mask@[y]@[x]
                    == marked_o(t, os@, dv, x, y, i as int),
        decreases os.len() - i,
    {
        let o = os[i];
        let mut j: usize = 0;
        while j < dirs.len()
            invariant
                i < os.len(),
                o == os@[i as int],
                j <= dirs.len(),
                t == table_view(grid.cells@),
                dv == dirs_view(dirs@),
                h == t.len(),
                w == row_width(t),
                forall|j: int| 0 <= j < dirs.len() ==> unit_dir(#[trigger] dv[j]),
                same_shape(mask@, t),
                forall|y: int, x: int|
                    0 <= y < mask@.len() && 0 <= x < mask@[y]@.len() ==> #[trigger] mask@[y]@[x]
                        == (marked_o(t, os@, dv, x, y, i as int) || marked_d(t, o, dv, x, y, j as int)),
            decreases dirs.len() - j,
        {
            let (dx, dy) = dirs[j];
            let ghost d = dv[j as int];
            assert(d == (dx as int, dy as int));
            let bound: i128 = o.0 as i128 + o.1 as i128 + h as i128 + w as i128 + 1;
            let mut k: i128 = 1;
            let mut go = true;
            while go
                invariant
                    i < os.len(),
                    o == os@[i as int],
                    j < dirs.len(),
                    t == table_view(grid.cells@),
                    dv == dirs_view(dirs@),
                    d == dv[j as int],
                    d == (dx as int, dy as int),
                    unit_dir(d),
                    h == t.len(),
                    w == row_width(t),
                    bound == o.0 + o.1 + h + w + 1,
                    1 <= k <= bound,
                    reach(t, o, d, k - 1),
                    !go ==> !ray_ok(t, o, d, k as int),
                    same_shape(mask@, t),
                    forall|y: int, x: int|
                        0 <= y < mask@.len() && 0 <= x < mask@[y]@.len() ==> #[trigger] mask@[y]@[x]
                            == (marked_o(t, os@, dv, x, y, i as int) || marked_d(t, o, dv, x, y, j as int)
                            || (on_ray(o, d, x, y) && ray_k(o, d, x, y) < k && reach(
                            t,
                            o,
                            d,
                            ray_k(o, d, x, y),
                        ))),
                decreases bound - k + if go { 1int } else { 0int },
            {
                let step = crate::grid::line::offset_point(grid, o, dx, dy, k);
                match step {
                    Some(p) => {
                        if cell_nonempty(grid, p.0, p.1) {
                            proof {
                                assert(ray_ok(t, o, d, k as int));
                                lemma_step_bound(t, o, d, k as int);
                                lemma_on_ray_step(o, d, k as int);
                                assert(reach(t, o, d, k as int));
                            }
                            let ghost before = mask@;
                            raise(&mut mask, p.0, p.1);
                            proof {
                                assert forall|y: int, x: int|
                                    0 <= y < mask@.len() && 0 <= x < mask@[y]@.len() implies #[trigger] mask@[y]@[x]
                                        == (marked_o(t, os@, dv, x, y, i as int) || marked_d(
                                        t,
                                        o,
                                        dv,
                                        x,
                                        y,
                                        j as int,
                                    ) || (on_ray(o, d, x, y) && ray_k(o, d, x, y) < k + 1 && reach(
                                        t,
                                        o,
                                        d,
                                        ray_k(o, d, x, y),
                                    ))) by {
                                    if !(x == p.0 && y == p.1) {
                                        lemma_walk_step(t, o, d, k as int, x, y);
                                        assert(mask@[y]@[x] == before[y]@[x]);
                                    }
                                }
                            }
                            k += 1;
                        } else {
                            go = false;
                        }
                    },
                    None => {
                        go = false;
                    },
                }
            }
            proof {
                assert forall|y: int, x: int|
                    0 <= y < mask@.len() && 0 <= x < mask@[y]@.len() implies #[trigger] mask@[y]@[x]
                        == (marked_o(t, os@, dv, x, y, i as int) || marked_d(
                        t,
                        o,
                        dv,
                        x,
                        y,
                        j + 1,
                    )) by {
                    lemma_walk_end(t, o, d, k as int, x, y);
                }
            }
            j += 1;
        }
        i += 1;
    }
    mask
}

/// The ray directions of a name (see [`dirs_of`]).
pub fn dirs_from_ray(ray: &str) -> (r: Option<Vec<(i8, i8)>>)
    ensures
        match r {
            Some(v) => dirs_of(ray@) == Some(dirs_view(v@)),
            None => dirs_of(ray@) is None,
        },
{
    let mut v: Vec<(i8, i8)> = Vec::new();
    if str_is(ray, "orth") {
        v.push((1, 0));
        v.push((-1, 0));
        v.push((0, 1));
        v.push((0, -1));
        assert(dirs_view(v@) =~= orth_dirs());
        return Some(v);
    }
    if str_is(ray, "diag") {
        v.push((1, 1));
        v.push((1, -1));
        v.push((-1, 1));
        v.push((-1, -1));
        assert(dirs_view(v@) =~= diag_dirs());
        return Some(v);
    }
    if crate::text::str_is2(ray, "alldir", "8") {
        v.push((1, 0));
        v.push((-1, 0));
        v.push((0, 1));
        v.push((0, -1));
        v.push((1, 1));
        v.push((1, -1));
        v.push((-1, 1));
        v.push((-1, -1));
        assert(dirs_view(v@) =~= all_dirs());
        return Some(v);
    }
    None
}

/// The eight directions.
fn eight_dirs() -> (v: Vec<(i8, i8)>)
    ensures
        dirs_view(v@) == all_dirs(),
{
    let mut v: Vec<(i8, i8)> = Vec::new();
    v.push((1, 0));
    v.push((-1, 0));
    v.push((0, 1));
    v.push((0, -1));
    v.push((1, 1));
    v.push((1, -1));
    v.push((-1, 1));
    v.push((-1, -1));
    assert(dirs_view(v@) =~= all_dirs());
    v
}

/// After the run along `d` ends at step `k`, the cells it covers are those
/// before `k` when it closes there, and none otherwise.
proof fn lemma_run_end(
    t: Seq<Seq<Seq<char>>>,
    pat: Seq<char>,
    to: Seq<char>,
    o: (usize, usize),
    d: (int, int),
    k: int,
    x: int,
    y: int,
)
    requires
        k >= 1,
        through(t, pat, o, d, k - 1),
        !pat_ok(t, pat, o, d, k),
    ensures
        closes(t, pat, to, o, d, k) ==> (run_by(t, pat, to, o, d, x, y) == (on_ray(o, d, x, y)
            && ray_k(o, d, x, y) < k)),
        !closes(t, pat, to, o, d, k) ==> !run_by(t, pat, to, o, d, x, y),
{
    if run_by(t, pat, to, o, d, x, y) {
        let m = choose|m: int| ray_k(o, d, x, y) < m && #[trigger] closes(t, pat, to, o, d, m);
        lemma_closes_unique(t, pat, to, o, d, k, m);
    }
    if closes(t, pat, to, o, d, k) && on_ray(o, d, x, y) && ray_k(o, d, x, y) < k {
        assert(closes(t, pat, to, o, d, k));
    }
}

/// Flags every cell of a closed run of pattern-matching cells from an
/// origin, in each of the eight directions.
fn run_mask(grid: &Grid, os: &Vec<(usize, usize)>, pat: &Pattern, to: &String) -> (mask: Vec<Vec<bool>>)
    ensures
        same_shape(mask@, table_view(grid.cells@)),
        forall|y: int, x: int|
            0 <= y < mask@.len() && 0 <= x < mask@[y]@.len() ==> #[trigger] mask@[y]@[x]
                == run_o(table_view(grid.cells@), pat@, to@, os@, x, y, os.len() as int),
{
    let ghost t = table_view(grid.cells@);
    let dirs = eight_dirs();
    let ghost dv = dirs_view(dirs@);
    let h = grid.cells.len();
    let w = crate::grid::ops::grid_width(&grid.cells);
    let mut mask = empty_mask(&grid.cells);
    assert(dirs.len() == dv.len());
    assert(all_dirs().len() == 8);
    let mut i: usize = 0;
    while i < os.len()
        invariant
            i <= os.len(),
            t == table_view(grid.cells@),
            dirs.len() == 8,
            dv == dirs_view(dirs@),
            dv == all_dirs(),
            h == t.len(),
            w == row_width(t),
            same_shape(mask@, t),
            forall|y: int, x: int|
                0 <= y < mask@.len() && 0 <= x < mask@[y]@.len() ==> #[trigger] mask@[y]@[x]
                    == run_o(t, pat@, to@, os@, x, y, i as int),
        decreases os.len() - i,
    {
        let o = os[i];
        let mut j: usize = 0;
        while j < dirs.len()
            invariant
                i < os.len(),
                o == os@[i as int],
                j <= dirs.len() == 8,
                t == table_view(grid.cells@),
                dv == dirs_view(dirs@),
                dv == all_dirs(),
                h == t.len(),
                w == row_width(t),
                same_shape(mask@, t),
                forall|y: int, x: int|
                    0 <= y < mask@.len() && 0 <= x < mask@[y]@.len() ==> #[trigger] mask@[y]@[x]
                        == (run_o(t, pat@, to@, os@, x, y, i as int) || run_d(
                        t,
                        pat@,
                        to@,
                        o,
                        dv,
                        x,
                        y,
                        j as int,
                    )),
            decreases dirs.len() - j,
        {
            let (dx, dy) = dirs[j];
            let ghost d = dv[j as int];
            assert(d == (dx as int, dy as int));
            assert(unit_dir(d));
            let bound: i128 = o.0 as i128 + o.1 as i128 + h as i128 + w as i128 + 1;
            let mut k: i128 = 1;
            let mut go = true;
            while go
                invariant
                    t == table_view(grid.cells@),
                    d == (dx as int, dy as int),
                    unit_dir(d),
                    h == t.len(),
                    w == row_width(t),
                    bound == o.0 + o.1 + h + w + 1,
                    1 <= k <= bound,
                    through(t, pat@, o, d, k - 1),
                    !go ==> !pat_ok(t, pat@, o, d, k as int),
                decreases bound - k + if go { 1int } else { 0int },
            {
                match crate::grid::line::offset_point(grid, o, dx, dy, k) {
                    Some(p) => {
                        assert(table_view(grid.cells@)[p.1 as int][p.0 as int]
                            == grid.cells@[p.1 as int]@[p.0 as int]@);
                        if is_match(pat, grid.cells[p.1][p.0].as_str()) {
                            proof {
                                assert(pat_ok(t, pat@, o, d, k as int));
                                lemma_step_bound(t, o, d, k as int);
                                assert(through(t, pat@, o, d, k as int));
                            }
                            k += 1;
                        } else {
                            go = false;
                        }
                    },
                    None => {
                        go = false;
                    },
                }
            }
            let closed = if k >= 2 {
                match crate::grid::line::offset_point(grid, o, dx, dy, k) {
                    Some(p) => {
                        assert(table_view(grid.cells@)[p.1 as int][p.0 as int]
                            == grid.cells@[p.1 as int]@[p.0 as int]@);
                        grid.cells[p.1][p.0] == *to
                    },
                    None => false,
                }
            } else {
                false
            };
            assert(closed == closes(t, pat@, to@, o, d, k as int));
            if closed {
                let ghost before = mask@;
                let mut jj: i128 = 1;
                while jj < k
                    invariant
                        1 <= jj <= k,
                        t == table_view(grid.cells@),
                        d == (dx as int, dy as int),
                        unit_dir(d),
                        k <= bound,
                        bound == o.0 + o.1 + h + w + 1,
                        h == t.len(),
                        w == row_width(t),
                        through(t, pat@, o, d, k - 1),
                        same_shape(before, t),
                        same_shape(mask@, t),
                        forall|y: int, x: int|
                            0 <= y < mask@.len() && 0 <= x < mask@[y]@.len() ==> #[trigger] mask@[y]@[x]
                                == (before[y]@[x] || (on_ray(o, d, x, y) && ray_k(o, d, x, y) < jj)),
                    decreases k - jj,
                {
                    assert(pat_ok(t, pat@, o, d, jj as int));
                    let p = match crate::grid::line::offset_point(grid, o, dx, dy, jj) {
                        Some(p) => p,
                        None => {
                            assert(false);
                            (0, 0)
                        },
                    };
                    let ghost prev = mask@;
                    raise(&mut mask, p.0, p.1);
                    proof {
                        lemma_on_ray_step(o, d, jj as int);
                        assert forall|y: int, x: int|
                            0 <= y < mask@.len() && 0 <= x < mask@[y]@.len() implies #[trigger] mask@[y]@[x]
                                == (before[y]@[x] || (on_ray(o, d, x, y) && ray_k(o, d, x, y) < jj + 1)) by {
                            if !(x == p.0 && y == p.1) {
                                assert(mask@[y]@[x] == prev[y]@[x]);
                                if on_ray(o, d, x, y) && ray_k(o, d, x, y) == jj {
                                    assert(x == p.0 && y == p.1);
                                }
                            }
                        }
                    }
                    jj += 1;
                }
            }
            proof {
                assert forall|y: int, x: int|
                    0 <= y < mask@.len() && 0 <= x < mask@[y]@.len() implies #[trigger] mask@[y]@[x]
                        == (run_o(t, pat@, to@, os@, x, y, i as int) || run_d(
                        t,
                        pat@,
                        to@,
                        o,
                        dv,
                        x,
                        y,
                        j + 1,
                    )) by {
                    lemma_run_end(t, pat@, to@, o, d, k as int, x, y);
                }
            }
            j += 1;
        }
        i += 1;
    }
    mask
}

// ---------------------------------------------------------------------------
// Writing the marks
// ---------------------------------------------------------------------------

/// The flagged cells set to `put`; with `keep_origins`, the origins keep
/// their values.
pub open spec fn masked(
    t: Seq<Seq<Seq<char>>>,
    mask: Seq<Vec<bool>>,
    os: Seq<(usize, usize)>,
    keep_origins: bool,
    put: Seq<char>,
) -> Seq<Seq<Seq<char>>> {
    Seq::new(
        t.len(),
        |y: int|
            Seq::new(
                t[y].len(),
                |x: int|
                    if mask[y]@[x] && !(keep_origins && os.contains((x as usize, y as usize))) {
                        put
                    } else {
                        t[y][x]
                    },
            ),
    )
}

/// Whether `p` is one of the points.
fn contains_point(os: &Vec<(usize, usize)>, p: (usize, usize)) -> (r: bool)
    ensures
        r == os@.contains(p),
{
    let mut i: usize = 0;
    while i < os.len()
        invariant
            i <= os.len(),
            forall|q: int| 0 <= q < i ==> os@[q] != p,
        decreases os.len() - i,
    {
        if os[i].0 == p.0 && os[i].1 == p.1 {
            assert(os@[i as int] == p);
            return true;
        }
        i += 1;
    }
    false
}

/// Writes `put` into the flagged cells (see [`masked`]).
fn write_mask(
    grid: Grid,
    mask: &Vec<Vec<bool>>,
    os: &Vec<(usize, usize)>,
    keep_origins: bool,
    put: &String,
) -> (g: Grid)
    requires
        same_shape(mask@, table_view(grid.cells@)),
    ensures
        table_view(g.cells@) == masked(table_view(grid.cells@), mask@, os@, keep_origins, put@),
        g.cfg == grid.cfg,
{
    let ghost t = table_view(grid.cells@);
    let ghost target = masked(t, mask@, os@, keep_origins, put@);
    let mut cells: Vec<Vec<String>> = Vec::new();
    let mut y: usize = 0;
    while y < grid.cells.len()
        invariant
            y <= grid.cells.len(),
            t == table_view(grid.cells@),
            same_shape(mask@, t),
            target == masked(t, mask@, os@, keep_origins, put@),
            table_view(cells@) == target.take(y as int),
        decreases grid.cells.len() - y,
    {
        let n = grid.cells[y].len();
        assert(t[y as int].len() == n);
        let mut row: Vec<String> = Vec::new();
        let mut x: usize = 0;
        while x < n
            invariant
                x <= n == t[y as int].len(),
                y < grid.cells.len(),
                t == table_view(grid.cells@),
                same_shape(mask@, t),
                target == masked(t, mask@, os@, keep_origins, put@),
                strs_view(row@) == target[y as int].take(x as int),
            decreases n - x,
        {
            let flagged = mask[y][x] && !(keep_origins && contains_point(os, (x, y)));
            let c = if flagged {
                put.clone()
            } else {
                assert(t[y as int][x as int] == grid.cells@[y as int]@[x as int]@);
                grid.cells[y][x].clone()
            };
            proof {
                lemma_strs_push(row@, c);
                assert(target[y as int].take(x + 1) =~= target[y as int].take(x as int).push(
                    target[y as int][x as int],
                ));
            }
            row.push(c);
            x += 1;
        }
        proof {
            assert(target[y as int].take(n as int) =~= target[y as int]);
            lemma_table_push(cells@, row);
            assert(target.take(y + 1) =~= target.take(y as int).push(target[y as int]));
        }
        cells.push(row);
        y += 1;
    }
    assert(target.take(grid.cells.len() as int) =~= target);
    Grid { cells, cfg: grid.cfg }
}

// ---------------------------------------------------------------------------
// mark
// ---------------------------------------------------------------------------

/// The argument is `line` or `ln`.
pub open spec fn is_line_mode(e: Expr) -> bool {
    expr_text(e) == Some("line"@) || expr_text(e) == Some("ln"@)
}

/// `mark(origin, "line", dir, values.., options..)`: the values drawn from
/// each origin.
pub open spec fn mark_line_spec(t: Seq<Seq<Seq<char>>>, c: Call) -> Option<Seq<Seq<Seq<char>>>> {
    match origins_spec(t, c.args@[0]) {
        Some(os) => match expr_text(c.args@[2]) {
            Some(dir) => match line_tail(c.args@, 3) {
                Some((vals, w, k)) => draw_lines(t, os, dir, vals, w, k, os.len() as int),
                None => None,
            },
            None => None,
        },
        None => None,
    }
}

/// `mark(origin, ray, put)`: the cells the rays reach set to `put`.
pub open spec fn mark_ray_spec(t: Seq<Seq<Seq<char>>>, c: Call) -> Option<Seq<Seq<Seq<char>>>> {
    match (origins_spec(t, c.args@[0]), expr_text(c.args@[1]), expr_text(c.args@[2])) {
        (Some(os), Some(ray), Some(put)) => match dirs_of(ray) {
            Some(dirs) => Some(ray_marks(t, os, dirs, put)),
            None => None,
        },
        _ => None,
    }
}

/// `mark(origin, through, to, put)`: the closed runs of cells matching the
/// pattern `through` that end at `to`, set to `put`; `None` when the origins
/// fail, an argument has no text or the pattern does not compile.
pub open spec fn mark_run_spec(t: Seq<Seq<Seq<char>>>, c: Call) -> Option<Seq<Seq<Seq<char>>>> {
    match (
        origins_spec(t, c.args@[0]),
        expr_text(c.args@[1]),
        expr_text(c.args@[2]),
        expr_text(c.args@[3]),
    ) {
        (Some(os), Some(through), Some(to), Some(put)) => if regex_compiles(through) {
            Some(run_marks(t, os, through, to, put))
        } else {
            None
        },
        _ => None,
    }
}

/// The message of a `mark` call that does not apply.
pub open spec fn mark_error(t: Seq<Seq<Seq<char>>>, c: Call) -> Seq<char> {
    let nested = "nested call cannot be converted to string here"@;
    if c.args.len() >= 4 && is_line_mode(c.args@[1]) {
        match origins_spec(t, c.args@[0]) {
            None => origins_error(t, c.args@[0]),
            Some(os) => match expr_text(c.args@[2]) {
                None => nested,
                Some(dir) => match line_tail(c.args@, 3) {
                    None => line_tail_error(c.args@, 3),
                    Some((vals, w, k)) => draw_error(t, os, dir, vals, w, k, os.len() as int),
                },
            },
        }
    } else if c.args.len() == 3 {
        if origins_spec(t, c.args@[0]) is None {
            origins_error(t, c.args@[0])
        } else if expr_text(c.args@[1]) is None || expr_text(c.args@[2]) is None {
            nested
        } else {
            "unknown ray: "@ + expr_text(c.args@[1])->0
        }
    } else if c.args.len() == 4 {
        if origins_spec(t, c.args@[0]) is None {
            origins_error(t, c.args@[0])
        } else if expr_text(c.args@[1]) is None {
            nested
        } else if !regex_compiles(expr_text(c.args@[1])->0) {
            regex_new_error(expr_text(c.args@[1])->0)
        } else {
            nested
        }
    } else {
        "mark expects 3 args (from, ray, put) or 4 args (from, through_re, to, put)"@
    }
}

/// What `mark` does: line mode with `line` / `ln` as the second of at least
/// four arguments, rays with three, closed pattern runs with four.
pub open spec fn mark_post(grid: Grid, c: Call, r: Result<Grid, String>) -> bool {
    let t = table_view(grid.cells@);
    if c.args.len() >= 4 && is_line_mode(c.args@[1]) {
        match r {
            Ok(g) => mark_line_spec(t, c) == Some(table_view(g.cells@)) && g.cfg == grid.cfg,
            Err(m) => mark_line_spec(t, c) is None && m@ == mark_error(t, c),
        }
    } else if c.args.len() == 3 {
        match r {
            Ok(g) => mark_ray_spec(t, c) == Some(table_view(g.cells@)) && g.cfg == grid.cfg,
            Err(m) => mark_ray_spec(t, c) is None && m@ == mark_error(t, c),
        }
    } else if c.args.len() == 4 {
        match r {
            Ok(g) => mark_run_spec(t, c) == Some(table_view(g.cells@)) && g.cfg == grid.cfg,
            Err(m) => mark_run_spec(t, c) is None && m@ == mark_error(t, c),
        }
    } else {
        r matches Err(m) && m@ == mark_error(t, c)
    }
}

/// `mark`: draws values from origins (`line` mode), marks the cells rays
/// reach over nonempty cells (three arguments), or marks closed runs of
/// cells matching a pattern that end at a given value (four arguments).
pub fn grid_mark(grid: Grid, call: &Call) -> (r: Result<Grid, String>)
    ensures
        mark_post(grid, *call, r),
{
    let ghost t = table_view(grid.cells@);
    proof {
        reveal_strlit("line");
        reveal_strlit("ln");
    }
    if call.args.len() >= 4 {
        let line_mode = match expr_to_string(&call.args[1]) {
            Ok(m) => crate::text::str_is2(m.as_str(), "line", "ln"),
            Err(_) => false,
        };
        if line_mode {
            let origins = match mark_origins(&grid, &call.args[0]) {
                Ok(o) => o,
                Err(e) => return Err(e),
            };
            let dir = match expr_to_string(&call.args[2]) {
                Ok(d) => d,
                Err(e) => return Err(e),
            };
            let (values, options) = match parse_line_tail(&call.args, 3) {
                Ok(v) => v,
                Err(e) => return Err(e),
            };
            return apply_line_values(grid, origins, dir.as_str(), values, options);
        }
    }
    if call.args.len() == 3 {
        let origins = match mark_origins(&grid, &call.args[0]) {
            Ok(o) => o,
            Err(e) => return Err(e),
        };
        let ray = match expr_to_string(&call.args[1]) {
            Ok(v) => v,
            Err(e) => return Err(e),
        };
        let put = match expr_to_string(&call.args[2]) {
            Ok(v) => v,
            Err(e) => return Err(e),
        };
        let dirs = match dirs_from_ray(ray.as_str()) {
            Some(d) => d,
            None => return Err(crate::text::concat2("unknown ray: ", ray.as_str())),
        };
        let ghost dv = dirs_view(dirs@);
        proof {
            lemma_dirs_unit(ray@);
        }
        let mask = ray_mask(&grid, &origins, &dirs);
        let g = write_mask(grid, &mask, &origins, true, &put);
        proof {
            let a = masked(t, mask@, origins@, true, put@);
            let b = ray_marks(t, origins@, dv, put@);
            assert forall|y: int| 0 <= y < t.len() implies #[trigger] a[y] =~= b[y] by {
                assert(mask@[y]@.len() == t[y].len());
                assert forall|x: int| 0 <= x < t[y].len() implies a[y][x] == b[y][x] by {
                    assert(mask@[y]@[x] == marked_o(t, origins@, dv, x, y, origins.len() as int));
                }
            }
            assert(a =~= b);
        }
        return Ok(g);
    }
    if call.args.len() == 4 {
        let origins = match mark_origins(&grid, &call.args[0]) {
            Ok(o) => o,
            Err(e) => return Err(e),
        };
        let pat_text = match expr_to_string(&call.args[1]) {
            Ok(v) => v,
            Err(e) => return Err(e),
        };
        let pat = match compile(pat_text.as_str()) {
            Ok(p) => p,
            Err(e) => return Err(e),
        };
        let to = match expr_to_string(&call.args[2]) {
            Ok(v) => v,
            Err(e) => return Err(e),
        };
        let put = match expr_to_string(&call.args[3]) {
            Ok(v) => v,
            Err(e) => return Err(e),
        };
        let mask = run_mask(&grid, &origins, &pat, &to);
        let g = write_mask(grid, &mask, &origins, false, &put);
        proof {
            let a = masked(t, mask@, origins@, false, put@);
            let b = run_marks(t, origins@, pat_text@, to@, put@);
            assert forall|y: int| 0 <= y < t.len() implies #[trigger] a[y] =~= b[y] by {
                assert(mask@[y]@.len() == t[y].len());
                assert forall|x: int| 0 <= x < t[y].len() implies a[y][x] == b[y][x] by {
                    assert(mask@[y]@[x] == run_o(t, pat_text@, to@, origins@, x, y, origins.len() as int));
                }
            }
            assert(a =~= b);
        }
        return Ok(g);
    }
    Err(
        String::from_str(
            "mark expects 3 args (from, ray, put) or 4 args (from, through_re, to, put)",
        ),
    )
}

// ---------------------------------------------------------------------------
// Rays, stated by steps
// ---------------------------------------------------------------------------

/// Some ray from an origin along a direction reaches `(x, y)` after `k >= 1`
/// steps, every cell on the way up to it being inside and nonempty.
pub open spec fn reached_by_steps(
    t: Seq<Seq<Seq<char>>>,
    os: Seq<(usize, usize)>,
    dirs: Seq<(int, int)>,
    x: int,
    y: int,
) -> bool {
    exists|i: int, j: int, k: int|
        0 <= i < os.len() && 0 <= j < dirs.len() && k >= 1 && x == ray_x(os[i], dirs[j], k) && y
            == ray_y(os[i], dirs[j], k) && #[trigger] reach(t, os[i], dirs[j], k)
}

proof fn lemma_hit_by_steps(t: Seq<Seq<Seq<char>>>, o: (usize, usize), d: (int, int), x: int, y: int, k: int)
    requires
        unit_dir(d),
        k >= 1,
        x == ray_x(o, d, k),
        y == ray_y(o, d, k),
    ensures
        ray_k(o, d, x, y) == k,
        on_ray(o, d, x, y),
{
}

proof fn lemma_marked_d_steps(
    t: Seq<Seq<Seq<char>>>,
    o: (usize, usize),
    dirs: Seq<(int, int)>,
    x: int,
    y: int,
    n: int,
)
    requires
        0 <= n <= dirs.len(),
        forall|j: int| 0 <= j < dirs.len() ==> unit_dir(#[trigger] dirs[j]),
    ensures
        marked_d(t, o, dirs, x, y, n) <==> exists|j: int, k: int|
            0 <= j < n && k >= 1 && x == ray_x(o, dirs[j], k) && y == ray_y(o, dirs[j], k)
                && #[trigger] reach(t, o, dirs[j], k),
    decreases n,
{
    if n > 0 {
        lemma_marked_d_steps(t, o, dirs, x, y, n - 1);
        let d = dirs[n - 1];
        if hit_by(t, o, d, x, y) {
            let k = ray_k(o, d, x, y);
            assert(reach(t, o, dirs[n - 1], k));
        }
        if exists|j: int, k: int|
            0 <= j < n && k >= 1 && x == ray_x(o, dirs[j], k) && y == ray_y(o, dirs[j], k)
                && #[trigger] reach(t, o, dirs[j], k) {
            let (j, k) = choose|j: int, k: int|
                0 <= j < n && k >= 1 && x == ray_x(o, dirs[j], k) && y == ray_y(o, dirs[j], k)
                    && #[trigger] reach(t, o, dirs[j], k);
            if j == n - 1 {
                lemma_hit_by_steps(t, o, d, x, y, k);
                assert(hit_by(t, o, d, x, y));
            } else {
                assert(reach(t, o, dirs[j], k));
            }
        }
    }
}

proof fn lemma_marked_o_steps(
    t: Seq<Seq<Seq<char>>>,
    os: Seq<(usize, usize)>,
    dirs: Seq<(int, int)>,
    x: int,
    y: int,
    n: int,
)
    requires
        0 <= n <= os.len(),
        forall|j: int| 0 <= j < dirs.len() ==> unit_dir(#[trigger] dirs[j]),
    ensures
        marked_o(t, os, dirs, x, y, n) <==> exists|i: int, j: int, k: int|
            0 <= i < n && 0 <= j < dirs.len() && k >= 1 && x == ray_x(os[i], dirs[j], k) && y
                == ray_y(os[i], dirs[j], k) && #[trigger] reach(t, os[i], dirs[j], k),
    decreases n,
{
    if n > 0 {
        lemma_marked_o_steps(t, os, dirs, x, y, n - 1);
        lemma_marked_d_steps(t, os[n - 1], dirs, x, y, dirs.len() as int);
        if marked_d(t, os[n - 1], dirs, x, y, dirs.len() as int) {
            let (j, k) = choose|j: int, k: int|
                0 <= j < dirs.len() && k >= 1 && x == ray_x(os[n - 1], dirs[j], k) && y == ray_y(
                    os[n - 1],
                    dirs[j],
                    k,
                ) && #[trigger] reach(t, os[n - 1], dirs[j], k);
            assert(reach(t, os[n - 1], dirs[j], k));
        }
        if exists|i: int, j: int, k: int|
            0 <= i < n && 0 <= j < dirs.len() && k >= 1 && x == ray_x(os[i], dirs[j], k) && y
                == ray_y(os[i], dirs[j], k) && #[trigger] reach(t, os[i], dirs[j], k) {
            let (i, j, k) = choose|i: int, j: int, k: int|
                0 <= i < n && 0 <= j < dirs.len() && k >= 1 && x == ray_x(os[i], dirs[j], k) && y
                    == ray_y(os[i], dirs[j], k) && #[trigger] reach(t, os[i], dirs[j], k);
            if i == n - 1 {
                assert(reach(t, os[n - 1], dirs[j], k));
            } else {
                assert(reach(t, os[i], dirs[j], k));
            }
        }
    }
}

/// Ray marking, stated by steps: a cell that is not an origin becomes `put`
/// exactly when, from some origin along some direction of the ray, it lies
/// `k >= 1` steps away with every cell on the way (itself included) inside
/// the grid and nonempty; every other cell keeps its value.
pub proof fn law_ray_marks_by_steps(
    t: Seq<Seq<Seq<char>>>,
    os: Seq<(usize, usize)>,
    ray: Seq<char>,
    put: Seq<char>,
    x: int,
    y: int,
)
    requires
        dirs_of(ray) is Some,
        0 <= y < t.len(),
        0 <= x < t[y].len(),
    ensures
        ray_marks(t, os, dirs_of(ray)->0, put)[y][x] == if reached_by_steps(
            t,
            os,
            dirs_of(ray)->0,
            x,
            y,
        ) && !os.contains((x as usize, y as usize)) {
            put
        } else {
            t[y][x]
        },
{
    let dirs = dirs_of(ray)->0;
    assert forall|j: int| 0 <= j < dirs.len() implies unit_dir(#[trigger] dirs[j]) by {
        reveal_strlit("orth");
        reveal_strlit("diag");
        reveal_strlit("alldir");
        reveal_strlit("8");
    }
    lemma_marked_o_steps(t, os, dirs, x, y, os.len() as int);
}

/// Some origin has, along one of the eight directions, a closed run of
/// matching cells (see [`closes`]) that holds `(x, y)` at step `k >= 1`.
pub open spec fn in_closed_run(
    t: Seq<Seq<Seq<char>>>,
    pat: Seq<char>,
    to: Seq<char>,
    os: Seq<(usize, usize)>,
    x: int,
    y: int,
) -> bool {
    exists|i: int, j: int, k: int, m: int|
        0 <= i < os.len() && 0 <= j < 8 && 1 <= k < m && x == #[trigger] ray_x(os[i], all_dirs()[j], k) && y
            == ray_y(os[i], all_dirs()[j], k) && #[trigger] closes(t, pat, to, os[i], all_dirs()[j], m)
}

proof fn lemma_run_d_steps(
    t: Seq<Seq<Seq<char>>>,
    pat: Seq<char>,
    to: Seq<char>,
    o: (usize, usize),
    x: int,
    y: int,
    n: int,
)
    requires
        0 <= n <= 8,
    ensures
        run_d(t, pat, to, o, all_dirs(), x, y, n) <==> exists|j: int, k: int, m: int|
            0 <= j < n && 1 <= k < m && x == #[trigger] ray_x(o, all_dirs()[j], k) && y == ray_y(
                o,
                all_dirs()[j],
                k,
            ) && #[trigger] closes(t, pat, to, o, all_dirs()[j], m),
    decreases n,
{
    let dirs = all_dirs();
    if n > 0 {
        lemma_run_d_steps(t, pat, to, o, x, y, n - 1);
        let d = dirs[n - 1];
        assert(unit_dir(d));
        if run_by(t, pat, to, o, d, x, y) {
            let m = choose|m: int| ray_k(o, d, x, y) < m && #[trigger] closes(t, pat, to, o, d, m);
            assert(closes(t, pat, to, o, dirs[n - 1], m));
        }
        if exists|j: int, k: int, m: int|
            0 <= j < n && 1 <= k < m && x == #[trigger] ray_x(o, dirs[j], k) && y == ray_y(o, dirs[j], k)
                && #[trigger] closes(t, pat, to, o, dirs[j], m) {
            let (j, k, m) = choose|j: int, k: int, m: int|
                0 <= j < n && 1 <= k < m && x == #[trigger] ray_x(o, dirs[j], k) && y == ray_y(o, dirs[j], k)
                    && #[trigger] closes(t, pat, to, o, dirs[j], m);
            if j == n - 1 {
                lemma_hit_by_steps(t, o, d, x, y, k);
                assert(closes(t, pat, to, o, d, m));
                assert(run_by(t, pat, to, o, d, x, y));
            } else {
                assert(closes(t, pat, to, o, dirs[j], m));
            }
        }
    }
}

proof fn lemma_run_o_steps(
    t: Seq<Seq<Seq<char>>>,
    pat: Seq<char>,
    to: Seq<char>,
    os: Seq<(usize, usize)>,
    x: int,
    y: int,
    n: int,
)
    requires
        0 <= n <= os.len(),
    ensures
        run_o(t, pat, to, os, x, y, n) <==> exists|i: int, j: int, k: int, m: int|
            0 <= i < n && 0 <= j < 8 && 1 <= k < m && x == #[trigger] ray_x(os[i], all_dirs()[j], k) && y
                == ray_y(os[i], all_dirs()[j], k) && #[trigger] closes(
                t,
                pat,
                to,
                os[i],
                all_dirs()[j],
                m,
            ),
    decreases n,
{
    let dirs = all_dirs();
    if n > 0 {
        lemma_run_o_steps(t, pat, to, os, x, y, n - 1);
        lemma_run_d_steps(t, pat, to, os[n - 1], x, y, 8);
        if run_d(t, pat, to, os[n - 1], dirs, x, y, 8) {
            let (j, k, m) = choose|j: int, k: int, m: int|
                0 <= j < 8 && 1 <= k < m && x == #[trigger] ray_x(os[n - 1], dirs[j], k) && y == ray_y(
                    os[n - 1],
                    dirs[j],
                    k,
                ) && #[trigger] closes(t, pat, to, os[n - 1], dirs[j], m);
            assert(closes(t, pat, to, os[n - 1], dirs[j], m));
        }
        if exists|i: int, j: int, k: int, m: int|
            0 <= i < n && 0 <= j < 8 && 1 <= k < m && x == #[trigger] ray_x(os[i], dirs[j], k) && y == ray_y(
                os[i],
                dirs[j],
                k,
            ) && #[trigger] closes(t, pat, to, os[i], dirs[j], m) {
            let (i, j, k, m) = choose|i: int, j: int, k: int, m: int|
                0 <= i < n && 0 <= j < 8 && 1 <= k < m && x == #[trigger] ray_x(os[i], dirs[j], k) && y
                    == ray_y(os[i], dirs[j], k) && #[trigger] closes(t, pat, to, os[i], dirs[j], m);
            assert(closes(t, pat, to, os[i], dirs[j], m));
        }
    }
}

/// Run marking, stated by steps: a cell becomes `put` exactly when, from
/// some origin along one of the eight directions, it lies `k >= 1` steps
/// away inside a run of cells that the pattern matches, which a cell equal
/// to `to` and not matched by the pattern closes at step `m > k`; every
/// other cell keeps its value.
pub proof fn law_run_marks_by_steps(
    t: Seq<Seq<Seq<char>>>,
    os: Seq<(usize, usize)>,
    pat: Seq<char>,
    to: Seq<char>,
    put: Seq<char>,
    x: int,
    y: int,
)
    requires
        0 <= y < t.len(),
        0 <= x < t[y].len(),
    ensures
        run_marks(t, os, pat, to, put)[y][x] == if in_closed_run(t, pat, to, os, x, y) {
            put
        } else {
            t[y][x]
        },
{
    lemma_run_o_steps(t, pat, to, os, x, y, os.len() as int);
}

proof fn lemma_ray_names()
    ensures
        "diag"@ != "orth"@,
        "alldir"@ != "orth"@,
        "alldir"@ != "diag"@,
        "8"@ != "orth"@,
        "8"@ != "diag"@,
        "8"@ != "alldir"@,
{
    reveal_strlit("orth");
    reveal_strlit("diag");
    reveal_strlit("alldir");
    reveal_strlit("8");
    assert("orth"@ =~= seq!['o', 'r', 't', 'h']);
    assert("diag"@ =~= seq!['d', 'i', 'a', 'g']);
    assert("alldir"@ =~= seq!['a', 'l', 'l', 'd', 'i', 'r']);
    assert("8"@ =~= seq!['8']);
    assert("diag"@ != "orth"@) by {
        assert("diag"@[0] != "orth"@[0]);
    }
    assert("alldir"@ != "orth"@) by {
        assert("alldir"@.len() != "orth"@.len());
    }
    assert("alldir"@ != "diag"@) by {
        assert("alldir"@.len() != "diag"@.len());
    }
    assert("8"@ != "orth"@) by {
        assert("8"@.len() != "orth"@.len());
    }
    assert("8"@ != "diag"@) by {
        assert("8"@.len() != "diag"@.len());
    }
    assert("8"@ != "alldir"@) by {
        assert("8"@.len() != "alldir"@.len());
    }
}

proof fn lemma_contains_dir(ds: Seq<(int, int)>, d: (int, int), i: int)
    requires
        0 <= i < ds.len(),
        ds[i] == d,
    ensures
        ds.contains(d),
{
}

/// The directions of each ray: `orth` the four axis steps (right, left,
/// down, up), `diag` the four diagonal steps, `alldir` and `8` all eight
/// unit steps.
pub proof fn law_ray_directions(d: (int, int))
    ensures
        dirs_of("orth"@) is Some && (dirs_of("orth"@)->0.contains(d) <==> unit_dir(d) && (d.0 == 0
            || d.1 == 0)),
        dirs_of("diag"@) is Some && (dirs_of("diag"@)->0.contains(d) <==> unit_dir(d) && d.0 != 0
            && d.1 != 0),
        dirs_of("alldir"@) is Some && (dirs_of("alldir"@)->0.contains(d) <==> unit_dir(d)),
        dirs_of("8"@) == dirs_of("alldir"@),
{
    lemma_ray_names();
    let o = orth_dirs();
    let g = diag_dirs();
    let a = all_dirs();
    assert(a =~= seq![(1, 0), (-1, 0), (0, 1), (0, -1), (1, 1), (1, -1), (-1, 1), (-1, -1)]);
    if unit_dir(d) {
        if d == (1int, 0int) {
            lemma_contains_dir(o, d, 0);
            lemma_contains_dir(a, d, 0);
        } else if d == (-1int, 0int) {
            lemma_contains_dir(o, d, 1);
            lemma_contains_dir(a, d, 1);
        } else if d == (0int, 1int) {
            lemma_contains_dir(o, d, 2);
            lemma_contains_dir(a, d, 2);
        } else if d == (0int, -1int) {
            lemma_contains_dir(o, d, 3);
            lemma_contains_dir(a, d, 3);
        } else if d == (1int, 1int) {
            lemma_contains_dir(g, d, 0);
            lemma_contains_dir(a, d, 4);
        } else if d == (1int, -1int) {
            lemma_contains_dir(g, d, 1);
            lemma_contains_dir(a, d, 5);
        } else if d == (-1int, 1int) {
            lemma_contains_dir(g, d, 2);
            lemma_contains_dir(a, d, 6);
        } else {
            lemma_contains_dir(g, d, 3);
            lemma_contains_dir(a, d, 7);
        }
    }
}

/// The `alldir` ray marks a cell exactly when the `orth` ray or the `diag`
/// ray marks it.
pub proof fn law_alldir_is_orth_and_diag(
    t: Seq<Seq<Seq<char>>>,
    os: Seq<(usize, usize)>,
    x: int,
    y: int,
)
    ensures
        reached_by_steps(t, os, dirs_of("alldir"@)->0, x, y) <==> reached_by_steps(
            t,
            os,
            dirs_of("orth"@)->0,
            x,
            y,
        ) || reached_by_steps(t, os, dirs_of("diag"@)->0, x, y),
{
    lemma_ray_names();
    let o = orth_dirs();
    let g = diag_dirs();
    let a = all_dirs();
    if reached_by_steps(t, os, a, x, y) {
        let (i, j, k) = choose|i: int, j: int, k: int|
            0 <= i < os.len() && 0 <= j < a.len() && k >= 1 && x == ray_x(os[i], a[j], k) && y
                == ray_y(os[i], a[j], k) && #[trigger] reach(t, os[i], a[j], k);
        if j < 4 {
            assert(a[j] == o[j]);
            assert(reach(t, os[i], o[j], k));
        } else {
            assert(a[j] == g[j - 4]);
            assert(reach(t, os[i], g[j - 4], k));
        }
    }
    if reached_by_steps(t, os, o, x, y) {
        let (i, j, k) = choose|i: int, j: int, k: int|
            0 <= i < os.len() && 0 <= j < o.len() && k >= 1 && x == ray_x(os[i], o[j], k) && y
                == ray_y(os[i], o[j], k) && #[trigger] reach(t, os[i], o[j], k);
        assert(a[j] == o[j]);
        assert(reach(t, os[i], a[j], k));
    }
    if reached_by_steps(t, os, g, x, y) {
        let (i, j, k) = choose|i: int, j: int, k: int|
            0 <= i < os.len() && 0 <= j < g.len() && k >= 1 && x == ray_x(os[i], g[j], k) && y
                == ray_y(os[i], g[j], k) && #[trigger] reach(t, os[i], g[j], k);
        assert(a[j + 4] == g[j]);
        assert(reach(t, os[i], a[j + 4], k));
    }
}

} // verus!
