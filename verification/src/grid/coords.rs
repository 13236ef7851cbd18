//! Grid coordinates: cells found by value, and 1-based points.
use vstd::prelude::*;

use crate::ast::{table_view, Call, Expr, Grid};
use crate::num::{nat_text, usize_text};
use crate::text::{concat2, concat3, str_is2, strs_view};
use crate::util::{
    arg_positive, arg_positive_error, arg_text_error, arg_usize_expr, expr_text, expr_to_string,
};

verus! {

// ---------------------------------------------------------------------------
// Finding cells by value
// ---------------------------------------------------------------------------

/// The positions `(x, y)` of the first `n` cells of row `y` equal to `needle`.
pub open spec fn row_hits(row: Seq<Seq<char>>, y: int, needle: Seq<char>, n: int) -> Seq<
    (usize, usize),
>
    decreases n,
{
    if n <= 0 || n > row.len() {
        seq![]
    } else {
        row_hits(row, y, needle, n - 1) + if row[n - 1] == needle {
            seq![((n - 1) as usize, y as usize)]
        } else {
            seq![]
        }
    }
}

/// The positions of the cells equal to `needle` in the first `n` rows, row
/// by row and left to right.
pub open spec fn grid_hits(t: Seq<Seq<Seq<char>>>, needle: Seq<char>, n: int) -> Seq<
    (usize, usize),
>
    decreases n,
{
    if n <= 0 || n > t.len() {
        seq![]
    } else {
        grid_hits(t, needle, n - 1) + row_hits(t[n - 1], n - 1, needle, t[n - 1].len() as int)
    }
}

/// The positions of all cells equal to `needle`, in reading order.
pub open spec fn hits(t: Seq<Seq<Seq<char>>>, needle: Seq<char>) -> Seq<(usize, usize)> {
    grid_hits(t, needle, t.len() as int)
}

/// A position `(x, y)` lies inside the grid.
pub open spec fn in_grid(t: Seq<Seq<Seq<char>>>, p: (usize, usize)) -> bool {
    p.1 < t.len() && p.0 < t[p.1 as int].len()
}

proof fn lemma_row_hits(row: Seq<Seq<char>>, y: int, needle: Seq<char>, n: int)
    requires
        0 <= y <= usize::MAX,
        n <= row.len() <= usize::MAX + 1,
    ensures
        forall|k: int|
            0 <= k < row_hits(row, y, needle, n).len() ==> {
                let p = #[trigger] row_hits(row, y, needle, n)[k];
                &&& p.1 == y
                &&& p.0 < n
                &&& row[p.0 as int] == needle
            },
    decreases n,
{
    if n > 0 {
        lemma_row_hits(row, y, needle, n - 1);
        let prev = row_hits(row, y, needle, n - 1);
        assert forall|k: int| 0 <= k < row_hits(row, y, needle, n).len() implies {
            let p = #[trigger] row_hits(row, y, needle, n)[k];
            &&& p.1 == y
            &&& p.0 < n
            &&& row[p.0 as int] == needle
        } by {
            if k < prev.len() {
                assert(row_hits(row, y, needle, n)[k] == prev[k]);
            }
        }
    }
}

/// Every position found holds `needle` and lies inside the grid.
pub proof fn lemma_hits_inside(t: Seq<Seq<Seq<char>>>, needle: Seq<char>, n: int)
    requires
        t.len() <= usize::MAX,
        forall|y: int| 0 <= y < t.len() ==> #[trigger] t[y].len() <= usize::MAX,
        n <= t.len(),
    ensures
        forall|k: int|
            0 <= k < grid_hits(t, needle, n).len() ==> {
                let p = #[trigger] grid_hits(t, needle, n)[k];
                &&& p.1 < n
                &&& in_grid(t, p)
                &&& t[p.1 as int][p.0 as int] == needle
            },
    decreases n,
{
    if n > 0 {
        lemma_hits_inside(t, needle, n - 1);
        lemma_row_hits(t[n - 1], n - 1, needle, t[n - 1].len() as int);
        let prev = grid_hits(t, needle, n - 1);
        let last = row_hits(t[n - 1], n - 1, needle, t[n - 1].len() as int);
        assert forall|k: int| 0 <= k < grid_hits(t, needle, n).len() implies {
            let p = #[trigger] grid_hits(t, needle, n)[k];
            &&& p.1 < n
            &&& in_grid(t, p)
            &&& t[p.1 as int][p.0 as int] == needle
        } by {
            if k < prev.len() {
                assert(grid_hits(t, needle, n)[k] == prev[k]);
            } else {
                assert(grid_hits(t, needle, n)[k] == last[k - prev.len()]);
            }
        }
    }
}

/// The positions of all cells equal to `needle`, in reading order.
pub fn find_cells(cells: &Vec<Vec<String>>, needle: &String) -> (out: Vec<(usize, usize)>)
    ensures
        out@ == hits(table_view(cells@), needle@),
{
    let ghost t = table_view(cells@);
    let mut out: Vec<(usize, usize)> = Vec::new();
    let mut y: usize = 0;
    while y < cells.len()
        invariant
            y <= cells.len(),
            t == table_view(cells@),
            out@ == grid_hits(t, needle@, y as int),
        decreases cells.len() - y,
    {
        let ghost before = out@;
        let row = &cells[y];
        assert(strs_view(row@) == t[y as int]);
        let mut x: usize = 0;
        while x < row.len()
            invariant
                x <= row.len(),
                y < cells.len(),
                row == &cells@[y as int],
                t == table_view(cells@),
                strs_view(row@) == t[y as int],
                out@ == before + row_hits(t[y as int], y as int, needle@, x as int),
            decreases row.len() - x,
        {
            assert(strs_view(row@)[x as int] == row@[x as int]@);
            if row[x] == *needle {
                out.push((x, y));
            }
            x += 1;
        }
        y += 1;
    }
    out
}

// ---------------------------------------------------------------------------
// Points
// ---------------------------------------------------------------------------

/// The 0-based position of the 1-based point `(x, y)`, when it lies inside
/// the grid.
pub open spec fn point_spec(t: Seq<Seq<Seq<char>>>, x: usize, y: usize) -> Option<(usize, usize)> {
    if x >= 1 && y >= 1 && y - 1 < t.len() && x - 1 < t[y - 1].len() {
        Some(((x - 1) as usize, (y - 1) as usize))
    } else {
        None
    }
}

/// Why a 1-based point is not inside the grid.
pub open spec fn point_error(t: Seq<Seq<Seq<char>>>, x: usize, y: usize) -> Seq<char> {
    if x == 0 || y == 0 {
        "grid coordinates are 1-based"@
    } else if y - 1 >= t.len() {
        "grid y out of range: "@ + nat_text(y as nat)
    } else {
        "grid x out of range at row "@ + nat_text(y as nat) + ": "@ + nat_text(x as nat)
    }
}

/// Converts a 1-based point to a 0-based position inside the grid.
pub fn point_to_index(grid: &Grid, x: usize, y: usize) -> (r: Result<(usize, usize), String>)
    ensures
        match r {
            Ok(p) => point_spec(table_view(grid.cells@), x, y) == Some(p),
            Err(m) => point_spec(table_view(grid.cells@), x, y) is None && m@ == point_error(
                table_view(grid.cells@),
                x,
                y,
            ),
        },
{
    let ghost t = table_view(grid.cells@);
    if x == 0 || y == 0 {
        return Err(String::from_str("grid coordinates are 1-based"));
    }
    let yi = y - 1;
    if yi >= grid.cells.len() {
        let n = usize_text(y);
        return Err(concat2("grid y out of range: ", n.as_str()));
    }
    let xi = x - 1;
    assert(t[yi as int].len() == grid.cells@[yi as int].len());
    if xi >= grid.cells[yi].len() {
        let ny = usize_text(y);
        let nx = usize_text(x);
        let mut m = concat3("grid x out of range at row ", ny.as_str(), ": ");
        m.append(nx.as_str());
        return Err(m);
    }
    Ok((xi, yi))
}

/// `pick` or `p`.
pub open spec fn is_pick_name(n: Seq<char>) -> bool {
    n == "pick"@ || n == "p"@
}

/// `point` or `pt`.
pub open spec fn is_point_name(n: Seq<char>) -> bool {
    n == "point"@ || n == "pt"@
}

/// A call that names a cell: `pick(value, nth?)` / `p(..)` or
/// `point(x, y)` / `pt(..)`.
pub open spec fn is_origin_name(n: Seq<char>) -> bool {
    is_pick_name(n) || is_point_name(n)
}

/// The `nth` (1-based) cell equal to the first argument of a pick call.
pub open spec fn pick_spec(t: Seq<Seq<Seq<char>>>, c: Call) -> Option<(usize, usize)> {
    if c.args.len() == 0 || c.args.len() > 2 {
        None
    } else {
        match expr_text(c.args@[0]) {
            None => None,
            Some(needle) => {
                let nth = if c.args.len() == 2 {
                    arg_positive(c, 1)
                } else {
                    Some(1usize)
                };
                match nth {
                    None => None,
                    Some(k) => if 1 <= k <= hits(t, needle).len() {
                        Some(hits(t, needle)[k - 1])
                    } else {
                        None
                    },
                }
            },
        }
    }
}

/// The point of a `point(x, y)` call.
pub open spec fn point_call_spec(t: Seq<Seq<Seq<char>>>, c: Call) -> Option<(usize, usize)> {
    match (arg_positive(c, 0), arg_positive(c, 1)) {
        (Some(x), Some(y)) => point_spec(t, x, y),
        _ => None,
    }
}

/// The position an origin call names.
pub open spec fn origin_spec(t: Seq<Seq<Seq<char>>>, c: Call) -> Option<(usize, usize)> {
    if is_pick_name(c.name@) {
        pick_spec(t, c)
    } else if is_point_name(c.name@) {
        if c.args.len() == 2 {
            point_call_spec(t, c)
        } else {
            None
        }
    } else {
        None
    }
}

/// The message of a pick call that names no cell.
pub open spec fn pick_error(t: Seq<Seq<Seq<char>>>, c: Call) -> Seq<char> {
    if c.args.len() == 0 || c.args.len() > 2 {
        "pick/p expects 1 or 2 args (value, nth)"@
    } else if expr_text(c.args@[0]) is None {
        arg_text_error(c, 0)
    } else if c.args.len() == 2 && arg_positive(c, 1) is None {
        arg_positive_error(c, 1)
    } else {
        let nth: usize = if c.args.len() == 2 {
            arg_positive(c, 1)->0
        } else {
            1
        };
        "pick could not find match #"@ + nat_text(nth as nat) + " for "@ + expr_text(c.args@[0])->0
    }
}

/// The message of a `point(x, y)` reading that names no cell.
pub open spec fn point_call_error(t: Seq<Seq<Seq<char>>>, c: Call) -> Seq<char> {
    if arg_positive(c, 0) is None {
        arg_positive_error(c, 0)
    } else if arg_positive(c, 1) is None {
        arg_positive_error(c, 1)
    } else {
        point_error(t, arg_positive(c, 0)->0, arg_positive(c, 1)->0)
    }
}

/// The message of an origin call that names no cell.
pub open spec fn origin_error(t: Seq<Seq<Seq<char>>>, c: Call) -> Seq<char> {
    if is_pick_name(c.name@) {
        pick_error(t, c)
    } else if is_point_name(c.name@) {
        if c.args.len() != 2 {
            "point/pt expects exactly 2 args (x, y)"@
        } else {
            point_call_error(t, c)
        }
    } else {
        "expected pick(...), p(...), point(...), or pt(...)"@
    }
}

/// The message of a point argument that names no cell.
pub open spec fn point_expr_error(t: Seq<Seq<Seq<char>>>, e: Expr) -> Seq<char> {
    match e {
        Expr::Call(c) => if is_origin_name(c.name@) {
            origin_error(t, c)
        } else {
            "expected pick(...), p(...), point(...), or pt(...) for point argument"@
        },
        _ => "expected pick(...), p(...), point(...), or pt(...) for point argument"@,
    }
}

/// The message of a mark argument that names no origin.
pub open spec fn origins_error(t: Seq<Seq<Seq<char>>>, e: Expr) -> Seq<char> {
    match e {
        Expr::Call(c) => if is_origin_name(c.name@) {
            origin_error(t, c)
        } else {
            "nested call cannot be converted to string here"@
        },
        _ => "mark origin not found: "@ + expr_text(e)->0,
    }
}

fn is_pick_call(call: &Call) -> (r: bool)
    ensures
        r == is_pick_name(call.name@),
{
    str_is2(call.name.as_str(), "pick", "p")
}

fn is_point_call(call: &Call) -> (r: bool)
    ensures
        r == is_point_name(call.name@),
{
    str_is2(call.name.as_str(), "point", "pt")
}

/// Whether the call names a cell.
pub fn is_origin_call(call: &Call) -> (r: bool)
    ensures
        r == is_origin_name(call.name@),
{
    is_pick_call(call) || is_point_call(call)
}

/// The `nth` cell equal to a value: `pick(value)` or `pick(value, nth)`.
pub fn pick_coord(grid: &Grid, call: &Call) -> (r: Result<(usize, usize), String>)
    ensures
        match r {
            Ok(p) => pick_spec(table_view(grid.cells@), *call) == Some(p),
            Err(m) => pick_spec(table_view(grid.cells@), *call) is None && m@ == pick_error(
                table_view(grid.cells@),
                *call,
            ),
        },
{
    if call.args.len() == 0 || call.args.len() > 2 {
        return Err(String::from_str("pick/p expects 1 or 2 args (value, nth)"));
    }
    let needle = match expr_to_string(&call.args[0]) {
        Ok(s) => s,
        Err(e) => return Err(e),
    };
    let nth: usize = if call.args.len() == 2 {
        match arg_usize_expr(call, 1) {
            Ok(n) => n,
            Err(e) => return Err(e),
        }
    } else {
        1
    };
    let found = find_cells(&grid.cells, &needle);
    if nth >= 1 && nth <= found.len() {
        Ok(found[nth - 1])
    } else {
        let n = usize_text(nth);
        let mut m = concat3("pick could not find match #", n.as_str(), " for ");
        m.append(needle.as_str());
        Err(m)
    }
}

/// The cell of `point(x, y)`.
pub fn point_coord(grid: &Grid, call: &Call) -> (r: Result<(usize, usize), String>)
    ensures
        match r {
            Ok(p) => call.args.len() == 2 && point_call_spec(table_view(grid.cells@), *call)
                == Some(p),
            Err(m) => (call.args.len() != 2 || point_call_spec(table_view(grid.cells@), *call)
                is None) && m@ == (if call.args.len() != 2 {
                "point/pt expects exactly 2 args (x, y)"@
            } else {
                point_call_error(table_view(grid.cells@), *call)
            }),
        },
{
    if call.args.len() != 2 {
        return Err(String::from_str("point/pt expects exactly 2 args (x, y)"));
    }
    resolve_point_call(call, grid)
}

/// The cell of an origin call.
pub fn resolve_origin_call(grid: &Grid, call: &Call) -> (r: Result<(usize, usize), String>)
    ensures
        match r {
            Ok(p) => origin_spec(table_view(grid.cells@), *call) == Some(p),
            Err(m) => origin_spec(table_view(grid.cells@), *call) is None && m@ == origin_error(
                table_view(grid.cells@),
                *call,
            ),
        },
{
    if is_pick_call(call) {
        return pick_coord(grid, call);
    }
    if is_point_call(call) {
        return point_coord(grid, call);
    }
    Err(String::from_str("expected pick(...), p(...), point(...), or pt(...)"))
}

/// The cell an argument names, when it is an origin call.
pub open spec fn point_expr_spec(t: Seq<Seq<Seq<char>>>, e: Expr) -> Option<(usize, usize)> {
    match e {
        Expr::Call(c) => if is_origin_name(c.name@) {
            origin_spec(t, c)
        } else {
            None
        },
        _ => None,
    }
}

/// The cell named by a point argument: `pick(..)`, `p(..)`, `point(..)` or
/// `pt(..)`.
pub fn resolve_point_expr(grid: &Grid, expr: &Expr) -> (r: Result<(usize, usize), String>)
    ensures
        match r {
            Ok(p) => point_expr_spec(table_view(grid.cells@), *expr) == Some(p),
            Err(m) => point_expr_spec(table_view(grid.cells@), *expr) is None && m@
                == point_expr_error(table_view(grid.cells@), *expr),
        },
{
    match expr {
        Expr::Call(call) => {
            if is_origin_call(call) {
                return resolve_origin_call(grid, call);
            }
        },
        _ => {},
    }
    Err(String::from_str("expected pick(...), p(...), point(...), or pt(...) for point argument"))
}

/// The cell of the first two arguments read as a 1-based point `x, y`.
pub fn resolve_point_call(call: &Call, grid: &Grid) -> (r: Result<(usize, usize), String>)
    ensures
        match r {
            Ok(p) => point_call_spec(table_view(grid.cells@), *call) == Some(p),
            Err(m) => point_call_spec(table_view(grid.cells@), *call) is None && m@
                == point_call_error(table_view(grid.cells@), *call),
        },
{
    let x = match arg_usize_expr(call, 0) {
        Ok(x) => x,
        Err(e) => return Err(e),
    };
    let y = match arg_usize_expr(call, 1) {
        Ok(y) => y,
        Err(e) => return Err(e),
    };
    point_to_index(grid, x, y)
}

/// The origins a mark argument names: the cell of an origin call, or every
/// cell equal to the argument's text (at least one).
pub open spec fn origins_spec(t: Seq<Seq<Seq<char>>>, e: Expr) -> Option<Seq<(usize, usize)>> {
    match e {
        Expr::Call(c) => if is_origin_name(c.name@) {
            match origin_spec(t, c) {
                Some(p) => Some(seq![p]),
                None => None,
            }
        } else {
            None
        },
        _ => match expr_text(e) {
            Some(from) => if hits(t, from).len() > 0 {
                Some(hits(t, from))
            } else {
                None
            },
            None => None,
        },
    }
}

/// The origins of a mark: an origin call's cell, or every cell equal to the
/// argument's text.
pub fn mark_origins(grid: &Grid, expr: &Expr) -> (r: Result<Vec<(usize, usize)>, String>)
    ensures
        match r {
            Ok(v) => origins_spec(table_view(grid.cells@), *expr) == Some(v@),
            Err(m) => origins_spec(table_view(grid.cells@), *expr) is None && m@ == origins_error(
                table_view(grid.cells@),
                *expr,
            ),
        },
{
    match expr {
        Expr::Call(call) => {
            if is_origin_call(call) {
                let p = match resolve_origin_call(grid, call) {
                    Ok(p) => p,
                    Err(e) => return Err(e),
                };
                let mut v: Vec<(usize, usize)> = Vec::new();
                v.push(p);
                assert(v@ =~= seq![p]);
                return Ok(v);
            }
        },
        _ => {},
    }
    let from = match expr_to_string(expr) {
        Ok(s) => s,
        Err(e) => return Err(e),
    };
    let origins = find_cells(&grid.cells, &from);
    if origins.len() == 0 {
        return Err(concat2("mark origin not found: ", from.as_str()));
    }
    Ok(origins)
}

/// The cells that origin and point arguments name lie inside the grid.
pub proof fn lemma_points_inside(t: Seq<Seq<Seq<char>>>, c: Call)
    requires
        t.len() <= usize::MAX,
        forall|y: int| 0 <= y < t.len() ==> #[trigger] t[y].len() <= usize::MAX,
    ensures
        forall|e: Expr| #[trigger] point_expr_spec(t, e) is Some ==> in_grid(t, point_expr_spec(t, e)->0),
        point_call_spec(t, c) is Some ==> in_grid(t, point_call_spec(t, c)->0),
        forall|d: Call| #[trigger] origin_spec(t, d) is Some ==> in_grid(t, origin_spec(t, d)->0),
{
    assert forall|d: Call| #[trigger] origin_spec(t, d) is Some implies in_grid(t, origin_spec(t, d)->0) by {
        if is_pick_name(d.name@) && pick_spec(t, d) is Some {
            let needle = expr_text(d.args@[0])->0;
            lemma_hits_inside(t, needle, t.len() as int);
            let k = if d.args.len() == 2 {
                arg_positive(d, 1)->0
            } else {
                1usize
            };
            assert(hits(t, needle)[k - 1] == grid_hits(t, needle, t.len() as int)[k - 1]);
        }
    }
}

} // verus!
