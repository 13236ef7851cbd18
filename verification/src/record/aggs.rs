//! `groupby`: rows grouped by a key column, one output row per key with the
//! requested aggregates.
use vstd::prelude::*;

use crate::ast::{table_view, Agg, Call, Expr, Records};
use crate::num::nat_text;
use crate::order::{group_rows, groups_view, is_grouping, lemma_member_props, members};
use crate::table::lemma_strs_push;
use crate::text::{str_is2, strs_view};
use crate::util::{arg_col, arg_column, arg_column_error};

verus! {

/// The numeric aggregations.
#[derive(Debug, Clone, Copy, PartialEq, Eq, Structural)]
pub enum NumericAgg {
    Sum,
    Min,
    Max,
    Avg,
    Median,
}

/// Computes a numeric aggregate over the texts of a group's cells in one
/// column (in row order), as floating-point numbers rendered back to text;
/// an error is a message for a cell that is not a number.
pub trait NumberFold {
    fn fold_numbers(&self, kind: NumericAgg, values: &Vec<String>) -> Result<String, String>;
}

/// The aggregator an argument names: a call `sum(col)` / `s`, `count()` /
/// `c` (also bare), `min` / `mn`, `max` / `mx`, `avg` / `a`, `median` /
/// `med`, with 1-based columns.
pub open spec fn agg_of(e: Expr) -> Option<Agg> {
    match e {
        Expr::Call(c) => {
            let n = c.name@;
            if n == seq!['c', 'o', 'u', 'n', 't'] || n == seq!['c'] {
                Some(Agg::Count)
            } else if !(arg_column(c, 0) is Some) {
                None
            } else {
                let col = arg_column(c, 0)->0;
                if n == seq!['s', 'u', 'm'] || n == seq!['s'] {
                    Some(Agg::Sum(col))
                } else if n == seq!['m', 'i', 'n'] || n == seq!['m', 'n'] {
                    Some(Agg::Min(col))
                } else if n == seq!['m', 'a', 'x'] || n == seq!['m', 'x'] {
                    Some(Agg::Max(col))
                } else if n == seq!['a', 'v', 'g'] || n == seq!['a'] {
                    Some(Agg::Avg(col))
                } else if n == seq!['m', 'e', 'd', 'i', 'a', 'n'] || n == seq!['m', 'e', 'd'] {
                    Some(Agg::Median(col))
                } else {
                    None
                }
            }
        },
        Expr::Ident(s) => if s@ == seq!['c', 'o', 'u', 'n', 't'] || s@ == seq!['c'] {
            Some(Agg::Count)
        } else {
            None
        },
        _ => None,
    }
}

proof fn lemma_lits()
    ensures
        "count"@ == seq!['c', 'o', 'u', 'n', 't'],
        "c"@ == seq!['c'],
        "sum"@ == seq!['s', 'u', 'm'],
        "s"@ == seq!['s'],
        "min"@ == seq!['m', 'i', 'n'],
        "mn"@ == seq!['m', 'n'],
        "max"@ == seq!['m', 'a', 'x'],
        "mx"@ == seq!['m', 'x'],
        "avg"@ == seq!['a', 'v', 'g'],
        "a"@ == seq!['a'],
        "median"@ == seq!['m', 'e', 'd', 'i', 'a', 'n'],
        "med"@ == seq!['m', 'e', 'd'],
{
    reveal_strlit("count");
    reveal_strlit("c");
    reveal_strlit("sum");
    reveal_strlit("s");
    reveal_strlit("min");
    reveal_strlit("mn");
    reveal_strlit("max");
    reveal_strlit("mx");
    reveal_strlit("avg");
    reveal_strlit("a");
    reveal_strlit("median");
    reveal_strlit("med");
    assert("count"@ =~= seq!['c', 'o', 'u', 'n', 't']);
    assert("c"@ =~= seq!['c']);
    assert("sum"@ =~= seq!['s', 'u', 'm']);
    assert("s"@ =~= seq!['s']);
    assert("min"@ =~= seq!['m', 'i', 'n']);
    assert("mn"@ =~= seq!['m', 'n']);
    assert("max"@ =~= seq!['m', 'a', 'x']);
    assert("mx"@ =~= seq!['m', 'x']);
    assert("avg"@ =~= seq!['a', 'v', 'g']);
    assert("a"@ =~= seq!['a']);
    assert("median"@ =~= seq!['m', 'e', 'd', 'i', 'a', 'n']);
    assert("med"@ =~= seq!['m', 'e', 'd']);
}

/// The message of an argument that names no aggregator.
pub open spec fn agg_error(e: Expr) -> Seq<char> {
    match e {
        Expr::Call(c) => {
            let n = c.name@;
            if n == seq!['s', 'u', 'm'] || n == seq!['s'] || n == seq!['m', 'i', 'n'] || n == seq![
                'm',
                'n',
            ] || n == seq!['m', 'a', 'x'] || n == seq!['m', 'x'] || n == seq!['a', 'v', 'g'] || n
                == seq!['a'] || n == seq!['m', 'e', 'd', 'i', 'a', 'n'] || n == seq!['m', 'e', 'd'] {
                arg_column_error(c, 0)
            } else {
                "unknown aggregator: "@ + n
            }
        },
        _ => "groupby aggregators must be function calls"@,
    }
}

/// The message of the first argument from `i` on that names no aggregator.
pub open spec fn first_agg_error(args: Seq<Expr>, i: int) -> Seq<char>
    decreases args.len() - i,
{
    if i < 1 || i >= args.len() {
        seq![]
    } else if agg_of(args[i]) is None {
        agg_error(args[i])
    } else {
        first_agg_error(args, i + 1)
    }
}

/// Reads one aggregator argument.
pub fn parse_agg(expr: &Expr) -> (r: Result<Agg, String>)
    ensures
        match r {
            Ok(a) => agg_of(*expr) == Some(a),
            Err(m) => agg_of(*expr) is None && m@ == agg_error(*expr),
        },
{
    proof {
        lemma_lits();
    }
    match expr {
        Expr::Call(call) => {
            let name = call.name.as_str();
            if str_is2(name, "count", "c") {
                return Ok(Agg::Count);
            }
            let known = str_is2(name, "sum", "s") || str_is2(name, "min", "mn") || str_is2(
                name,
                "max",
                "mx",
            ) || str_is2(name, "avg", "a") || str_is2(name, "median", "med");
            if !known {
                return Err(crate::text::concat2("unknown aggregator: ", name));
            }
            let col = arg_col(call, 0)?;
            if str_is2(name, "sum", "s") {
                Ok(Agg::Sum(col))
            } else if str_is2(name, "min", "mn") {
                Ok(Agg::Min(col))
            } else if str_is2(name, "max", "mx") {
                Ok(Agg::Max(col))
            } else if str_is2(name, "avg", "a") {
                Ok(Agg::Avg(col))
            } else {
                Ok(Agg::Median(col))
            }
        },
        Expr::Ident(s) => {
            if str_is2(s.as_str(), "count", "c") {
                Ok(Agg::Count)
            } else {
                Err(String::from_str("groupby aggregators must be function calls"))
            }
        },
        _ => Err(String::from_str("groupby aggregators must be function calls")),
    }
}

/// The numeric kind and column of an aggregator other than `count`.
pub open spec fn numeric_of(a: Agg) -> Option<(NumericAgg, usize)> {
    match a {
        Agg::Sum(c) => Some((NumericAgg::Sum, c)),
        Agg::Min(c) => Some((NumericAgg::Min, c)),
        Agg::Max(c) => Some((NumericAgg::Max, c)),
        Agg::Avg(c) => Some((NumericAgg::Avg, c)),
        Agg::Median(c) => Some((NumericAgg::Median, c)),
        Agg::Count => None,
    }
}

/// The texts in column `col` of the group's rows that have it, in row order.
pub open spec fn column_values(rows: Seq<Seq<Seq<char>>>, group: Seq<int>, col: usize) -> Seq<Seq<char>> {
    group.filter(|j: int| col < rows[j].len()).map_values(|j: int| rows[j][col as int])
}

/// `r` is a result that `folder` gives for the aggregate `kind` over the
/// texts `vals`.
pub open spec fn folds_to<F: NumberFold>(folder: &F, kind: NumericAgg, vals: Seq<Seq<char>>, r: Result<
    String,
    String,
>) -> bool {
    exists|v: Vec<String>|
        strs_view(v@) == vals && #[trigger] call_ensures(F::fold_numbers, (folder, kind, &v), r)
}

/// The group's indices as integers.
pub open spec fn group_view(group: Seq<usize>) -> Seq<int> {
    group.map_values(|j: usize| j as int)
}

/// Evaluates one aggregate over a group of rows: `count` is the group size;
/// the numeric aggregates fold the column's texts with `folder`.
pub fn eval_agg<F: NumberFold>(
    agg: Agg,
    rows: &Vec<Vec<String>>,
    group: &Vec<usize>,
    folder: &F,
) -> (r: Result<String, String>)
    requires
        forall|m: int| 0 <= m < group.len() ==> 0 <= #[trigger] group@[m] < rows.len(),
    ensures
        agg == Agg::Count ==> (r matches Ok(s) && s@ == nat_text(group.len() as nat)),
        numeric_of(agg) matches Some((k, c)) ==> folds_to(
            folder,
            k,
            column_values(table_view(rows@), group_view(group@), c),
            r,
        ),
{
    match agg {
        Agg::Count => Ok(crate::num::usize_text(group.len())),
        Agg::Sum(c) => fold_column(NumericAgg::Sum, c, rows, group, folder),
        Agg::Min(c) => fold_column(NumericAgg::Min, c, rows, group, folder),
        Agg::Max(c) => fold_column(NumericAgg::Max, c, rows, group, folder),
        Agg::Avg(c) => fold_column(NumericAgg::Avg, c, rows, group, folder),
        Agg::Median(c) => fold_column(NumericAgg::Median, c, rows, group, folder),
    }
}

/// Hands the group's column values to the folder.
fn fold_column<F: NumberFold>(
    kind: NumericAgg,
    col: usize,
    rows: &Vec<Vec<String>>,
    group: &Vec<usize>,
    folder: &F,
) -> (r: Result<String, String>)
    requires
        forall|m: int| 0 <= m < group.len() ==> 0 <= #[trigger] group@[m] < rows.len(),
    ensures
        folds_to(folder, kind, column_values(table_view(rows@), group_view(group@), col), r),
{
    let values = column_of_group(col, rows, group);
    let r = folder.fold_numbers(kind, &values);
    assert(call_ensures(F::fold_numbers, (folder, kind, &values), r));
    r
}

/// The texts in column `col` of the group's rows that have it.
pub fn column_of_group(col: usize, rows: &Vec<Vec<String>>, group: &Vec<usize>) -> (out: Vec<String>)
    requires
        forall|m: int| 0 <= m < group.len() ==> 0 <= #[trigger] group@[m] < rows.len(),
    ensures
        strs_view(out@) == column_values(
            table_view(rows@),
            group@.map_values(|j: usize| j as int),
            col,
        ),
{
    let ghost t = table_view(rows@);
    let ghost gv = group@.map_values(|j: usize| j as int);
    let ghost p = |j: int| col < t[j].len();
    let ghost f = |j: int| t[j][col as int];
    let mut out: Vec<String> = Vec::new();
    let mut m: usize = 0;
    while m < group.len()
        invariant
            m <= group.len(),
            t == table_view(rows@),
            gv == group@.map_values(|j: usize| j as int),
            forall|q: int| 0 <= q < group.len() ==> 0 <= #[trigger] group@[q] < rows.len(),
            strs_view(out@) == gv.take(m as int).filter(p).map_values(f),
            p == (|j: int| col < t[j].len()),
            f == (|j: int| t[j][col as int]),
        decreases group.len() - m,
    {
        let j = group[m];
        proof {
            assert(gv.take(m + 1) =~= gv.take(m as int).push(j as int));
            gv.take(m as int).lemma_filter_push(j as int, p);
        }
        let row = &rows[j];
        assert(strs_view(row@) == t[j as int]);
        if col < row.len() {
            let v = row[col].clone();
            proof {
                lemma_strs_push(out@, v);
                assert(gv.take(m as int).filter(p).push(j as int).map_values(f) =~= gv.take(
                    m as int,
                ).filter(p).map_values(f).push(f(j as int)));
            }
            out.push(v);
        }
        m += 1;
    }
    assert(gv.take(group.len() as int) =~= gv);
    out
}

/// Every aggregator argument (after the key column) names an aggregator.
pub open spec fn aggs_ok(args: Seq<Expr>) -> bool {
    forall|i: int| 1 <= i < args.len() ==> (#[trigger] agg_of(args[i])) is Some
}

/// What `rec_groupby` returns for its input.
pub open spec fn groupby_post(rec: Records, call: Call, r: Result<Records, String>) -> bool {
    match r {
        Ok(x) => {
            &&& arg_column(call, 0) is Some
            &&& aggs_ok(call.args@)
            &&& exists|g: Seq<(Seq<char>, Seq<int>)>|
                {
                    &&& is_grouping(
                        table_view(rec.rows@),
                        arg_column(call, 0)->0,
                        arg_column(call, 0)->0,
                        rec.rows.len() as int,
                        g,
                    )
                    &&& x.rows.len() == g.len()
                    &&& forall|k: int|
                        0 <= k < g.len() ==> {
                            &&& (#[trigger] x.rows@[k]).len() == call.args.len()
                            &&& x.rows@[k][0]@ == g[k].0
                            &&& forall|a: int|
                                1 <= a < call.args.len() && agg_of(call.args@[a]) == Some(
                                    Agg::Count,
                                ) ==> x.rows@[k][a]@ == nat_text(g[k].1.len())
                        }
                }
            &&& x.cfg == rec.cfg
        },
        Err(m) => (arg_column(call, 0) is None && m@ == arg_column_error(call, 0)) || (arg_column(
            call,
            0,
        ) is Some && !aggs_ok(call.args@) && m@ == first_agg_error(call.args@, 1)) || (arg_column(
            call,
            0,
        ) is Some && aggs_ok(call.args@) && exists|i: int|
            1 <= i < call.args.len() && #[trigger] numeric_of(agg_of(call.args@[i])->0) is Some),
    }
}

/// Aggregator `a` of `call` is numeric, of kind `kind` over column `col`.
pub open spec fn numeric_arg(call: Call, a: int, kind: NumericAgg, col: usize) -> bool {
    &&& 1 <= a < call.args.len()
    &&& agg_of(call.args@[a]) is Some
    &&& numeric_of(agg_of(call.args@[a])->0) == Some((kind, col))
}

/// The numeric aggregator `a` fails with `m` on group `k` of `g`: the folder
/// gives `Err(m)` for that group's column values.
pub open spec fn fold_fails_at<F: NumberFold>(
    folder: &F,
    t: Seq<Seq<Seq<char>>>,
    g: Seq<(Seq<char>, Seq<int>)>,
    call: Call,
    k: int,
    a: int,
    m: String,
) -> bool {
    &&& 0 <= k < g.len()
    &&& earlier_folds_ok(folder, t, g, call, k, a)
    &&& exists|kind: NumericAgg, col: usize|
        #[trigger] numeric_arg(call, a, kind, col) && folds_to(
            folder,
            kind,
            column_values(t, g[k].1, col),
            Err(m),
        )
}

/// Every numeric aggregator before aggregator `a` of group `k` (groups in
/// order, aggregators in order within a group) has a result from `folder`.
pub open spec fn earlier_folds_ok<F: NumberFold>(
    folder: &F,
    t: Seq<Seq<Seq<char>>>,
    g: Seq<(Seq<char>, Seq<int>)>,
    call: Call,
    k: int,
    a: int,
) -> bool {
    forall|k2: int, a2: int, kind: NumericAgg, col: usize|
        #![trigger numeric_arg(call, a2, kind, col), g[k2]]
        (0 <= k2 < k || (k2 == k && a2 < a)) && numeric_arg(call, a2, kind, col) ==> fold_succeeds(
            folder,
            kind,
            column_values(t, g[k2].1, col),
        )
}

/// `folder` gives some result for the aggregate `kind` over `vals`.
pub open spec fn fold_succeeds<F: NumberFold>(folder: &F, kind: NumericAgg, vals: Seq<Seq<char>>) -> bool {
    exists|c: String| #[trigger] folds_to(folder, kind, vals, Ok(c))
}

/// The numeric cells of `groupby`: on success, cell `a` of output row `k`
/// is what `folder` gives for aggregator `a` over the column values of
/// group `k`; a failure other than a bad key or aggregator argument is the
/// error of one such fold.
pub open spec fn groupby_folds<F: NumberFold>(folder: &F, rec: Records, call: Call, r: Result<
    Records,
    String,
>) -> bool {
    match r {
        Ok(x) => groupby_fold_cells(folder, rec, call, x),
        Err(m) => arg_column(call, 0) is None || !aggs_ok(call.args@) || groupby_fold_error(
            folder,
            rec,
            call,
            m,
        ),
    }
}

/// Each numeric cell of the output rows `x` is what `folder` gives for its
/// aggregator over the column values of its group.
pub open spec fn groupby_fold_cells<F: NumberFold>(folder: &F, rec: Records, call: Call, x: Records) -> bool {
    exists|g: Seq<(Seq<char>, Seq<int>)>|
        {
            &&& is_grouping(
                table_view(rec.rows@),
                arg_column(call, 0)->0,
                arg_column(call, 0)->0,
                rec.rows.len() as int,
                g,
            )
            &&& x.rows.len() == g.len()
            &&& forall|k: int, a: int, kind: NumericAgg, col: usize|
                0 <= k < g.len() && #[trigger] numeric_arg(call, a, kind, col) ==> a
                    < x.rows@[k].len() && folds_to(
                    folder,
                    kind,
                    column_values(table_view(rec.rows@), g[k].1, col),
                    Ok(#[trigger] x.rows@[k][a]),
                )
        }
}

/// The first numeric aggregator that fails, in group order and then
/// aggregator order, fails with `m`.
pub open spec fn groupby_fold_error<F: NumberFold>(folder: &F, rec: Records, call: Call, m: String) -> bool {
    exists|g: Seq<(Seq<char>, Seq<int>)>, k: int, a: int|
        is_grouping(
            table_view(rec.rows@),
            arg_column(call, 0)->0,
            arg_column(call, 0)->0,
            rec.rows.len() as int,
            g,
        ) && #[trigger] fold_fails_at(folder, table_view(rec.rows@), g, call, k, a, m)
}

/// Groups rows by the key column (1-based) and emits, per key in string
/// order, the key followed by each aggregate. `count` is the group size;
/// numeric aggregates come from `folder`.
pub fn rec_groupby<F: NumberFold>(rec: Records, call: &Call, folder: &F) -> (r: Result<Records, String>)
    ensures
        groupby_post(rec, *call, r),
        groupby_folds(folder, rec, *call, r),
{
    let key = arg_col(call, 0)?;
    let mut aggs: Vec<Agg> = Vec::new();
    let mut i: usize = 1;
    while i < call.args.len()
        invariant
            1 <= i <= call.args.len() || call.args.len() == 0,
            call.args.len() >= 1,
            aggs.len() == i - 1,
            forall|q: int| 1 <= q < i ==> #[trigger] agg_of(call.args@[q]) == Some(aggs@[q - 1]),
            arg_column(*call, 0) == Some(key),
            first_agg_error(call.args@, 1) == first_agg_error(call.args@, i as int),
        decreases call.args.len() - i,
    {
        let a = match parse_agg(&call.args[i]) {
            Ok(a) => a,
            Err(m) => {
                assert(agg_of(call.args@[i as int]) is None);
                return Err(m);
            },
        };
        assert(first_agg_error(call.args@, i as int) == first_agg_error(call.args@, i + 1));
        aggs.push(a);
        i += 1;
    }
    let groups = group_rows(&rec.rows, key, key);
    let ghost t = table_view(rec.rows@);
    let ghost gv = groups_view(groups@);
    let mut out: Vec<Vec<String>> = Vec::new();
    let mut gi: usize = 0;
    while gi < groups.len()
        invariant
            gi <= groups.len(),
            t == table_view(rec.rows@),
            gv == groups_view(groups@),
            is_grouping(t, key, key, rec.rows.len() as int, gv),
            arg_column(*call, 0) == Some(key),
            aggs.len() + 1 == call.args.len(),
            forall|q: int| 1 <= q < call.args.len() ==> #[trigger] agg_of(call.args@[q]) == Some(aggs@[q - 1]),
            out.len() == gi,
            forall|k: int, q: int, kind: NumericAgg, col: usize|
                #![trigger numeric_arg(*call, q, kind, col), out@[k]]
                0 <= k < gi && numeric_arg(*call, q, kind, col) ==> q < out@[k].len() && folds_to(
                    folder,
                    kind,
                    column_values(t, gv[k].1, col),
                    Ok(out@[k][q]),
                ),
            forall|k: int|
                0 <= k < gi ==> {
                    &&& (#[trigger] out@[k]).len() == call.args.len()
                    &&& out@[k][0]@ == gv[k].0
                    &&& forall|a: int|
                        1 <= a < call.args.len() && agg_of(call.args@[a]) == Some(Agg::Count)
                            ==> out@[k][a]@ == nat_text(gv[k].1.len())
                },
        decreases groups.len() - gi,
    {
        let members_v = &groups[gi].1;
        proof {
            assert forall|m: int| 0 <= m < members_v.len() implies 0 <= #[trigger] members_v@[m]
                < rec.rows.len() by {
                assert(gv[gi as int].1 == members(t, key, key, rec.rows.len() as int, gv[gi as int].0));
                assert(gv[gi as int].1[m] == members_v@[m] as int);
                lemma_member_props(t, key, key, rec.rows.len() as int, gv[gi as int].0, m);
            }
        }
        let mut row: Vec<String> = Vec::new();
        row.push(groups[gi].0.clone());
        let mut a: usize = 0;
        while a < aggs.len()
            invariant
                a <= aggs.len(),
                aggs.len() + 1 == call.args.len(),
                forall|q: int| 1 <= q < call.args.len() ==> #[trigger] agg_of(call.args@[q]) == Some(aggs@[q - 1]),
                forall|m: int| 0 <= m < members_v.len() ==> 0 <= #[trigger] members_v@[m]
                    < rec.rows.len(),
                row.len() == a + 1,
                row@[0]@ == gv[gi as int].0,
                gv == groups_view(groups@),
                gi < groups.len(),
                members_v == &groups@[gi as int].1,
                forall|q: int|
                    1 <= q < a + 1 && agg_of(call.args@[q]) == Some(Agg::Count) ==> row@[q]@
                        == nat_text(gv[gi as int].1.len()),
                t == table_view(rec.rows@),
                gv[gi as int].1 == group_view(members_v@),
                out.len() == gi,
                forall|k: int, q: int, kind: NumericAgg, col: usize|
                    #![trigger numeric_arg(*call, q, kind, col), out@[k]]
                    0 <= k < gi && numeric_arg(*call, q, kind, col) ==> q < out@[k].len() && folds_to(
                        folder,
                        kind,
                        column_values(t, gv[k].1, col),
                        Ok(out@[k][q]),
                    ),
                is_grouping(t, key, key, rec.rows.len() as int, gv),
                arg_column(*call, 0) == Some(key),
                forall|q: int, kind: NumericAgg, col: usize|
                    #![trigger numeric_arg(*call, q, kind, col)]
                    numeric_arg(*call, q, kind, col) && q < a + 1 ==> folds_to(
                        folder,
                        kind,
                        column_values(t, gv[gi as int].1, col),
                        Ok(row@[q]),
                    ),
            decreases aggs.len() - a,
        {
            let ghost ag = aggs@[a as int];
            assert(agg_of(call.args@[a + 1]) == Some(ag));
            let cell = match eval_agg(aggs[a], &rec.rows, members_v, folder) {
                Ok(c) => c,
                Err(m) => {
                    assert(numeric_of(agg_of(call.args@[a + 1])->0) is Some);
                    proof {
                        let (kind, col) = numeric_of(ag)->0;
                        assert(numeric_arg(*call, a + 1, kind, col));
                        assert(earlier_folds_ok(folder, t, gv, *call, gi as int, a + 1)) by {
                            assert forall|k2: int, a2: int, kind2: NumericAgg, col2: usize|
                                #![trigger numeric_arg(*call, a2, kind2, col2), gv[k2]]
                                (0 <= k2 < gi || (k2 == gi && a2 < a + 1)) && numeric_arg(
                                    *call,
                                    a2,
                                    kind2,
                                    col2,
                                ) implies fold_succeeds(folder, kind2, column_values(t, gv[k2].1, col2)) by {
                                if k2 < gi {
                                    assert(folds_to(folder, kind2, column_values(t, gv[k2].1, col2), Ok(out@[k2][a2])));
                                } else {
                                    assert(folds_to(folder, kind2, column_values(t, gv[k2].1, col2), Ok(row@[a2])));
                                }
                            }
                        }
                        assert(folds_to(folder, kind, column_values(t, gv[gi as int].1, col), Err(m)));
                        assert(fold_fails_at(folder, t, gv, *call, gi as int, a + 1, m));
                        assert(is_grouping(t, key, key, rec.rows.len() as int, gv));
                        assert(groupby_fold_error(folder, rec, *call, m));
                    }
                    return Err(m);
                },
            };
            let ghost row0 = row@;
            row.push(cell);
            proof {
                assert forall|q: int, kind: NumericAgg, col: usize|
                    #![trigger numeric_arg(*call, q, kind, col)]
                    numeric_arg(*call, q, kind, col) && q < a + 2 implies folds_to(
                        folder,
                        kind,
                        column_values(t, gv[gi as int].1, col),
                        Ok(row@[q]),
                    ) by {
                    if q < a + 1 {
                        assert(row@[q] == row0[q]);
                    } else {
                        assert(q == a + 1);
                        assert(row@[q] == cell);
                    }
                }
            }
            a += 1;
        }
        out.push(row);
        gi += 1;
    }
    let res = Records { rows: out, cfg: rec.cfg };
    proof {
        assert(arg_column(*call, 0)->0 == key);
        assert(res.rows.len() == gv.len());
        assert forall|k: int, a: int, kind: NumericAgg, col: usize|
            0 <= k < gv.len() && #[trigger] numeric_arg(*call, a, kind, col) implies a
                < res.rows@[k].len() && folds_to(
                folder,
                kind,
                column_values(t, gv[k].1, col),
                Ok(#[trigger] res.rows@[k][a]),
            ) by {
            assert(res.rows@[k] == out@[k]);
        }
    }
    Ok(res)
}

proof fn lemma_agg_names()
    ensures
        "c"@ != "count"@,
        "sum"@ != "count"@,
        "sum"@ != "c"@,
        "s"@ != "count"@,
        "s"@ != "c"@,
        "s"@ != "sum"@,
        "min"@ != "count"@,
        "min"@ != "c"@,
        "min"@ != "sum"@,
        "min"@ != "s"@,
        "mn"@ != "count"@,
        "mn"@ != "c"@,
        "mn"@ != "sum"@,
        "mn"@ != "s"@,
        "mn"@ != "min"@,
        "max"@ != "count"@,
        "max"@ != "c"@,
        "max"@ != "sum"@,
        "max"@ != "s"@,
        "max"@ != "min"@,
        "max"@ != "mn"@,
        "mx"@ != "count"@,
        "mx"@ != "c"@,
        "mx"@ != "sum"@,
        "mx"@ != "s"@,
        "mx"@ != "min"@,
        "mx"@ != "mn"@,
        "mx"@ != "max"@,
        "avg"@ != "count"@,
        "avg"@ != "c"@,
        "avg"@ != "sum"@,
        "avg"@ != "s"@,
        "avg"@ != "min"@,
        "avg"@ != "mn"@,
        "avg"@ != "max"@,
        "avg"@ != "mx"@,
        "a"@ != "count"@,
        "a"@ != "c"@,
        "a"@ != "sum"@,
        "a"@ != "s"@,
        "a"@ != "min"@,
        "a"@ != "mn"@,
        "a"@ != "max"@,
        "a"@ != "mx"@,
        "a"@ != "avg"@,
        "median"@ != "count"@,
        "median"@ != "c"@,
        "median"@ != "sum"@,
        "median"@ != "s"@,
        "median"@ != "min"@,
        "median"@ != "mn"@,
        "median"@ != "max"@,
        "median"@ != "mx"@,
        "median"@ != "avg"@,
        "median"@ != "a"@,
        "med"@ != "count"@,
        "med"@ != "c"@,
        "med"@ != "sum"@,
        "med"@ != "s"@,
        "med"@ != "min"@,
        "med"@ != "mn"@,
        "med"@ != "max"@,
        "med"@ != "mx"@,
        "med"@ != "avg"@,
        "med"@ != "a"@,
        "med"@ != "median"@,
{
    reveal_strlit("count");
    reveal_strlit("c");
    reveal_strlit("sum");
    reveal_strlit("s");
    reveal_strlit("min");
    reveal_strlit("mn");
    reveal_strlit("max");
    reveal_strlit("mx");
    reveal_strlit("avg");
    reveal_strlit("a");
    reveal_strlit("median");
    reveal_strlit("med");
    assert("count"@ =~= seq!['c', 'o', 'u', 'n', 't']);
    assert("c"@ =~= seq!['c']);
    assert("sum"@ =~= seq!['s', 'u', 'm']);
    assert("s"@ =~= seq!['s']);
    assert("min"@ =~= seq!['m', 'i', 'n']);
    assert("mn"@ =~= seq!['m', 'n']);
    assert("max"@ =~= seq!['m', 'a', 'x']);
    assert("mx"@ =~= seq!['m', 'x']);
    assert("avg"@ =~= seq!['a', 'v', 'g']);
    assert("a"@ =~= seq!['a']);
    assert("median"@ =~= seq!['m', 'e', 'd', 'i', 'a', 'n']);
    assert("med"@ =~= seq!['m', 'e', 'd']);
    assert("c"@ != "count"@) by {
        assert("c"@.len() != "count"@.len());
    }
    assert("sum"@ != "count"@) by {
        assert("sum"@.len() != "count"@.len());
    }
    assert("sum"@ != "c"@) by {
        assert("sum"@.len() != "c"@.len());
    }
    assert("s"@ != "count"@) by {
        assert("s"@.len() != "count"@.len());
    }
    assert("s"@ != "c"@) by {
        assert("s"@[0] != "c"@[0]);
    }
    assert("s"@ != "sum"@) by {
        assert("s"@.len() != "sum"@.len());
    }
    assert("min"@ != "count"@) by {
        assert("min"@.len() != "count"@.len());
    }
    assert("min"@ != "c"@) by {
        assert("min"@.len() != "c"@.len());
    }
    assert("min"@ != "sum"@) by {
        assert("min"@[0] != "sum"@[0]);
    }
    assert("min"@ != "s"@) by {
        assert("min"@.len() != "s"@.len());
    }
    assert("mn"@ != "count"@) by {
        assert("mn"@.len() != "count"@.len());
    }
    assert("mn"@ != "c"@) by {
        assert("mn"@.len() != "c"@.len());
    }
    assert("mn"@ != "sum"@) by {
        assert("mn"@.len() != "sum"@.len());
    }
    assert("mn"@ != "s"@) by {
        assert("mn"@.len() != "s"@.len());
    }
    assert("mn"@ != "min"@) by {
        assert("mn"@.len() != "min"@.len());
    }
    assert("max"@ != "count"@) by {
        assert("max"@.len() != "count"@.len());
    }
    assert("max"@ != "c"@) by {
        assert("max"@.len() != "c"@.len());
    }
    assert("max"@ != "sum"@) by {
        assert("max"@[0] != "sum"@[0]);
    }
    assert("max"@ != "s"@) by {
        assert("max"@.len() != "s"@.len());
    }
    assert("max"@ != "min"@) by {
        assert("max"@[1] != "min"@[1]);
    }
    assert("max"@ != "mn"@) by {
        assert("max"@.len() != "mn"@.len());
    }
    assert("mx"@ != "count"@) by {
        assert("mx"@.len() != "count"@.len());
    }
    assert("mx"@ != "c"@) by {
        assert("mx"@.len() != "c"@.len());
    }
    assert("mx"@ != "sum"@) by {
        assert("mx"@.len() != "sum"@.len());
    }
    assert("mx"@ != "s"@) by {
        assert("mx"@.len() != "s"@.len());
    }
    assert("mx"@ != "min"@) by {
        assert("mx"@.len() != "min"@.len());
    }
    assert("mx"@ != "mn"@) by {
        assert("mx"@[1] != "mn"@[1]);
    }
    assert("mx"@ != "max"@) by {
        assert("mx"@.len() != "max"@.len());
    }
    assert("avg"@ != "count"@) by {
        assert("avg"@.len() != "count"@.len());
    }
    assert("avg"@ != "c"@) by {
        assert("avg"@.len() != "c"@.len());
    }
    assert("avg"@ != "sum"@) by {
        assert("avg"@[0] != "sum"@[0]);
    }
    assert("avg"@ != "s"@) by {
        assert("avg"@.len() != "s"@.len());
    }
    assert("avg"@ != "min"@) by {
        assert("avg"@[0] != "min"@[0]);
    }
    assert("avg"@ != "mn"@) by {
        assert("avg"@.len() != "mn"@.len());
    }
    assert("avg"@ != "max"@) by {
        assert("avg"@[0] != "max"@[0]);
    }
    assert("avg"@ != "mx"@) by {
        assert("avg"@.len() != "mx"@.len());
    }
    assert("a"@ != "count"@) by {
        assert("a"@.len() != "count"@.len());
    }
    assert("a"@ != "c"@) by {
        assert("a"@[0] != "c"@[0]);
    }
    assert("a"@ != "sum"@) by {
        assert("a"@.len() != "sum"@.len());
    }
    assert("a"@ != "s"@) by {
        assert("a"@[0] != "s"@[0]);
    }
    assert("a"@ != "min"@) by {
        assert("a"@.len() != "min"@.len());
    }
    assert("a"@ != "mn"@) by {
        assert("a"@.len() != "mn"@.len());
    }
    assert("a"@ != "max"@) by {
        assert("a"@.len() != "max"@.len());
    }
    assert("a"@ != "mx"@) by {
        assert("a"@.len() != "mx"@.len());
    }
    assert("a"@ != "avg"@) by {
        assert("a"@.len() != "avg"@.len());
    }
    assert("median"@ != "count"@) by {
        assert("median"@.len() != "count"@.len());
    }
    assert("median"@ != "c"@) by {
        assert("median"@.len() != "c"@.len());
    }
    assert("median"@ != "sum"@) by {
        assert("median"@.len() != "sum"@.len());
    }
    assert("median"@ != "s"@) by {
        assert("median"@.len() != "s"@.len());
    }
    assert("median"@ != "min"@) by {
        assert("median"@.len() != "min"@.len());
    }
    assert("median"@ != "mn"@) by {
        assert("median"@.len() != "mn"@.len());
    }
    assert("median"@ != "max"@) by {
        assert("median"@.len() != "max"@.len());
    }
    assert("median"@ != "mx"@) by {
        assert("median"@.len() != "mx"@.len());
    }
    assert("median"@ != "avg"@) by {
        assert("median"@.len() != "avg"@.len());
    }
    assert("median"@ != "a"@) by {
        assert("median"@.len() != "a"@.len());
    }
    assert("med"@ != "count"@) by {
        assert("med"@.len() != "count"@.len());
    }
    assert("med"@ != "c"@) by {
        assert("med"@.len() != "c"@.len());
    }
    assert("med"@ != "sum"@) by {
        assert("med"@[0] != "sum"@[0]);
    }
    assert("med"@ != "s"@) by {
        assert("med"@.len() != "s"@.len());
    }
    assert("med"@ != "min"@) by {
        assert("med"@[1] != "min"@[1]);
    }
    assert("med"@ != "mn"@) by {
        assert("med"@.len() != "mn"@.len());
    }
    assert("med"@ != "max"@) by {
        assert("med"@[1] != "max"@[1]);
    }
    assert("med"@ != "mx"@) by {
        assert("med"@.len() != "mx"@.len());
    }
    assert("med"@ != "avg"@) by {
        assert("med"@[0] != "avg"@[0]);
    }
    assert("med"@ != "a"@) by {
        assert("med"@.len() != "a"@.len());
    }
    assert("med"@ != "median"@) by {
        assert("med"@.len() != "median"@.len());
    }
}

/// Each aggregator's long and short names denote the same aggregate of the
/// named column (1-based): `sum`/`s` its sum, `min`/`mn` its minimum,
/// `max`/`mx` its maximum, `avg`/`a` its average, `median`/`med` its
/// median, each folded as that numeric aggregate; `count`/`c` counts the
/// group's rows, as a call or a bare name.
pub proof fn law_aggregator_names(c: Call, col: usize)
    requires
        arg_column(c, 0) == Some(col),
    ensures
        (c.name@ == "sum"@ || c.name@ == "s"@) ==> agg_of(Expr::Call(c)) == Some(Agg::Sum(col))
            && numeric_of(Agg::Sum(col)) == Some((NumericAgg::Sum, col)),
        (c.name@ == "min"@ || c.name@ == "mn"@) ==> agg_of(Expr::Call(c)) == Some(Agg::Min(col))
            && numeric_of(Agg::Min(col)) == Some((NumericAgg::Min, col)),
        (c.name@ == "max"@ || c.name@ == "mx"@) ==> agg_of(Expr::Call(c)) == Some(Agg::Max(col))
            && numeric_of(Agg::Max(col)) == Some((NumericAgg::Max, col)),
        (c.name@ == "avg"@ || c.name@ == "a"@) ==> agg_of(Expr::Call(c)) == Some(Agg::Avg(col))
            && numeric_of(Agg::Avg(col)) == Some((NumericAgg::Avg, col)),
        (c.name@ == "median"@ || c.name@ == "med"@) ==> agg_of(Expr::Call(c)) == Some(
            Agg::Median(col),
        ) && numeric_of(Agg::Median(col)) == Some((NumericAgg::Median, col)),
        (c.name@ == "count"@ || c.name@ == "c"@) ==> agg_of(Expr::Call(c)) == Some(Agg::Count)
            && numeric_of(Agg::Count) is None,
        agg_of(Expr::Ident(c.name)) == if c.name@ == "count"@ || c.name@ == "c"@ {
            Some(Agg::Count)
        } else {
            None::<Agg>
        },
{
    lemma_agg_names();
    lemma_lits();
}

} // verus!
