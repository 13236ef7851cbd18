//! Record calls give one result: records that read the same, under the
//! same call, become records that read the same.
use vstd::prelude::*;

use crate::ast::{table_view, Agg, Call, Records};
use crate::order::{is_grouping, lemma_grouping_unique};
use crate::record::aggs::{
    agg_of, aggs_ok, column_values, earlier_folds_ok, fold_fails_at, fold_succeeds, folds_to,
    groupby_fold_cells, groupby_fold_error, numeric_arg, numeric_of, NumberFold, NumericAgg,
};
use crate::record::{rec_call_full, rec_op_of, RecOp};
use crate::text::strs_view;
use crate::util::arg_column;

verus! {

/// Two records that read the same: equal rows and separators, as text.
pub open spec fn same_records(a: Records, b: Records) -> bool {
    &&& table_view(a.rows@) == table_view(b.rows@)
    &&& a.cfg.fs@ == b.cfg.fs@
    &&& a.cfg.rs@ == b.cfg.rs@
    &&& a.cfg.ofs@ == b.cfg.ofs@
    &&& a.cfg.ors@ == b.cfg.ors@
}

/// The folder gives one result for each aggregate over each list of texts.
pub open spec fn folds_uniquely<F: NumberFold>(folder: &F) -> bool {
    forall|k: NumericAgg, v1: Vec<String>, v2: Vec<String>, r1: Result<String, String>, r2: Result<
        String,
        String,
    >|
        strs_view(v1@) == strs_view(v2@) && #[trigger] call_ensures(
            F::fold_numbers,
            (folder, k, &v1),
            r1,
        ) && #[trigger] call_ensures(F::fold_numbers, (folder, k, &v2), r2) ==> r1 == r2
}

proof fn lemma_folds_same<F: NumberFold>(
    folder: &F,
    k: NumericAgg,
    vals: Seq<Seq<char>>,
    c1: String,
    c2: String,
)
    requires
        folds_uniquely(folder),
        folds_to(folder, k, vals, Ok(c1)),
        folds_to(folder, k, vals, Ok(c2)),
    ensures
        c1 == c2,
{
    let v1 = choose|v: Vec<String>|
        strs_view(v@) == vals && #[trigger] call_ensures(F::fold_numbers, (folder, k, &v), Ok(c1));
    let v2 = choose|v: Vec<String>|
        strs_view(v@) == vals && #[trigger] call_ensures(F::fold_numbers, (folder, k, &v), Ok(c2));
    assert(call_ensures(F::fold_numbers, (folder, k, &v1), Ok(c1)));
    assert(call_ensures(F::fold_numbers, (folder, k, &v2), Ok(c2)));
}

proof fn lemma_groupby_same<F: NumberFold>(folder: &F, a: Records, b: Records, call: Call, x: Records, y: Records)
    requires
        folds_uniquely(folder),
        same_records(a, b),
        rec_op_of(call.name@) == Some(RecOp::Groupby),
        rec_call_full(folder, a, call, Ok(x)),
        rec_call_full(folder, b, call, Ok(y)),
    ensures
        same_records(x, y),
{
    let t = table_view(a.rows@);
    let key = arg_column(call, 0)->0;
    let n = a.rows.len() as int;
    assert(table_view(a.rows@).len() == a.rows.len());
    assert(table_view(b.rows@).len() == b.rows.len());
    let g1 = choose|g: Seq<(Seq<char>, Seq<int>)>|
        {
            &&& is_grouping(t, key, key, n, g)
            &&& x.rows.len() == g.len()
            &&& forall|k: int|
                0 <= k < g.len() ==> {
                    &&& (#[trigger] x.rows@[k]).len() == call.args.len()
                    &&& x.rows@[k][0]@ == g[k].0
                    &&& forall|q: int|
                        1 <= q < call.args.len() && agg_of(call.args@[q]) == Some(Agg::Count)
                            ==> x.rows@[k][q]@ == crate::num::nat_text(g[k].1.len())
                }
        };
    let g2 = choose|g: Seq<(Seq<char>, Seq<int>)>|
        {
            &&& is_grouping(t, key, key, n, g)
            &&& y.rows.len() == g.len()
            &&& forall|k: int|
                0 <= k < g.len() ==> {
                    &&& (#[trigger] y.rows@[k]).len() == call.args.len()
                    &&& y.rows@[k][0]@ == g[k].0
                    &&& forall|q: int|
                        1 <= q < call.args.len() && agg_of(call.args@[q]) == Some(Agg::Count)
                            ==> y.rows@[k][q]@ == crate::num::nat_text(g[k].1.len())
                }
        };
    assert(groupby_fold_cells(folder, a, call, x));
    assert(groupby_fold_cells(folder, b, call, y));
    let h1 = choose|g: Seq<(Seq<char>, Seq<int>)>|
        {
            &&& is_grouping(t, key, key, n, g)
            &&& x.rows.len() == g.len()
            &&& forall|k: int, q: int, kind: NumericAgg, col: usize|
                0 <= k < g.len() && #[trigger] numeric_arg(call, q, kind, col) ==> q
                    < x.rows@[k].len() && folds_to(
                    folder,
                    kind,
                    column_values(t, g[k].1, col),
                    Ok(#[trigger] x.rows@[k][q]),
                )
        };
    let h2 = choose|g: Seq<(Seq<char>, Seq<int>)>|
        {
            &&& is_grouping(t, key, key, n, g)
            &&& y.rows.len() == g.len()
            &&& forall|k: int, q: int, kind: NumericAgg, col: usize|
                0 <= k < g.len() && #[trigger] numeric_arg(call, q, kind, col) ==> q
                    < y.rows@[k].len() && folds_to(
                    folder,
                    kind,
                    column_values(t, g[k].1, col),
                    Ok(#[trigger] y.rows@[k][q]),
                )
        };
    lemma_grouping_unique(t, key, key, n, g1, g2);
    lemma_grouping_unique(t, key, key, n, g1, h1);
    lemma_grouping_unique(t, key, key, n, g1, h2);
    assert forall|k: int| 0 <= k < x.rows.len() implies strs_view(x.rows@[k]@) =~= strs_view(
        y.rows@[k]@,
    ) by {
        assert forall|q: int| 0 <= q < call.args.len() implies x.rows@[k]@[q]@ == y.rows@[k]@[q]@ by {
            if q >= 1 {
                assert(aggs_ok(call.args@));
                let ag = agg_of(call.args@[q])->0;
                if ag != Agg::Count {
                    let (kind, col) = numeric_of(ag)->0;
                    assert(numeric_arg(call, q, kind, col));
                    lemma_folds_same(
                        folder,
                        kind,
                        column_values(t, g1[k].1, col),
                        x.rows@[k][q],
                        y.rows@[k][q],
                    );
                }
            }
        }
    }
    assert(table_view(x.rows@) =~= table_view(y.rows@));
}

/// A record call gives records that read the same for records that read
/// the same, when the folder gives one result per input.
pub proof fn law_rec_call_deterministic<F: NumberFold>(
    folder: &F,
    a: Records,
    b: Records,
    call: Call,
    x: Records,
    y: Records,
)
    requires
        folds_uniquely(folder),
        same_records(a, b),
        rec_call_full(folder, a, call, Ok(x)),
        rec_call_full(folder, b, call, Ok(y)),
    ensures
        same_records(x, y),
{
    let t = table_view(a.rows@);
    assert(a.rows.len() == b.rows.len());
    match rec_op_of(call.name@) {
        Some(RecOp::Groupby) => {
            lemma_groupby_same(folder, a, b, call, x, y);
        },
        Some(RecOp::Implode) => {
            let key = arg_column(call, 0)->0;
            let val = arg_column(call, 1)->0;
            let n = a.rows.len() as int;
            let g1 = choose|g: Seq<(Seq<char>, Seq<int>)>|
                is_grouping(t, key, val, n, g) && table_view(x.rows@)
                    == crate::record::ops::implode_rows(t, val, crate::record::ops::implode_sep(call), g);
            let g2 = choose|g: Seq<(Seq<char>, Seq<int>)>|
                is_grouping(t, key, val, n, g) && table_view(y.rows@)
                    == crate::record::ops::implode_rows(t, val, crate::record::ops::implode_sep(call), g);
            lemma_grouping_unique(t, key, val, n, g1, g2);
        },
        Some(RecOp::Reshape) => {
            let m = crate::util::arg_text(call, 0)->0;
            if t.len() > 0 && !crate::record::reshape::is_w2l_mode(m) {
                let key = arg_column(call, 1)->0;
                let val = arg_column(call, 2)->0;
                let n = t.len() as int;
                let g1 = choose|g: Seq<(Seq<char>, Seq<int>)>|
                    is_grouping(t, key, val, n, g) && table_view(x.rows@)
                        == crate::record::reshape::l2w_rows(t, key, val, g);
                let g2 = choose|g: Seq<(Seq<char>, Seq<int>)>|
                    is_grouping(t, key, val, n, g) && table_view(y.rows@)
                        == crate::record::reshape::l2w_rows(t, key, val, g);
                lemma_grouping_unique(t, key, val, n, g1, g2);
            }
        },
        _ => {},
    }
}

/// A record call cannot succeed on some records and fail on records that
/// read the same, when the folder gives one result per input.
pub proof fn law_rec_call_ok_or_err<F: NumberFold>(
    folder: &F,
    a: Records,
    b: Records,
    call: Call,
    x: Records,
    m: String,
)
    requires
        folds_uniquely(folder),
        same_records(a, b),
    ensures
        !(rec_call_full(folder, a, call, Ok(x)) && rec_call_full(folder, b, call, Err(m))),
{
    if rec_call_full(folder, a, call, Ok(x)) && rec_call_full(folder, b, call, Err(m)) {
        assert(a.rows.len() == b.rows.len());
        if rec_op_of(call.name@) == Some(RecOp::Groupby) {
            lemma_groupby_not_both(folder, a, b, call, x, m);
        }
    }
}

proof fn lemma_groupby_not_both<F: NumberFold>(
    folder: &F,
    a: Records,
    b: Records,
    call: Call,
    x: Records,
    m: String,
)
    requires
        folds_uniquely(folder),
        same_records(a, b),
        rec_op_of(call.name@) == Some(RecOp::Groupby),
        rec_call_full(folder, a, call, Ok(x)),
    ensures
        !rec_call_full(folder, b, call, Err(m)),
{
    let t = table_view(a.rows@);
    let key = arg_column(call, 0)->0;
    let n = a.rows.len() as int;
    assert(table_view(a.rows@).len() == a.rows.len());
    assert(table_view(b.rows@).len() == b.rows.len());
    assert(groupby_fold_cells(folder, a, call, x));
    if rec_call_full(folder, b, call, Err(m)) {
        assert(groupby_fold_error(folder, b, call, m));
        let h = choose|g: Seq<(Seq<char>, Seq<int>)>|
            {
                &&& is_grouping(t, key, key, n, g)
                &&& x.rows.len() == g.len()
                &&& forall|k: int, q: int, kind: NumericAgg, col: usize|
                    0 <= k < g.len() && #[trigger] numeric_arg(call, q, kind, col) ==> q
                        < x.rows@[k].len() && folds_to(
                        folder,
                        kind,
                        column_values(t, g[k].1, col),
                        Ok(#[trigger] x.rows@[k][q]),
                    )
            };
        let (g, k, q) = choose|g: Seq<(Seq<char>, Seq<int>)>, k: int, q: int|
            is_grouping(t, key, key, n, g) && #[trigger] fold_fails_at(folder, t, g, call, k, q, m);
        lemma_grouping_unique(t, key, key, n, g, h);
        let (kind, col) = choose|kind: NumericAgg, col: usize|
            #[trigger] numeric_arg(call, q, kind, col) && folds_to(
                folder,
                kind,
                column_values(t, g[k].1, col),
                Err(m),
            );
        let vals = column_values(t, g[k].1, col);
        let c = x.rows@[k][q];
        assert(folds_to(folder, kind, vals, Ok(c)));
        let v1 = choose|v: Vec<String>|
            strs_view(v@) == vals && #[trigger] call_ensures(F::fold_numbers, (folder, kind, &v), Ok(c));
        let v2 = choose|v: Vec<String>|
            strs_view(v@) == vals && #[trigger] call_ensures(F::fold_numbers, (folder, kind, &v), Err(m));
        assert(call_ensures(F::fold_numbers, (folder, kind, &v1), Ok(c)));
        assert(call_ensures(F::fold_numbers, (folder, kind, &v2), Err(m)));
    }
}

/// A record call that fails on records that read the same fails with the
/// same message, when the folder gives one result per input.
pub proof fn law_rec_call_same_error<F: NumberFold>(
    folder: &F,
    a: Records,
    b: Records,
    call: Call,
    m1: String,
    m2: String,
)
    requires
        folds_uniquely(folder),
        same_records(a, b),
        rec_call_full(folder, a, call, Err(m1)),
        rec_call_full(folder, b, call, Err(m2)),
    ensures
        m1@ == m2@,
{
    assert(table_view(a.rows@).len() == a.rows.len());
    assert(table_view(b.rows@).len() == b.rows.len());
    if rec_op_of(call.name@) == Some(RecOp::Groupby) {
        lemma_groupby_same_error(folder, a, b, call, m1, m2);
    }
}

proof fn lemma_groupby_same_error<F: NumberFold>(
    folder: &F,
    a: Records,
    b: Records,
    call: Call,
    m1: String,
    m2: String,
)
    requires
        folds_uniquely(folder),
        same_records(a, b),
        rec_op_of(call.name@) == Some(RecOp::Groupby),
        rec_call_full(folder, a, call, Err(m1)),
        rec_call_full(folder, b, call, Err(m2)),
    ensures
        m1@ == m2@,
{
    let t = table_view(a.rows@);
    let key = arg_column(call, 0)->0;
    let n = a.rows.len() as int;
    assert(table_view(a.rows@).len() == a.rows.len());
    assert(table_view(b.rows@).len() == b.rows.len());
    if arg_column(call, 0) is Some && aggs_ok(call.args@) {
        assert(groupby_fold_error(folder, a, call, m1));
        assert(groupby_fold_error(folder, b, call, m2));
        let (g1, k1, q1) = choose|g: Seq<(Seq<char>, Seq<int>)>, k: int, q: int|
            is_grouping(t, key, key, n, g) && #[trigger] fold_fails_at(folder, t, g, call, k, q, m1);
        let (g2, k2, q2) = choose|g: Seq<(Seq<char>, Seq<int>)>, k: int, q: int|
            is_grouping(t, key, key, n, g) && #[trigger] fold_fails_at(folder, t, g, call, k, q, m2);
        lemma_grouping_unique(t, key, key, n, g1, g2);
        let (kind1, col1) = choose|kind: NumericAgg, col: usize|
            #[trigger] numeric_arg(call, q1, kind, col) && folds_to(
                folder,
                kind,
                column_values(t, g1[k1].1, col),
                Err(m1),
            );
        let (kind2, col2) = choose|kind: NumericAgg, col: usize|
            #[trigger] numeric_arg(call, q2, kind, col) && folds_to(
                folder,
                kind,
                column_values(t, g1[k2].1, col),
                Err(m2),
            );
        if k1 < k2 || (k1 == k2 && q1 < q2) {
            assert(earlier_folds_ok(folder, t, g1, call, k2, q2));
            assert(fold_succeeds(folder, kind1, column_values(t, g1[k1].1, col1)));
            let c = choose|c: String| #[trigger] folds_to(folder, kind1, column_values(t, g1[k1].1, col1), Ok(c));
            lemma_fold_not_both(folder, kind1, column_values(t, g1[k1].1, col1), c, m1);
        } else if k2 < k1 || (k1 == k2 && q2 < q1) {
            assert(earlier_folds_ok(folder, t, g1, call, k1, q1));
            assert(fold_succeeds(folder, kind2, column_values(t, g1[k2].1, col2)));
            let c = choose|c: String| #[trigger] folds_to(folder, kind2, column_values(t, g1[k2].1, col2), Ok(c));
            lemma_fold_not_both(folder, kind2, column_values(t, g1[k2].1, col2), c, m2);
        } else {
            assert(numeric_of(agg_of(call.args@[q1])->0) == Some((kind1, col1)));
            assert(numeric_of(agg_of(call.args@[q1])->0) == Some((kind2, col2)));
            lemma_fold_same_error(folder, kind1, column_values(t, g1[k1].1, col1), m1, m2);
        }
    }
}

proof fn lemma_fold_not_both<F: NumberFold>(
    folder: &F,
    k: NumericAgg,
    vals: Seq<Seq<char>>,
    c: String,
    m: String,
)
    requires
        folds_uniquely(folder),
        folds_to(folder, k, vals, Ok(c)),
    ensures
        !folds_to(folder, k, vals, Err(m)),
{
    if folds_to(folder, k, vals, Err(m)) {
        let v1 = choose|v: Vec<String>|
            strs_view(v@) == vals && #[trigger] call_ensures(F::fold_numbers, (folder, k, &v), Ok(c));
        let v2 = choose|v: Vec<String>|
            strs_view(v@) == vals && #[trigger] call_ensures(F::fold_numbers, (folder, k, &v), Err(m));
        assert(call_ensures(F::fold_numbers, (folder, k, &v1), Ok(c)));
        assert(call_ensures(F::fold_numbers, (folder, k, &v2), Err(m)));
    }
}

proof fn lemma_fold_same_error<F: NumberFold>(
    folder: &F,
    k: NumericAgg,
    vals: Seq<Seq<char>>,
    m1: String,
    m2: String,
)
    requires
        folds_uniquely(folder),
        folds_to(folder, k, vals, Err(m1)),
        folds_to(folder, k, vals, Err(m2)),
    ensures
        m1 == m2,
{
    let v1 = choose|v: Vec<String>|
        strs_view(v@) == vals && #[trigger] call_ensures(F::fold_numbers, (folder, k, &v), Err(m1));
    let v2 = choose|v: Vec<String>|
        strs_view(v@) == vals && #[trigger] call_ensures(F::fold_numbers, (folder, k, &v), Err(m2));
    assert(call_ensures(F::fold_numbers, (folder, k, &v1), Err(m1)));
    assert(call_ensures(F::fold_numbers, (folder, k, &v2), Err(m2)));
}

} // verus!
