//! Reshaping between wide and long tables, and flattening rows to text.
use vstd::prelude::*;

use crate::ast::{table_view, Call, RecConfig, Records};
use crate::num::nat_text;
use crate::order::{group_rows, groups_view, is_grouping};
use crate::record::ops::with_empty_ofs;
use crate::table::{lemma_strs_push, lemma_table_push};
use crate::text::{chars_of, str_is2, string_of, strs_view};
use crate::util::{arg_col, arg_column, arg_column_error, arg_string, arg_text, arg_text_error};

verus! {

// ---------------------------------------------------------------------------
// wide to long
// ---------------------------------------------------------------------------

/// The name of column `i`: the header text, or `c` and the 1-based number.
pub open spec fn header_name(header: Seq<Seq<char>>, i: int) -> Seq<char> {
    if 0 <= i < header.len() {
        header[i]
    } else {
        seq!['c'] + nat_text((i + 1) as nat)
    }
}

/// The long rows of one wide row: the key fields before `start`, then each
/// later field as `name value`.
pub open spec fn w2l_row(header: Seq<Seq<char>>, row: Seq<Seq<char>>, start: usize) -> Seq<
    Seq<Seq<char>>,
> {
    let keys = row.take(if start < row.len() { start as int } else { row.len() as int });
    Seq::new(
        if row.len() > start { (row.len() - start) as nat } else { 0 },
        |q: int| keys + seq![header_name(header, start + q), row[start + q]],
    )
}

/// The long rows of the data rows `1..n`.
pub open spec fn w2l_rows(rows: Seq<Seq<Seq<char>>>, start: usize, n: int) -> Seq<Seq<Seq<char>>>
    decreases n,
{
    if n <= 1 || n > rows.len() {
        seq![]
    } else {
        w2l_rows(rows, start, n - 1) + w2l_row(rows[0], rows[n - 1], start)
    }
}

/// Builds the name of a column missing from the header.
fn column_name(header: &Vec<String>, i: usize) -> (out: String)
    requires
        i < usize::MAX,
    ensures
        out@ == header_name(strs_view(header@), i as int),
{
    if i < header.len() {
        header[i].clone()
    } else {
        let n = crate::num::usize_text(i + 1);
        proof {
            reveal_strlit("c");
            assert("c"@ =~= seq!['c']);
        }
        crate::text::concat2("c", n.as_str())
    }
}

fn reshape_wide_to_long(rec: Records, start: usize) -> (r: Records)
    requires
        rec.rows.len() > 0,
    ensures
        table_view(r.rows@) == w2l_rows(table_view(rec.rows@), start, rec.rows.len() as int),
        r.cfg == rec.cfg,
{
    let ghost t = table_view(rec.rows@);
    let header = &rec.rows[0];
    assert(strs_view(header@) == t[0]);
    let mut out: Vec<Vec<String>> = Vec::new();
    let mut ri: usize = 1;
    while ri < rec.rows.len()
        invariant
            1 <= ri <= rec.rows.len(),
            t == table_view(rec.rows@),
            strs_view(header@) == t[0],
            table_view(out@) == w2l_rows(t, start, ri as int),
        decreases rec.rows.len() - ri,
    {
        let row = &rec.rows[ri];
        let ghost rv = strs_view(row@);
        assert(rv == t[ri as int]);
        let kn = if start < row.len() {
            start
        } else {
            row.len()
        };
        let ghost before = table_view(out@);
        let ghost w = w2l_row(t[0], rv, start);
        let mut i: usize = start;
        while i < row.len()
            invariant
                start <= i,
                i <= row.len() || row.len() <= start,
                row.len() <= start ==> i == start,
                kn == (if start < row.len() { start } else { row.len() }),
                rv == strs_view(row@),
                strs_view(header@) == t[0],
                w == w2l_row(t[0], rv, start),
                table_view(out@) == before + w.take((i - start) as int),
            decreases row.len() - i,
        {
            let mut new_row: Vec<String> = Vec::new();
            let mut k: usize = 0;
            while k < kn
                invariant
                    k <= kn <= row.len(),
                    rv == strs_view(row@),
                    strs_view(new_row@) == rv.take(k as int),
                decreases kn - k,
            {
                let c = row[k].clone();
                proof {
                    lemma_strs_push(new_row@, c);
                    assert(rv.take(k + 1) =~= rv.take(k as int).push(rv[k as int]));
                }
                new_row.push(c);
                k += 1;
            }
            let name = column_name(header, i);
            proof {
                lemma_strs_push(new_row@, name);
            }
            new_row.push(name);
            let v = row[i].clone();
            proof {
                lemma_strs_push(new_row@, v);
            }
            new_row.push(v);
            proof {
                assert(strs_view(new_row@) =~= w[(i - start) as int]);
                lemma_table_push(out@, new_row);
                assert(w.take((i + 1 - start) as int) =~= w.take((i - start) as int).push(
                    w[(i - start) as int],
                ));
            }
            out.push(new_row);
            i += 1;
        }
        assert(w.take((i - start) as int) =~= w);
        ri += 1;
    }
    Records { rows: out, cfg: rec.cfg }
}

// ---------------------------------------------------------------------------
// long to wide
// ---------------------------------------------------------------------------

/// Row `j` takes part in `l2w`: it has the key and value columns.
pub open spec fn l2w_eligible(row: Seq<Seq<char>>, key: usize, val: usize) -> bool {
    row.len() > val && row.len() > key
}

/// The first fields of the eligible rows below `n`, each once, in order of
/// first appearance.
pub open spec fn row_keys(rows: Seq<Seq<Seq<char>>>, key: usize, val: usize, n: int) -> Seq<Seq<char>>
    decreases n,
{
    if n <= 0 || n > rows.len() {
        seq![]
    } else {
        let prev = row_keys(rows, key, val, n - 1);
        if l2w_eligible(rows[n - 1], key, val) && !prev.contains(rows[n - 1][0]) {
            prev.push(rows[n - 1][0])
        } else {
            prev
        }
    }
}

/// The value of the last eligible row below `n` whose first field is `rk`
/// and key field is `col`; empty when there is none.
pub open spec fn wide_cell(
    rows: Seq<Seq<Seq<char>>>,
    key: usize,
    val: usize,
    rk: Seq<char>,
    col: Seq<char>,
    n: int,
) -> Seq<char>
    decreases n,
{
    if n <= 0 || n > rows.len() {
        seq![]
    } else if l2w_eligible(rows[n - 1], key, val) && rows[n - 1][0] == rk && rows[n - 1][key as int]
        == col {
        rows[n - 1][val as int]
    } else {
        wide_cell(rows, key, val, rk, col, n - 1)
    }
}

/// The wide table: a header `key` and the column names in string order,
/// then one row per first field with the value for each column.
pub open spec fn l2w_rows(
    rows: Seq<Seq<Seq<char>>>,
    key: usize,
    val: usize,
    cols: Seq<(Seq<char>, Seq<int>)>,
) -> Seq<Seq<Seq<char>>> {
    let names = cols.map_values(|c: (Seq<char>, Seq<int>)| c.0);
    seq![seq![seq!['k', 'e', 'y']] + names] + row_keys(rows, key, val, rows.len() as int).map_values(
        |rk: Seq<char>|
            seq![rk] + names.map_values(
                |c: Seq<char>| wide_cell(rows, key, val, rk, c, rows.len() as int),
            ),
    )
}

fn contains_str(v: &Vec<String>, s: &String) -> (r: bool)
    ensures
        r == strs_view(v@).contains(s@),
{
    let mut i: usize = 0;
    while i < v.len()
        invariant
            i <= v.len(),
            forall|q: int| 0 <= q < i ==> v@[q]@ != s@,
        decreases v.len() - i,
    {
        if v[i] == *s {
            assert(strs_view(v@)[i as int] == s@);
            return true;
        }
        i += 1;
    }
    proof {
        if strs_view(v@).contains(s@) {
            let q = choose|q: int| 0 <= q < strs_view(v@).len() && strs_view(v@)[q] == s@;
            assert(v@[q]@ == s@);
        }
    }
    false
}

fn reshape_long_to_wide(rec: Records, key: usize, val: usize) -> (r: Records)
    requires
        rec.rows.len() > 0,
    ensures
        exists|g: Seq<(Seq<char>, Seq<int>)>|
            is_grouping(table_view(rec.rows@), key, val, rec.rows.len() as int, g) && table_view(
                r.rows@,
            ) == l2w_rows(table_view(rec.rows@), key, val, g),
        r.cfg == rec.cfg,
{
    let ghost t = table_view(rec.rows@);
    let n = rec.rows.len();
    // distinct first fields in order of first appearance
    let mut order: Vec<String> = Vec::new();
    let mut i: usize = 0;
    while i < n
        invariant
            i <= n == rec.rows.len(),
            t == table_view(rec.rows@),
            strs_view(order@) == row_keys(t, key, val, i as int),
        decreases n - i,
    {
        let row = &rec.rows[i];
        assert(strs_view(row@) == t[i as int]);
        if row.len() > val && row.len() > key {
            if !contains_str(&order, &row[0]) {
                let k = row[0].clone();
                proof {
                    lemma_strs_push(order@, k);
                }
                order.push(k);
            }
        }
        i += 1;
    }
    let cols = group_rows(&rec.rows, key, val);
    let ghost gv = groups_view(cols@);
    let ghost names = gv.map_values(|c: (Seq<char>, Seq<int>)| c.0);
    let mut out: Vec<Vec<String>> = Vec::new();
    let mut header: Vec<String> = Vec::new();
    proof {
        reveal_strlit("key");
    }
    let key_name = String::from_str("key");
    assert(key_name@ =~= seq!['k', 'e', 'y']);
    header.push(key_name);
    let mut c: usize = 0;
    while c < cols.len()
        invariant
            c <= cols.len(),
            gv == groups_view(cols@),
            names == gv.map_values(|c: (Seq<char>, Seq<int>)| c.0),
            strs_view(header@) == seq![seq!['k', 'e', 'y']] + names.take(c as int),
        decreases cols.len() - c,
    {
        let name = cols[c].0.clone();
        proof {
            lemma_strs_push(header@, name);
            assert(names.take(c + 1) =~= names.take(c as int).push(names[c as int]));
        }
        header.push(name);
        c += 1;
    }
    assert(names.take(cols.len() as int) =~= names);
    proof {
        lemma_table_push(out@, header);
    }
    out.push(header);
    let ghost keys = strs_view(order@);
    let ghost f = |rk: Seq<char>|
        seq![rk] + names.map_values(|c: Seq<char>| wide_cell(t, key, val, rk, c, n as int));
    let mut oi: usize = 0;
    while oi < order.len()
        invariant
            oi <= order.len(),
            t == table_view(rec.rows@),
            n == rec.rows.len(),
            gv == groups_view(cols@),
            names == gv.map_values(|c: (Seq<char>, Seq<int>)| c.0),
            keys == strs_view(order@),
            keys == row_keys(t, key, val, n as int),
            table_view(out@) == seq![seq![seq!['k', 'e', 'y']] + names] + keys.take(
                oi as int,
            ).map_values(f),
            f == (|rk: Seq<char>|
                seq![rk] + names.map_values(|c: Seq<char>| wide_cell(t, key, val, rk, c, n as int))),
        decreases order.len() - oi,
    {
        let rk = &order[oi];
        let mut row: Vec<String> = Vec::new();
        row.push(rk.clone());
        let mut c: usize = 0;
        while c < cols.len()
            invariant
                c <= cols.len(),
                t == table_view(rec.rows@),
                n == rec.rows.len(),
                gv == groups_view(cols@),
                names == gv.map_values(|c: (Seq<char>, Seq<int>)| c.0),
                rk == &order@[oi as int],
                oi < order.len(),
                strs_view(row@) == seq![rk@] + names.take(c as int).map_values(
                    |c: Seq<char>| wide_cell(t, key, val, rk@, c, n as int),
                ),
            decreases cols.len() - c,
        {
            let col = &cols[c].0;
            assert(col@ == names[c as int]);
            // the last eligible row with this first field and key
            let mut j: usize = n;
            let mut found: Option<usize> = None;
            while j > 0
                invariant
                    j <= n == rec.rows.len(),
                    t == table_view(rec.rows@),
                    found is None ==> wide_cell(t, key, val, rk@, col@, n as int) == wide_cell(
                        t,
                        key,
                        val,
                        rk@,
                        col@,
                        j as int,
                    ),
                    found is Some ==> j == 0,
                    found matches Some(q) ==> q < n && l2w_eligible(t[q as int], key, val)
                        && wide_cell(t, key, val, rk@, col@, n as int) == t[q as int][val as int],
                decreases j,
            {
                let r = &rec.rows[j - 1];
                assert(strs_view(r@) == t[j - 1]);
                proof {
                    if r.len() > 0 {
                        assert(t[j - 1][0] == r@[0]@);
                    }
                    if r.len() > key {
                        assert(t[j - 1][key as int] == r@[key as int]@);
                    }
                }
                if r.len() > val && r.len() > key && r[0] == *rk && r[key] == *col {
                    assert(t[j - 1].len() == r.len());
                    assert(l2w_eligible(t[j - 1], key, val));
                    assert(wide_cell(t, key, val, rk@, col@, j as int) == t[j - 1][val as int]);
                    found = Some(j - 1);
                    j = 0;
                } else {
                    j -= 1;
                }
            }
            let cell = match found {
                Some(q) => {
                    assert(strs_view(rec.rows@[q as int]@) == t[q as int]);
                    rec.rows[q][val].clone()
                },
                None => String::new(),
            };
            proof {
                lemma_strs_push(row@, cell);
                assert(names.take(c + 1).map_values(
                    |c: Seq<char>| wide_cell(t, key, val, rk@, c, n as int),
                ) =~= names.take(c as int).map_values(
                    |c: Seq<char>| wide_cell(t, key, val, rk@, c, n as int),
                ).push(wide_cell(t, key, val, rk@, names[c as int], n as int)));
            }
            row.push(cell);
            c += 1;
        }
        proof {
            assert(names.take(cols.len() as int) =~= names);
            assert(strs_view(row@) == f(keys[oi as int]));
            lemma_table_push(out@, row);
            assert(keys.take(oi + 1).map_values(f) =~= keys.take(oi as int).map_values(f).push(
                f(keys[oi as int]),
            ));
        }
        out.push(row);
        oi += 1;
    }
    assert(keys.take(order.len() as int) =~= keys);
    assert(table_view(out@) == l2w_rows(t, key, val, gv));
    Records { rows: out, cfg: rec.cfg }
}

/// `w2l` or `wide2long`.
pub open spec fn is_w2l_mode(m: Seq<char>) -> bool {
    m == seq!['w', '2', 'l'] || m == seq!['w', 'i', 'd', 'e', '2', 'l', 'o', 'n', 'g']
}

/// `l2w` or `long2wide`.
pub open spec fn is_l2w_mode(m: Seq<char>) -> bool {
    m == seq!['l', '2', 'w'] || m == seq!['l', 'o', 'n', 'g', '2', 'w', 'i', 'd', 'e']
}

/// `reshape` succeeds: a known mode whose column arguments are positive
/// integers (`w2l` reads its column only when there are rows).
pub open spec fn reshape_ok(n_rows: int, call: Call) -> bool {
    match arg_text(call, 0) {
        Some(m) => if is_w2l_mode(m) {
            n_rows == 0 || arg_column(call, 1) is Some
        } else if is_l2w_mode(m) {
            arg_column(call, 1) is Some && arg_column(call, 2) is Some
        } else {
            false
        },
        None => false,
    }
}

/// The rows `reshape` produces when it succeeds.
pub open spec fn reshape_result(t: Seq<Seq<Seq<char>>>, call: Call, out: Seq<Seq<Seq<char>>>) -> bool {
    let m = arg_text(call, 0)->0;
    if t.len() == 0 {
        out == t
    } else if is_w2l_mode(m) {
        out == w2l_rows(t, arg_column(call, 1)->0, t.len() as int)
    } else {
        let key = arg_column(call, 1)->0;
        let val = arg_column(call, 2)->0;
        exists|g: Seq<(Seq<char>, Seq<int>)>|
            is_grouping(t, key, val, t.len() as int, g) && out == l2w_rows(t, key, val, g)
    }
}

/// What `rec_reshape` returns for its input.
pub open spec fn reshape_post(rec: Records, call: Call, r: Result<Records, String>) -> bool {
    &&& (r is Ok <==> reshape_ok(rec.rows.len() as int, call))
    &&& (r matches Ok(x) ==> x.cfg == rec.cfg && reshape_result(
        table_view(rec.rows@),
        call,
        table_view(x.rows@),
    ))
    &&& (r matches Err(m) ==> m@ == reshape_error(call))
}

/// The message of a `reshape` call that does not apply.
pub open spec fn reshape_error(call: Call) -> Seq<char> {
    match arg_text(call, 0) {
        None => arg_text_error(call, 0),
        Some(m) => if is_w2l_mode(m) {
            arg_column_error(call, 1)
        } else if is_l2w_mode(m) {
            if arg_column(call, 1) is None {
                arg_column_error(call, 1)
            } else {
                arg_column_error(call, 2)
            }
        } else {
            "reshape mode must be w2l or l2w"@
        },
    }
}

/// `reshape` dispatch: `w2l` / `wide2long` with the first value column,
/// `l2w` / `long2wide` with the key and value columns.
pub fn rec_reshape(rec: Records, call: &Call) -> (r: Result<Records, String>)
    ensures
        reshape_post(rec, *call, r),
{
    proof {
        reveal_strlit("w2l");
        reveal_strlit("wide2long");
        reveal_strlit("l2w");
        reveal_strlit("long2wide");
        assert("w2l"@ =~= seq!['w', '2', 'l']);
        assert("wide2long"@ =~= seq!['w', 'i', 'd', 'e', '2', 'l', 'o', 'n', 'g']);
        assert("l2w"@ =~= seq!['l', '2', 'w']);
        assert("long2wide"@ =~= seq!['l', 'o', 'n', 'g', '2', 'w', 'i', 'd', 'e']);
    }
    let ghost t = table_view(rec.rows@);
    let mode = match arg_string(call, 0) {
        Ok(m) => m,
        Err(e) => return Err(e),
    };
    if str_is2(mode.as_str(), "w2l", "wide2long") {
        if rec.rows.len() == 0 {
            return Ok(rec);
        }
        let start = match arg_col(call, 1) {
            Ok(p) => p,
            Err(e) => return Err(e),
        };
        let out = reshape_wide_to_long(rec, start);
        assert(reshape_result(t, *call, table_view(out.rows@)));
        Ok(out)
    } else if str_is2(mode.as_str(), "l2w", "long2wide") {
        let key = match arg_col(call, 1) {
            Ok(p) => p,
            Err(e) => return Err(e),
        };
        let val = match arg_col(call, 2) {
            Ok(p) => p,
            Err(e) => return Err(e),
        };
        if rec.rows.len() == 0 {
            return Ok(rec);
        }
        assert(mode@[0] == 'l');
        assert(!is_w2l_mode(mode@));
        let ghost n = rec.rows.len() as int;
        let out = reshape_long_to_wide(rec, key, val);
        proof {
            let g = choose|g: Seq<(Seq<char>, Seq<int>)>|
                is_grouping(t, key, val, n, g) && table_view(out.rows@) == l2w_rows(t, key, val, g);
            assert(t.len() == n);
            assert(is_grouping(t, key, val, t.len() as int, g));
            assert(arg_text(*call, 0)->0 == mode@);
            assert(t.len() != 0);
            assert(key == arg_column(*call, 1)->0);
            assert(val == arg_column(*call, 2)->0);
        }
        assert(reshape_result(t, *call, table_view(out.rows@)));
        Ok(out)
    } else {
        Err(String::from_str("reshape mode must be w2l or l2w"))
    }
}

// ---------------------------------------------------------------------------
// flatten
// ---------------------------------------------------------------------------

/// Index of the first `}` at or after `i`, or -1.
pub open spec fn close_brace(t: Seq<char>, i: int) -> int
    decreases t.len() - i,
{
    if i < 0 || i >= t.len() {
        -1
    } else if t[i] == '}' {
        i
    } else {
        close_brace(t, i + 1)
    }
}

/// Position of the first header field equal to `name`, or -1.
pub open spec fn header_pos(header: Seq<Seq<char>>, name: Seq<char>, i: int) -> int
    decreases header.len() - i,
{
    if i < 0 || i >= header.len() {
        -1
    } else if header[i] == name {
        i
    } else {
        header_pos(header, name, i + 1)
    }
}

/// The row's field under the header name `name`; empty when the name is not
/// in the header or the row is too short.
pub open spec fn field_by_name(header: Seq<Seq<char>>, row: Seq<Seq<char>>, name: Seq<char>) -> Seq<
    char,
> {
    let p = header_pos(header, name, 0);
    if 0 <= p < row.len() {
        row[p]
    } else {
        seq![]
    }
}

/// The template with each `{name}` (one or more characters other than `}`
/// between braces) replaced by the row's field under that header name.
pub open spec fn render_template(t: Seq<char>, header: Seq<Seq<char>>, row: Seq<Seq<char>>) -> Seq<
    char,
>
    decreases t.len(),
{
    proof {
        lemma_close_brace_range(t, 1);
    }
    if t.len() == 0 {
        seq![]
    } else if t[0] == '{' && close_brace(t, 1) >= 2 {
        let q = close_brace(t, 1);
        field_by_name(header, row, t.subrange(1, q)) + render_template(t.skip(q + 1), header, row)
    } else {
        seq![t[0]] + render_template(t.skip(1), header, row)
    }
}

/// Each cell of a data row as `name: value`.
pub open spec fn kv_cells(header: Seq<Seq<char>>, row: Seq<Seq<char>>) -> Seq<Seq<Seq<char>>> {
    Seq::new(
        row.len(),
        |i: int| seq![header_name(header, i) + seq![':', ' '] + row[i]],
    )
}

/// The `name: value` rows of the data rows `1..n`.
pub open spec fn kv_rows(rows: Seq<Seq<Seq<char>>>, n: int) -> Seq<Seq<Seq<char>>>
    decreases n,
{
    if n <= 1 || n > rows.len() {
        seq![]
    } else {
        kv_rows(rows, n - 1) + kv_cells(rows[0], rows[n - 1])
    }
}

proof fn lemma_kv_rows_concat(t: Seq<Seq<Seq<char>>>, n: int)
    requires
        1 <= n <= t.len(),
    ensures
        kv_rows(t, n) == t.subrange(1, n).map_values(
            |row: Seq<Seq<char>>| kv_cells(t[0], row),
        ).flatten_alt(),
    decreases n,
{
    let f = |row: Seq<Seq<char>>| kv_cells(t[0], row);
    if n == 1 {
        assert(t.subrange(1, 1).map_values(f) =~= Seq::<Seq<Seq<Seq<char>>>>::empty());
    } else {
        lemma_kv_rows_concat(t, n - 1);
        let s = t.subrange(1, n).map_values(f);
        assert(s.drop_last() =~= t.subrange(1, n - 1).map_values(f));
        assert(s.last() == kv_cells(t[0], t[n - 1]));
    }
}

/// Flatten without a template gives, for each data row in order, one
/// `name: value` row per cell: the rows of the data rows, concatenated.
pub proof fn law_flatten_rows_concat(t: Seq<Seq<Seq<char>>>)
    requires
        t.len() >= 2,
    ensures
        kv_rows(t, t.len() as int) == t.skip(1).map_values(
            |row: Seq<Seq<char>>| kv_cells(t[0], row),
        ).flatten(),
{
    lemma_kv_rows_concat(t, t.len() as int);
    let s = t.skip(1).map_values(|row: Seq<Seq<char>>| kv_cells(t[0], row));
    assert(t.subrange(1, t.len() as int) =~= t.skip(1));
    s.lemma_flatten_and_flatten_alt_are_equivalent();
}

pub proof fn lemma_close_brace_range(t: Seq<char>, i: int)
    requires
        0 <= i,
    ensures
        close_brace(t, i) == -1 || (i <= close_brace(t, i) < t.len() && t[close_brace(t, i)]
            == '}'),
    decreases t.len() - i,
{
    if i < t.len() && t[i] != '}' {
        lemma_close_brace_range(t, i + 1);
    }
}

fn field_by_name_exec(header: &Vec<String>, row: &Vec<String>, name: &Vec<char>) -> (out: Vec<char>)
    ensures
        out@ == field_by_name(strs_view(header@), strs_view(row@), name@),
{
    let ghost h = strs_view(header@);
    let mut p: usize = 0;
    let mut pos: usize = header.len();
    while p < header.len()
        invariant
            p <= header.len(),
            pos <= header.len(),
            h == strs_view(header@),
            pos == header.len() ==> header_pos(h, name@, 0) == header_pos(h, name@, p as int),
            pos < header.len() ==> header_pos(h, name@, 0) == pos && p == header.len(),
        decreases header.len() - p,
    {
        let hc = chars_of(header[p].as_str());
        if crate::text::chars_eq(&hc, name) {
            assert(h[p as int] == name@);
            assert(h.len() == header.len());
            assert(header_pos(h, name@, p as int) == p as int);
            pos = p;
            p = header.len();
        } else {
            p += 1;
        }
    }
    if pos < header.len() && pos < row.len() {
        let out = chars_of(row[pos].as_str());
        assert(strs_view(row@)[pos as int] == row@[pos as int]@);
        out
    } else {
        Vec::new()
    }
}

fn render_template_exec(t: &Vec<char>, header: &Vec<String>, row: &Vec<String>) -> (out: String)
    ensures
        out@ == render_template(t@, strs_view(header@), strs_view(row@)),
{
    let ghost h = strs_view(header@);
    let ghost r = strs_view(row@);
    let mut out: Vec<char> = Vec::new();
    let mut i: usize = 0;
    assert(t@.skip(0) =~= t@);
    while i < t.len()
        invariant
            i <= t.len(),
            h == strs_view(header@),
            r == strs_view(row@),
            render_template(t@, h, r) == out@ + render_template(t@.skip(i as int), h, r),
        decreases t.len() - i,
    {
        let ghost s = t@.skip(i as int);
        let mut done = false;
        if t[i] == '{' {
            let mut q: usize = i + 1;
            while q < t.len() && t[q] != '}'
                invariant
                    i < q <= t.len(),
                    s == t@.skip(i as int),
                    close_brace(s, 1) == close_brace(s, (q - i) as int),
                decreases t.len() - q,
            {
                q += 1;
            }
            proof {
                lemma_close_brace_range(s, 1);
            }
            if q < t.len() && q >= i + 2 {
                let name = crate::text::vec_range(t, i + 1, q);
                assert(name@ =~= s.subrange(1, (q - i) as int));
                let v = field_by_name_exec(header, row, &name);
                crate::text::append_chars(&mut out, &v);
                assert(s.skip((q - i) + 1) =~= t@.skip(q + 1));
                i = q + 1;
                done = true;
            }
        }
        if !done {
            out.push(t[i]);
            assert(s.skip(1) =~= t@.skip(i + 1));
            i += 1;
        }
    }
    assert(t@.skip(t.len() as int) =~= Seq::<char>::empty());
    string_of(&out)
}

/// What `rec_flatten_as_records` returns for its input.
pub open spec fn flatten_post(rec: Records, call: Call, r: Result<Records, String>) -> bool {
    match r {
        Ok(x) => {
            let t = table_view(rec.rows@);
            if rec.rows.len() == 0 {
                table_view(x.rows@) == t && x.cfg == rec.cfg
            } else if call.args.len() > 0 {
                &&& arg_text(call, 0) is Some
                &&& (rec.rows.len() < 2 ==> table_view(x.rows@) == seq![
                    seq![arg_text(call, 0)->0],
                ] && x.cfg == rec.cfg)
                &&& (rec.rows.len() >= 2 ==> table_view(x.rows@) == t.skip(1).map_values(
                    |row: Seq<Seq<char>>| seq![render_template(arg_text(call, 0)->0, t[0], row)],
                ) && with_empty_ofs(rec.cfg, x.cfg))
            } else {
                &&& (rec.rows.len() >= 2 ==> table_view(x.rows@) == kv_rows(
                    t,
                    rec.rows.len() as int,
                ))
                &&& (rec.rows.len() < 2 ==> table_view(x.rows@) == t)
                &&& with_empty_ofs(rec.cfg, x.cfg)
            }
        },
        Err(m) => rec.rows.len() > 0 && call.args.len() > 0 && arg_text(call, 0) is None && m@
            == arg_text_error(call, 0),
    }
}

/// Flattens records: with a template, each data row becomes the template
/// filled from the header names; without, each data field becomes a
/// `name: value` row.
pub fn rec_flatten_as_records(rec: Records, call: &Call) -> (r: Result<Records, String>)
    ensures
        flatten_post(rec, *call, r),
{
    if rec.rows.len() == 0 {
        return Ok(rec);
    }
    let ghost t = table_view(rec.rows@);
    if call.args.len() > 0 {
        let tpl = arg_string(call, 0)?;
        if rec.rows.len() < 2 {
            let ghost tv = tpl@;
            let mut row: Vec<String> = Vec::new();
            row.push(tpl);
            assert(strs_view(row@) =~= seq![tv]);
            let mut rows: Vec<Vec<String>> = Vec::new();
            rows.push(row);
            assert(table_view(rows@) =~= seq![seq![tv]]);
            return Ok(Records { rows, cfg: rec.cfg });
        }
        let tv = chars_of(tpl.as_str());
        let header = &rec.rows[0];
        assert(strs_view(header@) == t[0]);
        let ghost f = |row: Seq<Seq<char>>| seq![render_template(tpl@, t[0], row)];
        let mut out: Vec<Vec<String>> = Vec::new();
        let mut i: usize = 1;
        while i < rec.rows.len()
            invariant
                1 <= i <= rec.rows.len(),
                t == table_view(rec.rows@),
                tv@ == tpl@,
                strs_view(header@) == t[0],
                table_view(out@) == t.subrange(1, i as int).map_values(f),
                f == (|row: Seq<Seq<char>>| seq![render_template(tpl@, t[0], row)]),
            decreases rec.rows.len() - i,
        {
            let row = &rec.rows[i];
            assert(strs_view(row@) == t[i as int]);
            let text = render_template_exec(&tv, header, row);
            let mut new_row: Vec<String> = Vec::new();
            new_row.push(text);
            proof {
                assert(strs_view(new_row@) =~= f(t[i as int]));
                lemma_table_push(out@, new_row);
                assert(t.subrange(1, i + 1).map_values(f) =~= t.subrange(1, i as int).map_values(
                    f,
                ).push(f(t[i as int])));
            }
            out.push(new_row);
            i += 1;
        }
        assert(t.subrange(1, rec.rows.len() as int) =~= t.skip(1));
        let cfg = RecConfig { fs: rec.cfg.fs, rs: rec.cfg.rs, ofs: String::new(), ors: rec.cfg.ors };
        return Ok(Records { rows: out, cfg });
    }
    let mut rows = rec.rows;
    if rows.len() >= 2 {
        let mut out: Vec<Vec<String>> = Vec::new();
        let mut ri: usize = 1;
        while ri < rows.len()
            invariant
                1 <= ri <= rows.len(),
                rows.len() >= 2,
                t == table_view(rows@),
                table_view(out@) == kv_rows(t, ri as int),
            decreases rows.len() - ri,
        {
            let header = &rows[0];
            let row = &rows[ri];
            assert(strs_view(header@) == t[0]);
            assert(strs_view(row@) == t[ri as int]);
            let ghost before = table_view(out@);
            let ghost kv = kv_cells(t[0], t[ri as int]);
            let mut c: usize = 0;
            while c < row.len()
                invariant
                    c <= row.len(),
                    t.len() >= 2,
                    0 < ri < t.len(),
                    strs_view(header@) == t[0],
                    strs_view(row@) == t[ri as int],
                    kv == kv_cells(t[0], t[ri as int]),
                    table_view(out@) == before + kv.take(c as int),
                decreases row.len() - c,
            {
                let name = column_name(header, c);
                let mut text = name;
                text.append(": ");
                text.append(row[c].as_str());
                proof {
                    reveal_strlit(": ");
                    assert(": "@ =~= seq![':', ' ']);
                    assert(strs_view(row@)[c as int] == row@[c as int]@);
                    assert(text@ =~= header_name(t[0], c as int) + seq![':', ' '] + t[ri as int][c as int]);
                }
                let ghost tx = text@;
                let mut new_row: Vec<String> = Vec::new();
                new_row.push(text);
                proof {
                    assert(strs_view(new_row@) =~= seq![tx]);
                    assert(strs_view(new_row@) =~= kv[c as int]);
                    lemma_table_push(out@, new_row);
                    assert(kv.take(c + 1) =~= kv.take(c as int).push(kv[c as int]));
                }
                out.push(new_row);
                c += 1;
            }
            assert(kv.take(row.len() as int) =~= kv);
            ri += 1;
        }
        rows = out;
    }
    let cfg = RecConfig { fs: rec.cfg.fs, rs: rec.cfg.rs, ofs: String::new(), ors: rec.cfg.ors };
    Ok(Records { rows, cfg })
}

/// `reshape` names its two modes each two ways: `w2l` and `wide2long` turn
/// each data row into one `key.., name, value` row per field from the
/// given column on; `l2w` and `long2wide` build the wide table of the
/// rows' values.
pub proof fn law_reshape_mode_names(rec: Records, c: Call, r: Result<Records, String>)
    requires
        reshape_post(rec, c, r),
        rec.rows.len() > 0,
        r is Ok,
    ensures
        (arg_text(c, 0) == Some("w2l"@) || arg_text(c, 0) == Some("wide2long"@)) ==> table_view(
            r->Ok_0.rows@,
        ) == w2l_rows(table_view(rec.rows@), arg_column(c, 1)->0, rec.rows.len() as int),
        (arg_text(c, 0) == Some("l2w"@) || arg_text(c, 0) == Some("long2wide"@)) ==> exists|
            g: Seq<(Seq<char>, Seq<int>)>,
        |
            is_grouping(
                table_view(rec.rows@),
                arg_column(c, 1)->0,
                arg_column(c, 2)->0,
                rec.rows.len() as int,
                g,
            ) && table_view(r->Ok_0.rows@) == l2w_rows(
                table_view(rec.rows@),
                arg_column(c, 1)->0,
                arg_column(c, 2)->0,
                g,
            ),
{
    reveal_strlit("w2l");
    reveal_strlit("wide2long");
    reveal_strlit("l2w");
    reveal_strlit("long2wide");
    assert("w2l"@ =~= seq!['w', '2', 'l']);
    assert("wide2long"@ =~= seq!['w', 'i', 'd', 'e', '2', 'l', 'o', 'n', 'g']);
    assert("l2w"@ =~= seq!['l', '2', 'w']);
    assert("long2wide"@ =~= seq!['l', 'o', 'n', 'g', '2', 'w', 'i', 'd', 'e']);
    assert(table_view(rec.rows@).len() == rec.rows.len());
    if arg_text(c, 0) == Some("l2w"@) || arg_text(c, 0) == Some("long2wide"@) {
        assert(!is_w2l_mode(arg_text(c, 0)->0)) by {
            assert("l2w"@[0] != 'w');
            assert("long2wide"@[0] != 'w');
        }
    }
}

} // verus!
