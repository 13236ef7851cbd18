//! Record operations on fields: characters, counting, selection, replacement,
//! numbering, exploding and imploding.
use vstd::prelude::*;

use crate::ast::{table_view, Call, Expr, RecConfig, Records};
use crate::num::{
    int_text, nat_text, parse_i64_spec, parse_usize_spec, usize_error_message, usize_text,
};
use crate::order::{group_rows, groups_view, is_grouping};
use crate::parser::index_of;
use crate::pattern::{compile, is_match, regex_compiles, regex_is_match, regex_replace_all, replace_all};
use crate::table::{char_cells, chars_to_cells, clone_row, lemma_strs_push, lemma_table_push};
use crate::text::{
    chars_of, join_spec, join_strs, split_spec, split_str, string_of_range, strs_view,
    unescape, unescape_spec,
};
use crate::util::{
    arg_col, arg_column, arg_column_error, arg_string, arg_text, arg_text_error, expr_text,
    expr_to_string,
};

verus! {

/// `cfg` with the output field separator emptied.
pub open spec fn with_empty_ofs(cfg: RecConfig, out: RecConfig) -> bool {
    out.fs == cfg.fs && out.rs == cfg.rs && out.ors == cfg.ors && out.ofs@ == Seq::<char>::empty()
}

// ---------------------------------------------------------------------------
// chars
// ---------------------------------------------------------------------------

/// Each row re-read as the characters of its rendered text.
pub open spec fn chars_rows(rows: Seq<Seq<Seq<char>>>, ofs: Seq<char>) -> Seq<Seq<Seq<char>>> {
    rows.map_values(|row: Seq<Seq<char>>| char_cells(join_spec(row, unescape_spec(ofs))))
}

/// What `rec_chars` returns for its input.
pub open spec fn chars_post(rec: Records, r: Result<Records, String>) -> bool {
    r matches Ok(x) && table_view(x.rows@) == chars_rows(table_view(rec.rows@), rec.cfg.ofs@)
        && with_empty_ofs(rec.cfg, x.cfg)
}

/// Re-reads each rendered row as single-character fields; the output field
/// separator becomes empty.
pub fn rec_chars(rec: Records) -> (r: Result<Records, String>)
    ensures
        chars_post(rec, r),
{
    let ofs = unescape(rec.cfg.ofs.as_str());
    let mut rows: Vec<Vec<String>> = Vec::new();
    let mut i: usize = 0;
    let ghost t = table_view(rec.rows@);
    let ghost f = |row: Seq<Seq<char>>| char_cells(join_spec(row, unescape_spec(rec.cfg.ofs@)));
    while i < rec.rows.len()
        invariant
            i <= rec.rows.len(),
            t == table_view(rec.rows@),
            ofs@ == unescape_spec(rec.cfg.ofs@),
            table_view(rows@) == t.take(i as int).map_values(f),
            f == (|row: Seq<Seq<char>>| char_cells(join_spec(row, unescape_spec(rec.cfg.ofs@)))),
        decreases rec.rows.len() - i,
    {
        let line = join_strs(&rec.rows[i], ofs.as_str());
        let cells = chars_to_cells(line.as_str());
        proof {
            lemma_table_push(rows@, cells);
            assert(t.take(i + 1).map_values(f) =~= t.take(i as int).map_values(f).push(f(t[i as int])));
        }
        rows.push(cells);
        i += 1;
    }
    assert(t.take(rec.rows.len() as int) =~= t);
    let cfg = RecConfig { fs: rec.cfg.fs, rs: rec.cfg.rs, ofs: String::new(), ors: rec.cfg.ors };
    Ok(Records { rows, cfg })
}

// ---------------------------------------------------------------------------
// countif
// ---------------------------------------------------------------------------

/// The number of fields of `row` that the regex matches.
pub open spec fn count_matches(pat: Seq<char>, row: Seq<Seq<char>>) -> nat {
    row.filter(|c: Seq<char>| regex_is_match(pat, c)).len()
}

/// Each row replaced by the count of its fields that the regex matches.
pub open spec fn count_rows(pat: Seq<char>, rows: Seq<Seq<Seq<char>>>) -> Seq<Seq<Seq<char>>> {
    rows.map_values(|row: Seq<Seq<char>>| seq![nat_text(count_matches(pat, row))])
}

/// What `rec_countif` returns for its input.
pub open spec fn countif_post(rec: Records, call: Call, r: Result<Records, String>) -> bool {
    match r {
        Ok(x) => arg_text(call, 0) is Some && regex_compiles(arg_text(call, 0)->0) && table_view(
            x.rows@,
        ) == count_rows(
            arg_text(call, 0)->0,
            table_view(rec.rows@),
        ) && x.cfg == rec.cfg,
        Err(m) => (arg_text(call, 0) is None || !regex_compiles(arg_text(call, 0)->0)) && m@
            == regex_arg_error(call, 1),
    }
}

/// The message of a call whose first `n` arguments are not all text, or
/// whose first argument is a pattern that does not compile.
pub open spec fn regex_arg_error(call: Call, n: int) -> Seq<char> {
    if arg_text(call, 0) is None {
        arg_text_error(call, 0)
    } else if n > 1 && arg_text(call, 1) is None {
        arg_text_error(call, 1)
    } else {
        "invalid regex: "@ + arg_text(call, 0)->0
    }
}

/// Replaces each row by the number of its fields that match the regex.
pub fn rec_countif(rec: Records, call: &Call) -> (r: Result<Records, String>)
    ensures
        countif_post(rec, *call, r),
{
    let pat = arg_string(call, 0)?;
    let re = match compile(pat.as_str()) {
        Ok(re) => re,
        Err(_) => {
            return Err(crate::text::concat2("invalid regex: ", pat.as_str()));
        },
    };
    let mut rows: Vec<Vec<String>> = Vec::new();
    let mut i: usize = 0;
    let ghost t = table_view(rec.rows@);
    let ghost f = |row: Seq<Seq<char>>| seq![nat_text(count_matches(pat@, row))];
    while i < rec.rows.len()
        invariant
            i <= rec.rows.len(),
            t == table_view(rec.rows@),
            re@ == pat@,
            table_view(rows@) == t.take(i as int).map_values(f),
            f == (|row: Seq<Seq<char>>| seq![nat_text(count_matches(pat@, row))]),
        decreases rec.rows.len() - i,
    {
        let row = &rec.rows[i];
        let ghost rv = strs_view(row@);
        let ghost p = |c: Seq<char>| regex_is_match(pat@, c);
        let mut count: usize = 0;
        let mut j: usize = 0;
        while j < row.len()
            invariant
                j <= row.len(),
                rv == strs_view(row@),
                re@ == pat@,
                count == rv.take(j as int).filter(p).len(),
                count <= j,
                p == (|c: Seq<char>| regex_is_match(pat@, c)),
            decreases row.len() - j,
        {
            proof {
                assert(rv.take(j + 1) =~= rv.take(j as int).push(rv[j as int]));
                rv.take(j as int).lemma_filter_push(rv[j as int], p);
            }
            if is_match(&re, row[j].as_str()) {
                count += 1;
            }
            j += 1;
        }
        assert(rv.take(row.len() as int) =~= rv);
        let cell = usize_text(count);
        let mut new_row: Vec<String> = Vec::new();
        new_row.push(cell);
        proof {
            assert(strs_view(new_row@) =~= seq![nat_text(count_matches(pat@, rv))]);
            lemma_table_push(rows@, new_row);
            assert(t.take(i + 1).map_values(f) =~= t.take(i as int).map_values(f).push(f(t[i as int])));
        }
        rows.push(new_row);
        i += 1;
    }
    assert(t.take(rec.rows.len() as int) =~= t);
    Ok(Records { rows, cfg: rec.cfg })
}

// ---------------------------------------------------------------------------
// select
// ---------------------------------------------------------------------------

/// The 0-based field indices that a field spec picks in a row of `len`
/// fields: `N`, or `start:end` with either side optional (1 and `len` by
/// default), the range cut at `len`. `None` when the spec is not valid.
pub open spec fn field_indices(spec: Seq<char>, len: usize) -> Option<Seq<int>> {
    let c = index_of(spec, ':', 0);
    if c >= 0 {
        let a = spec.take(c);
        let b = spec.skip(c + 1);
        let start: Option<usize> = if a.len() == 0 {
            Some(1usize)
        } else {
            parse_usize_spec(a)
        };
        let end: Option<usize> = if b.len() == 0 {
            Some(len)
        } else {
            parse_usize_spec(b)
        };
        if start is None || end is None || start->0 == 0 || end->0 == 0 {
            None
        } else {
            let lo = start->0 - 1;
            let hi: int = if end->0 < len {
                end->0 as int
            } else {
                len as int
            };
            Some(Seq::new(if hi > lo { (hi - lo) as nat } else { 0 }, |k: int| lo + k))
        }
    } else {
        match parse_usize_spec(spec) {
            Some(n) => if n > 0 {
                Some(seq![n - 1])
            } else {
                None
            },
            None => None,
        }
    }
}

/// The fields at the given indices that exist.
pub open spec fn pick(row: Seq<Seq<char>>, idxs: Seq<int>) -> Seq<Seq<char>> {
    idxs.filter(|i: int| 0 <= i < row.len()).map_values(|i: int| row[i])
}

/// The fields that the specs pick from a row, in spec order.
pub open spec fn select_row(row: Seq<Seq<char>>, specs: Seq<Seq<char>>) -> Option<Seq<Seq<char>>>
    decreases specs.len(),
{
    if specs.len() == 0 {
        Some(seq![])
    } else {
        match select_row(row, specs.drop_last()) {
            None => None,
            Some(prefix) => match field_indices(specs.last(), row.len() as usize) {
                None => None,
                Some(idxs) => Some(prefix + pick(row, idxs)),
            },
        }
    }
}

proof fn lemma_select_fails(row: Seq<Seq<char>>, specs: Seq<Seq<char>>, k: int)
    requires
        0 <= k < specs.len(),
        field_indices(specs[k], row.len() as usize) is None,
    ensures
        select_row(row, specs) is None,
    decreases specs.len(),
{
    if k < specs.len() - 1 {
        lemma_select_fails(row, specs.drop_last(), k);
    }
}

proof fn lemma_select_row_concat(row: Seq<Seq<char>>, specs: Seq<Seq<char>>)
    requires
        forall|k: int| 0 <= k < specs.len() ==> (#[trigger] field_indices(specs[k], row.len() as usize)) is Some,
    ensures
        select_row(row, specs) == Some(
            specs.map_values(
                |sp: Seq<char>| pick(row, field_indices(sp, row.len() as usize)->0),
            ).flatten_alt(),
        ),
    decreases specs.len(),
{
    let f = |sp: Seq<char>| pick(row, field_indices(sp, row.len() as usize)->0);
    if specs.len() > 0 {
        let init = specs.drop_last();
        assert forall|k: int| 0 <= k < init.len() implies (#[trigger] field_indices(
            init[k],
            row.len() as usize,
        )) is Some by {
            assert(init[k] == specs[k]);
        }
        lemma_select_row_concat(row, init);
        assert(specs.map_values(f).drop_last() =~= init.map_values(f));
        assert(field_indices(specs[specs.len() - 1], row.len() as usize) is Some);
    } else {
        assert(specs.map_values(f) =~= Seq::<Seq<Seq<char>>>::empty());
    }
}

/// Selection picks from a row, for each spec in order, the fields at the
/// spec's indices that the row has: the picks of the specs, concatenated.
pub proof fn law_select_row_concat(row: Seq<Seq<char>>, specs: Seq<Seq<char>>)
    requires
        forall|k: int| 0 <= k < specs.len() ==> (#[trigger] field_indices(specs[k], row.len() as usize)) is Some,
    ensures
        select_row(row, specs) == Some(
            specs.map_values(
                |sp: Seq<char>| pick(row, field_indices(sp, row.len() as usize)->0),
            ).flatten(),
        ),
{
    lemma_select_row_concat(row, specs);
    specs.map_values(
        |sp: Seq<char>| pick(row, field_indices(sp, row.len() as usize)->0),
    ).lemma_flatten_and_flatten_alt_are_equivalent();
}

/// The texts of all arguments, if each has one.
pub open spec fn all_texts(args: Seq<Expr>) -> bool {
    forall|i: int| 0 <= i < args.len() ==> (#[trigger] expr_text(args[i])) is Some
}

/// The argument texts.
pub open spec fn texts_of(args: Seq<Expr>) -> Seq<Seq<char>> {
    args.map_values(|e: Expr| expr_text(e)->0)
}

/// Every row admits every spec.
pub open spec fn rows_select_ok(rows: Seq<Seq<Seq<char>>>, specs: Seq<Seq<char>>) -> bool {
    forall|i: int| 0 <= i < rows.len() ==> (#[trigger] select_row(rows[i], specs)) is Some
}

/// The selected fields of each row.
pub open spec fn select_rows(rows: Seq<Seq<Seq<char>>>, specs: Seq<Seq<char>>) -> Seq<Seq<Seq<char>>> {
    rows.map_values(|row: Seq<Seq<char>>| select_row(row, specs)->0)
}

/// The message of a field spec that does not read (see
/// [`field_indices`]): a part that is not a number, else a zero position.
pub open spec fn field_error(spec: Seq<char>, len: usize) -> Seq<char> {
    let c = index_of(spec, ':', 0);
    let one_based = "field positions are 1-based: "@ + spec;
    if c >= 0 {
        let a = spec.take(c);
        let b = spec.skip(c + 1);
        if a.len() > 0 && parse_usize_spec(a) is None {
            usize_error_message(a)
        } else if b.len() > 0 && parse_usize_spec(b) is None {
            usize_error_message(b)
        } else {
            one_based
        }
    } else if parse_usize_spec(spec) is None {
        usize_error_message(spec)
    } else {
        one_based
    }
}

/// The message of the first spec from `k` on that does not read for a row.
pub open spec fn row_select_error(row: Seq<Seq<char>>, specs: Seq<Seq<char>>, k: int) -> Seq<char>
    decreases specs.len() - k,
{
    if k < 0 || k >= specs.len() {
        seq![]
    } else if field_indices(specs[k], row.len() as usize) is None {
        field_error(specs[k], row.len() as usize)
    } else {
        row_select_error(row, specs, k + 1)
    }
}

/// The message of the first row from `i` on that the specs do not fit.
pub open spec fn select_error(rows: Seq<Seq<Seq<char>>>, specs: Seq<Seq<char>>, i: int) -> Seq<char>
    decreases rows.len() - i,
{
    if i < 0 || i >= rows.len() {
        seq![]
    } else if select_row(rows[i], specs) is None {
        row_select_error(rows[i], specs, 0)
    } else {
        select_error(rows, specs, i + 1)
    }
}

/// Expands one field spec for a row of `len` fields into 0-based indices.
pub fn expand_spec(spec: &String, len: usize) -> (r: Result<Vec<usize>, String>)
    ensures
        match r {
            Ok(v) => field_indices(spec@, len) == Some(v@.map_values(|i: usize| i as int)),
            Err(m) => field_indices(spec@, len) is None && m@ == field_error(spec@, len),
        },
{
    let s = chars_of(spec.as_str());
    let mut c: usize = 0;
    while c < s.len() && s[c] != ':'
        invariant
            c <= s.len(),
            s@ == spec@,
            index_of(s@, ':', 0) == index_of(s@, ':', c as int),
        decreases s.len() - c,
    {
        c += 1;
    }
    let one_based_error = crate::text::concat2("field positions are 1-based: ", spec.as_str());
    if c < s.len() {
        let a = string_of_range(&s, 0, c);
        let b = string_of_range(&s, c + 1, s.len());
        assert(a@ =~= s@.take(c as int));
        assert(b@ =~= s@.skip(c + 1));
        let start = if a.as_str().unicode_len() == 0 {
            1
        } else {
            crate::num::parse_usize(a.as_str())?
        };
        let end = if b.as_str().unicode_len() == 0 {
            len
        } else {
            crate::num::parse_usize(b.as_str())?
        };
        if start == 0 || end == 0 {
            return Err(one_based_error);
        }
        let lo = start - 1;
        let hi = if end < len {
            end
        } else {
            len
        };
        let mut out: Vec<usize> = Vec::new();
        let mut k: usize = lo;
        while k < hi
            invariant
                lo <= k,
                k <= hi || hi <= lo,
                hi <= lo ==> k == lo,
                out@.map_values(|i: usize| i as int) =~= Seq::new((k - lo) as nat, |q: int| lo + q),
            decreases hi - k,
        {
            let ghost prev = out@;
            out.push(k);
            assert(out@ == prev.push(k));
            assert(out@.map_values(|i: usize| i as int) =~= prev.map_values(|i: usize| i as int).push(
                k as int,
            ));
            k += 1;
            assert(out@.map_values(|i: usize| i as int) =~= Seq::new((k - lo) as nat, |q: int| lo + q));
        }
        assert(index_of(spec@, ':', 0) == c as int);
        assert(field_indices(spec@, len) is Some);
        assert(field_indices(spec@, len)->0 =~= out@.map_values(|i: usize| i as int));
        Ok(out)
    } else {
        let n = crate::num::parse_usize(spec.as_str())?;
        if n == 0 {
            return Err(one_based_error);
        }
        let mut out: Vec<usize> = Vec::new();
        out.push(n - 1);
        assert(out@.map_values(|i: usize| i as int) =~= seq![n - 1]);
        Ok(out)
    }
}

/// What `rec_select` returns for its input.
pub open spec fn select_post(rec: Records, args: Seq<Expr>, r: Result<Records, String>) -> bool {
    match r {
        Ok(x) => all_texts(args) && rows_select_ok(table_view(rec.rows@), texts_of(args))
            && table_view(x.rows@) == select_rows(table_view(rec.rows@), texts_of(args))
            && x.cfg == rec.cfg,
        Err(m) => (!all_texts(args) && m@ == "nested call cannot be converted to string here"@) || (
        all_texts(args) && !rows_select_ok(table_view(rec.rows@), texts_of(args)) && m@
            == select_error(table_view(rec.rows@), texts_of(args), 0)),
    }
}

/// Keeps, for each row, the fields that the specs pick, in spec order.
pub fn rec_select(rec: Records, args: &Vec<Expr>) -> (r: Result<Records, String>)
    ensures
        select_post(rec, args@, r),
{
    let mut specs: Vec<String> = Vec::new();
    let mut a: usize = 0;
    while a < args.len()
        invariant
            a <= args.len(),
            specs.len() == a,
            forall|q: int| 0 <= q < a ==> (#[trigger] expr_text(args@[q])) == Some(specs@[q]@),
        decreases args.len() - a,
    {
        match expr_to_string(&args[a]) {
            Ok(s) => {
                specs.push(s);
            },
            Err(m) => {
                assert(expr_text(args@[a as int]) is None);
                return Err(m);
            },
        }
        a += 1;
    }
    let ghost sv = strs_view(specs@);
    assert(sv =~= texts_of(args@));
    let ghost t = table_view(rec.rows@);
    let ghost f = |row: Seq<Seq<char>>| select_row(row, sv)->0;
    let mut rows: Vec<Vec<String>> = Vec::new();
    let mut i: usize = 0;
    while i < rec.rows.len()
        invariant
            i <= rec.rows.len(),
            t == table_view(rec.rows@),
            sv == strs_view(specs@),
            sv == texts_of(args@),
            all_texts(args@),
            forall|q: int| 0 <= q < i ==> (#[trigger] select_row(t[q], sv)) is Some,
            select_error(t, sv, 0) == select_error(t, sv, i as int),
            table_view(rows@) == t.take(i as int).map_values(f),
            f == (|row: Seq<Seq<char>>| select_row(row, sv)->0),
        decreases rec.rows.len() - i,
    {
        let row = &rec.rows[i];
        let ghost rv = strs_view(row@);
        assert(rv == t[i as int]);
        let mut out: Vec<String> = Vec::new();
        let mut k: usize = 0;
        while k < specs.len()
            invariant
                k <= specs.len(),
                i < rec.rows.len(),
                t == table_view(rec.rows@),
                rv == t[i as int],
                sv == texts_of(args@),
                rv == strs_view(row@),
                sv == strs_view(specs@),
                select_row(rv, sv.take(k as int)) == Some(strs_view(out@)),
                select_error(t, sv, 0) == select_error(t, sv, i as int),
                row_select_error(rv, sv, 0) == row_select_error(rv, sv, k as int),
                all_texts(args@),
            decreases specs.len() - k,
        {
            assert(sv.take(k + 1).drop_last() =~= sv.take(k as int));
            assert(sv.take(k + 1).last() == specs@[k as int]@);
            assert(sv[k as int] == specs@[k as int]@);
            let idxs = match expand_spec(&specs[k], row.len()) {
                Ok(v) => v,
                Err(m) => {
                    proof {
                        lemma_select_fails(rv, sv, k as int);
                        assert(select_row(t[i as int], texts_of(args@)) is None);
                        assert(rv.len() == row.len());
                        assert(row_select_error(rv, sv, k as int) == m@);
                    }
                    return Err(m);
                },
            };
            assert(rv.len() == row.len());
            assert(row_select_error(rv, sv, k as int) == row_select_error(rv, sv, k + 1));
            let ghost iv = idxs@.map_values(|q: usize| q as int);
            let ghost before = strs_view(out@);
            let ghost kp = |q: int| 0 <= q < rv.len();
            let mut m: usize = 0;
            while m < idxs.len()
                invariant
                    m <= idxs.len(),
                    rv == strs_view(row@),
                    iv == idxs@.map_values(|q: usize| q as int),
                    strs_view(out@) == before + pick(rv, iv.take(m as int)),
                    kp == (|q: int| 0 <= q < rv.len()),
                decreases idxs.len() - m,
            {
                proof {
                    assert(iv.take(m + 1) =~= iv.take(m as int).push(iv[m as int]));
                    iv.take(m as int).lemma_filter_push(iv[m as int], kp);
                }
                let ix = idxs[m];
                if ix < row.len() {
                    let cell = row[ix].clone();
                    proof {
                        lemma_strs_push(out@, cell);
                        assert(pick(rv, iv.take(m + 1)) =~= pick(rv, iv.take(m as int)).push(
                            rv[ix as int],
                        ));
                    }
                    out.push(cell);
                }
                m += 1;
            }
            assert(iv.take(idxs.len() as int) =~= iv);
            k += 1;
        }
        assert(sv.take(specs.len() as int) =~= sv);
        assert(select_error(t, sv, i as int) == select_error(t, sv, i + 1));
        proof {
            lemma_table_push(rows@, out);
            assert(t.take(i + 1).map_values(f) =~= t.take(i as int).map_values(f).push(f(t[i as int])));
        }
        rows.push(out);
        i += 1;
    }
    assert(t.take(rec.rows.len() as int) =~= t);
    Ok(Records { rows, cfg: rec.cfg })
}

// ---------------------------------------------------------------------------
// replace
// ---------------------------------------------------------------------------

/// Every field with each regex match replaced.
pub open spec fn replace_rows(pat: Seq<char>, rep: Seq<char>, rows: Seq<Seq<Seq<char>>>) -> Seq<
    Seq<Seq<char>>,
> {
    rows.map_values(
        |row: Seq<Seq<char>>| row.map_values(|c: Seq<char>| regex_replace_all(pat, c, rep)),
    )
}

/// What `rec_replace` returns for its input.
pub open spec fn replace_post(rec: Records, call: Call, r: Result<Records, String>) -> bool {
    match r {
        Ok(x) => arg_text(call, 0) is Some && arg_text(call, 1) is Some && regex_compiles(
            arg_text(call, 0)->0,
        ) && table_view(x.rows@)
            == replace_rows(arg_text(call, 0)->0, arg_text(call, 1)->0, table_view(rec.rows@))
            && x.cfg == rec.cfg,
        Err(m) => (arg_text(call, 0) is None || arg_text(call, 1) is None || !regex_compiles(
            arg_text(call, 0)->0,
        )) && m@ == regex_arg_error(call, 2),
    }
}

/// Replaces every regex match in every field.
pub fn rec_replace(rec: Records, call: &Call) -> (r: Result<Records, String>)
    ensures
        replace_post(rec, *call, r),
{
    let pat = arg_string(call, 0)?;
    let rep = arg_string(call, 1)?;
    let re = match compile(pat.as_str()) {
        Ok(re) => re,
        Err(_) => {
            return Err(crate::text::concat2("invalid regex: ", pat.as_str()));
        },
    };
    let ghost t = table_view(rec.rows@);
    let ghost g = |c: Seq<char>| regex_replace_all(pat@, c, rep@);
    let ghost f = |row: Seq<Seq<char>>| row.map_values(g);
    let mut rows: Vec<Vec<String>> = Vec::new();
    let mut i: usize = 0;
    while i < rec.rows.len()
        invariant
            i <= rec.rows.len(),
            t == table_view(rec.rows@),
            re@ == pat@,
            table_view(rows@) == t.take(i as int).map_values(f),
            g == (|c: Seq<char>| regex_replace_all(pat@, c, rep@)),
            f == (|row: Seq<Seq<char>>| row.map_values(g)),
        decreases rec.rows.len() - i,
    {
        let row = &rec.rows[i];
        let ghost rv = strs_view(row@);
        let mut out: Vec<String> = Vec::new();
        let mut j: usize = 0;
        while j < row.len()
            invariant
                j <= row.len(),
                rv == strs_view(row@),
                re@ == pat@,
                strs_view(out@) == rv.take(j as int).map_values(g),
                g == (|c: Seq<char>| regex_replace_all(pat@, c, rep@)),
            decreases row.len() - j,
        {
            let cell = replace_all(&re, row[j].as_str(), rep.as_str());
            proof {
                lemma_strs_push(out@, cell);
                assert(rv.take(j + 1).map_values(g) =~= rv.take(j as int).map_values(g).push(
                    g(rv[j as int]),
                ));
            }
            out.push(cell);
            j += 1;
        }
        assert(rv.take(row.len() as int) =~= rv);
        proof {
            lemma_table_push(rows@, out);
            assert(t.take(i + 1).map_values(f) =~= t.take(i as int).map_values(f).push(f(t[i as int])));
        }
        rows.push(out);
        i += 1;
    }
    assert(t.take(rec.rows.len() as int) =~= t);
    Ok(Records { rows, cfg: rec.cfg })
}


// ---------------------------------------------------------------------------
// enum
// ---------------------------------------------------------------------------

/// `A-Z` in either case.
pub open spec fn is_az(s: Seq<char>) -> bool {
    s.len() == 3 && (s[0] == 'A' || s[0] == 'a') && s[1] == '-' && (s[2] == 'Z' || s[2] == 'z')
}

/// The letter for row `i`, cycling through `A`..`Z`.
pub open spec fn az_letter(i: usize) -> char {
    (((i % 26) + 65) as u8) as char
}

/// The start of the numbering, 0 when the argument is not a number.
pub open spec fn enum_start(arg: Seq<char>) -> i64 {
    match parse_i64_spec(arg) {
        Some(v) => v,
        None => 0,
    }
}

/// The label of row `i`: a letter for `A-Z`, else the start plus `i`.
pub open spec fn enum_label(arg: Seq<char>, i: usize) -> Seq<char> {
    if is_az(arg) {
        seq![az_letter(i)]
    } else {
        int_text(enum_start(arg) + i)
    }
}

/// Whether numbering succeeds: no rows, `A-Z`, or an integer start whose
/// last number still fits in `i64`.
pub open spec fn enum_ok(arg: Seq<char>, n: nat) -> bool {
    n == 0 || is_az(arg) || (parse_i64_spec(arg) is Some && enum_start(arg) + n - 1 <= i64::MAX)
}

/// Each row with its label in front.
pub open spec fn enum_rows(rows: Seq<Seq<Seq<char>>>, arg: Seq<char>) -> Seq<Seq<Seq<char>>> {
    Seq::new(rows.len(), |i: int| seq![enum_label(arg, i as usize)] + rows[i])
}

fn is_az_exec(s: &String) -> (r: bool)
    ensures
        r == is_az(s@),
{
    let v = chars_of(s.as_str());
    v.len() == 3 && (v[0] == 'A' || v[0] == 'a') && v[1] == '-' && (v[2] == 'Z' || v[2] == 'z')
}

/// What `rec_enum` returns for its input.
pub open spec fn enum_post(rec: Records, call: Call, r: Result<Records, String>) -> bool {
    match r {
        Ok(x) => arg_text(call, 0) is Some && enum_ok(arg_text(call, 0)->0, rec.rows.len() as nat)
            && table_view(x.rows@) == enum_rows(table_view(rec.rows@), arg_text(call, 0)->0)
            && x.cfg == rec.cfg,
        Err(m) => (arg_text(call, 0) is None || !enum_ok(arg_text(call, 0)->0, rec.rows.len() as nat))
            && m@ == enum_error(call),
    }
}

/// The message of an `enum` call that does not apply.
pub open spec fn enum_error(call: Call) -> Seq<char> {
    if arg_text(call, 0) is None {
        arg_text_error(call, 0)
    } else if parse_i64_spec(arg_text(call, 0)->0) is None {
        "enum start must be integer or A-Z: "@ + arg_text(call, 0)->0
    } else {
        "enum numbering exceeds the i64 range from: "@ + arg_text(call, 0)->0
    }
}

/// Prepends a counter (from an integer start) or an `A`..`Z` label to each row.
pub fn rec_enum(rec: Records, call: &Call) -> (r: Result<Records, String>)
    ensures
        enum_post(rec, *call, r),
{
    let arg = arg_string(call, 0)?;
    let az = is_az_exec(&arg);
    let ghost t = table_view(rec.rows@);
    let mut start: i64 = 0;
    if !az && rec.rows.len() > 0 {
        match crate::num::parse_i64(arg.as_str()) {
            Ok(v) => {
                start = v;
            },
            Err(_) => {
                return Err(
                    crate::text::concat2("enum start must be integer or A-Z: ", arg.as_str()),
                );
            },
        }
        let last: i128 = start as i128 + (rec.rows.len() - 1) as i128;
        if last > i64::MAX as i128 {
            return Err(crate::text::concat2("enum numbering exceeds the i64 range from: ", arg.as_str()));
        }
    }
    let mut rows: Vec<Vec<String>> = Vec::new();
    let mut i: usize = 0;
    while i < rec.rows.len()
        invariant
            i <= rec.rows.len(),
            t == table_view(rec.rows@),
            az == is_az(arg@),
            !az && rec.rows.len() > 0 ==> start == enum_start(arg@) && start + rec.rows.len() - 1
                <= i64::MAX,
            table_view(rows@) == enum_rows(t, arg@).take(i as int),
        decreases rec.rows.len() - i,
    {
        let label = if az {
            let c = (((i % 26) + 65) as u8) as char;
            let v = vec![c];
            crate::text::string_of(&v)
        } else {
            let v: i128 = start as i128 + i as i128;
            crate::num::i64_text(v as i64)
        };
        let mut new_row: Vec<String> = Vec::new();
        new_row.push(label);
        let old_row = &rec.rows[i];
        let mut j: usize = 0;
        while j < old_row.len()
            invariant
                j <= old_row.len(),
                new_row.len() == j + 1,
                new_row@[0]@ == enum_label(arg@, i),
                forall|q: int| 0 <= q < j ==> new_row@[q + 1] == old_row@[q],
            decreases old_row.len() - j,
        {
            new_row.push(old_row[j].clone());
            j += 1;
        }
        proof {
            assert(strs_view(new_row@) =~= seq![enum_label(arg@, i)] + t[i as int]);
            lemma_table_push(rows@, new_row);
            assert(enum_rows(t, arg@).take(i + 1) =~= enum_rows(t, arg@).take(i as int).push(
                seq![enum_label(arg@, i)] + t[i as int],
            ));
        }
        rows.push(new_row);
        i += 1;
    }
    assert(enum_rows(t, arg@).take(rec.rows.len() as int) =~= enum_rows(t, arg@));
    Ok(Records { rows, cfg: rec.cfg })
}

// ---------------------------------------------------------------------------
// explode
// ---------------------------------------------------------------------------

/// One row per piece of field `col` split at `sep`; rows without the field
/// stay as they are.
pub open spec fn explode_row(row: Seq<Seq<char>>, col: usize, sep: Seq<char>) -> Seq<Seq<Seq<char>>> {
    if col >= row.len() {
        seq![row]
    } else {
        split_spec(row[col as int], sep).map_values(|p: Seq<char>| row.update(col as int, p))
    }
}

/// The exploded rows, in order.
pub open spec fn explode_rows(rows: Seq<Seq<Seq<char>>>, col: usize, sep: Seq<char>) -> Seq<
    Seq<Seq<char>>,
>
    decreases rows.len(),
{
    if rows.len() == 0 {
        seq![]
    } else {
        explode_rows(rows.drop_last(), col, sep) + explode_row(rows.last(), col, sep)
    }
}

/// What `rec_explode` returns for its input.
pub open spec fn explode_post(rec: Records, call: Call, r: Result<Records, String>) -> bool {
    match r {
        Ok(x) => arg_column(call, 0) is Some && arg_text(call, 1) is Some && table_view(x.rows@)
            == explode_rows(
            table_view(rec.rows@),
            arg_column(call, 0)->0,
            unescape_spec(arg_text(call, 1)->0),
        ) && x.cfg == rec.cfg,
        Err(m) => (arg_column(call, 0) is None || arg_text(call, 1) is None) && m@ == (if arg_column(
            call,
            0,
        ) is None {
            arg_column_error(call, 0)
        } else {
            arg_text_error(call, 1)
        }),
    }
}

/// Splits field `col` (1-based) at `sep` into one row per piece.
pub fn rec_explode(rec: Records, call: &Call) -> (r: Result<Records, String>)
    ensures
        explode_post(rec, *call, r),
{
    let col = arg_col(call, 0)?;
    let sep_text = arg_string(call, 1)?;
    let sep = unescape(sep_text.as_str());
    let ghost t = table_view(rec.rows@);
    let mut out: Vec<Vec<String>> = Vec::new();
    let mut i: usize = 0;
    while i < rec.rows.len()
        invariant
            i <= rec.rows.len(),
            t == table_view(rec.rows@),
            table_view(out@) == explode_rows(t.take(i as int), col, sep@),
        decreases rec.rows.len() - i,
    {
        let row = &rec.rows[i];
        let ghost rv = strs_view(row@);
        assert(rv == t[i as int]);
        assert(t.take(i + 1).drop_last() =~= t.take(i as int));
        let ghost before = table_view(out@);
        if col >= row.len() {
            let copy = clone_row(row);
            proof {
                lemma_table_push(out@, copy);
            }
            out.push(copy);
            assert(table_view(out@) =~= before + explode_row(rv, col, sep@));
        } else {
            let parts = split_str(row[col].as_str(), sep.as_str());
            let ghost pv = strs_view(parts@);
            let ghost f = |p: Seq<char>| rv.update(col as int, p);
            let mut k: usize = 0;
            while k < parts.len()
                invariant
                    k <= parts.len(),
                    col < row.len(),
                    rv == strs_view(row@),
                    pv == strs_view(parts@),
                    table_view(out@) == before + pv.take(k as int).map_values(f),
                    f == (|p: Seq<char>| rv.update(col as int, p)),
                decreases parts.len() - k,
            {
                let mut new_row = clone_row(row);
                new_row.set(col, parts[k].clone());
                proof {
                    assert(strs_view(new_row@) =~= rv.update(col as int, pv[k as int]));
                    lemma_table_push(out@, new_row);
                    assert(pv.take(k + 1).map_values(f) =~= pv.take(k as int).map_values(f).push(
                        f(pv[k as int]),
                    ));
                }
                out.push(new_row);
                k += 1;
            }
            assert(pv.take(parts.len() as int) =~= pv);
        }
        i += 1;
    }
    assert(t.take(rec.rows.len() as int) =~= t);
    Ok(Records { rows: out, cfg: rec.cfg })
}

// ---------------------------------------------------------------------------
// implode
// ---------------------------------------------------------------------------

/// One row per group: the key and the group's values joined by `sep`.
pub open spec fn implode_rows(
    rows: Seq<Seq<Seq<char>>>,
    val: usize,
    sep: Seq<char>,
    groups: Seq<(Seq<char>, Seq<int>)>,
) -> Seq<Seq<Seq<char>>> {
    groups.map_values(
        |g: (Seq<char>, Seq<int>)|
            seq![g.0, join_spec(g.1.map_values(|j: int| rows[j][val as int]), sep)],
    )
}

/// The separator that `implode` joins with.
pub open spec fn implode_sep(call: Call) -> Seq<char> {
    if call.args.len() >= 3 {
        unescape_spec(arg_text(call, 2)->0)
    } else {
        seq![' ']
    }
}

/// What `rec_implode` returns for its input.
pub open spec fn implode_post(rec: Records, call: Call, r: Result<Records, String>) -> bool {
    match r {
        Ok(x) => {
            &&& arg_column(call, 0) is Some
            &&& arg_column(call, 1) is Some
            &&& (call.args.len() >= 3 ==> arg_text(call, 2) is Some)
            &&& exists|g: Seq<(Seq<char>, Seq<int>)>|
                is_grouping(
                    table_view(rec.rows@),
                    arg_column(call, 0)->0,
                    arg_column(call, 1)->0,
                    rec.rows.len() as int,
                    g,
                ) && table_view(x.rows@) == implode_rows(
                    table_view(rec.rows@),
                    arg_column(call, 1)->0,
                    implode_sep(call),
                    g,
                )
            &&& x.cfg == rec.cfg
        },
        Err(m) => (arg_column(call, 0) is None || arg_column(call, 1) is None || (call.args.len()
            >= 3 && arg_text(call, 2) is None)) && m@ == (if arg_column(call, 0) is None {
            arg_column_error(call, 0)
        } else if arg_column(call, 1) is None {
            arg_column_error(call, 1)
        } else {
            arg_text_error(call, 2)
        }),
    }
}

/// Collapses rows by key column, joining the value column of each key's
/// rows; keys come out in string order.
pub fn rec_implode(rec: Records, call: &Call) -> (r: Result<Records, String>)
    ensures
        implode_post(rec, *call, r),
{
    let key = arg_col(call, 0)?;
    let val = arg_col(call, 1)?;
    let join_sep = if call.args.len() >= 3 {
        let s = arg_string(call, 2)?;
        unescape(s.as_str())
    } else {
        proof {
            reveal_strlit(" ");
        }
        let sp = String::from_str(" ");
        assert(sp@ =~= seq![' ']);
        sp
    };
    assert(join_sep@ == implode_sep(*call));
    let groups = group_rows(&rec.rows, key, val);
    let ghost t = table_view(rec.rows@);
    let ghost gv = groups_view(groups@);
    let ghost f = |g: (Seq<char>, Seq<int>)|
        seq![g.0, join_spec(g.1.map_values(|j: int| t[j][val as int]), join_sep@)];
    let mut rows: Vec<Vec<String>> = Vec::new();
    let mut gi: usize = 0;
    while gi < groups.len()
        invariant
            gi <= groups.len(),
            t == table_view(rec.rows@),
            gv == groups_view(groups@),
            is_grouping(t, key, val, rec.rows.len() as int, gv),
            join_sep@ == implode_sep(*call),
            key == arg_column(*call, 0)->0,
            val == arg_column(*call, 1)->0,
            arg_column(*call, 0) is Some,
            arg_column(*call, 1) is Some,
            call.args.len() >= 3 ==> arg_text(*call, 2) is Some,
            table_view(rows@) == gv.take(gi as int).map_values(f),
            f == (|g: (Seq<char>, Seq<int>)|
                seq![g.0, join_spec(g.1.map_values(|j: int| t[j][val as int]), join_sep@)]),
        decreases groups.len() - gi,
    {
        let members = &groups[gi].1;
        let ghost mv = gv[gi as int].1;
        assert(mv == members@.map_values(|q: usize| q as int));
        assert(mv == crate::order::members(t, key, val, rec.rows.len() as int, gv[gi as int].0));
        let mut vals: Vec<String> = Vec::new();
        let mut m: usize = 0;
        while m < members.len()
            invariant
                m <= members.len(),
                t == table_view(rec.rows@),
                mv == members@.map_values(|q: usize| q as int),
                mv == crate::order::members(t, key, val, rec.rows.len() as int, gv[gi as int].0),
                strs_view(vals@) == mv.take(m as int).map_values(|j: int| t[j][val as int]),
            decreases members.len() - m,
        {
            let j = members[m];
            proof {
                assert(mv[m as int] == j as int);
                crate::order::lemma_member_props(
                    t,
                    key,
                    val,
                    rec.rows.len() as int,
                    gv[gi as int].0,
                    m as int,
                );
            }
            let row = &rec.rows[j];
            assert(strs_view(row@) == t[j as int]);
            let v = row[val].clone();
            proof {
                lemma_strs_push(vals@, v);
                assert(mv.take(m + 1).map_values(|q: int| t[q][val as int]) =~= mv.take(
                    m as int,
                ).map_values(|q: int| t[q][val as int]).push(t[j as int][val as int]));
            }
            vals.push(v);
            m += 1;
        }
        assert(mv.take(members.len() as int) =~= mv);
        let joined = join_strs(&vals, join_sep.as_str());
        let mut new_row: Vec<String> = Vec::new();
        new_row.push(groups[gi].0.clone());
        new_row.push(joined);
        proof {
            assert(strs_view(new_row@) =~= f(gv[gi as int]));
            lemma_table_push(rows@, new_row);
            assert(gv.take(gi + 1).map_values(f) =~= gv.take(gi as int).map_values(f).push(
                f(gv[gi as int]),
            ));
        }
        rows.push(new_row);
        gi += 1;
    }
    assert(gv.take(groups.len() as int) =~= gv);
    assert(table_view(rows@) == implode_rows(t, val, implode_sep(*call), gv));
    Ok(Records { rows, cfg: rec.cfg })
}

} // verus!
