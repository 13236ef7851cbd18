//! Running statements and pipelines over text.
use vstd::prelude::*;

use crate::ast::{
    table_view, Address, AddressModel, AddressRange, Call, Grid, GridConfig, Pipeline, RangeModel,
    RecConfig, Receiver, Records, Source, SourceModel, Statement,
};
use crate::grid::{apply_grid_call, grid_call_post, grid_rows, parse_grid, render_grid, render_grid_spec};
use crate::pattern::{compile, is_match, regex_compiles, regex_is_match, regex_new_error};
use crate::grid::laws::{
    law_grid_call_deterministic, law_grid_call_ok_or_err, law_grid_call_same_error, same_grid,
};
use crate::record::aggs::NumberFold;
use crate::record::laws::{
    folds_uniquely, law_rec_call_deterministic, law_rec_call_ok_or_err, law_rec_call_same_error,
    same_records,
};
use crate::record::{
    apply_rec_call, char_rows, parse_records, parse_records_as_chars, parse_rows, rec_call_full,
    render_records, render_records_spec, ws_fs,
};
use crate::table::{raw_lines, split_raw_lines};
use crate::text::{opt_view, str_is2, strs_view, unescape, unescape_spec};

verus! {

// ---------------------------------------------------------------------------
// Record addresses
// ---------------------------------------------------------------------------

/// The first record at or after `i` that the pattern matches, or -1.
pub open spec fn first_match(recs: Seq<Seq<char>>, pat: Seq<char>, i: int) -> int
    decreases recs.len() - i,
{
    if i < 0 || i >= recs.len() {
        -1
    } else if regex_is_match(pat, recs[i]) {
        i
    } else {
        first_match(recs, pat, i + 1)
    }
}

/// The indices of the first `n` records that the pattern matches.
pub open spec fn all_matches(recs: Seq<Seq<char>>, pat: Seq<char>, n: int) -> Seq<int>
    decreases n,
{
    if n <= 0 || n > recs.len() {
        seq![]
    } else {
        all_matches(recs, pat, n - 1) + if regex_is_match(pat, recs[n - 1]) {
            seq![n - 1]
        } else {
            seq![]
        }
    }
}

/// The record an address names: a 1-based number (clamped to the last
/// record), the last record, or the first match at or after `min` of a
/// pattern that compiles.
pub open spec fn resolve_spec(recs: Seq<Seq<char>>, a: AddressModel, min: int) -> Option<int> {
    match a {
        AddressModel::Line(n) => if n == 0 {
            None
        } else if n - 1 < recs.len() - 1 {
            Some(n - 1)
        } else {
            Some(recs.len() - 1)
        },
        AddressModel::Last => Some(recs.len() - 1),
        AddressModel::Regex(p) => if regex_compiles(p) && first_match(recs, p, min) >= 0 {
            Some(first_match(recs, p, min))
        } else {
            None
        },
    }
}

/// The records an address range selects: every match of a lone regex (that
/// compiles), the
/// one record of another lone address, or the records from the start
/// address to the end address (found at or after the start); none when
/// there are no records or the end comes first.
pub open spec fn select_spec(recs: Seq<Seq<char>>, a: RangeModel) -> Option<Seq<int>> {
    if recs.len() == 0 {
        Some(seq![])
    } else {
        match a.end {
            None => match a.start {
                AddressModel::Regex(p) => if regex_compiles(p) {
                    Some(all_matches(recs, p, recs.len() as int))
                } else {
                    None
                },
                _ => match resolve_spec(recs, a.start, 0) {
                    Some(i) => Some(seq![i]),
                    None => None,
                },
            },
            Some(e) => match resolve_spec(recs, a.start, 0) {
                Some(s) => match resolve_spec(recs, e, s) {
                    Some(en) => if s > en {
                        Some(seq![])
                    } else {
                        Some(Seq::new((en - s + 1) as nat, |k: int| s + k))
                    },
                    None => None,
                },
                None => None,
            },
        }
    }
}

/// The message when an address names no record: a zero position, a
/// pattern that does not compile, or a pattern that matches no record at
/// or after `min`.
pub open spec fn resolve_error(recs: Seq<Seq<char>>, a: AddressModel, min: int) -> Seq<char> {
    match a {
        AddressModel::Regex(p) => if !regex_compiles(p) {
            regex_new_error(p)
        } else {
            "address regex did not match any record: /"@ + p + "/"@
        },
        _ => "address positions are 1-based"@,
    }
}

/// The message when an address range selects nothing (see
/// [`select_spec`]): that of the first address that fails.
pub open spec fn select_error(recs: Seq<Seq<char>>, a: RangeModel) -> Seq<char> {
    match a.end {
        None => match a.start {
            AddressModel::Regex(p) => regex_new_error(p),
            _ => resolve_error(recs, a.start, 0),
        },
        Some(e) => match resolve_spec(recs, a.start, 0) {
            Some(s) => resolve_error(recs, e, s),
            None => resolve_error(recs, a.start, 0),
        },
    }
}

/// The selected records, each followed by the separator.
pub open spec fn join_selected(recs: Seq<Seq<char>>, idxs: Seq<int>, sep: Seq<char>) -> Seq<char>
    decreases idxs.len(),
{
    if idxs.len() == 0 {
        seq![]
    } else {
        let i = idxs.last();
        join_selected(recs, idxs.drop_last(), sep) + if 0 <= i < recs.len() {
            recs[i] + sep
        } else {
            seq![]
        }
    }
}

/// The input cut down to the records an address range selects.
pub open spec fn filter_spec(input: Seq<char>, rs: Seq<char>, a: RangeModel) -> Option<Seq<char>> {
    let recs = raw_lines(input, rs);
    match select_spec(recs, a) {
        Some(idxs) => Some(join_selected(recs, idxs, unescape_spec(rs))),
        None => None,
    }
}

/// The indices as integers.
pub open spec fn idx_view(v: Seq<usize>) -> Seq<int> {
    v.map_values(|i: usize| i as int)
}

/// The first record at or after `min` that the pattern matches.
fn find_match(recs: &Vec<String>, pat: &crate::pattern::Pattern, min: usize) -> (r: Option<usize>)
    ensures
        match r {
            Some(i) => first_match(strs_view(recs@), pat@, min as int) == i && i < recs.len(),
            None => first_match(strs_view(recs@), pat@, min as int) == -1,
        },
{
    let ghost rv = strs_view(recs@);
    let mut i: usize = min;
    while i < recs.len()
        invariant
            min <= i,
            rv == strs_view(recs@),
            i <= recs.len() || i == min,
            first_match(rv, pat@, min as int) == first_match(rv, pat@, i as int),
        decreases recs.len() - i,
    {
        assert(rv[i as int] == recs@[i as int]@);
        if is_match(pat, recs[i].as_str()) {
            return Some(i);
        }
        i += 1;
    }
    None
}

/// The record an address names (see [`resolve_spec`]).
fn resolve_address(recs: &Vec<String>, address: &Address, min: usize) -> (r: Result<usize, String>)
    requires
        recs.len() > 0,
    ensures
        match r {
            Ok(i) => resolve_spec(strs_view(recs@), address@, min as int) == Some(i as int) && i
                < recs.len(),
            Err(m) => resolve_spec(strs_view(recs@), address@, min as int) is None && m@
                == resolve_error(strs_view(recs@), address@, min as int),
        },
{
    match address {
        Address::Line(n) => {
            if *n == 0 {
                return Err(String::from_str("address positions are 1-based"));
            }
            if *n - 1 < recs.len() - 1 {
                Ok(*n - 1)
            } else {
                Ok(recs.len() - 1)
            }
        },
        Address::Last => Ok(recs.len() - 1),
        Address::Regex(p) => {
            let pat = match compile(p.as_str()) {
                Ok(pat) => pat,
                Err(e) => return Err(e),
            };
            match find_match(recs, &pat, min) {
                Some(i) => Ok(i),
                None => {
                    let mut m = crate::text::concat3(
                        "address regex did not match any record: /",
                        p.as_str(),
                        "/",
                    );
                    Err(m)
                },
            }
        },
    }
}

/// The records an address range selects (see [`select_spec`]).
pub fn select_record_indexes(recs: &Vec<String>, address: &AddressRange) -> (r: Result<
    Vec<usize>,
    String,
>)
    ensures
        match r {
            Ok(v) => select_spec(strs_view(recs@), address@) == Some(idx_view(v@)),
            Err(m) => select_spec(strs_view(recs@), address@) is None && m@ == select_error(
                strs_view(recs@),
                address@,
            ),
        },
{
    let ghost rv = strs_view(recs@);
    if recs.len() == 0 {
        let v: Vec<usize> = Vec::new();
        assert(idx_view(v@) =~= seq![]);
        return Ok(v);
    }
    match &address.end {
        None => {
            match &address.start {
                Address::Regex(p) => {
                    let pat = match compile(p.as_str()) {
                        Ok(pat) => pat,
                        Err(e) => return Err(e),
                    };
                    let mut v: Vec<usize> = Vec::new();
                    let mut i: usize = 0;
                    while i < recs.len()
                        invariant
                            i <= recs.len(),
                            rv == strs_view(recs@),
                            pat@ == p@,
                            idx_view(v@) == all_matches(rv, p@, i as int),
                        decreases recs.len() - i,
                    {
                        assert(rv[i as int] == recs@[i as int]@);
                        if is_match(&pat, recs[i].as_str()) {
                            v.push(i);
                        }
                        i += 1;
                        assert(idx_view(v@) =~= all_matches(rv, p@, i as int));
                    }
                    Ok(v)
                },
                _ => {
                    let i = match resolve_address(recs, &address.start, 0) {
                        Ok(i) => i,
                        Err(e) => return Err(e),
                    };
                    let mut v: Vec<usize> = Vec::new();
                    v.push(i);
                    assert(idx_view(v@) =~= seq![i as int]);
                    Ok(v)
                },
            }
        },
        Some(end) => {
            let s = match resolve_address(recs, &address.start, 0) {
                Ok(i) => i,
                Err(e) => return Err(e),
            };
            let en = match resolve_address(recs, end, s) {
                Ok(i) => i,
                Err(e) => return Err(e),
            };
            let mut v: Vec<usize> = Vec::new();
            if s > en {
                assert(idx_view(v@) =~= seq![]);
                return Ok(v);
            }
            let mut i: usize = s;
            while i <= en
                invariant
                    s <= i <= en + 1,
                    en < recs.len(),
                    idx_view(v@) == Seq::new((i - s) as nat, |k: int| s + k),
                decreases en + 1 - i,
            {
                let ghost before = v@;
                v.push(i);
                assert(idx_view(v@) =~= idx_view(before).push(i as int));
                i += 1;
                assert(idx_view(v@) =~= Seq::new((i - s) as nat, |k: int| s + k));
            }
            Ok(v)
        },
    }
}

/// Keeps the records an address range selects, each followed by the
/// (unescaped) record separator.
pub fn filter_records_by_address(input: &str, rs: &str, address: &AddressRange) -> (r: Result<
    String,
    String,
>)
    ensures
        match r {
            Ok(s) => filter_spec(input@, rs@, address@) == Some(s@),
            Err(m) => filter_spec(input@, rs@, address@) is None && m@ == select_error(
                raw_lines(input@, rs@),
                address@,
            ),
        },
{
    let sep = unescape(rs);
    let recs = split_raw_lines(input, rs);
    let ghost rv = strs_view(recs@);
    let selected = match select_record_indexes(&recs, address) {
        Ok(v) => v,
        Err(e) => return Err(e),
    };
    let ghost iv = idx_view(selected@);
    let mut out = String::new();
    let mut k: usize = 0;
    while k < selected.len()
        invariant
            k <= selected.len(),
            rv == strs_view(recs@),
            iv == idx_view(selected@),
            sep@ == unescape_spec(rs@),
            out@ == join_selected(rv, iv.take(k as int), sep@),
        decreases selected.len() - k,
    {
        let idx = selected[k];
        assert(iv.take(k + 1).drop_last() =~= iv.take(k as int));
        if idx < recs.len() {
            assert(rv[idx as int] == recs@[idx as int]@);
            out.append(recs[idx].as_str());
            out.append(sep.as_str());
        }
        k += 1;
    }
    assert(iv.take(selected.len() as int) =~= iv);
    Ok(out)
}

// ---------------------------------------------------------------------------
// Statements
// ---------------------------------------------------------------------------

/// The text a statement reads: the current text (also for `prev`) or the
/// original input; a named source has none.
pub open spec fn source_text(src: SourceModel, input: Seq<char>, stdin: Seq<char>) -> Option<
    Seq<char>,
> {
    match src {
        SourceModel::Current => Some(input),
        SourceModel::Stdin => Some(stdin),
        SourceModel::Prev => Some(input),
        SourceModel::Named(_) => None,
    }
}

/// The calls applied in turn: `states[i + 1]` is what call `i` made of
/// `states[i]`.
pub open spec fn rec_steps<F: NumberFold>(
    folder: &F,
    states: Seq<Records>,
    calls: Seq<Call>,
) -> bool {
    &&& states.len() == calls.len() + 1
    &&& forall|i: int|
        0 <= i < calls.len() ==> #[trigger] rec_call_full(folder, states[i], calls[i], Ok(states[i + 1]))
}

/// The calls applied in turn until the last state's call fails with `m`.
pub open spec fn rec_steps_fail<F: NumberFold>(
    folder: &F,
    states: Seq<Records>,
    calls: Seq<Call>,
    m: String,
) -> bool {
    &&& 1 <= states.len() <= calls.len()
    &&& forall|i: int|
        0 <= i < states.len() - 1 ==> #[trigger] rec_call_full(
            folder,
            states[i],
            calls[i],
            Ok(states[i + 1]),
        )
    &&& rec_call_full(folder, states.last(), calls[states.len() - 1], Err(m))
}

/// The grid calls applied in turn.
pub open spec fn grid_steps(states: Seq<Grid>, calls: Seq<Call>) -> bool {
    &&& states.len() == calls.len() + 1
    &&& forall|i: int|
        0 <= i < calls.len() ==> #[trigger] grid_call_post(states[i], calls[i], Ok(states[i + 1]))
}

/// The grid calls applied in turn until the last state's call fails.
pub open spec fn grid_steps_fail(states: Seq<Grid>, calls: Seq<Call>, m: String) -> bool {
    &&& 1 <= states.len() <= calls.len()
    &&& forall|i: int|
        0 <= i < states.len() - 1 ==> #[trigger] grid_call_post(
            states[i],
            calls[i],
            Ok(states[i + 1]),
        )
    &&& grid_call_post(states.last(), calls[states.len() - 1], Err(m))
}

/// Applies `calls[from..]` to the records in turn.
pub fn run_rec_calls<F: NumberFold>(rec: Records, calls: &Vec<Call>, from: usize, folder: &F) -> (r: Result<
    Records,
    String,
>)
    requires
        from <= calls.len(),
    ensures
        match r {
            Ok(x) => exists|states: Seq<Records>|
                #![trigger rec_steps(folder, states, calls@.skip(from as int))]
                states[0] == rec && rec_steps(folder, states, calls@.skip(from as int)) && states.last() == x,
            Err(m) => exists|states: Seq<Records>|
                #![trigger rec_steps_fail(folder, states, calls@.skip(from as int), m)]
                states[0] == rec && rec_steps_fail(folder, states, calls@.skip(from as int), m),
        },
{
    let ghost cs = calls@.skip(from as int);
    let ghost mut states: Seq<Records> = seq![rec];
    let mut cur = rec;
    let mut i: usize = from;
    while i < calls.len()
        invariant
            from <= i <= calls.len(),
            cs == calls@.skip(from as int),
            states.len() == i - from + 1,
            states[0] == rec,
            states.last() == cur,
            forall|k: int|
                0 <= k < i - from ==> #[trigger] rec_call_full(folder, states[k], cs[k], Ok(states[k + 1])),
        decreases calls.len() - i,
    {
        let ghost before = cur;
        assert(cs[i - from] == calls@[i as int]);
        match apply_rec_call(cur, &calls[i], folder) {
            Ok(next) => {
                proof {
                    states = states.push(next);
                }
                cur = next;
            },
            Err(m) => {
                assert(rec_steps_fail(folder, states, cs, m));
                return Err(m);
            },
        }
        i += 1;
    }
    assert(rec_steps(folder, states, cs));
    Ok(cur)
}

/// Applies the calls to the grid in turn.
pub fn run_grid_calls(grid: Grid, calls: &Vec<Call>) -> (r: Result<Grid, String>)
    ensures
        match r {
            Ok(x) => exists|states: Seq<Grid>|
                #![trigger grid_steps(states, calls@)]
                states[0] == grid && grid_steps(states, calls@) && states.last() == x,
            Err(m) => exists|states: Seq<Grid>|
                #![trigger grid_steps_fail(states, calls@, m)]
                states[0] == grid && grid_steps_fail(states, calls@, m),
        },
{
    let ghost mut states: Seq<Grid> = seq![grid];
    let mut cur = grid;
    let mut i: usize = 0;
    while i < calls.len()
        invariant
            i <= calls.len(),
            states.len() == i + 1,
            states[0] == grid,
            states.last() == cur,
            forall|k: int|
                0 <= k < i ==> #[trigger] grid_call_post(states[k], calls@[k], Ok(states[k + 1])),
        decreases calls.len() - i,
    {
        match apply_grid_call(cur, &calls[i]) {
            Ok(next) => {
                proof {
                    states = states.push(next);
                }
                cur = next;
            },
            Err(m) => {
                assert(grid_steps_fail(states, calls@, m));
                return Err(m);
            },
        }
        i += 1;
    }
    assert(grid_steps(states, calls@));
    Ok(cur)
}

/// The first call reads records one character per field: `chars` / `ch`.
pub open spec fn starts_with_chars(calls: Seq<Call>) -> bool {
    calls.len() > 0 && (calls[0].name@ == "chars"@ || calls[0].name@ == "ch"@)
}

/// The calls left after a leading `chars` / `ch`.
pub open spec fn rest_calls(calls: Seq<Call>) -> Seq<Call> {
    if starts_with_chars(calls) {
        calls.skip(1)
    } else {
        calls
    }
}

/// The text a record statement parses: its source cut down by the address.
pub open spec fn rec_text(stmt: Statement, src: Seq<char>, rc: RecConfig) -> Option<Seq<char>> {
    match stmt.address {
        Some(a) => filter_spec(src, rc.rs@, a@),
        None => Some(src),
    }
}

/// The records a record statement starts from.
pub open spec fn rec_start(text: Seq<char>, rc: RecConfig, chars: bool, x: Records) -> bool {
    &&& x.cfg == rc
    &&& table_view(x.rows@) == if chars {
        char_rows(text, rc.rs@)
    } else {
        parse_rows(text, rc.rs@, rc.fs@)
    }
}

/// What a record statement produces from the text it reads; numeric
/// `groupby` cells are what `folder` gives.
pub open spec fn rec_stmt_post<F: NumberFold>(
    folder: &F,
    stmt: Statement,
    src: Seq<char>,
    rc: RecConfig,
    r: Result<String,
    String>,
) -> bool {
    let text = rec_text(stmt, src, rc);
    let chars = starts_with_chars(stmt.calls@);
    let rest = rest_calls(stmt.calls@);
    match r {
        Ok(out) => text is Some && (chars || regex_compiles(rc.fs@)) && exists|states: Seq<Records>|
            #![trigger rec_steps(folder, states, rest)]
            rec_start(text->0, rc, chars, states[0]) && rec_steps(folder, states, rest) && out@
                == render_records_spec(states.last()),
        Err(m) => (stmt.address is Some && text is None && m@ == select_error(
            raw_lines(src, rc.rs@),
            stmt.address->0@,
        )) || (text is Some && ((!chars && rc.fs@
            != ws_fs() && !regex_compiles(rc.fs@) && m@ == "invalid FS regex: "@ + rc.fs@) || ((chars
            || regex_compiles(rc.fs@)) && rec_fail(folder, text->0, rc, chars, rest, m)))),
    }
}

/// Record calls failing with `m` after the ones before succeeded.
pub open spec fn rec_fail<F: NumberFold>(
    folder: &F,
    text: Seq<char>,
    rc: RecConfig,
    chars: bool,
    calls: Seq<Call>,
    m: String,
) -> bool {
    exists|states: Seq<Records>|
        #![trigger rec_steps_fail(folder, states, calls, m)]
        rec_start(text, rc, chars, states[0]) && rec_steps_fail(folder, states, calls, m)
}

/// What a grid statement produces from the text it reads.
pub open spec fn grid_stmt_post(calls: Seq<Call>, src: Seq<char>, gc: GridConfig, r: Result<String, String>) -> bool {
    match r {
        Ok(out) => exists|states: Seq<Grid>|
            #![trigger grid_steps(states, calls)]
            table_view(states[0].cells@) == grid_rows(src, gc.rs@, opt_view(gc.fs)) && states[0].cfg
                == gc && grid_steps(states, calls) && out@ == render_grid_spec(states.last()),
        Err(m) => grid_fail(calls, src, gc, m),
    }
}

/// A grid statement failing with `m`: some call fails after the ones
/// before it succeeded.
pub open spec fn grid_fail(calls: Seq<Call>, src: Seq<char>, gc: GridConfig, m: String) -> bool {
    exists|states: Seq<Grid>|
        #![trigger grid_steps_fail(states, calls, m)]
        table_view(states[0].cells@) == grid_rows(src, gc.rs@, opt_view(gc.fs)) && states[0].cfg == gc
            && grid_steps_fail(states, calls, m)
}

/// What a statement produces, with numeric aggregates folded by `folder`.
pub open spec fn stmt_post<F: NumberFold>(
    folder: &F,
    
    stmt: Statement,
    input: Seq<char>,
    stdin: Seq<char>,
    rc: RecConfig,
    gc: GridConfig,
    r: Result<String, String>,
) -> bool {
    match source_text(stmt.source@, input, stdin) {
        None => r matches Err(m) && m@ == "named source is not supported yet: "@
            + stmt.source@->Named_0,
        Some(src) => match stmt.receiver {
            Receiver::Rec => rec_stmt_post(folder, stmt, src, rc, r),
            Receiver::Grid => if stmt.address is Some {
                r matches Err(m) && m@ == "addresses are currently only supported for record statements"@
            } else {
                grid_stmt_post(stmt.calls@, src, gc, r)
            },
        },
    }
}

/// Runs one statement on the current text (`input`) or the original input
/// (`stdin_input`), returning the rendered result.
pub fn eval_statement_with_configs<F: NumberFold>(
    stmt: &Statement,
    input: &str,
    stdin_input: &str,
    rec_cfg: &RecConfig,
    grid_cfg: &GridConfig,
    folder: &F,
) -> (r: Result<String, String>)
    ensures
        stmt_post(folder, *stmt, input@, stdin_input@, *rec_cfg, *grid_cfg, r),
{
    let source_input: &str = match &stmt.source {
        Source::Current => input,
        Source::Stdin => stdin_input,
        Source::Prev => input,
        Source::Named(name) => {
            return Err(crate::text::concat2("named source is not supported yet: ", name.as_str()));
        },
    };
    assert(source_text(stmt.source@, input@, stdin_input@) == Some(source_input@));
    match stmt.receiver {
        Receiver::Rec => {
            let text: String = match &stmt.address {
                Some(address) => match filter_records_by_address(
                    source_input,
                    rec_cfg.rs.as_str(),
                    address,
                ) {
                    Ok(t) => t,
                    Err(e) => return Err(e),
                },
                None => String::from_str(source_input),
            };
            let chars = stmt.calls.len() > 0 && str_is2(stmt.calls[0].name.as_str(), "chars", "ch");
            let ghost rest = rest_calls(stmt.calls@);
            assert(chars == starts_with_chars(stmt.calls@));
            assert(stmt.calls@.skip(0) =~= stmt.calls@);
            assert(text@ == rec_text(*stmt, source_input@, *rec_cfg)->0);
            let parsed = if chars {
                parse_records_as_chars(text.as_str(), rec_cfg.duplicate())
            } else {
                parse_records(text.as_str(), rec_cfg.duplicate())
            };
            let rec = match parsed {
                Ok(rec) => rec,
                Err(e) => return Err(e),
            };
            let from: usize = if chars {
                1
            } else {
                0
            };
            let ghost r0 = rec;
            assert(rec_text(*stmt, source_input@, *rec_cfg) is Some);
            assert(rec_start(text@, *rec_cfg, chars, r0));
            assert(stmt.calls@.skip(from as int) == rest);
            match run_rec_calls(rec, &stmt.calls, from, folder) {
                Ok(x) => {
                    let out = render_records(&x);
                    proof {
                        let states = choose|states: Seq<Records>|
                            #![trigger rec_steps(folder, states, rest)]
                            states[0] == r0 && rec_steps(folder, states, rest) && states.last() == x;
                        assert(rec_start(text@, *rec_cfg, chars, states[0]));
                        assert(rec_stmt_post(folder, *stmt, source_input@, *rec_cfg, Ok(out)));
                    }
                    Ok(out)
                },
                Err(e) => {
                    proof {
                        let states = choose|states: Seq<Records>|
                            #![trigger rec_steps_fail(folder, states, rest, e)]
                            states[0] == r0 && rec_steps_fail(folder, states, rest, e);
                        assert(rec_start(text@, *rec_cfg, chars, states[0]));
                        assert(rec_fail(folder, text@, *rec_cfg, chars, rest, e));
                    }
                    Err(e)
                },
            }
        },
        Receiver::Grid => {
            if stmt.address.is_some() {
                return Err(
                    String::from_str(
                        "addresses are currently only supported for record statements",
                    ),
                );
            }
            let grid = match parse_grid(source_input, grid_cfg.duplicate()) {
                Ok(g) => g,
                Err(e) => return Err(e),
            };
            let ghost g0 = grid;
            match run_grid_calls(grid, &stmt.calls) {
                Ok(x) => {
                    let out = render_grid(&x);
                    proof {
                        let states = choose|states: Seq<Grid>|
                            #![trigger grid_steps(states, stmt.calls@)]
                            states[0] == g0 && grid_steps(states, stmt.calls@) && states.last() == x;
                        assert(grid_stmt_post(stmt.calls@, source_input@, *grid_cfg, Ok(out)));
                    }
                    Ok(out)
                },
                Err(e) => {
                    proof {
                        let states = choose|states: Seq<Grid>|
                            #![trigger grid_steps_fail(states, stmt.calls@, e)]
                            states[0] == g0 && grid_steps_fail(states, stmt.calls@, e);
                        assert(states[0] == g0);
                        assert(grid_steps_fail(states, stmt.calls@, e));
                        assert(table_view(states[0].cells@) == grid_rows(source_input@, grid_cfg.rs@, opt_view(grid_cfg.fs)));
                        assert(states[0].cfg == *grid_cfg);
                        assert(grid_fail(stmt.calls@, source_input@, *grid_cfg, e));
                    }
                    Err(e)
                },
            }
        },
    }
}

/// The stages applied in turn: `outs[i + 1]` is what stage `i` made of
/// `outs[i]`.
pub open spec fn stage_steps<F: NumberFold>(
    folder: &F,
    
    outs: Seq<String>,
    stages: Seq<Statement>,
    stdin: Seq<char>,
    rc: RecConfig,
    gc: GridConfig,
) -> bool {
    &&& outs.len() == stages.len() + 1
    &&& forall|i: int|
        0 <= i < stages.len() ==> #[trigger] stmt_post(folder, stages[i], outs[i]@, stdin, rc, gc, Ok(outs[i + 1]))
}

/// What a pipeline produces: each stage reads the previous stage's output.
pub open spec fn pipeline_post<F: NumberFold>(
    folder: &F,
    
    pipeline: Pipeline,
    input: Seq<char>,
    stdin: Seq<char>,
    rc: RecConfig,
    gc: GridConfig,
    r: Result<String, String>,
) -> bool {
    match r {
        Ok(out) => exists|outs: Seq<String>|
            #![trigger stage_steps(folder, outs, pipeline.stages@, stdin, rc, gc)]
            outs[0]@ == input && stage_steps(folder, outs, pipeline.stages@, stdin, rc, gc) && outs.last()
                == out,
        Err(m) => exists|outs: Seq<String>, k: int|
            0 <= k < pipeline.stages.len() && outs.len() == k + 1 && outs[0]@ == input
                && stage_steps(folder, outs, pipeline.stages@.take(k), stdin, rc, gc)
                && #[trigger] stmt_post(folder, pipeline.stages@[k], outs[k]@, stdin, rc, gc, Err(m)),
    }
}

/// Runs a pipeline: each stage reads the previous stage's output.
pub fn eval_pipeline_with_configs<F: NumberFold>(
    pipeline: &Pipeline,
    input: &str,
    stdin_input: &str,
    rec_cfg: &RecConfig,
    grid_cfg: &GridConfig,
    folder: &F,
) -> (r: Result<String, String>)
    ensures
        pipeline_post(folder, *pipeline, input@, stdin_input@, *rec_cfg, *grid_cfg, r),
{
    let mut current = String::from_str(input);
    let ghost mut outs: Seq<String> = seq![current];
    let ghost st = pipeline.stages@;
    let mut i: usize = 0;
    while i < pipeline.stages.len()
        invariant
            i <= pipeline.stages.len(),
            st == pipeline.stages@,
            outs.len() == i + 1,
            outs[0]@ == input@,
            outs.last() == current,
            forall|k: int|
                0 <= k < i ==> #[trigger] stmt_post(folder, st[k], outs[k]@, stdin_input@, *rec_cfg, *grid_cfg, Ok(outs[k + 1])),
        decreases pipeline.stages.len() - i,
    {
        match eval_statement_with_configs(&pipeline.stages[i], current.as_str(), stdin_input, rec_cfg, grid_cfg, folder) {
            Ok(next) => {
                proof {
                    outs = outs.push(next);
                }
                current = next;
            },
            Err(m) => {
                assert(stage_steps(folder, outs, st.take(i as int), stdin_input@, *rec_cfg, *grid_cfg));
                return Err(m);
            },
        }
        i += 1;
    }
    assert(st.take(i as int) =~= st);
    assert(stage_steps(folder, outs, st, stdin_input@, *rec_cfg, *grid_cfg));
    Ok(current)
}

/// The text pipeline `i` reads: the input for the first, else the output
/// before it.
pub open spec fn prev_text(input: Seq<char>, outs: Seq<String>, i: int) -> Seq<char> {
    if i == 0 {
        input
    } else {
        outs[i - 1]@
    }
}

/// The outputs of a program's pipelines run in turn: each reads the
/// previous one's output (the first reads the input); `stdin.` reads the
/// input again.
pub open spec fn program_steps<F: NumberFold>(
    folder: &F,
    
    program: Seq<Pipeline>,
    input: Seq<char>,
    rc: RecConfig,
    gc: GridConfig,
    outs: Seq<String>,
) -> bool {
    &&& outs.len() <= program.len()
    &&& forall|i: int|
        0 <= i < outs.len() ==> #[trigger] pipeline_post(
            folder,
            program[i],
            prev_text(input, outs, i),
            input,
            rc,
            gc,
            Ok(outs[i]),
        )
}

/// Runs the pipelines of a program in turn and returns each one's output.
pub fn eval_program_with_configs<F: NumberFold>(
    program: &Vec<Pipeline>,
    input: &str,
    rec_cfg: &RecConfig,
    grid_cfg: &GridConfig,
    folder: &F,
) -> (r: Result<Vec<String>, String>)
    ensures
        match r {
            Ok(outs) => outs.len() == program.len() && program_steps(
                folder,
                program@,
                input@,
                *rec_cfg,
                *grid_cfg,
                outs@,
            ),
            Err(m) => exists|outs: Seq<String>|
                #![trigger program_steps(folder, program@, input@, *rec_cfg, *grid_cfg, outs)]
                outs.len() < program.len() && program_steps(folder, program@, input@, *rec_cfg, *grid_cfg, outs)
                    && pipeline_post(
                    folder,
                    program@[outs.len() as int],
                    prev_text(input@, outs, outs.len() as int),
                    input@,
                    *rec_cfg,
                    *grid_cfg,
                    Err(m),
                ),
        },
{
    let mut outs: Vec<String> = Vec::new();
    let mut current = String::from_str(input);
    let mut i: usize = 0;
    while i < program.len()
        invariant
            i <= program.len(),
            outs.len() == i,
            current@ == prev_text(input@, outs@, i as int),
            program_steps(folder, program@, input@, *rec_cfg, *grid_cfg, outs@),
        decreases program.len() - i,
    {
        match eval_pipeline_with_configs(&program[i], current.as_str(), input, rec_cfg, grid_cfg, folder) {
            Ok(out) => {
                let ghost before = outs@;
                outs.push(out.clone());
                proof {
                    assert forall|k: int| 0 <= k < outs@.len() implies #[trigger] pipeline_post(
                        folder,
                        program@[k],
                        prev_text(input@, outs@, k),
                        input@,
                        *rec_cfg,
                        *grid_cfg,
                        Ok(outs@[k]),
                    ) by {
                        assert(prev_text(input@, outs@, k) == prev_text(input@, before, k));
                        if k < i {
                            assert(outs@[k] == before[k]);
                            assert(pipeline_post(
                                folder,
                                program@[k],
                                prev_text(input@, before, k),
                                input@,
                                *rec_cfg,
                                *grid_cfg,
                                Ok(before[k]),
                            ));
                        } else {
                            assert(outs@[k] == out);
                        }
                    }
                }
                current = out;
            },
            Err(m) => {
                assert(program_steps(folder, program@, input@, *rec_cfg, *grid_cfg, outs@));
                return Err(m);
            },
        }
        i += 1;
    }
    Ok(outs)
}

// ---------------------------------------------------------------------------
// Laws
// ---------------------------------------------------------------------------

/// A statement reading `stdin.` gives the same result whatever the current
/// text is.
pub proof fn law_stdin_ignores_current<F: NumberFold>(
    folder: &F,
    stmt: Statement,
    a: Seq<char>,
    b: Seq<char>,
    stdin: Seq<char>,
    rc: RecConfig,
    gc: GridConfig,
    r: Result<String, String>,
)
    requires
        stmt.source == Source::Stdin,
    ensures
        stmt_post(folder, stmt, a, stdin, rc, gc, r) == stmt_post(folder, stmt, b, stdin, rc, gc, r),
{
}

/// `prev.` reads what a statement without a source reads: the current text.
pub proof fn law_prev_reads_current<F: NumberFold>(
    folder: &F,
    s1: Statement,
    s2: Statement,
    input: Seq<char>,
    stdin: Seq<char>,
    rc: RecConfig,
    gc: GridConfig,
    r: Result<String, String>,
)
    requires
        s1.source == Source::Prev,
        s2.source == Source::Current,
        s1.address == s2.address,
        s1.receiver == s2.receiver,
        s1.calls == s2.calls,
    ensures
        stmt_post(folder, s1, input, stdin, rc, gc, r) == stmt_post(folder, s2, input, stdin, rc, gc, r),
{
}

/// A `stdin.` statement gives what the same statement without a source
/// gives when the current text is the original input.
pub proof fn law_stdin_reads_original_input<F: NumberFold>(
    folder: &F,
    s1: Statement,
    s2: Statement,
    input: Seq<char>,
    other: Seq<char>,
    stdin: Seq<char>,
    rc: RecConfig,
    gc: GridConfig,
    r: Result<String, String>,
)
    requires
        s1.source == Source::Stdin,
        s2.source == Source::Current,
        s1.address == s2.address,
        s1.receiver == s2.receiver,
        s1.calls == s2.calls,
    ensures
        stmt_post(folder, s1, input, stdin, rc, gc, r) == stmt_post(folder, s2, stdin, other, rc, gc, r),
{
}

/// A pipeline without stages gives back its input.
pub proof fn law_empty_pipeline<F: NumberFold>(
    folder: &F,
    p: Pipeline,
    input: Seq<char>,
    stdin: Seq<char>,
    rc: RecConfig,
    gc: GridConfig,
    r: Result<String, String>,
)
    requires
        p.stages.len() == 0,
    ensures
        pipeline_post(folder, p, input, stdin, rc, gc, r) <==> (r matches Ok(o) && o@ == input),
{
    if let Ok(o) = r {
        if o@ == input {
            let outs = seq![o];
            assert(stage_steps(folder, outs, p.stages@, stdin, rc, gc));
        }
    }
}

/// A pipeline is its stages but the last, then the last stage run on what
/// they gave; when they fail, the pipeline fails the same way.
pub proof fn law_pipeline_last_stage<F: NumberFold>(
    folder: &F,
    p: Pipeline,
    q: Pipeline,
    s: Statement,
    input: Seq<char>,
    stdin: Seq<char>,
    rc: RecConfig,
    gc: GridConfig,
    r: Result<String, String>,
)
    requires
        p.stages@ == q.stages@.push(s),
    ensures
        pipeline_post(folder, p, input, stdin, rc, gc, r) <==> ((exists|o: String|
            pipeline_post(folder, q, input, stdin, rc, gc, Ok(o)) && #[trigger] stmt_post(
                folder,
                s,
                o@,
                stdin,
                rc,
                gc,
                r,
            )) || (r is Err && pipeline_post(folder, q, input, stdin, rc, gc, r))),
{
    let n = q.stages.len() as int;
    let ps = p.stages@;
    let qs = q.stages@;
    assert(ps.take(n) =~= qs);
    if pipeline_post(folder, p, input, stdin, rc, gc, r) {
        match r {
            Ok(out) => {
                let outs = choose|outs: Seq<String>|
                    #![trigger stage_steps(folder, outs, ps, stdin, rc, gc)]
                    outs[0]@ == input && stage_steps(folder, outs, ps, stdin, rc, gc) && outs.last() == out;
                let o2 = outs.take(n + 1);
                assert forall|i: int| 0 <= i < qs.len() implies #[trigger] stmt_post(
                    folder,
                    qs[i],
                    o2[i]@,
                    stdin,
                    rc,
                    gc,
                    Ok(o2[i + 1]),
                ) by {
                    assert(qs[i] == ps[i]);
                    assert(stmt_post(folder, ps[i], outs[i]@, stdin, rc, gc, Ok(outs[i + 1])));
                }
                assert(stage_steps(folder, o2, qs, stdin, rc, gc));
                assert(pipeline_post(folder, q, input, stdin, rc, gc, Ok(outs[n])));
                assert(stmt_post(folder, ps[n], outs[n]@, stdin, rc, gc, Ok(outs[n + 1])));
                assert(stmt_post(folder, s, outs[n]@, stdin, rc, gc, r));
            },
            Err(m) => {
                let (outs, k) = choose|outs: Seq<String>, k: int|
                    0 <= k < ps.len() && outs.len() == k + 1 && outs[0]@ == input && stage_steps(
                        folder,
                        outs,
                        ps.take(k),
                        stdin,
                        rc,
                        gc,
                    ) && #[trigger] stmt_post(folder, ps[k], outs[k]@, stdin, rc, gc, Err(m));
                if k < n {
                    assert(ps.take(k) =~= qs.take(k));
                    assert(ps[k] == qs[k]);
                    assert(pipeline_post(folder, q, input, stdin, rc, gc, r));
                } else {
                    assert(ps.take(k) =~= qs);
                    assert(pipeline_post(folder, q, input, stdin, rc, gc, Ok(outs[n])));
                    assert(stmt_post(folder, s, outs[n]@, stdin, rc, gc, r));
                }
            },
        }
    }
    if exists|o: String|
        pipeline_post(folder, q, input, stdin, rc, gc, Ok(o)) && #[trigger] stmt_post(folder, s, o@, stdin, rc, gc, r) {
        let o = choose|o: String|
            pipeline_post(folder, q, input, stdin, rc, gc, Ok(o)) && #[trigger] stmt_post(
                folder,
                s,
                o@,
                stdin,
                rc,
                gc,
                r,
            );
        let outs = choose|outs: Seq<String>|
            #![trigger stage_steps(folder, outs, qs, stdin, rc, gc)]
            outs[0]@ == input && stage_steps(folder, outs, qs, stdin, rc, gc) && outs.last() == o;
        match r {
            Ok(out) => {
                let o2 = outs.push(out);
                assert forall|i: int| 0 <= i < ps.len() implies #[trigger] stmt_post(
                    folder,
                    ps[i],
                    o2[i]@,
                    stdin,
                    rc,
                    gc,
                    Ok(o2[i + 1]),
                ) by {
                    if i < n {
                        assert(ps[i] == qs[i]);
                        assert(stmt_post(folder, qs[i], outs[i]@, stdin, rc, gc, Ok(outs[i + 1])));
                    } else {
                        assert(ps[i] == s);
                    }
                }
                assert(stage_steps(folder, o2, ps, stdin, rc, gc));
            },
            Err(m) => {
                assert(ps[n] == s);
                assert(stage_steps(folder, outs, ps.take(n), stdin, rc, gc));
                assert(stmt_post(folder, ps[n], outs[n]@, stdin, rc, gc, Err(m)));
            },
        }
    }
    if r is Err && pipeline_post(folder, q, input, stdin, rc, gc, r) {
        let m = r->Err_0;
        let (outs, k) = choose|outs: Seq<String>, k: int|
            0 <= k < qs.len() && outs.len() == k + 1 && outs[0]@ == input && stage_steps(
                folder,
                outs,
                qs.take(k),
                stdin,
                rc,
                gc,
            ) && #[trigger] stmt_post(folder, qs[k], outs[k]@, stdin, rc, gc, Err(m));
        assert(ps.take(k) =~= qs.take(k));
        assert(ps[k] == qs[k]);
    }
}

proof fn lemma_rec_steps_same<F: NumberFold>(
    folder: &F,
    s1: Seq<Records>,
    s2: Seq<Records>,
    calls: Seq<Call>,
    i: int,
)
    requires
        folds_uniquely(folder),
        rec_steps(folder, s1, calls),
        rec_steps(folder, s2, calls),
        same_records(s1[0], s2[0]),
        0 <= i <= calls.len(),
    ensures
        same_records(s1[i], s2[i]),
    decreases i,
{
    if i > 0 {
        let j = i - 1;
        lemma_rec_steps_same(folder, s1, s2, calls, j);
        assert(rec_call_full(folder, s1[j], calls[j], Ok(s1[j + 1])));
        assert(rec_call_full(folder, s2[j], calls[j], Ok(s2[j + 1])));
        law_rec_call_deterministic(folder, s1[j], s2[j], calls[j], s1[j + 1], s2[j + 1]);
    }
}

proof fn lemma_grid_steps_same(s1: Seq<Grid>, s2: Seq<Grid>, calls: Seq<Call>, i: int)
    requires
        grid_steps(s1, calls),
        grid_steps(s2, calls),
        same_grid(s1[0], s2[0]),
        0 <= i <= calls.len(),
    ensures
        same_grid(s1[i], s2[i]),
    decreases i,
{
    if i > 0 {
        let j = i - 1;
        lemma_grid_steps_same(s1, s2, calls, j);
        assert(grid_call_post(s1[j], calls[j], Ok(s1[j + 1])));
        assert(grid_call_post(s2[j], calls[j], Ok(s2[j + 1])));
        law_grid_call_deterministic(s1[j], s2[j], calls[j], s1[j + 1], s2[j + 1]);
    }
}

/// A statement that succeeds gives one text: two successful runs on the
/// same input agree, when the folder gives one result per input.
pub proof fn law_statement_deterministic<F: NumberFold>(
    folder: &F,
    stmt: Statement,
    input: Seq<char>,
    stdin: Seq<char>,
    rc: RecConfig,
    gc: GridConfig,
    o1: String,
    o2: String,
)
    requires
        folds_uniquely(folder),
        stmt_post(folder, stmt, input, stdin, rc, gc, Ok(o1)),
        stmt_post(folder, stmt, input, stdin, rc, gc, Ok(o2)),
    ensures
        o1@ == o2@,
{
    let src = source_text(stmt.source@, input, stdin)->0;
    match stmt.receiver {
        Receiver::Rec => {
            let text = rec_text(stmt, src, rc)->0;
            let chars = starts_with_chars(stmt.calls@);
            let rest = rest_calls(stmt.calls@);
            let s1 = choose|states: Seq<Records>|
                #![trigger rec_steps(folder, states, rest)]
                rec_start(text, rc, chars, states[0]) && rec_steps(folder, states, rest) && o1@
                    == render_records_spec(states.last());
            let s2 = choose|states: Seq<Records>|
                #![trigger rec_steps(folder, states, rest)]
                rec_start(text, rc, chars, states[0]) && rec_steps(folder, states, rest) && o2@
                    == render_records_spec(states.last());
            lemma_rec_steps_same(folder, s1, s2, rest, rest.len() as int);
        },
        Receiver::Grid => {
            let s1 = choose|states: Seq<Grid>|
                #![trigger grid_steps(states, stmt.calls@)]
                table_view(states[0].cells@) == grid_rows(src, gc.rs@, opt_view(gc.fs))
                    && states[0].cfg == gc && grid_steps(states, stmt.calls@) && o1@
                    == render_grid_spec(states.last());
            let s2 = choose|states: Seq<Grid>|
                #![trigger grid_steps(states, stmt.calls@)]
                table_view(states[0].cells@) == grid_rows(src, gc.rs@, opt_view(gc.fs))
                    && states[0].cfg == gc && grid_steps(states, stmt.calls@) && o2@
                    == render_grid_spec(states.last());
            lemma_grid_steps_same(s1, s2, stmt.calls@, stmt.calls.len() as int);
        },
    }
}

proof fn lemma_stage_steps_same<F: NumberFold>(
    folder: &F,
    o1: Seq<String>,
    o2: Seq<String>,
    stages: Seq<Statement>,
    stdin: Seq<char>,
    rc: RecConfig,
    gc: GridConfig,
    i: int,
)
    requires
        folds_uniquely(folder),
        stage_steps(folder, o1, stages, stdin, rc, gc),
        stage_steps(folder, o2, stages, stdin, rc, gc),
        o1[0]@ == o2[0]@,
        0 <= i <= stages.len(),
    ensures
        o1[i]@ == o2[i]@,
    decreases i,
{
    if i > 0 {
        let j = i - 1;
        lemma_stage_steps_same(folder, o1, o2, stages, stdin, rc, gc, j);
        assert(stmt_post(folder, stages[j], o1[j]@, stdin, rc, gc, Ok(o1[j + 1])));
        assert(stmt_post(folder, stages[j], o2[j]@, stdin, rc, gc, Ok(o2[j + 1])));
        law_statement_deterministic(folder, stages[j], o1[j]@, stdin, rc, gc, o1[j + 1], o2[j + 1]);
    }
}

/// A pipeline that succeeds gives one text: two successful runs on the
/// same input agree, when the folder gives one result per input.
pub proof fn law_pipeline_deterministic<F: NumberFold>(
    folder: &F,
    p: Pipeline,
    input: Seq<char>,
    stdin: Seq<char>,
    rc: RecConfig,
    gc: GridConfig,
    o1: String,
    o2: String,
)
    requires
        folds_uniquely(folder),
        pipeline_post(folder, p, input, stdin, rc, gc, Ok(o1)),
        pipeline_post(folder, p, input, stdin, rc, gc, Ok(o2)),
    ensures
        o1@ == o2@,
{
    let ps = p.stages@;
    let a = choose|outs: Seq<String>|
        #![trigger stage_steps(folder, outs, ps, stdin, rc, gc)]
        outs[0]@ == input && stage_steps(folder, outs, ps, stdin, rc, gc) && outs.last() == o1;
    let b = choose|outs: Seq<String>|
        #![trigger stage_steps(folder, outs, ps, stdin, rc, gc)]
        outs[0]@ == input && stage_steps(folder, outs, ps, stdin, rc, gc) && outs.last() == o2;
    lemma_stage_steps_same(folder, a, b, ps, stdin, rc, gc, ps.len() as int);
}

proof fn lemma_rec_fail_prefix_same<F: NumberFold>(
    folder: &F,
    s1: Seq<Records>,
    s2: Seq<Records>,
    calls: Seq<Call>,
    m: String,
    i: int,
)
    requires
        folds_uniquely(folder),
        rec_steps(folder, s1, calls),
        rec_steps_fail(folder, s2, calls, m),
        same_records(s1[0], s2[0]),
        0 <= i < s2.len(),
    ensures
        same_records(s1[i], s2[i]),
    decreases i,
{
    if i > 0 {
        let j = i - 1;
        lemma_rec_fail_prefix_same(folder, s1, s2, calls, m, j);
        assert(rec_call_full(folder, s1[j], calls[j], Ok(s1[j + 1])));
        assert(rec_call_full(folder, s2[j], calls[j], Ok(s2[j + 1])));
        law_rec_call_deterministic(folder, s1[j], s2[j], calls[j], s1[j + 1], s2[j + 1]);
    }
}

proof fn lemma_rec_steps_not_both<F: NumberFold>(
    folder: &F,
    s1: Seq<Records>,
    s2: Seq<Records>,
    calls: Seq<Call>,
    m: String,
)
    requires
        folds_uniquely(folder),
        same_records(s1[0], s2[0]),
    ensures
        !(rec_steps(folder, s1, calls) && rec_steps_fail(folder, s2, calls, m)),
{
    if rec_steps(folder, s1, calls) && rec_steps_fail(folder, s2, calls, m) {
        let e = s2.len() - 1;
        lemma_rec_fail_prefix_same(folder, s1, s2, calls, m, e);
        assert(rec_call_full(folder, s1[e], calls[e], Ok(s1[e + 1])));
        law_rec_call_ok_or_err(folder, s1[e], s2[e], calls[e], s1[e + 1], m);
    }
}

proof fn lemma_grid_fail_prefix_same(s1: Seq<Grid>, s2: Seq<Grid>, calls: Seq<Call>, m: String, i: int)
    requires
        grid_steps(s1, calls),
        grid_steps_fail(s2, calls, m),
        same_grid(s1[0], s2[0]),
        0 <= i < s2.len(),
    ensures
        same_grid(s1[i], s2[i]),
    decreases i,
{
    if i > 0 {
        let j = i - 1;
        lemma_grid_fail_prefix_same(s1, s2, calls, m, j);
        assert(grid_call_post(s1[j], calls[j], Ok(s1[j + 1])));
        assert(grid_call_post(s2[j], calls[j], Ok(s2[j + 1])));
        law_grid_call_deterministic(s1[j], s2[j], calls[j], s1[j + 1], s2[j + 1]);
    }
}

proof fn lemma_grid_steps_not_both(s1: Seq<Grid>, s2: Seq<Grid>, calls: Seq<Call>, m: String)
    requires
        same_grid(s1[0], s2[0]),
    ensures
        !(grid_steps(s1, calls) && grid_steps_fail(s2, calls, m)),
{
    if grid_steps(s1, calls) && grid_steps_fail(s2, calls, m) {
        let e = s2.len() - 1;
        lemma_grid_fail_prefix_same(s1, s2, calls, m, e);
        assert(grid_call_post(s1[e], calls[e], Ok(s1[e + 1])));
        law_grid_call_ok_or_err(s1[e], s2[e], calls[e], s1[e + 1], m);
    }
}

/// A statement cannot both succeed and fail on the same inputs, when the
/// folder gives one result per input.
pub proof fn law_statement_ok_or_err<F: NumberFold>(
    folder: &F,
    stmt: Statement,
    input: Seq<char>,
    stdin: Seq<char>,
    rc: RecConfig,
    gc: GridConfig,
    o: String,
    m: String,
)
    requires
        folds_uniquely(folder),
    ensures
        !(stmt_post(folder, stmt, input, stdin, rc, gc, Ok(o)) && stmt_post(
            folder,
            stmt,
            input,
            stdin,
            rc,
            gc,
            Err(m),
        )),
{
    if stmt_post(folder, stmt, input, stdin, rc, gc, Ok(o)) && stmt_post(
        folder,
        stmt,
        input,
        stdin,
        rc,
        gc,
        Err(m),
    ) {
        let src = source_text(stmt.source@, input, stdin)->0;
        match stmt.receiver {
            Receiver::Rec => {
                let text = rec_text(stmt, src, rc)->0;
                let chars = starts_with_chars(stmt.calls@);
                let rest = rest_calls(stmt.calls@);
                let s1 = choose|states: Seq<Records>|
                    #![trigger rec_steps(folder, states, rest)]
                    rec_start(text, rc, chars, states[0]) && rec_steps(folder, states, rest) && o@
                        == render_records_spec(states.last());
                if rec_fail(folder, text, rc, chars, rest, m) {
                    let s2 = choose|states: Seq<Records>|
                        #![trigger rec_steps_fail(folder, states, rest, m)]
                        rec_start(text, rc, chars, states[0]) && rec_steps_fail(
                            folder,
                            states,
                            rest,
                            m,
                        );
                    lemma_rec_steps_not_both(folder, s1, s2, rest, m);
                }
            },
            Receiver::Grid => {
                let s1 = choose|states: Seq<Grid>|
                    #![trigger grid_steps(states, stmt.calls@)]
                    table_view(states[0].cells@) == grid_rows(src, gc.rs@, opt_view(gc.fs))
                        && states[0].cfg == gc && grid_steps(states, stmt.calls@) && o@
                        == render_grid_spec(states.last());
                let s2 = choose|states: Seq<Grid>|
                    #![trigger grid_steps_fail(states, stmt.calls@, m)]
                    table_view(states[0].cells@) == grid_rows(src, gc.rs@, opt_view(gc.fs))
                        && states[0].cfg == gc && grid_steps_fail(states, stmt.calls@, m);
                lemma_grid_steps_not_both(s1, s2, stmt.calls@, m);
            },
        }
    }
}

/// A pipeline cannot both succeed and fail on the same inputs, when the
/// folder gives one result per input.
pub proof fn law_pipeline_ok_or_err<F: NumberFold>(
    folder: &F,
    p: Pipeline,
    input: Seq<char>,
    stdin: Seq<char>,
    rc: RecConfig,
    gc: GridConfig,
    o: String,
    m: String,
)
    requires
        folds_uniquely(folder),
    ensures
        !(pipeline_post(folder, p, input, stdin, rc, gc, Ok(o)) && pipeline_post(
            folder,
            p,
            input,
            stdin,
            rc,
            gc,
            Err(m),
        )),
{
    let ps = p.stages@;
    if pipeline_post(folder, p, input, stdin, rc, gc, Ok(o)) && pipeline_post(
        folder,
        p,
        input,
        stdin,
        rc,
        gc,
        Err(m),
    ) {
        let a = choose|outs: Seq<String>|
            #![trigger stage_steps(folder, outs, ps, stdin, rc, gc)]
            outs[0]@ == input && stage_steps(folder, outs, ps, stdin, rc, gc) && outs.last() == o;
        let (b, k) = choose|outs: Seq<String>, k: int|
            0 <= k < ps.len() && outs.len() == k + 1 && outs[0]@ == input && stage_steps(
                folder,
                outs,
                ps.take(k),
                stdin,
                rc,
                gc,
            ) && #[trigger] stmt_post(folder, ps[k], outs[k]@, stdin, rc, gc, Err(m));
        let a2 = a.take(k + 1);
        assert forall|i: int| 0 <= i < k implies #[trigger] stmt_post(
            folder,
            ps.take(k)[i],
            a2[i]@,
            stdin,
            rc,
            gc,
            Ok(a2[i + 1]),
        ) by {
            assert(ps.take(k)[i] == ps[i]);
            assert(stmt_post(folder, ps[i], a[i]@, stdin, rc, gc, Ok(a[i + 1])));
        }
        assert(stage_steps(folder, a2, ps.take(k), stdin, rc, gc));
        lemma_stage_steps_same(folder, a2, b, ps.take(k), stdin, rc, gc, k);
        assert(stmt_post(folder, ps[k], a[k]@, stdin, rc, gc, Ok(a[k + 1])));
        law_statement_ok_or_err(folder, ps[k], a[k]@, stdin, rc, gc, a[k + 1], m);
    }
}

proof fn lemma_rec_fails_prefix_same<F: NumberFold>(
    folder: &F,
    s1: Seq<Records>,
    s2: Seq<Records>,
    calls: Seq<Call>,
    m1: String,
    m2: String,
    i: int,
)
    requires
        folds_uniquely(folder),
        rec_steps_fail(folder, s1, calls, m1),
        rec_steps_fail(folder, s2, calls, m2),
        same_records(s1[0], s2[0]),
        0 <= i < s1.len(),
        i < s2.len(),
    ensures
        same_records(s1[i], s2[i]),
    decreases i,
{
    if i > 0 {
        let j = i - 1;
        lemma_rec_fails_prefix_same(folder, s1, s2, calls, m1, m2, j);
        assert(rec_call_full(folder, s1[j], calls[j], Ok(s1[j + 1])));
        assert(rec_call_full(folder, s2[j], calls[j], Ok(s2[j + 1])));
        law_rec_call_deterministic(folder, s1[j], s2[j], calls[j], s1[j + 1], s2[j + 1]);
    }
}

proof fn lemma_rec_fails_same<F: NumberFold>(
    folder: &F,
    s1: Seq<Records>,
    s2: Seq<Records>,
    calls: Seq<Call>,
    m1: String,
    m2: String,
)
    requires
        folds_uniquely(folder),
        rec_steps_fail(folder, s1, calls, m1),
        rec_steps_fail(folder, s2, calls, m2),
        same_records(s1[0], s2[0]),
    ensures
        m1@ == m2@,
{
    let e1 = s1.len() - 1;
    let e2 = s2.len() - 1;
    if e1 < e2 {
        lemma_rec_fails_prefix_same(folder, s1, s2, calls, m1, m2, e1);
        assert(rec_call_full(folder, s2[e1], calls[e1], Ok(s2[e1 + 1])));
        law_rec_call_ok_or_err(folder, s2[e1], s1[e1], calls[e1], s2[e1 + 1], m1);
    } else if e2 < e1 {
        lemma_rec_fails_prefix_same(folder, s1, s2, calls, m1, m2, e2);
        assert(rec_call_full(folder, s1[e2], calls[e2], Ok(s1[e2 + 1])));
        law_rec_call_ok_or_err(folder, s1[e2], s2[e2], calls[e2], s1[e2 + 1], m2);
    } else {
        lemma_rec_fails_prefix_same(folder, s1, s2, calls, m1, m2, e1);
        law_rec_call_same_error(folder, s1[e1], s2[e1], calls[e1], m1, m2);
    }
}

proof fn lemma_grid_fails_prefix_same(
    s1: Seq<Grid>,
    s2: Seq<Grid>,
    calls: Seq<Call>,
    m1: String,
    m2: String,
    i: int,
)
    requires
        grid_steps_fail(s1, calls, m1),
        grid_steps_fail(s2, calls, m2),
        same_grid(s1[0], s2[0]),
        0 <= i < s1.len(),
        i < s2.len(),
    ensures
        same_grid(s1[i], s2[i]),
    decreases i,
{
    if i > 0 {
        let j = i - 1;
        lemma_grid_fails_prefix_same(s1, s2, calls, m1, m2, j);
        assert(grid_call_post(s1[j], calls[j], Ok(s1[j + 1])));
        assert(grid_call_post(s2[j], calls[j], Ok(s2[j + 1])));
        law_grid_call_deterministic(s1[j], s2[j], calls[j], s1[j + 1], s2[j + 1]);
    }
}

proof fn lemma_grid_fails_same(s1: Seq<Grid>, s2: Seq<Grid>, calls: Seq<Call>, m1: String, m2: String)
    requires
        grid_steps_fail(s1, calls, m1),
        grid_steps_fail(s2, calls, m2),
        same_grid(s1[0], s2[0]),
    ensures
        m1@ == m2@,
{
    let e1 = s1.len() - 1;
    let e2 = s2.len() - 1;
    if e1 < e2 {
        lemma_grid_fails_prefix_same(s1, s2, calls, m1, m2, e1);
        assert(grid_call_post(s2[e1], calls[e1], Ok(s2[e1 + 1])));
        law_grid_call_ok_or_err(s2[e1], s1[e1], calls[e1], s2[e1 + 1], m1);
    } else if e2 < e1 {
        lemma_grid_fails_prefix_same(s1, s2, calls, m1, m2, e2);
        assert(grid_call_post(s1[e2], calls[e2], Ok(s1[e2 + 1])));
        law_grid_call_ok_or_err(s1[e2], s2[e2], calls[e2], s1[e2 + 1], m2);
    } else {
        lemma_grid_fails_prefix_same(s1, s2, calls, m1, m2, e1);
        law_grid_call_same_error(s1[e1], s2[e1], calls[e1], m1, m2);
    }
}

/// A statement that fails twice on the same inputs fails with the same
/// message, when the folder gives one result per input.
pub proof fn law_statement_same_error<F: NumberFold>(
    folder: &F,
    stmt: Statement,
    input: Seq<char>,
    stdin: Seq<char>,
    rc: RecConfig,
    gc: GridConfig,
    m1: String,
    m2: String,
)
    requires
        folds_uniquely(folder),
        stmt_post(folder, stmt, input, stdin, rc, gc, Err(m1)),
        stmt_post(folder, stmt, input, stdin, rc, gc, Err(m2)),
    ensures
        m1@ == m2@,
{
    if source_text(stmt.source@, input, stdin) is Some {
        let src = source_text(stmt.source@, input, stdin)->0;
        match stmt.receiver {
            Receiver::Rec => {
                let text = rec_text(stmt, src, rc);
                let chars = starts_with_chars(stmt.calls@);
                let rest = rest_calls(stmt.calls@);
                if text is Some && rec_fail(folder, text->0, rc, chars, rest, m1) && rec_fail(
                    folder,
                    text->0,
                    rc,
                    chars,
                    rest,
                    m2,
                ) {
                    let s1 = choose|states: Seq<Records>|
                        #![trigger rec_steps_fail(folder, states, rest, m1)]
                        rec_start(text->0, rc, chars, states[0]) && rec_steps_fail(
                            folder,
                            states,
                            rest,
                            m1,
                        );
                    let s2 = choose|states: Seq<Records>|
                        #![trigger rec_steps_fail(folder, states, rest, m2)]
                        rec_start(text->0, rc, chars, states[0]) && rec_steps_fail(
                            folder,
                            states,
                            rest,
                            m2,
                        );
                    lemma_rec_fails_same(folder, s1, s2, rest, m1, m2);
                }
            },
            Receiver::Grid => {
                if stmt.address is None {
                    let s1 = choose|states: Seq<Grid>|
                        #![trigger grid_steps_fail(states, stmt.calls@, m1)]
                        table_view(states[0].cells@) == grid_rows(src, gc.rs@, opt_view(gc.fs))
                            && states[0].cfg == gc && grid_steps_fail(states, stmt.calls@, m1);
                    let s2 = choose|states: Seq<Grid>|
                        #![trigger grid_steps_fail(states, stmt.calls@, m2)]
                        table_view(states[0].cells@) == grid_rows(src, gc.rs@, opt_view(gc.fs))
                            && states[0].cfg == gc && grid_steps_fail(states, stmt.calls@, m2);
                    lemma_grid_fails_same(s1, s2, stmt.calls@, m1, m2);
                }
            },
        }
    }
}

/// A pipeline that fails twice on the same inputs fails with the same
/// message, when the folder gives one result per input.
pub proof fn law_pipeline_same_error<F: NumberFold>(
    folder: &F,
    p: Pipeline,
    input: Seq<char>,
    stdin: Seq<char>,
    rc: RecConfig,
    gc: GridConfig,
    m1: String,
    m2: String,
)
    requires
        folds_uniquely(folder),
        pipeline_post(folder, p, input, stdin, rc, gc, Err(m1)),
        pipeline_post(folder, p, input, stdin, rc, gc, Err(m2)),
    ensures
        m1@ == m2@,
{
    let ps = p.stages@;
    let (a, k1) = choose|outs: Seq<String>, k: int|
        0 <= k < ps.len() && outs.len() == k + 1 && outs[0]@ == input && stage_steps(
            folder,
            outs,
            ps.take(k),
            stdin,
            rc,
            gc,
        ) && #[trigger] stmt_post(folder, ps[k], outs[k]@, stdin, rc, gc, Err(m1));
    let (b, k2) = choose|outs: Seq<String>, k: int|
        0 <= k < ps.len() && outs.len() == k + 1 && outs[0]@ == input && stage_steps(
            folder,
            outs,
            ps.take(k),
            stdin,
            rc,
            gc,
        ) && #[trigger] stmt_post(folder, ps[k], outs[k]@, stdin, rc, gc, Err(m2));
    if k1 < k2 {
        lemma_failed_stage_too_early(folder, ps, a, b, k1, k2, input, stdin, rc, gc, m1);
    } else if k2 < k1 {
        lemma_failed_stage_too_early(folder, ps, b, a, k2, k1, input, stdin, rc, gc, m2);
    } else {
        lemma_stage_steps_same(folder, a, b, ps.take(k1), stdin, rc, gc, k1);
        law_statement_same_error(folder, ps[k1], a[k1]@, stdin, rc, gc, m1, m2);
    }
}

/// A run that fails at stage `k1` and a run that gets past stage `k1` on
/// the same input cannot both be.
proof fn lemma_failed_stage_too_early<F: NumberFold>(
    folder: &F,
    ps: Seq<Statement>,
    a: Seq<String>,
    b: Seq<String>,
    k1: int,
    k2: int,
    input: Seq<char>,
    stdin: Seq<char>,
    rc: RecConfig,
    gc: GridConfig,
    m1: String,
)
    requires
        folds_uniquely(folder),
        0 <= k1 < k2 < ps.len(),
        a.len() == k1 + 1,
        b.len() == k2 + 1,
        a[0]@ == input,
        b[0]@ == input,
        stage_steps(folder, a, ps.take(k1), stdin, rc, gc),
        stage_steps(folder, b, ps.take(k2), stdin, rc, gc),
    ensures
        !stmt_post(folder, ps[k1], a[k1]@, stdin, rc, gc, Err(m1)),
{
    let b2 = b.take(k1 + 1);
    assert forall|i: int| 0 <= i < k1 implies #[trigger] stmt_post(
        folder,
        ps.take(k1)[i],
        b2[i]@,
        stdin,
        rc,
        gc,
        Ok(b2[i + 1]),
    ) by {
        assert(ps.take(k1)[i] == ps[i]);
        assert(ps.take(k2)[i] == ps[i]);
        assert(stmt_post(folder, ps.take(k2)[i], b[i]@, stdin, rc, gc, Ok(b[i + 1])));
    }
    assert(stage_steps(folder, b2, ps.take(k1), stdin, rc, gc));
    lemma_stage_steps_same(folder, a, b2, ps.take(k1), stdin, rc, gc, k1);
    assert(ps.take(k2)[k1] == ps[k1]);
    assert(stmt_post(folder, ps.take(k2)[k1], b[k1]@, stdin, rc, gc, Ok(b[k1 + 1])));
    law_statement_ok_or_err(folder, ps[k1], b[k1]@, stdin, rc, gc, b[k1 + 1], m1);
}

/// Two results that agree: both succeed with the same text, or both fail
/// with the same message.
pub open spec fn same_outcome(r1: Result<String, String>, r2: Result<String, String>) -> bool {
    match (r1, r2) {
        (Ok(a), Ok(b)) => a@ == b@,
        (Err(a), Err(b)) => a@ == b@,
        _ => false,
    }
}

/// A statement has one outcome on given inputs, when the folder gives one
/// result per input.
pub proof fn law_statement_one_outcome<F: NumberFold>(
    folder: &F,
    stmt: Statement,
    input: Seq<char>,
    stdin: Seq<char>,
    rc: RecConfig,
    gc: GridConfig,
    r1: Result<String, String>,
    r2: Result<String, String>,
)
    requires
        folds_uniquely(folder),
        stmt_post(folder, stmt, input, stdin, rc, gc, r1),
        stmt_post(folder, stmt, input, stdin, rc, gc, r2),
    ensures
        same_outcome(r1, r2),
{
    match (r1, r2) {
        (Ok(a), Ok(b)) => law_statement_deterministic(folder, stmt, input, stdin, rc, gc, a, b),
        (Err(a), Err(b)) => law_statement_same_error(folder, stmt, input, stdin, rc, gc, a, b),
        (Ok(a), Err(b)) => law_statement_ok_or_err(folder, stmt, input, stdin, rc, gc, a, b),
        (Err(a), Ok(b)) => law_statement_ok_or_err(folder, stmt, input, stdin, rc, gc, b, a),
    }
}

/// A pipeline has one outcome on given inputs, when the folder gives one
/// result per input.
pub proof fn law_pipeline_one_outcome<F: NumberFold>(
    folder: &F,
    p: Pipeline,
    input: Seq<char>,
    stdin: Seq<char>,
    rc: RecConfig,
    gc: GridConfig,
    r1: Result<String, String>,
    r2: Result<String, String>,
)
    requires
        folds_uniquely(folder),
        pipeline_post(folder, p, input, stdin, rc, gc, r1),
        pipeline_post(folder, p, input, stdin, rc, gc, r2),
    ensures
        same_outcome(r1, r2),
{
    match (r1, r2) {
        (Ok(a), Ok(b)) => law_pipeline_deterministic(folder, p, input, stdin, rc, gc, a, b),
        (Err(a), Err(b)) => law_pipeline_same_error(folder, p, input, stdin, rc, gc, a, b),
        (Ok(a), Err(b)) => law_pipeline_ok_or_err(folder, p, input, stdin, rc, gc, a, b),
        (Err(a), Ok(b)) => law_pipeline_ok_or_err(folder, p, input, stdin, rc, gc, b, a),
    }
}

/// A `stdin.` statement has the outcome that the same statement without a
/// source has on the original input, whatever the current text.
pub proof fn law_stdin_matches_current_on_input<F: NumberFold>(
    folder: &F,
    s1: Statement,
    s2: Statement,
    input: Seq<char>,
    other: Seq<char>,
    stdin: Seq<char>,
    rc: RecConfig,
    gc: GridConfig,
    r1: Result<String, String>,
    r2: Result<String, String>,
)
    requires
        folds_uniquely(folder),
        s1.source == Source::Stdin,
        s2.source == Source::Current,
        s1.address == s2.address,
        s1.receiver == s2.receiver,
        s1.calls == s2.calls,
        stmt_post(folder, s1, input, stdin, rc, gc, r1),
        stmt_post(folder, s2, stdin, other, rc, gc, r2),
    ensures
        same_outcome(r1, r2),
{
    law_stdin_reads_original_input(folder, s1, s2, input, other, stdin, rc, gc, r1);
    law_statement_one_outcome(folder, s2, stdin, other, rc, gc, r1, r2);
}

/// A pipeline has the outcome of its stages but the last, then the last
/// stage run on what they gave; when they fail, that failure.
pub proof fn law_pipeline_is_last_stage_after_rest<F: NumberFold>(
    folder: &F,
    p: Pipeline,
    q: Pipeline,
    s: Statement,
    input: Seq<char>,
    stdin: Seq<char>,
    rc: RecConfig,
    gc: GridConfig,
    r: Result<String, String>,
    rq: Result<String, String>,
    rs: Result<String, String>,
)
    requires
        folds_uniquely(folder),
        p.stages@ == q.stages@.push(s),
        pipeline_post(folder, p, input, stdin, rc, gc, r),
        pipeline_post(folder, q, input, stdin, rc, gc, rq),
        rq matches Ok(o) ==> stmt_post(folder, s, o@, stdin, rc, gc, rs),
    ensures
        rq is Err ==> same_outcome(r, rq),
        rq is Ok ==> same_outcome(r, rs),
{
    law_pipeline_last_stage(folder, p, q, s, input, stdin, rc, gc, r);
    if exists|o: String|
        pipeline_post(folder, q, input, stdin, rc, gc, Ok(o)) && #[trigger] stmt_post(
            folder,
            s,
            o@,
            stdin,
            rc,
            gc,
            r,
        ) {
        let o = choose|o: String|
            pipeline_post(folder, q, input, stdin, rc, gc, Ok(o)) && #[trigger] stmt_post(
                folder,
                s,
                o@,
                stdin,
                rc,
                gc,
                r,
            );
        law_pipeline_one_outcome(folder, q, input, stdin, rc, gc, Ok(o), rq);
        if let Ok(o2) = rq {
            law_statement_one_outcome(folder, s, o@, stdin, rc, gc, r, rs);
        }
    } else {
        law_pipeline_one_outcome(folder, q, input, stdin, rc, gc, r, rq);
    }
}

} // verus!
