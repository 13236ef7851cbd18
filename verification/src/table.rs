//! Rows of string cells: copying, splitting input into rows, and rendering.
use vstd::prelude::*;

use crate::ast::table_view;
use crate::text::{
    chars_of, join_spec, join_strs, records_spec, split_keep_nonempty, string_of_range, strs_view,
    trim_end_cr, trim_end_cr_str, unescape, unescape_spec,
};

verus! {

pub proof fn lemma_table_push(rows: Seq<Vec<String>>, row: Vec<String>)
    ensures
        table_view(rows.push(row)) == table_view(rows).push(strs_view(row@)),
{
    assert(table_view(rows.push(row)) =~= table_view(rows).push(strs_view(row@)));
}

pub proof fn lemma_strs_push(v: Seq<String>, x: String)
    ensures
        strs_view(v.push(x)) == strs_view(v).push(x@),
{
    assert(strs_view(v.push(x)) =~= strs_view(v).push(x@));
}

/// A copy of a row.
pub fn clone_row(row: &Vec<String>) -> (out: Vec<String>)
    ensures
        out@ == row@,
{
    let mut out: Vec<String> = Vec::new();
    let mut i: usize = 0;
    while i < row.len()
        invariant
            i <= row.len(),
            out@ == row@.take(i as int),
        decreases row.len() - i,
    {
        out.push(row[i].clone());
        i += 1;
        assert(row@.take(i as int) =~= row@.take(i - 1).push(row@[i - 1]));
    }
    assert(row@.take(row.len() as int) =~= row@);
    out
}

/// Each character as a one-character cell.
pub open spec fn char_cells(s: Seq<char>) -> Seq<Seq<char>> {
    Seq::new(s.len(), |i: int| seq![s[i]])
}

/// One cell per character of `s`.
pub fn chars_to_cells(s: &str) -> (out: Vec<String>)
    ensures
        strs_view(out@) == char_cells(s@),
{
    let v = chars_of(s);
    let mut out: Vec<String> = Vec::new();
    let mut i: usize = 0;
    while i < v.len()
        invariant
            i <= v.len(),
            v@ == s@,
            strs_view(out@) == char_cells(v@.take(i as int)),
        decreases v.len() - i,
    {
        let c = string_of_range(&v, i, i + 1);
        proof {
            lemma_strs_push(out@, c);
            assert(v@.subrange(i as int, i + 1) =~= seq![v@[i as int]]);
        }
        out.push(c);
        i += 1;
        assert(strs_view(out@) =~= char_cells(v@.take(i as int)));
    }
    assert(v@.take(v.len() as int) =~= v@);
    out
}

/// The input split into records at the (unescaped) record separator, each
/// without trailing carriage returns.
pub open spec fn raw_lines(input: Seq<char>, rs: Seq<char>) -> Seq<Seq<char>> {
    records_spec(input, unescape_spec(rs)).map_values(|r: Seq<char>| trim_end_cr(r))
}

/// The nonempty records of the input.
pub open spec fn record_lines(input: Seq<char>, rs: Seq<char>) -> Seq<Seq<char>> {
    raw_lines(input, rs).filter(|l: Seq<char>| l.len() > 0)
}

/// The input split into records at the record separator `rs` (escapes
/// decoded), without trailing carriage returns.
pub fn split_raw_lines(input: &str, rs: &str) -> (out: Vec<String>)
    ensures
        strs_view(out@) == raw_lines(input@, rs@),
{
    let sep = unescape(rs);
    let raw = split_keep_nonempty(input, sep.as_str());
    let mut out: Vec<String> = Vec::new();
    let mut i: usize = 0;
    let ghost f = |r: Seq<char>| trim_end_cr(r);
    while i < raw.len()
        invariant
            i <= raw.len(),
            strs_view(raw@) == records_spec(input@, unescape_spec(rs@)),
            strs_view(out@) == strs_view(raw@).take(i as int).map_values(f),
            f == (|r: Seq<char>| trim_end_cr(r)),
        decreases raw.len() - i,
    {
        let line = trim_end_cr_str(&raw[i]);
        proof {
            lemma_strs_push(out@, line);
            assert(strs_view(raw@).take(i + 1).map_values(f) =~= strs_view(raw@).take(
                i as int,
            ).map_values(f).push(f(raw@[i as int]@)));
        }
        out.push(line);
        i += 1;
    }
    assert(strs_view(raw@).take(raw.len() as int) =~= strs_view(raw@));
    out
}

/// The nonempty records of the input.
pub fn split_record_lines(input: &str, rs: &str) -> (out: Vec<String>)
    ensures
        strs_view(out@) == record_lines(input@, rs@),
{
    let raw = split_raw_lines(input, rs);
    let mut out: Vec<String> = Vec::new();
    let mut i: usize = 0;
    let ghost p = |l: Seq<char>| l.len() > 0;
    while i < raw.len()
        invariant
            i <= raw.len(),
            strs_view(raw@) == raw_lines(input@, rs@),
            strs_view(out@) == strs_view(raw@).take(i as int).filter(p),
            p == (|l: Seq<char>| l.len() > 0),
        decreases raw.len() - i,
    {
        proof {
            assert(strs_view(raw@).take(i + 1) =~= strs_view(raw@).take(i as int).push(
                raw@[i as int]@,
            ));
            strs_view(raw@).take(i as int).lemma_filter_push(raw@[i as int]@, p);
        }
        if raw[i].as_str().unicode_len() > 0 {
            let x = raw[i].clone();
            proof {
                lemma_strs_push(out@, x);
            }
            out.push(x);
        }
        i += 1;
    }
    assert(strs_view(raw@).take(raw.len() as int) =~= strs_view(raw@));
    out
}

/// Rows rendered with `ofs` between cells and `ors` after each row.
pub open spec fn render_rows(rows: Seq<Seq<Seq<char>>>, ofs: Seq<char>, ors: Seq<char>) -> Seq<char>
    decreases rows.len(),
{
    if rows.len() == 0 {
        seq![]
    } else {
        render_rows(rows.drop_last(), ofs, ors) + join_spec(rows.last(), ofs) + ors
    }
}

/// Renders rows with the output separators (escapes decoded).
pub fn render_table(rows: &Vec<Vec<String>>, ofs: &str, ors: &str) -> (out: String)
    ensures
        out@ == render_rows(table_view(rows@), unescape_spec(ofs@), unescape_spec(ors@)),
{
    let mut out = String::new();
    let ors_u = unescape(ors);
    let ofs_u = unescape(ofs);
    let mut i: usize = 0;
    while i < rows.len()
        invariant
            i <= rows.len(),
            ors_u@ == unescape_spec(ors@),
            ofs_u@ == unescape_spec(ofs@),
            out@ == render_rows(table_view(rows@.take(i as int)), ofs_u@, ors_u@),
        decreases rows.len() - i,
    {
        let line = join_strs(&rows[i], ofs_u.as_str());
        out.append(line.as_str());
        out.append(ors_u.as_str());
        proof {
            assert(table_view(rows@.take(i + 1)).drop_last() =~= table_view(rows@.take(i as int)));
        }
        i += 1;
    }
    assert(rows@.take(rows.len() as int) =~= rows@);
    out
}

} // verus!
