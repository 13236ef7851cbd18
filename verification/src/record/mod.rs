//! Record mode: rows of fields split by a field-separator regex.
use vstd::prelude::*;

use crate::ast::{table_view, Call, RecConfig, Records};
use crate::record::aggs::{groupby_folds, groupby_post, rec_groupby, NumberFold};
use crate::record::ops::{
    chars_post, countif_post, enum_post, explode_post, implode_post, rec_chars, rec_countif,
    rec_enum, rec_explode, rec_implode, rec_replace, rec_select, replace_post, select_post,
};
use crate::record::reshape::{flatten_post, rec_flatten_as_records, rec_reshape, reshape_post};
use crate::util::{arg_string, arg_text, arg_text_error};
use crate::pattern::{compile, regex_compiles, regex_split, split, Pattern};
use crate::table::{
    char_cells, chars_to_cells, lemma_table_push, raw_lines, record_lines, render_rows,
    render_table, split_record_lines,
};
use crate::text::{
    is_ws, join_spec, keep_nonempty, lemma_lines_concat, lemma_lines_single, lemma_ws_join,
    lines_spec, nonempty_parts, split_whitespace, split_ws_spec, str_is, str_is2, strip_cr,
    strs_view, trim_end_cr, unescape_spec,
};

pub mod aggs;
pub mod laws;
pub mod ops;
pub mod reshape;

verus! {

/// The default field separator: runs of whitespace.
pub open spec fn ws_fs() -> Seq<char> {
    seq!['\\', 's', '+']
}

/// The fields of a line: whitespace runs for the default separator, else the
/// nonempty pieces between regex matches.
pub open spec fn split_fields(line: Seq<char>, fs: Seq<char>) -> Seq<Seq<char>> {
    if fs == ws_fs() {
        split_ws_spec(line)
    } else {
        nonempty_parts(regex_split(fs, line))
    }
}

/// The rows of the input under the record separators.
pub open spec fn parse_rows(input: Seq<char>, rs: Seq<char>, fs: Seq<char>) -> Seq<Seq<Seq<char>>> {
    record_lines(input, rs).map_values(|l: Seq<char>| split_fields(l, fs))
}

/// Splits the input into records and fields with an already compiled field
/// separator.
pub fn records_with_fields(input: &str, cfg: RecConfig, fs: &Pattern) -> (r: Records)
    requires
        fs@ == cfg.fs@,
    ensures
        table_view(r.rows@) == parse_rows(input@, cfg.rs@, cfg.fs@),
        r.cfg == cfg,
{
    let lines = split_record_lines(input, cfg.rs.as_str());
    proof {
        reveal_strlit("\\s+");
        assert("\\s+"@ =~= ws_fs());
    }
    let default_fs = str_is(cfg.fs.as_str(), "\\s+");
    let mut rows: Vec<Vec<String>> = Vec::new();
    let mut i: usize = 0;
    let ghost f = |l: Seq<char>| split_fields(l, cfg.fs@);
    while i < lines.len()
        invariant
            i <= lines.len(),
            fs@ == cfg.fs@,
            default_fs == (cfg.fs@ == ws_fs()),
            strs_view(lines@) == record_lines(input@, cfg.rs@),
            table_view(rows@) == strs_view(lines@).take(i as int).map_values(f),
            f == (|l: Seq<char>| split_fields(l, cfg.fs@)),
        decreases lines.len() - i,
    {
        let line = &lines[i];
        let cols = if default_fs {
            split_whitespace(line.as_str())
        } else {
            keep_nonempty(split(fs, line.as_str()))
        };
        proof {
            lemma_table_push(rows@, cols);
            assert(strs_view(lines@).take(i + 1).map_values(f) =~= strs_view(lines@).take(
                i as int,
            ).map_values(f).push(f(lines@[i as int]@)));
        }
        rows.push(cols);
        i += 1;
    }
    assert(strs_view(lines@).take(lines.len() as int) =~= strs_view(lines@));
    Records { rows, cfg }
}

/// Parses the input into record rows and fields using the record
/// separators; fails when the field separator is not a valid regex.
pub fn parse_records(input: &str, cfg: RecConfig) -> (r: Result<Records, String>)
    ensures
        match r {
            Ok(rec) => table_view(rec.rows@) == parse_rows(input@, cfg.rs@, cfg.fs@) && rec.cfg
                == cfg,
            Err(m) => m@ == "invalid FS regex: "@ + cfg.fs@,
        },
        r is Ok <==> regex_compiles(cfg.fs@),
        cfg.fs@ == ws_fs() ==> r is Ok,
{
    match compile(cfg.fs.as_str()) {
        Ok(fs) => Ok(records_with_fields(input, cfg, &fs)),
        Err(_) => Err(crate::text::concat2("invalid FS regex: ", cfg.fs.as_str())),
    }
}

/// The rows of the input with one cell per character.
pub open spec fn char_rows(input: Seq<char>, rs: Seq<char>) -> Seq<Seq<Seq<char>>> {
    record_lines(input, rs).map_values(|l: Seq<char>| char_cells(l))
}

/// Parses the input into records with one field per character.
pub fn parse_records_as_chars(input: &str, cfg: RecConfig) -> (r: Result<Records, String>)
    ensures
        r matches Ok(rec) && table_view(rec.rows@) == char_rows(input@, cfg.rs@) && rec.cfg == cfg,
{
    let lines = split_record_lines(input, cfg.rs.as_str());
    let mut rows: Vec<Vec<String>> = Vec::new();
    let mut i: usize = 0;
    let ghost f = |l: Seq<char>| char_cells(l);
    while i < lines.len()
        invariant
            i <= lines.len(),
            strs_view(lines@) == record_lines(input@, cfg.rs@),
            table_view(rows@) == strs_view(lines@).take(i as int).map_values(f),
            f == (|l: Seq<char>| char_cells(l)),
        decreases lines.len() - i,
    {
        let cells = chars_to_cells(lines[i].as_str());
        proof {
            lemma_table_push(rows@, cells);
            assert(strs_view(lines@).take(i + 1).map_values(f) =~= strs_view(lines@).take(
                i as int,
            ).map_values(f).push(f(lines@[i as int]@)));
        }
        rows.push(cells);
        i += 1;
    }
    assert(strs_view(lines@).take(lines.len() as int) =~= strs_view(lines@));
    Ok(Records { rows, cfg })
}

/// The text of records under their output separators.
pub open spec fn render_records_spec(rec: Records) -> Seq<char> {
    render_rows(table_view(rec.rows@), unescape_spec(rec.cfg.ofs@), unescape_spec(rec.cfg.ors@))
}

/// Renders records: fields joined by `ofs`, each row followed by `ors`.
pub fn render_records(rec: &Records) -> (out: String)
    ensures
        out@ == render_records_spec(*rec),
{
    render_table(&rec.rows, rec.cfg.ofs.as_str(), rec.cfg.ors.as_str())
}

/// The record methods, each under its long and short name.
#[derive(Debug, Clone, Copy, PartialEq, Eq, Structural)]
pub enum RecOp {
    Fs,
    Rs,
    Ofs,
    Ors,
    Chars,
    Countif,
    Select,
    Replace,
    Enum,
    Explode,
    Implode,
    Groupby,
    Reshape,
    Flatten,
}

/// The record method a call name denotes.
pub open spec fn rec_op_of(name: Seq<char>) -> Option<RecOp> {
    if name == "fs"@ {
        Some(RecOp::Fs)
    } else if name == "rs"@ {
        Some(RecOp::Rs)
    } else if name == "ofs"@ {
        Some(RecOp::Ofs)
    } else if name == "ors"@ {
        Some(RecOp::Ors)
    } else if name == "chars"@ || name == "ch"@ {
        Some(RecOp::Chars)
    } else if name == "countif"@ || name == "ci"@ {
        Some(RecOp::Countif)
    } else if name == "select"@ || name == "p"@ {
        Some(RecOp::Select)
    } else if name == "replace"@ || name == "sb"@ {
        Some(RecOp::Replace)
    } else if name == "enum"@ || name == "n"@ {
        Some(RecOp::Enum)
    } else if name == "explode"@ || name == "x"@ {
        Some(RecOp::Explode)
    } else if name == "implode"@ || name == "i"@ {
        Some(RecOp::Implode)
    } else if name == "groupby"@ || name == "g"@ {
        Some(RecOp::Groupby)
    } else if name == "reshape"@ || name == "sh"@ {
        Some(RecOp::Reshape)
    } else if name == "flatten"@ || name == "f"@ {
        Some(RecOp::Flatten)
    } else {
        None
    }
}

/// Looks up the record method of a call name.
pub fn rec_op(name: &str) -> (r: Option<RecOp>)
    ensures
        r == rec_op_of(name@),
{
    if str_is(name, "fs") {
        Some(RecOp::Fs)
    } else if str_is(name, "rs") {
        Some(RecOp::Rs)
    } else if str_is(name, "ofs") {
        Some(RecOp::Ofs)
    } else if str_is(name, "ors") {
        Some(RecOp::Ors)
    } else if str_is2(name, "chars", "ch") {
        Some(RecOp::Chars)
    } else if str_is2(name, "countif", "ci") {
        Some(RecOp::Countif)
    } else if str_is2(name, "select", "p") {
        Some(RecOp::Select)
    } else if str_is2(name, "replace", "sb") {
        Some(RecOp::Replace)
    } else if str_is2(name, "enum", "n") {
        Some(RecOp::Enum)
    } else if str_is2(name, "explode", "x") {
        Some(RecOp::Explode)
    } else if str_is2(name, "implode", "i") {
        Some(RecOp::Implode)
    } else if str_is2(name, "groupby", "g") {
        Some(RecOp::Groupby)
    } else if str_is2(name, "reshape", "sh") {
        Some(RecOp::Reshape)
    } else if str_is2(name, "flatten", "f") {
        Some(RecOp::Flatten)
    } else {
        None
    }
}

/// `fs` / `rs`: the records rendered and read again under the new
/// separators (the new field separator `fs`, the new record separator `rs`).
pub open spec fn reparse_post(rec: Records, fs: Seq<char>, rs: Seq<char>, r: Result<Records, String>) -> bool {
    match r {
        Ok(x) => {
            &&& regex_compiles(fs)
            &&& table_view(x.rows@) == parse_rows(render_records_spec(rec), rs, fs)
            &&& x.cfg.fs@ == fs
            &&& x.cfg.rs@ == rs
            &&& x.cfg.ofs == rec.cfg.ofs
            &&& x.cfg.ors == rec.cfg.ors
        },
        Err(m) => fs != ws_fs() && !regex_compiles(fs) && m@ == "invalid FS regex: "@ + fs,
    }
}

/// What one record call does to the records.
pub open spec fn rec_call_post(rec: Records, call: Call, r: Result<Records, String>) -> bool {
    match rec_op_of(call.name@) {
        Some(RecOp::Fs) => match arg_text(call, 0) {
            Some(f) => reparse_post(rec, f, rec.cfg.rs@, r),
            None => r matches Err(m) && m@ == arg_text_error(call, 0),
        },
        Some(RecOp::Rs) => match arg_text(call, 0) {
            Some(s) => reparse_post(rec, rec.cfg.fs@, s, r),
            None => r matches Err(m) && m@ == arg_text_error(call, 0),
        },
        Some(RecOp::Ofs) => match arg_text(call, 0) {
            Some(s) => r matches Ok(x) && x.rows == rec.rows && x.cfg.ofs@ == s && x.cfg.fs
                == rec.cfg.fs && x.cfg.rs == rec.cfg.rs && x.cfg.ors == rec.cfg.ors,
            None => r matches Err(m) && m@ == arg_text_error(call, 0),
        },
        Some(RecOp::Ors) => match arg_text(call, 0) {
            Some(s) => r matches Ok(x) && x.rows == rec.rows && x.cfg.ors@ == s && x.cfg.fs
                == rec.cfg.fs && x.cfg.rs == rec.cfg.rs && x.cfg.ofs == rec.cfg.ofs,
            None => r matches Err(m) && m@ == arg_text_error(call, 0),
        },
        Some(RecOp::Chars) => chars_post(rec, r),
        Some(RecOp::Countif) => countif_post(rec, call, r),
        Some(RecOp::Select) => select_post(rec, call.args@, r),
        Some(RecOp::Replace) => replace_post(rec, call, r),
        Some(RecOp::Enum) => enum_post(rec, call, r),
        Some(RecOp::Explode) => explode_post(rec, call, r),
        Some(RecOp::Implode) => implode_post(rec, call, r),
        Some(RecOp::Groupby) => groupby_post(rec, call, r),
        Some(RecOp::Reshape) => reshape_post(rec, call, r),
        Some(RecOp::Flatten) => flatten_post(rec, call, r),
        None => r matches Err(m) && m@ == "unknown rec method: "@ + call.name@,
    }
}

/// What one record call does, with the numeric cells of `groupby` folded by
/// `folder`.
pub open spec fn rec_call_full<F: NumberFold>(folder: &F, rec: Records, call: Call, r: Result<
    Records,
    String,
>) -> bool {
    &&& rec_call_post(rec, call, r)
    &&& rec_op_of(call.name@) == Some(RecOp::Groupby) ==> groupby_folds(folder, rec, call, r)
}

/// Applies one call to the records; numeric aggregates are folded by
/// `folder`.
pub fn apply_rec_call<F: NumberFold>(rec: Records, call: &Call, folder: &F) -> (r: Result<
    Records,
    String,
>)
    ensures
        rec_call_post(rec, *call, r),
        rec_op_of(call.name@) == Some(RecOp::Groupby) ==> groupby_folds(folder, rec, *call, r),
{
    match rec_op(call.name.as_str()) {
        Some(RecOp::Fs) => {
            let f = match arg_string(call, 0) {
                Ok(f) => f,
                Err(e) => return Err(e),
            };
            let text = render_records(&rec);
            let cfg = RecConfig { fs: f, rs: rec.cfg.rs, ofs: rec.cfg.ofs, ors: rec.cfg.ors };
            parse_records(text.as_str(), cfg)
        },
        Some(RecOp::Rs) => {
            let s = match arg_string(call, 0) {
                Ok(s) => s,
                Err(e) => return Err(e),
            };
            let text = render_records(&rec);
            let cfg = RecConfig { fs: rec.cfg.fs, rs: s, ofs: rec.cfg.ofs, ors: rec.cfg.ors };
            parse_records(text.as_str(), cfg)
        },
        Some(RecOp::Ofs) => {
            let s = match arg_string(call, 0) {
                Ok(s) => s,
                Err(e) => return Err(e),
            };
            let cfg = RecConfig { fs: rec.cfg.fs, rs: rec.cfg.rs, ofs: s, ors: rec.cfg.ors };
            Ok(Records { rows: rec.rows, cfg })
        },
        Some(RecOp::Ors) => {
            let s = match arg_string(call, 0) {
                Ok(s) => s,
                Err(e) => return Err(e),
            };
            let cfg = RecConfig { fs: rec.cfg.fs, rs: rec.cfg.rs, ofs: rec.cfg.ofs, ors: s };
            Ok(Records { rows: rec.rows, cfg })
        },
        Some(RecOp::Chars) => rec_chars(rec),
        Some(RecOp::Countif) => rec_countif(rec, call),
        Some(RecOp::Select) => rec_select(rec, &call.args),
        Some(RecOp::Replace) => rec_replace(rec, call),
        Some(RecOp::Enum) => rec_enum(rec, call),
        Some(RecOp::Explode) => rec_explode(rec, call),
        Some(RecOp::Implode) => rec_implode(rec, call),
        Some(RecOp::Groupby) => rec_groupby(rec, call, folder),
        Some(RecOp::Reshape) => rec_reshape(rec, call),
        Some(RecOp::Flatten) => rec_flatten_as_records(rec, call),
        None => Err(crate::text::concat2("unknown rec method: ", call.name.as_str())),
    }
}

// ---------------------------------------------------------------------------
// Laws
// ---------------------------------------------------------------------------

/// Rows that render and read back unchanged with the default separators:
/// every row has fields, every field has characters, none of them
/// whitespace.
pub open spec fn plain_rows(t: Seq<Seq<Seq<char>>>) -> bool {
    &&& forall|y: int| 0 <= y < t.len() ==> #[trigger] t[y].len() > 0
    &&& forall|y: int, k: int| 0 <= y < t.len() && 0 <= k < t[y].len() ==> #[trigger] t[y][k].len() > 0
    &&& forall|y: int, k: int, j: int|
        0 <= y < t.len() && 0 <= k < t[y].len() && 0 <= j < t[y][k].len() ==> !is_ws(
            #[trigger] t[y][k][j],
        )
}

proof fn lemma_join_chars(fields: Seq<Seq<char>>)
    requires
        forall|k: int, j: int|
            0 <= k < fields.len() && 0 <= j < fields[k].len() ==> !is_ws(#[trigger] fields[k][j]),
        forall|k: int| 0 <= k < fields.len() ==> #[trigger] fields[k].len() > 0,
    ensures
        forall|j: int|
            0 <= j < join_spec(fields, seq![' ']).len() ==> #[trigger] join_spec(fields, seq![' '])[j]
                == ' ' || !is_ws(join_spec(fields, seq![' '])[j]),
        fields.len() > 0 ==> join_spec(fields, seq![' ']).len() > 0 && !is_ws(
            join_spec(fields, seq![' ']).last(),
        ),
    decreases fields.len(),
{
    if fields.len() > 0 {
        let init = fields.drop_last();
        let last = fields.last();
        assert(last.len() > 0);
        assert(!is_ws(last[last.len() - 1]));
        if fields.len() == 1 {
            assert(join_spec(fields, seq![' ']) == fields[0]);
        } else {
            assert forall|k: int, j: int| 0 <= k < init.len() && 0 <= j < init[k].len() implies !is_ws(
                #[trigger] init[k][j],
            ) by {
                assert(init[k] == fields[k]);
            }
            assert forall|k: int| 0 <= k < init.len() implies #[trigger] init[k].len() > 0 by {
                assert(init[k] == fields[k]);
            }
            lemma_join_chars(init);
            let x = join_spec(init, seq![' ']);
            let whole = join_spec(fields, seq![' ']);
            assert(whole == x + seq![' '] + last);
            assert forall|j: int| 0 <= j < whole.len() implies #[trigger] whole[j] == ' ' || !is_ws(
                whole[j],
            ) by {
                if j < x.len() {
                    assert(whole[j] == x[j]);
                } else if j > x.len() {
                    assert(whole[j] == last[j - x.len() - 1]);
                }
            }
            assert(whole.last() == last.last());
        }
    }
}

/// The joined rows.
pub open spec fn joined_rows(t: Seq<Seq<Seq<char>>>) -> Seq<Seq<char>> {
    t.map_values(|row: Seq<Seq<char>>| join_spec(row, seq![' ']))
}

proof fn lemma_render_lines(t: Seq<Seq<Seq<char>>>)
    requires
        plain_rows(t),
    ensures
        lines_spec(render_rows(t, seq![' '], seq!['\n'])) == joined_rows(t),
        render_rows(t, seq![' '], seq!['\n']).len() == 0 || render_rows(
            t,
            seq![' '],
            seq!['\n'],
        ).last() == '\n',
    decreases t.len(),
{
    if t.len() > 0 {
        let init = t.drop_last();
        let row = t.last();
        assert forall|y: int| 0 <= y < init.len() implies #[trigger] init[y].len() > 0 by {
            assert(init[y] == t[y]);
        }
        assert forall|y: int, k: int| 0 <= y < init.len() && 0 <= k < init[y].len() implies #[trigger] init[y][k].len() > 0 by {
            assert(init[y] == t[y]);
        }
        assert forall|y: int, k: int, j: int|
            0 <= y < init.len() && 0 <= k < init[y].len() && 0 <= j < init[y][k].len() implies !is_ws(
                #[trigger] init[y][k][j],
            ) by {
            assert(init[y] == t[y]);
            assert(t[y][k][j] == init[y][k][j]);
        }
        lemma_render_lines(init);
        let y0 = t.len() - 1;
        assert forall|k: int, j: int| 0 <= k < row.len() && 0 <= j < row[k].len() implies !is_ws(
            #[trigger] row[k][j],
        ) by {
            assert(row[k][j] == t[y0][k][j]);
        }
        assert forall|k: int| 0 <= k < row.len() implies #[trigger] row[k].len() > 0 by {
            assert(row[k] == t[y0][k]);
        }
        assert(row.len() > 0) by {
            assert(t[y0].len() > 0);
        }
        lemma_join_chars(row);
        let line = join_spec(row, seq![' ']);
        assert(!line.contains('\n')) by {
            if line.contains('\n') {
                let j = choose|j: int| 0 <= j < line.len() && line[j] == '\n';
                assert(line[j] == ' ' || !is_ws(line[j]));
            }
        }
        let before = render_rows(init, seq![' '], seq!['\n']);
        assert(render_rows(t, seq![' '], seq!['\n']) == before + line + seq!['\n']);
        assert(before + line + seq!['\n'] =~= before + (line + seq!['\n']));
        lemma_lines_concat(before, line + seq!['\n']);
        lemma_lines_single(line);
        assert(strip_cr(line) == line);
        assert(joined_rows(t) =~= joined_rows(init).push(line));
    }
}

/// Records rendered with a space between fields and a newline after each
/// row read back, with the default separators, as the same records: when
/// every row has fields and every field has characters, none of them
/// whitespace.
pub proof fn law_render_then_parse(t: Seq<Seq<Seq<char>>>)
    requires
        plain_rows(t),
    ensures
        parse_rows(render_rows(t, seq![' '], seq!['\n']), seq!['\n'], ws_fs()) == t,
{
    let text = render_rows(t, seq![' '], seq!['\n']);
    lemma_render_lines(t);
    crate::text::law_unescape_plain(seq!['\n']);
    let lines = joined_rows(t);
    assert forall|y: int| 0 <= y < t.len() implies #[trigger] lines[y].len() > 0 && trim_end_cr(
        lines[y],
    ) == lines[y] && split_ws_spec(lines[y]) == t[y] by {
        let row = t[y];
        assert forall|k: int, j: int| 0 <= k < row.len() && 0 <= j < row[k].len() implies !is_ws(
            #[trigger] row[k][j],
        ) by {
            assert(row[k][j] == t[y][k][j]);
        }
        assert forall|k: int| 0 <= k < row.len() implies #[trigger] row[k].len() > 0 by {
            assert(t[y][k].len() > 0);
        }
        assert(row.len() > 0) by {
            assert(t[y].len() > 0);
        }
        lemma_join_chars(row);
        lemma_ws_join(row);
        assert forall|i: int| 0 <= i < row.len() implies (|p: Seq<char>| p.len() > 0)(#[trigger] row[i]) by {
        }
        crate::seqs::lemma_filter_all(row, |p: Seq<char>| p.len() > 0);
    }
    let raw = raw_lines(text, seq!['\n']);
    assert(raw =~= lines);
    assert forall|i: int| 0 <= i < raw.len() implies (|l: Seq<char>| l.len() > 0)(#[trigger] raw[i]) by {
    }
    crate::seqs::lemma_filter_all(raw, |l: Seq<char>| l.len() > 0);
    assert(record_lines(text, seq!['\n']) == lines);
    assert(parse_rows(text, seq!['\n'], ws_fs()) =~= t);
}

proof fn lemma_record_method_names()
    ensures
        "rs"@ != "fs"@,
        "ofs"@ != "fs"@,
        "ofs"@ != "rs"@,
        "ors"@ != "fs"@,
        "ors"@ != "rs"@,
        "ors"@ != "ofs"@,
        "chars"@ != "fs"@,
        "chars"@ != "rs"@,
        "chars"@ != "ofs"@,
        "chars"@ != "ors"@,
        "ch"@ != "fs"@,
        "ch"@ != "rs"@,
        "ch"@ != "ofs"@,
        "ch"@ != "ors"@,
        "ch"@ != "chars"@,
        "countif"@ != "fs"@,
        "countif"@ != "rs"@,
        "countif"@ != "ofs"@,
        "countif"@ != "ors"@,
        "countif"@ != "chars"@,
        "countif"@ != "ch"@,
        "ci"@ != "fs"@,
        "ci"@ != "rs"@,
        "ci"@ != "ofs"@,
        "ci"@ != "ors"@,
        "ci"@ != "chars"@,
        "ci"@ != "ch"@,
        "ci"@ != "countif"@,
        "select"@ != "fs"@,
        "select"@ != "rs"@,
        "select"@ != "ofs"@,
        "select"@ != "ors"@,
        "select"@ != "chars"@,
        "select"@ != "ch"@,
        "select"@ != "countif"@,
        "select"@ != "ci"@,
        "p"@ != "fs"@,
        "p"@ != "rs"@,
        "p"@ != "ofs"@,
        "p"@ != "ors"@,
        "p"@ != "chars"@,
        "p"@ != "ch"@,
        "p"@ != "countif"@,
        "p"@ != "ci"@,
        "p"@ != "select"@,
        "replace"@ != "fs"@,
        "replace"@ != "rs"@,
        "replace"@ != "ofs"@,
        "replace"@ != "ors"@,
        "replace"@ != "chars"@,
        "replace"@ != "ch"@,
        "replace"@ != "countif"@,
        "replace"@ != "ci"@,
        "replace"@ != "select"@,
        "replace"@ != "p"@,
        "sb"@ != "fs"@,
        "sb"@ != "rs"@,
        "sb"@ != "ofs"@,
        "sb"@ != "ors"@,
        "sb"@ != "chars"@,
        "sb"@ != "ch"@,
        "sb"@ != "countif"@,
        "sb"@ != "ci"@,
        "sb"@ != "select"@,
        "sb"@ != "p"@,
        "sb"@ != "replace"@,
        "enum"@ != "fs"@,
        "enum"@ != "rs"@,
        "enum"@ != "ofs"@,
        "enum"@ != "ors"@,
        "enum"@ != "chars"@,
        "enum"@ != "ch"@,
        "enum"@ != "countif"@,
        "enum"@ != "ci"@,
        "enum"@ != "select"@,
        "enum"@ != "p"@,
        "enum"@ != "replace"@,
        "enum"@ != "sb"@,
        "n"@ != "fs"@,
        "n"@ != "rs"@,
        "n"@ != "ofs"@,
        "n"@ != "ors"@,
        "n"@ != "chars"@,
        "n"@ != "ch"@,
        "n"@ != "countif"@,
        "n"@ != "ci"@,
        "n"@ != "select"@,
        "n"@ != "p"@,
        "n"@ != "replace"@,
        "n"@ != "sb"@,
        "n"@ != "enum"@,
        "explode"@ != "fs"@,
        "explode"@ != "rs"@,
        "explode"@ != "ofs"@,
        "explode"@ != "ors"@,
        "explode"@ != "chars"@,
        "explode"@ != "ch"@,
        "explode"@ != "countif"@,
        "explode"@ != "ci"@,
        "explode"@ != "select"@,
        "explode"@ != "p"@,
        "explode"@ != "replace"@,
        "explode"@ != "sb"@,
        "explode"@ != "enum"@,
        "explode"@ != "n"@,
        "x"@ != "fs"@,
        "x"@ != "rs"@,
        "x"@ != "ofs"@,
        "x"@ != "ors"@,
        "x"@ != "chars"@,
        "x"@ != "ch"@,
        "x"@ != "countif"@,
        "x"@ != "ci"@,
        "x"@ != "select"@,
        "x"@ != "p"@,
        "x"@ != "replace"@,
        "x"@ != "sb"@,
        "x"@ != "enum"@,
        "x"@ != "n"@,
        "x"@ != "explode"@,
        "implode"@ != "fs"@,
        "implode"@ != "rs"@,
        "implode"@ != "ofs"@,
        "implode"@ != "ors"@,
        "implode"@ != "chars"@,
        "implode"@ != "ch"@,
        "implode"@ != "countif"@,
        "implode"@ != "ci"@,
        "implode"@ != "select"@,
        "implode"@ != "p"@,
        "implode"@ != "replace"@,
        "implode"@ != "sb"@,
        "implode"@ != "enum"@,
        "implode"@ != "n"@,
        "implode"@ != "explode"@,
        "implode"@ != "x"@,
        "i"@ != "fs"@,
        "i"@ != "rs"@,
        "i"@ != "ofs"@,
        "i"@ != "ors"@,
        "i"@ != "chars"@,
        "i"@ != "ch"@,
        "i"@ != "countif"@,
        "i"@ != "ci"@,
        "i"@ != "select"@,
        "i"@ != "p"@,
        "i"@ != "replace"@,
        "i"@ != "sb"@,
        "i"@ != "enum"@,
        "i"@ != "n"@,
        "i"@ != "explode"@,
        "i"@ != "x"@,
        "i"@ != "implode"@,
        "groupby"@ != "fs"@,
        "groupby"@ != "rs"@,
        "groupby"@ != "ofs"@,
        "groupby"@ != "ors"@,
        "groupby"@ != "chars"@,
        "groupby"@ != "ch"@,
        "groupby"@ != "countif"@,
        "groupby"@ != "ci"@,
        "groupby"@ != "select"@,
        "groupby"@ != "p"@,
        "groupby"@ != "replace"@,
        "groupby"@ != "sb"@,
        "groupby"@ != "enum"@,
        "groupby"@ != "n"@,
        "groupby"@ != "explode"@,
        "groupby"@ != "x"@,
        "groupby"@ != "implode"@,
        "groupby"@ != "i"@,
        "g"@ != "fs"@,
        "g"@ != "rs"@,
        "g"@ != "ofs"@,
        "g"@ != "ors"@,
        "g"@ != "chars"@,
        "g"@ != "ch"@,
        "g"@ != "countif"@,
        "g"@ != "ci"@,
        "g"@ != "select"@,
        "g"@ != "p"@,
        "g"@ != "replace"@,
        "g"@ != "sb"@,
        "g"@ != "enum"@,
        "g"@ != "n"@,
        "g"@ != "explode"@,
        "g"@ != "x"@,
        "g"@ != "implode"@,
        "g"@ != "i"@,
        "g"@ != "groupby"@,
        "reshape"@ != "fs"@,
        "reshape"@ != "rs"@,
        "reshape"@ != "ofs"@,
        "reshape"@ != "ors"@,
        "reshape"@ != "chars"@,
        "reshape"@ != "ch"@,
        "reshape"@ != "countif"@,
        "reshape"@ != "ci"@,
        "reshape"@ != "select"@,
        "reshape"@ != "p"@,
        "reshape"@ != "replace"@,
        "reshape"@ != "sb"@,
        "reshape"@ != "enum"@,
        "reshape"@ != "n"@,
        "reshape"@ != "explode"@,
        "reshape"@ != "x"@,
        "reshape"@ != "implode"@,
        "reshape"@ != "i"@,
        "reshape"@ != "groupby"@,
        "reshape"@ != "g"@,
        "sh"@ != "fs"@,
        "sh"@ != "rs"@,
        "sh"@ != "ofs"@,
        "sh"@ != "ors"@,
        "sh"@ != "chars"@,
        "sh"@ != "ch"@,
        "sh"@ != "countif"@,
        "sh"@ != "ci"@,
        "sh"@ != "select"@,
        "sh"@ != "p"@,
        "sh"@ != "replace"@,
        "sh"@ != "sb"@,
        "sh"@ != "enum"@,
        "sh"@ != "n"@,
        "sh"@ != "explode"@,
        "sh"@ != "x"@,
        "sh"@ != "implode"@,
        "sh"@ != "i"@,
        "sh"@ != "groupby"@,
        "sh"@ != "g"@,
        "sh"@ != "reshape"@,
        "flatten"@ != "fs"@,
        "flatten"@ != "rs"@,
        "flatten"@ != "ofs"@,
        "flatten"@ != "ors"@,
        "flatten"@ != "chars"@,
        "flatten"@ != "ch"@,
        "flatten"@ != "countif"@,
        "flatten"@ != "ci"@,
        "flatten"@ != "select"@,
        "flatten"@ != "p"@,
        "flatten"@ != "replace"@,
        "flatten"@ != "sb"@,
        "flatten"@ != "enum"@,
        "flatten"@ != "n"@,
        "flatten"@ != "explode"@,
        "flatten"@ != "x"@,
        "flatten"@ != "implode"@,
        "flatten"@ != "i"@,
        "flatten"@ != "groupby"@,
        "flatten"@ != "g"@,
        "flatten"@ != "reshape"@,
        "flatten"@ != "sh"@,
        "f"@ != "fs"@,
        "f"@ != "rs"@,
        "f"@ != "ofs"@,
        "f"@ != "ors"@,
        "f"@ != "chars"@,
        "f"@ != "ch"@,
        "f"@ != "countif"@,
        "f"@ != "ci"@,
        "f"@ != "select"@,
        "f"@ != "p"@,
        "f"@ != "replace"@,
        "f"@ != "sb"@,
        "f"@ != "enum"@,
        "f"@ != "n"@,
        "f"@ != "explode"@,
        "f"@ != "x"@,
        "f"@ != "implode"@,
        "f"@ != "i"@,
        "f"@ != "groupby"@,
        "f"@ != "g"@,
        "f"@ != "reshape"@,
        "f"@ != "sh"@,
        "f"@ != "flatten"@,
{
    reveal_strlit("fs");
    reveal_strlit("rs");
    reveal_strlit("ofs");
    reveal_strlit("ors");
    reveal_strlit("chars");
    reveal_strlit("ch");
    reveal_strlit("countif");
    reveal_strlit("ci");
    reveal_strlit("select");
    reveal_strlit("p");
    reveal_strlit("replace");
    reveal_strlit("sb");
    reveal_strlit("enum");
    reveal_strlit("n");
    reveal_strlit("explode");
    reveal_strlit("x");
    reveal_strlit("implode");
    reveal_strlit("i");
    reveal_strlit("groupby");
    reveal_strlit("g");
    reveal_strlit("reshape");
    reveal_strlit("sh");
    reveal_strlit("flatten");
    reveal_strlit("f");
    assert("fs"@ =~= seq!['f', 's']);
    assert("rs"@ =~= seq!['r', 's']);
    assert("ofs"@ =~= seq!['o', 'f', 's']);
    assert("ors"@ =~= seq!['o', 'r', 's']);
    assert("chars"@ =~= seq!['c', 'h', 'a', 'r', 's']);
    assert("ch"@ =~= seq!['c', 'h']);
    assert("countif"@ =~= seq!['c', 'o', 'u', 'n', 't', 'i', 'f']);
    assert("ci"@ =~= seq!['c', 'i']);
    assert("select"@ =~= seq!['s', 'e', 'l', 'e', 'c', 't']);
    assert("p"@ =~= seq!['p']);
    assert("replace"@ =~= seq!['r', 'e', 'p', 'l', 'a', 'c', 'e']);
    assert("sb"@ =~= seq!['s', 'b']);
    assert("enum"@ =~= seq!['e', 'n', 'u', 'm']);
    assert("n"@ =~= seq!['n']);
    assert("explode"@ =~= seq!['e', 'x', 'p', 'l', 'o', 'd', 'e']);
    assert("x"@ =~= seq!['x']);
    assert("implode"@ =~= seq!['i', 'm', 'p', 'l', 'o', 'd', 'e']);
    assert("i"@ =~= seq!['i']);
    assert("groupby"@ =~= seq!['g', 'r', 'o', 'u', 'p', 'b', 'y']);
    assert("g"@ =~= seq!['g']);
    assert("reshape"@ =~= seq!['r', 'e', 's', 'h', 'a', 'p', 'e']);
    assert("sh"@ =~= seq!['s', 'h']);
    assert("flatten"@ =~= seq!['f', 'l', 'a', 't', 't', 'e', 'n']);
    assert("f"@ =~= seq!['f']);
    assert("rs"@ != "fs"@) by {
        assert("rs"@[0] != "fs"@[0]);
    }
    assert("ofs"@ != "fs"@) by {
        assert("ofs"@.len() != "fs"@.len());
    }
    assert("ofs"@ != "rs"@) by {
        assert("ofs"@.len() != "rs"@.len());
    }
    assert("ors"@ != "fs"@) by {
        assert("ors"@.len() != "fs"@.len());
    }
    assert("ors"@ != "rs"@) by {
        assert("ors"@.len() != "rs"@.len());
    }
    assert("ors"@ != "ofs"@) by {
        assert("ors"@[1] != "ofs"@[1]);
    }
    assert("chars"@ != "fs"@) by {
        assert("chars"@.len() != "fs"@.len());
    }
    assert("chars"@ != "rs"@) by {
        assert("chars"@.len() != "rs"@.len());
    }
    assert("chars"@ != "ofs"@) by {
        assert("chars"@.len() != "ofs"@.len());
    }
    assert("chars"@ != "ors"@) by {
        assert("chars"@.len() != "ors"@.len());
    }
    assert("ch"@ != "fs"@) by {
        assert("ch"@[0] != "fs"@[0]);
    }
    assert("ch"@ != "rs"@) by {
        assert("ch"@[0] != "rs"@[0]);
    }
    assert("ch"@ != "ofs"@) by {
        assert("ch"@.len() != "ofs"@.len());
    }
    assert("ch"@ != "ors"@) by {
        assert("ch"@.len() != "ors"@.len());
    }
    assert("ch"@ != "chars"@) by {
        assert("ch"@.len() != "chars"@.len());
    }
    assert("countif"@ != "fs"@) by {
        assert("countif"@.len() != "fs"@.len());
    }
    assert("countif"@ != "rs"@) by {
        assert("countif"@.len() != "rs"@.len());
    }
    assert("countif"@ != "ofs"@) by {
        assert("countif"@.len() != "ofs"@.len());
    }
    assert("countif"@ != "ors"@) by {
        assert("countif"@.len() != "ors"@.len());
    }
    assert("countif"@ != "chars"@) by {
        assert("countif"@.len() != "chars"@.len());
    }
    assert("countif"@ != "ch"@) by {
        assert("countif"@.len() != "ch"@.len());
    }
    assert("ci"@ != "fs"@) by {
        assert("ci"@[0] != "fs"@[0]);
    }
    assert("ci"@ != "rs"@) by {
        assert("ci"@[0] != "rs"@[0]);
    }
    assert("ci"@ != "ofs"@) by {
        assert("ci"@.len() != "ofs"@.len());
    }
    assert("ci"@ != "ors"@) by {
        assert("ci"@.len() != "ors"@.len());
    }
    assert("ci"@ != "chars"@) by {
        assert("ci"@.len() != "chars"@.len());
    }
    assert("ci"@ != "ch"@) by {
        assert("ci"@[1] != "ch"@[1]);
    }
    assert("ci"@ != "countif"@) by {
        assert("ci"@.len() != "countif"@.len());
    }
    assert("select"@ != "fs"@) by {
        assert("select"@.len() != "fs"@.len());
    }
    assert("select"@ != "rs"@) by {
        assert("select"@.len() != "rs"@.len());
    }
    assert("select"@ != "ofs"@) by {
        assert("select"@.len() != "ofs"@.len());
    }
    assert("select"@ != "ors"@) by {
        assert("select"@.len() != "ors"@.len());
    }
    assert("select"@ != "chars"@) by {
        assert("select"@.len() != "chars"@.len());
    }
    assert("select"@ != "ch"@) by {
        assert("select"@.len() != "ch"@.len());
    }
    assert("select"@ != "countif"@) by {
        assert("select"@.len() != "countif"@.len());
    }
    assert("select"@ != "ci"@) by {
        assert("select"@.len() != "ci"@.len());
    }
    assert("p"@ != "fs"@) by {
        assert("p"@.len() != "fs"@.len());
    }
    assert("p"@ != "rs"@) by {
        assert("p"@.len() != "rs"@.len());
    }
    assert("p"@ != "ofs"@) by {
        assert("p"@.len() != "ofs"@.len());
    }
    assert("p"@ != "ors"@) by {
        assert("p"@.len() != "ors"@.len());
    }
    assert("p"@ != "chars"@) by {
        assert("p"@.len() != "chars"@.len());
    }
    assert("p"@ != "ch"@) by {
        assert("p"@.len() != "ch"@.len());
    }
    assert("p"@ != "countif"@) by {
        assert("p"@.len() != "countif"@.len());
    }
    assert("p"@ != "ci"@) by {
        assert("p"@.len() != "ci"@.len());
    }
    assert("p"@ != "select"@) by {
        assert("p"@.len() != "select"@.len());
    }
    assert("replace"@ != "fs"@) by {
        assert("replace"@.len() != "fs"@.len());
    }
    assert("replace"@ != "rs"@) by {
        assert("replace"@.len() != "rs"@.len());
    }
    assert("replace"@ != "ofs"@) by {
        assert("replace"@.len() != "ofs"@.len());
    }
    assert("replace"@ != "ors"@) by {
        assert("replace"@.len() != "ors"@.len());
    }
    assert("replace"@ != "chars"@) by {
        assert("replace"@.len() != "chars"@.len());
    }
    assert("replace"@ != "ch"@) by {
        assert("replace"@.len() != "ch"@.len());
    }
    assert("replace"@ != "countif"@) by {
        assert("replace"@[0] != "countif"@[0]);
    }
    assert("replace"@ != "ci"@) by {
        assert("replace"@.len() != "ci"@.len());
    }
    assert("replace"@ != "select"@) by {
        assert("replace"@.len() != "select"@.len());
    }
    assert("replace"@ != "p"@) by {
        assert("replace"@.len() != "p"@.len());
    }
    assert("sb"@ != "fs"@) by {
        assert("sb"@[0] != "fs"@[0]);
    }
    assert("sb"@ != "rs"@) by {
        assert("sb"@[0] != "rs"@[0]);
    }
    assert("sb"@ != "ofs"@) by {
        assert("sb"@.len() != "ofs"@.len());
    }
    assert("sb"@ != "ors"@) by {
        assert("sb"@.len() != "ors"@.len());
    }
    assert("sb"@ != "chars"@) by {
        assert("sb"@.len() != "chars"@.len());
    }
    assert("sb"@ != "ch"@) by {
        assert("sb"@[0] != "ch"@[0]);
    }
    assert("sb"@ != "countif"@) by {
        assert("sb"@.len() != "countif"@.len());
    }
    assert("sb"@ != "ci"@) by {
        assert("sb"@[0] != "ci"@[0]);
    }
    assert("sb"@ != "select"@) by {
        assert("sb"@.len() != "select"@.len());
    }
    assert("sb"@ != "p"@) by {
        assert("sb"@.len() != "p"@.len());
    }
    assert("sb"@ != "replace"@) by {
        assert("sb"@.len() != "replace"@.len());
    }
    assert("enum"@ != "fs"@) by {
        assert("enum"@.len() != "fs"@.len());
    }
    assert("enum"@ != "rs"@) by {
        assert("enum"@.len() != "rs"@.len());
    }
    assert("enum"@ != "ofs"@) by {
        assert("enum"@.len() != "ofs"@.len());
    }
    assert("enum"@ != "ors"@) by {
        assert("enum"@.len() != "ors"@.len());
    }
    assert("enum"@ != "chars"@) by {
        assert("enum"@.len() != "chars"@.len());
    }
    assert("enum"@ != "ch"@) by {
        assert("enum"@.len() != "ch"@.len());
    }
    assert("enum"@ != "countif"@) by {
        assert("enum"@.len() != "countif"@.len());
    }
    assert("enum"@ != "ci"@) by {
        assert("enum"@.len() != "ci"@.len());
    }
    assert("enum"@ != "select"@) by {
        assert("enum"@.len() != "select"@.len());
    }
    assert("enum"@ != "p"@) by {
        assert("enum"@.len() != "p"@.len());
    }
    assert("enum"@ != "replace"@) by {
        assert("enum"@.len() != "replace"@.len());
    }
    assert("enum"@ != "sb"@) by {
        assert("enum"@.len() != "sb"@.len());
    }
    assert("n"@ != "fs"@) by {
        assert("n"@.len() != "fs"@.len());
    }
    assert("n"@ != "rs"@) by {
        assert("n"@.len() != "rs"@.len());
    }
    assert("n"@ != "ofs"@) by {
        assert("n"@.len() != "ofs"@.len());
    }
    assert("n"@ != "ors"@) by {
        assert("n"@.len() != "ors"@.len());
    }
    assert("n"@ != "chars"@) by {
        assert("n"@.len() != "chars"@.len());
    }
    assert("n"@ != "ch"@) by {
        assert("n"@.len() != "ch"@.len());
    }
    assert("n"@ != "countif"@) by {
        assert("n"@.len() != "countif"@.len());
    }
    assert("n"@ != "ci"@) by {
        assert("n"@.len() != "ci"@.len());
    }
    assert("n"@ != "select"@) by {
        assert("n"@.len() != "select"@.len());
    }
    assert("n"@ != "p"@) by {
        assert("n"@[0] != "p"@[0]);
    }
    assert("n"@ != "replace"@) by {
        assert("n"@.len() != "replace"@.len());
    }
    assert("n"@ != "sb"@) by {
        assert("n"@.len() != "sb"@.len());
    }
    assert("n"@ != "enum"@) by {
        assert("n"@.len() != "enum"@.len());
    }
    assert("explode"@ != "fs"@) by {
        assert("explode"@.len() != "fs"@.len());
    }
    assert("explode"@ != "rs"@) by {
        assert("explode"@.len() != "rs"@.len());
    }
    assert("explode"@ != "ofs"@) by {
        assert("explode"@.len() != "ofs"@.len());
    }
    assert("explode"@ != "ors"@) by {
        assert("explode"@.len() != "ors"@.len());
    }
    assert("explode"@ != "chars"@) by {
        assert("explode"@.len() != "chars"@.len());
    }
    assert("explode"@ != "ch"@) by {
        assert("explode"@.len() != "ch"@.len());
    }
    assert("explode"@ != "countif"@) by {
        assert("explode"@[0] != "countif"@[0]);
    }
    assert("explode"@ != "ci"@) by {
        assert("explode"@.len() != "ci"@.len());
    }
    assert("explode"@ != "select"@) by {
        assert("explode"@.len() != "select"@.len());
    }
    assert("explode"@ != "p"@) by {
        assert("explode"@.len() != "p"@.len());
    }
    assert("explode"@ != "replace"@) by {
        assert("explode"@[0] != "replace"@[0]);
    }
    assert("explode"@ != "sb"@) by {
        assert("explode"@.len() != "sb"@.len());
    }
    assert("explode"@ != "enum"@) by {
        assert("explode"@.len() != "enum"@.len());
    }
    assert("explode"@ != "n"@) by {
        assert("explode"@.len() != "n"@.len());
    }
    assert("x"@ != "fs"@) by {
        assert("x"@.len() != "fs"@.len());
    }
    assert("x"@ != "rs"@) by {
        assert("x"@.len() != "rs"@.len());
    }
    assert("x"@ != "ofs"@) by {
        assert("x"@.len() != "ofs"@.len());
    }
    assert("x"@ != "ors"@) by {
        assert("x"@.len() != "ors"@.len());
    }
    assert("x"@ != "chars"@) by {
        assert("x"@.len() != "chars"@.len());
    }
    assert("x"@ != "ch"@) by {
        assert("x"@.len() != "ch"@.len());
    }
    assert("x"@ != "countif"@) by {
        assert("x"@.len() != "countif"@.len());
    }
    assert("x"@ != "ci"@) by {
        assert("x"@.len() != "ci"@.len());
    }
    assert("x"@ != "select"@) by {
        assert("x"@.len() != "select"@.len());
    }
    assert("x"@ != "p"@) by {
        assert("x"@[0] != "p"@[0]);
    }
    assert("x"@ != "replace"@) by {
        assert("x"@.len() != "replace"@.len());
    }
    assert("x"@ != "sb"@) by {
        assert("x"@.len() != "sb"@.len());
    }
    assert("x"@ != "enum"@) by {
        assert("x"@.len() != "enum"@.len());
    }
    assert("x"@ != "n"@) by {
        assert("x"@[0] != "n"@[0]);
    }
    assert("x"@ != "explode"@) by {
        assert("x"@.len() != "explode"@.len());
    }
    assert("implode"@ != "fs"@) by {
        assert("implode"@.len() != "fs"@.len());
    }
    assert("implode"@ != "rs"@) by {
        assert("implode"@.len() != "rs"@.len());
    }
    assert("implode"@ != "ofs"@) by {
        assert("implode"@.len() != "ofs"@.len());
    }
    assert("implode"@ != "ors"@) by {
        assert("implode"@.len() != "ors"@.len());
    }
    assert("implode"@ != "chars"@) by {
        assert("implode"@.len() != "chars"@.len());
    }
    assert("implode"@ != "ch"@) by {
        assert("implode"@.len() != "ch"@.len());
    }
    assert("implode"@ != "countif"@) by {
        assert("implode"@[0] != "countif"@[0]);
    }
    assert("implode"@ != "ci"@) by {
        assert("implode"@.len() != "ci"@.len());
    }
    assert("implode"@ != "select"@) by {
        assert("implode"@.len() != "select"@.len());
    }
    assert("implode"@ != "p"@) by {
        assert("implode"@.len() != "p"@.len());
    }
    assert("implode"@ != "replace"@) by {
        assert("implode"@[0] != "replace"@[0]);
    }
    assert("implode"@ != "sb"@) by {
        assert("implode"@.len() != "sb"@.len());
    }
    assert("implode"@ != "enum"@) by {
        assert("implode"@.len() != "enum"@.len());
    }
    assert("implode"@ != "n"@) by {
        assert("implode"@.len() != "n"@.len());
    }
    assert("implode"@ != "explode"@) by {
        assert("implode"@[0] != "explode"@[0]);
    }
    assert("implode"@ != "x"@) by {
        assert("implode"@.len() != "x"@.len());
    }
    assert("i"@ != "fs"@) by {
        assert("i"@.len() != "fs"@.len());
    }
    assert("i"@ != "rs"@) by {
        assert("i"@.len() != "rs"@.len());
    }
    assert("i"@ != "ofs"@) by {
        assert("i"@.len() != "ofs"@.len());
    }
    assert("i"@ != "ors"@) by {
        assert("i"@.len() != "ors"@.len());
    }
    assert("i"@ != "chars"@) by {
        assert("i"@.len() != "chars"@.len());
    }
    assert("i"@ != "ch"@) by {
        assert("i"@.len() != "ch"@.len());
    }
    assert("i"@ != "countif"@) by {
        assert("i"@.len() != "countif"@.len());
    }
    assert("i"@ != "ci"@) by {
        assert("i"@.len() != "ci"@.len());
    }
    assert("i"@ != "select"@) by {
        assert("i"@.len() != "select"@.len());
    }
    assert("i"@ != "p"@) by {
        assert("i"@[0] != "p"@[0]);
    }
    assert("i"@ != "replace"@) by {
        assert("i"@.len() != "replace"@.len());
    }
    assert("i"@ != "sb"@) by {
        assert("i"@.len() != "sb"@.len());
    }
    assert("i"@ != "enum"@) by {
        assert("i"@.len() != "enum"@.len());
    }
    assert("i"@ != "n"@) by {
        assert("i"@[0] != "n"@[0]);
    }
    assert("i"@ != "explode"@) by {
        assert("i"@.len() != "explode"@.len());
    }
    assert("i"@ != "x"@) by {
        assert("i"@[0] != "x"@[0]);
    }
    assert("i"@ != "implode"@) by {
        assert("i"@.len() != "implode"@.len());
    }
    assert("groupby"@ != "fs"@) by {
        assert("groupby"@.len() != "fs"@.len());
    }
    assert("groupby"@ != "rs"@) by {
        assert("groupby"@.len() != "rs"@.len());
    }
    assert("groupby"@ != "ofs"@) by {
        assert("groupby"@.len() != "ofs"@.len());
    }
    assert("groupby"@ != "ors"@) by {
        assert("groupby"@.len() != "ors"@.len());
    }
    assert("groupby"@ != "chars"@) by {
        assert("groupby"@.len() != "chars"@.len());
    }
    assert("groupby"@ != "ch"@) by {
        assert("groupby"@.len() != "ch"@.len());
    }
    assert("groupby"@ != "countif"@) by {
        assert("groupby"@[0] != "countif"@[0]);
    }
    assert("groupby"@ != "ci"@) by {
        assert("groupby"@.len() != "ci"@.len());
    }
    assert("groupby"@ != "select"@) by {
        assert("groupby"@.len() != "select"@.len());
    }
    assert("groupby"@ != "p"@) by {
        assert("groupby"@.len() != "p"@.len());
    }
    assert("groupby"@ != "replace"@) by {
        assert("groupby"@[0] != "replace"@[0]);
    }
    assert("groupby"@ != "sb"@) by {
        assert("groupby"@.len() != "sb"@.len());
    }
    assert("groupby"@ != "enum"@) by {
        assert("groupby"@.len() != "enum"@.len());
    }
    assert("groupby"@ != "n"@) by {
        assert("groupby"@.len() != "n"@.len());
    }
    assert("groupby"@ != "explode"@) by {
        assert("groupby"@[0] != "explode"@[0]);
    }
    assert("groupby"@ != "x"@) by {
        assert("groupby"@.len() != "x"@.len());
    }
    assert("groupby"@ != "implode"@) by {
        assert("groupby"@[0] != "implode"@[0]);
    }
    assert("groupby"@ != "i"@) by {
        assert("groupby"@.len() != "i"@.len());
    }
    assert("g"@ != "fs"@) by {
        assert("g"@.len() != "fs"@.len());
    }
    assert("g"@ != "rs"@) by {
        assert("g"@.len() != "rs"@.len());
    }
    assert("g"@ != "ofs"@) by {
        assert("g"@.len() != "ofs"@.len());
    }
    assert("g"@ != "ors"@) by {
        assert("g"@.len() != "ors"@.len());
    }
    assert("g"@ != "chars"@) by {
        assert("g"@.len() != "chars"@.len());
    }
    assert("g"@ != "ch"@) by {
        assert("g"@.len() != "ch"@.len());
    }
    assert("g"@ != "countif"@) by {
        assert("g"@.len() != "countif"@.len());
    }
    assert("g"@ != "ci"@) by {
        assert("g"@.len() != "ci"@.len());
    }
    assert("g"@ != "select"@) by {
        assert("g"@.len() != "select"@.len());
    }
    assert("g"@ != "p"@) by {
        assert("g"@[0] != "p"@[0]);
    }
    assert("g"@ != "replace"@) by {
        assert("g"@.len() != "replace"@.len());
    }
    assert("g"@ != "sb"@) by {
        assert("g"@.len() != "sb"@.len());
    }
    assert("g"@ != "enum"@) by {
        assert("g"@.len() != "enum"@.len());
    }
    assert("g"@ != "n"@) by {
        assert("g"@[0] != "n"@[0]);
    }
    assert("g"@ != "explode"@) by {
        assert("g"@.len() != "explode"@.len());
    }
    assert("g"@ != "x"@) by {
        assert("g"@[0] != "x"@[0]);
    }
    assert("g"@ != "implode"@) by {
        assert("g"@.len() != "implode"@.len());
    }
    assert("g"@ != "i"@) by {
        assert("g"@[0] != "i"@[0]);
    }
    assert("g"@ != "groupby"@) by {
        assert("g"@.len() != "groupby"@.len());
    }
    assert("reshape"@ != "fs"@) by {
        assert("reshape"@.len() != "fs"@.len());
    }
    assert("reshape"@ != "rs"@) by {
        assert("reshape"@.len() != "rs"@.len());
    }
    assert("reshape"@ != "ofs"@) by {
        assert("reshape"@.len() != "ofs"@.len());
    }
    assert("reshape"@ != "ors"@) by {
        assert("reshape"@.len() != "ors"@.len());
    }
    assert("reshape"@ != "chars"@) by {
        assert("reshape"@.len() != "chars"@.len());
    }
    assert("reshape"@ != "ch"@) by {
        assert("reshape"@.len() != "ch"@.len());
    }
    assert("reshape"@ != "countif"@) by {
        assert("reshape"@[0] != "countif"@[0]);
    }
    assert("reshape"@ != "ci"@) by {
        assert("reshape"@.len() != "ci"@.len());
    }
    assert("reshape"@ != "select"@) by {
        assert("reshape"@.len() != "select"@.len());
    }
    assert("reshape"@ != "p"@) by {
        assert("reshape"@.len() != "p"@.len());
    }
    assert("reshape"@ != "replace"@) by {
        assert("reshape"@[2] != "replace"@[2]);
    }
    assert("reshape"@ != "sb"@) by {
        assert("reshape"@.len() != "sb"@.len());
    }
    assert("reshape"@ != "enum"@) by {
        assert("reshape"@.len() != "enum"@.len());
    }
    assert("reshape"@ != "n"@) by {
        assert("reshape"@.len() != "n"@.len());
    }
    assert("reshape"@ != "explode"@) by {
        assert("reshape"@[0] != "explode"@[0]);
    }
    assert("reshape"@ != "x"@) by {
        assert("reshape"@.len() != "x"@.len());
    }
    assert("reshape"@ != "implode"@) by {
        assert("reshape"@[0] != "implode"@[0]);
    }
    assert("reshape"@ != "i"@) by {
        assert("reshape"@.len() != "i"@.len());
    }
    assert("reshape"@ != "groupby"@) by {
        assert("reshape"@[0] != "groupby"@[0]);
    }
    assert("reshape"@ != "g"@) by {
        assert("reshape"@.len() != "g"@.len());
    }
    assert("sh"@ != "fs"@) by {
        assert("sh"@[0] != "fs"@[0]);
    }
    assert("sh"@ != "rs"@) by {
        assert("sh"@[0] != "rs"@[0]);
    }
    assert("sh"@ != "ofs"@) by {
        assert("sh"@.len() != "ofs"@.len());
    }
    assert("sh"@ != "ors"@) by {
        assert("sh"@.len() != "ors"@.len());
    }
    assert("sh"@ != "chars"@) by {
        assert("sh"@.len() != "chars"@.len());
    }
    assert("sh"@ != "ch"@) by {
        assert("sh"@[0] != "ch"@[0]);
    }
    assert("sh"@ != "countif"@) by {
        assert("sh"@.len() != "countif"@.len());
    }
    assert("sh"@ != "ci"@) by {
        assert("sh"@[0] != "ci"@[0]);
    }
    assert("sh"@ != "select"@) by {
        assert("sh"@.len() != "select"@.len());
    }
    assert("sh"@ != "p"@) by {
        assert("sh"@.len() != "p"@.len());
    }
    assert("sh"@ != "replace"@) by {
        assert("sh"@.len() != "replace"@.len());
    }
    assert("sh"@ != "sb"@) by {
        assert("sh"@[1] != "sb"@[1]);
    }
    assert("sh"@ != "enum"@) by {
        assert("sh"@.len() != "enum"@.len());
    }
    assert("sh"@ != "n"@) by {
        assert("sh"@.len() != "n"@.len());
    }
    assert("sh"@ != "explode"@) by {
        assert("sh"@.len() != "explode"@.len());
    }
    assert("sh"@ != "x"@) by {
        assert("sh"@.len() != "x"@.len());
    }
    assert("sh"@ != "implode"@) by {
        assert("sh"@.len() != "implode"@.len());
    }
    assert("sh"@ != "i"@) by {
        assert("sh"@.len() != "i"@.len());
    }
    assert("sh"@ != "groupby"@) by {
        assert("sh"@.len() != "groupby"@.len());
    }
    assert("sh"@ != "g"@) by {
        assert("sh"@.len() != "g"@.len());
    }
    assert("sh"@ != "reshape"@) by {
        assert("sh"@.len() != "reshape"@.len());
    }
    assert("flatten"@ != "fs"@) by {
        assert("flatten"@.len() != "fs"@.len());
    }
    assert("flatten"@ != "rs"@) by {
        assert("flatten"@.len() != "rs"@.len());
    }
    assert("flatten"@ != "ofs"@) by {
        assert("flatten"@.len() != "ofs"@.len());
    }
    assert("flatten"@ != "ors"@) by {
        assert("flatten"@.len() != "ors"@.len());
    }
    assert("flatten"@ != "chars"@) by {
        assert("flatten"@.len() != "chars"@.len());
    }
    assert("flatten"@ != "ch"@) by {
        assert("flatten"@.len() != "ch"@.len());
    }
    assert("flatten"@ != "countif"@) by {
        assert("flatten"@[0] != "countif"@[0]);
    }
    assert("flatten"@ != "ci"@) by {
        assert("flatten"@.len() != "ci"@.len());
    }
    assert("flatten"@ != "select"@) by {
        assert("flatten"@.len() != "select"@.len());
    }
    assert("flatten"@ != "p"@) by {
        assert("flatten"@.len() != "p"@.len());
    }
    assert("flatten"@ != "replace"@) by {
        assert("flatten"@[0] != "replace"@[0]);
    }
    assert("flatten"@ != "sb"@) by {
        assert("flatten"@.len() != "sb"@.len());
    }
    assert("flatten"@ != "enum"@) by {
        assert("flatten"@.len() != "enum"@.len());
    }
    assert("flatten"@ != "n"@) by {
        assert("flatten"@.len() != "n"@.len());
    }
    assert("flatten"@ != "explode"@) by {
        assert("flatten"@[0] != "explode"@[0]);
    }
    assert("flatten"@ != "x"@) by {
        assert("flatten"@.len() != "x"@.len());
    }
    assert("flatten"@ != "implode"@) by {
        assert("flatten"@[0] != "implode"@[0]);
    }
    assert("flatten"@ != "i"@) by {
        assert("flatten"@.len() != "i"@.len());
    }
    assert("flatten"@ != "groupby"@) by {
        assert("flatten"@[0] != "groupby"@[0]);
    }
    assert("flatten"@ != "g"@) by {
        assert("flatten"@.len() != "g"@.len());
    }
    assert("flatten"@ != "reshape"@) by {
        assert("flatten"@[0] != "reshape"@[0]);
    }
    assert("flatten"@ != "sh"@) by {
        assert("flatten"@.len() != "sh"@.len());
    }
    assert("f"@ != "fs"@) by {
        assert("f"@.len() != "fs"@.len());
    }
    assert("f"@ != "rs"@) by {
        assert("f"@.len() != "rs"@.len());
    }
    assert("f"@ != "ofs"@) by {
        assert("f"@.len() != "ofs"@.len());
    }
    assert("f"@ != "ors"@) by {
        assert("f"@.len() != "ors"@.len());
    }
    assert("f"@ != "chars"@) by {
        assert("f"@.len() != "chars"@.len());
    }
    assert("f"@ != "ch"@) by {
        assert("f"@.len() != "ch"@.len());
    }
    assert("f"@ != "countif"@) by {
        assert("f"@.len() != "countif"@.len());
    }
    assert("f"@ != "ci"@) by {
        assert("f"@.len() != "ci"@.len());
    }
    assert("f"@ != "select"@) by {
        assert("f"@.len() != "select"@.len());
    }
    assert("f"@ != "p"@) by {
        assert("f"@[0] != "p"@[0]);
    }
    assert("f"@ != "replace"@) by {
        assert("f"@.len() != "replace"@.len());
    }
    assert("f"@ != "sb"@) by {
        assert("f"@.len() != "sb"@.len());
    }
    assert("f"@ != "enum"@) by {
        assert("f"@.len() != "enum"@.len());
    }
    assert("f"@ != "n"@) by {
        assert("f"@[0] != "n"@[0]);
    }
    assert("f"@ != "explode"@) by {
        assert("f"@.len() != "explode"@.len());
    }
    assert("f"@ != "x"@) by {
        assert("f"@[0] != "x"@[0]);
    }
    assert("f"@ != "implode"@) by {
        assert("f"@.len() != "implode"@.len());
    }
    assert("f"@ != "i"@) by {
        assert("f"@[0] != "i"@[0]);
    }
    assert("f"@ != "groupby"@) by {
        assert("f"@.len() != "groupby"@.len());
    }
    assert("f"@ != "g"@) by {
        assert("f"@[0] != "g"@[0]);
    }
    assert("f"@ != "reshape"@) by {
        assert("f"@.len() != "reshape"@.len());
    }
    assert("f"@ != "sh"@) by {
        assert("f"@.len() != "sh"@.len());
    }
    assert("f"@ != "flatten"@) by {
        assert("f"@.len() != "flatten"@.len());
    }
}

/// Each record method's long and short names call the same operation:
/// `chars`/`ch`, `countif`/`ci`, `select`/`p`, `replace`/`sb`, `enum`/`n`,
/// `explode`/`x`, `implode`/`i`, `groupby`/`g`, `reshape`/`sh`,
/// `flatten`/`f`.
pub proof fn law_record_method_names(rec: Records, c: Call, r: Result<Records, String>)
    ensures
        (c.name@ == "chars"@ || c.name@ == "ch"@) ==> (rec_call_post(rec, c, r) <==> chars_post(rec, r)),
        (c.name@ == "countif"@ || c.name@ == "ci"@) ==> (rec_call_post(rec, c, r) <==> countif_post(
            rec,
            c,
            r,
        )),
        (c.name@ == "select"@ || c.name@ == "p"@) ==> (rec_call_post(rec, c, r) <==> select_post(
            rec,
            c.args@,
            r,
        )),
        (c.name@ == "replace"@ || c.name@ == "sb"@) ==> (rec_call_post(rec, c, r) <==> replace_post(
            rec,
            c,
            r,
        )),
        (c.name@ == "enum"@ || c.name@ == "n"@) ==> (rec_call_post(rec, c, r) <==> enum_post(rec, c, r)),
        (c.name@ == "explode"@ || c.name@ == "x"@) ==> (rec_call_post(rec, c, r) <==> explode_post(
            rec,
            c,
            r,
        )),
        (c.name@ == "implode"@ || c.name@ == "i"@) ==> (rec_call_post(rec, c, r) <==> implode_post(
            rec,
            c,
            r,
        )),
        (c.name@ == "groupby"@ || c.name@ == "g"@) ==> (rec_call_post(rec, c, r) <==> groupby_post(
            rec,
            c,
            r,
        )),
        (c.name@ == "reshape"@ || c.name@ == "sh"@) ==> (rec_call_post(rec, c, r) <==> reshape_post(
            rec,
            c,
            r,
        )),
        (c.name@ == "flatten"@ || c.name@ == "f"@) ==> (rec_call_post(rec, c, r) <==> flatten_post(
            rec,
            c,
            r,
        )),
{
    lemma_record_method_names();
}

} // verus!
