//! Grid mode: rows of cells, by default one cell per character.
use vstd::prelude::*;

use crate::ast::{table_view, Call, Grid, GridConfig};
use crate::grid::line::{grid_line, line_call_error, line_call_spec};
use crate::grid::mark::{grid_mark, mark_post};
use crate::grid::ops::{
    align_error, align_spec, get_error, get_spec, grid_align, grid_get, grid_pad, grid_result,
    grid_reverse, grid_rotate, grid_set, grid_transpose, pad_args_error, pad_spec, reverse_error,
    reverse_spec, rotate_error, rotate_spec, set_error, set_spec, transpose_error, transpose_spec,
};
use crate::text::{str_is, str_is2};
use crate::util::{arg_string, arg_text, arg_text_error};
use crate::table::{
    char_cells, chars_to_cells, lemma_table_push, raw_lines, render_rows, render_table,
    split_raw_lines,
};
use crate::text::{opt_view, split_spec, split_str, strs_view, unescape, unescape_spec};

pub mod coords;
pub mod line;
pub mod mark;
pub mod laws;
pub mod ops;

verus! {

/// The cells of one line: the pieces between (unescaped) separators, or one
/// cell per character when there is no separator.
pub open spec fn line_cells(line: Seq<char>, fs: Option<Seq<char>>) -> Seq<Seq<char>> {
    match fs {
        Some(f) => split_spec(line, unescape_spec(f)),
        None => char_cells(line),
    }
}

/// The rows of a grid read from `input`; unlike records, empty lines stay.
pub open spec fn grid_rows(input: Seq<char>, rs: Seq<char>, fs: Option<Seq<char>>) -> Seq<
    Seq<Seq<char>>,
> {
    raw_lines(input, rs).map_values(|l: Seq<char>| line_cells(l, fs))
}

/// Parses the input into a grid: each line split by `fs` when it is set,
/// otherwise one cell per character.
pub fn parse_grid(input: &str, cfg: GridConfig) -> (r: Result<Grid, String>)
    ensures
        r matches Ok(g) && table_view(g.cells@) == grid_rows(input@, cfg.rs@, opt_view(cfg.fs))
            && g.cfg == cfg,
{
    let lines = split_raw_lines(input, cfg.rs.as_str());
    let sep: Option<String> = match &cfg.fs {
        Some(f) => Some(unescape(f.as_str())),
        None => None,
    };
    let ghost fs = opt_view(cfg.fs);
    let ghost f = |l: Seq<char>| line_cells(l, fs);
    let mut cells: Vec<Vec<String>> = Vec::new();
    let mut i: usize = 0;
    while i < lines.len()
        invariant
            i <= lines.len(),
            fs == opt_view(cfg.fs),
            sep is Some <==> fs is Some,
            sep matches Some(s) ==> s@ == unescape_spec(fs->0),
            strs_view(lines@) == raw_lines(input@, cfg.rs@),
            table_view(cells@) == strs_view(lines@).take(i as int).map_values(f),
            f == (|l: Seq<char>| line_cells(l, fs)),
        decreases lines.len() - i,
    {
        let row = match &sep {
            Some(s) => split_str(lines[i].as_str(), s.as_str()),
            None => chars_to_cells(lines[i].as_str()),
        };
        proof {
            lemma_table_push(cells@, row);
            assert(strs_view(lines@).take(i + 1).map_values(f) =~= strs_view(lines@).take(
                i as int,
            ).map_values(f).push(f(lines@[i as int]@)));
        }
        cells.push(row);
        i += 1;
    }
    assert(strs_view(lines@).take(lines.len() as int) =~= strs_view(lines@));
    Ok(Grid { cells, cfg })
}

/// The text of a grid under its output separators.
pub open spec fn render_grid_spec(grid: Grid) -> Seq<char> {
    render_rows(table_view(grid.cells@), unescape_spec(grid.cfg.ofs@), unescape_spec(grid.cfg.ors@))
}

/// Renders the grid: cells joined by `ofs`, each row followed by `ors`.
pub fn render_grid(grid: &Grid) -> (out: String)
    ensures
        out@ == render_grid_spec(*grid),
{
    render_table(&grid.cells, grid.cfg.ofs.as_str(), grid.cfg.ors.as_str())
}

/// The grid methods, each under its long and short names.
#[derive(Debug, Clone, Copy, PartialEq, Eq, Structural)]
pub enum GridOp {
    Fs,
    Rs,
    Ofs,
    Ors,
    Transpose,
    Rotate,
    Pad,
    Align,
    Reverse,
    GetCell,
    SetCell,
    Line,
    Mark,
}

/// The grid method a call name denotes.
pub open spec fn grid_op_of(name: Seq<char>) -> Option<GridOp> {
    if name == "fs"@ {
        Some(GridOp::Fs)
    } else if name == "rs"@ {
        Some(GridOp::Rs)
    } else if name == "ofs"@ {
        Some(GridOp::Ofs)
    } else if name == "ors"@ {
        Some(GridOp::Ors)
    } else if name == "transpose"@ || name == "t"@ {
        Some(GridOp::Transpose)
    } else if name == "rotate"@ || name == "rt"@ {
        Some(GridOp::Rotate)
    } else if name == "pad"@ || name == "pd"@ {
        Some(GridOp::Pad)
    } else if name == "align"@ || name == "al"@ {
        Some(GridOp::Align)
    } else if name == "reverse"@ || name == "rev"@ || name == "rv"@ {
        Some(GridOp::Reverse)
    } else if name == "get"@ {
        Some(GridOp::GetCell)
    } else if name == "set"@ {
        Some(GridOp::SetCell)
    } else if name == "line"@ || name == "ln"@ {
        Some(GridOp::Line)
    } else if name == "mark"@ || name == "m"@ {
        Some(GridOp::Mark)
    } else {
        None
    }
}

/// Looks up the grid method of a call name.
pub fn grid_op(name: &str) -> (r: Option<GridOp>)
    ensures
        r == grid_op_of(name@),
{
    if str_is(name, "fs") {
        Some(GridOp::Fs)
    } else if str_is(name, "rs") {
        Some(GridOp::Rs)
    } else if str_is(name, "ofs") {
        Some(GridOp::Ofs)
    } else if str_is(name, "ors") {
        Some(GridOp::Ors)
    } else if str_is2(name, "transpose", "t") {
        Some(GridOp::Transpose)
    } else if str_is2(name, "rotate", "rt") {
        Some(GridOp::Rotate)
    } else if str_is2(name, "pad", "pd") {
        Some(GridOp::Pad)
    } else if str_is2(name, "align", "al") {
        Some(GridOp::Align)
    } else if str_is2(name, "reverse", "rev") || str_is(name, "rv") {
        Some(GridOp::Reverse)
    } else if str_is(name, "get") {
        Some(GridOp::GetCell)
    } else if str_is(name, "set") {
        Some(GridOp::SetCell)
    } else if str_is2(name, "line", "ln") {
        Some(GridOp::Line)
    } else if str_is2(name, "mark", "m") {
        Some(GridOp::Mark)
    } else {
        None
    }
}

/// `fs` / `rs`: the grid rendered and read again under the new separators.
pub open spec fn regrid_post(grid: Grid, fs: Option<Seq<char>>, rs: Seq<char>, r: Result<Grid, String>) -> bool {
    r matches Ok(g) && table_view(g.cells@) == grid_rows(render_grid_spec(grid), rs, fs)
        && opt_view(g.cfg.fs) == fs && g.cfg.rs@ == rs && g.cfg.ofs == grid.cfg.ofs && g.cfg.ors
        == grid.cfg.ors
}

/// What one grid call does to the grid.
pub open spec fn grid_call_post(grid: Grid, call: Call, r: Result<Grid, String>) -> bool {
    let t = table_view(grid.cells@);
    match grid_op_of(call.name@) {
        Some(GridOp::Fs) => match arg_text(call, 0) {
            Some(f) => regrid_post(grid, Some(f), grid.cfg.rs@, r),
            None => r matches Err(m) && m@ == arg_text_error(call, 0),
        },
        Some(GridOp::Rs) => match arg_text(call, 0) {
            Some(s) => regrid_post(grid, opt_view(grid.cfg.fs), s, r),
            None => r matches Err(m) && m@ == arg_text_error(call, 0),
        },
        Some(GridOp::Ofs) => match arg_text(call, 0) {
            Some(s) => r matches Ok(g) && g.cells == grid.cells && g.cfg.ofs@ == s && g.cfg.fs
                == grid.cfg.fs && g.cfg.rs == grid.cfg.rs && g.cfg.ors == grid.cfg.ors,
            None => r matches Err(m) && m@ == arg_text_error(call, 0),
        },
        Some(GridOp::Ors) => match arg_text(call, 0) {
            Some(s) => r matches Ok(g) && g.cells == grid.cells && g.cfg.ors@ == s && g.cfg.fs
                == grid.cfg.fs && g.cfg.rs == grid.cfg.rs && g.cfg.ofs == grid.cfg.ofs,
            None => r matches Err(m) && m@ == arg_text_error(call, 0),
        },
        Some(GridOp::Transpose) => grid_result(grid, r, transpose_spec(t, call), transpose_error(call)),
        Some(GridOp::Rotate) => grid_result(grid, r, rotate_spec(t, call), rotate_error(call)),
        Some(GridOp::Pad) => grid_result(grid, r, pad_spec(t, call), pad_args_error(call)),
        Some(GridOp::Align) => grid_result(grid, r, align_spec(t, call), align_error(t, call)),
        Some(GridOp::Reverse) => grid_result(grid, r, reverse_spec(t, call), reverse_error(call)),
        Some(GridOp::GetCell) => grid_result(grid, r, get_spec(t, call), get_error(t, call)),
        Some(GridOp::SetCell) => grid_result(grid, r, set_spec(t, call), set_error(t, call)),
        Some(GridOp::Line) => grid_result(grid, r, line_call_spec(t, call), line_call_error(t, call)),
        Some(GridOp::Mark) => mark_post(grid, call, r),
        None => r matches Err(m) && m@ == "unknown grid method: "@ + call.name@,
    }
}

/// Applies one call to the grid.
pub fn apply_grid_call(grid: Grid, call: &Call) -> (r: Result<Grid, String>)
    ensures
        grid_call_post(grid, *call, r),
{
    match grid_op(call.name.as_str()) {
        Some(GridOp::Fs) => {
            let f = match arg_string(call, 0) {
                Ok(f) => f,
                Err(e) => return Err(e),
            };
            let text = render_grid(&grid);
            let cfg = GridConfig { fs: Some(f), rs: grid.cfg.rs, ofs: grid.cfg.ofs, ors: grid.cfg.ors };
            parse_grid(text.as_str(), cfg)
        },
        Some(GridOp::Rs) => {
            let s = match arg_string(call, 0) {
                Ok(s) => s,
                Err(e) => return Err(e),
            };
            let text = render_grid(&grid);
            let cfg = GridConfig { fs: grid.cfg.fs, rs: s, ofs: grid.cfg.ofs, ors: grid.cfg.ors };
            parse_grid(text.as_str(), cfg)
        },
        Some(GridOp::Ofs) => {
            let s = match arg_string(call, 0) {
                Ok(s) => s,
                Err(e) => return Err(e),
            };
            let cfg = GridConfig { fs: grid.cfg.fs, rs: grid.cfg.rs, ofs: s, ors: grid.cfg.ors };
            Ok(Grid { cells: grid.cells, cfg })
        },
        Some(GridOp::Ors) => {
            let s = match arg_string(call, 0) {
                Ok(s) => s,
                Err(e) => return Err(e),
            };
            let cfg = GridConfig { fs: grid.cfg.fs, rs: grid.cfg.rs, ofs: grid.cfg.ofs, ors: s };
            Ok(Grid { cells: grid.cells, cfg })
        },
        Some(GridOp::Transpose) => grid_transpose(grid, call),
        Some(GridOp::Rotate) => grid_rotate(grid, call),
        Some(GridOp::Pad) => grid_pad(grid, call),
        Some(GridOp::Align) => grid_align(grid, call),
        Some(GridOp::Reverse) => grid_reverse(grid, call),
        Some(GridOp::GetCell) => grid_get(grid, call),
        Some(GridOp::SetCell) => grid_set(grid, call),
        Some(GridOp::Line) => grid_line(grid, call),
        Some(GridOp::Mark) => grid_mark(grid, call),
        None => Err(crate::text::concat2("unknown grid method: ", call.name.as_str())),
    }
}

} // verus!
