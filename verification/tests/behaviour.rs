use rkg::ast::{GridConfig, Pipeline, Receiver, RecConfig, Source, Statement};
use rkg::engine::{eval_pipeline_with_configs, eval_program_with_configs, eval_statement_with_configs};
use rkg::parser::parse_program;
use rkg::record::aggs::{NumberFold, NumericAgg};
use rkg::text::{join_strs, split_str, unescape};

/// Numeric aggregates over `f64`, rendered without a fraction when whole.
struct FloatFold;

impl NumberFold for FloatFold {
    fn fold_numbers(&self, kind: NumericAgg, values: &Vec<String>) -> Result<String, String> {
        let mut nums = Vec::new();
        for v in values {
            nums.push(v.parse::<f64>().map_err(|_| format!("not a number: {v}"))?);
        }
        let out = match kind {
            NumericAgg::Sum => nums.iter().sum::<f64>(),
            NumericAgg::Min => nums.iter().copied().fold(f64::INFINITY, f64::min),
            NumericAgg::Max => nums.iter().copied().fold(f64::NEG_INFINITY, f64::max),
            NumericAgg::Avg => {
                if nums.is_empty() {
                    0.0
                } else {
                    nums.iter().sum::<f64>() / nums.len() as f64
                }
            }
            NumericAgg::Median => {
                if nums.is_empty() {
                    return Ok("0".to_string());
                }
                nums.sort_by(f64::total_cmp);
                let mid = nums.len() / 2;
                if nums.len() % 2 == 0 {
                    (nums[mid - 1] + nums[mid]) / 2.0
                } else {
                    nums[mid]
                }
            }
        };
        if out.fract() == 0.0 {
            Ok(format!("{}", out as i64))
        } else {
            Ok(format!("{}", out))
        }
    }
}

fn run_cfg(expr: &str, input: &str, rec_cfg: RecConfig) -> Result<String, String> {
    let program = parse_program(expr)?;
    let outs = eval_program_with_configs(&program, input, &rec_cfg, &GridConfig::default(), &FloatFold)?;
    Ok(outs.join("---\n"))
}

fn run(expr: &str, input: &str) -> Result<String, String> {
    run_cfg(expr, input, RecConfig::default())
}

fn ok(expr: &str, input: &str) -> String {
    run(expr, input).unwrap_or_else(|e| panic!("`{expr}` should succeed: {e}"))
}

fn err(expr: &str, input: &str) -> String {
    run(expr, input).expect_err(&format!("`{expr}` should fail"))
}

fn parsed(expr: &str) -> String {
    format!("{:?}", parse_program(expr).expect("should parse"))
}

// Laws, on concrete values

#[test]
fn shorthand_colon_parses_like_classic_call() {
    assert_eq!(parsed("r.p:1,2"), parsed("r.p(1,2)"));
    assert_eq!(parsed("g.m:p(\"K\"),orth,x"), parsed("g.m(p(\"K\"),orth,x)"));
}

#[test]
fn shorthand_equals_parses_like_classic_call() {
    assert_eq!(parsed("r.ofs=x"), parsed("r.ofs(x)"));
}

#[test]
fn bare_call_parses_like_empty_call() {
    assert_eq!(parsed("g.t"), parsed("g.t()"));
}

#[test]
fn reversing_rows_twice_restores_grid() {
    assert_eq!(ok(r#"g.rev("h").rev("h")"#, "ab\ncde\n"), "ab\ncde\n");
}

#[test]
fn reversing_both_ways_twice_restores_grid() {
    assert_eq!(ok(r#"g.rev("hv").rev("hv")"#, "ab\ncde\n"), "ab\ncde\n");
}

#[test]
fn transposing_rectangle_twice_restores_it() {
    assert_eq!(ok("g.t.t", "abc\ndef\n"), "abc\ndef\n");
}

#[test]
fn rotating_right_then_left_restores_rectangle() {
    assert_eq!(ok("g.rt:r.rt:l", "abc\ndef\n"), "abc\ndef\n");
    assert_eq!(ok("g.rt:l.rt:r", "abc\ndef\n"), "abc\ndef\n");
}

#[test]
fn half_turn_equals_reversing_both_ways() {
    assert_eq!(ok(r#"g.rt("180")"#, "ab\ncd\nef\n"), ok(r#"g.rev("hv")"#, "ab\ncd\nef\n"));
    assert_eq!(ok(r#"g.rt("180")"#, "ab\ncd\nef\n"), "fe\ndc\nba\n");
}

#[test]
fn transpose_then_right_turn_mirrors_rows() {
    assert_eq!(ok("g.t.rt:r", "abc\ndef\n"), "cba\nfed\n");
}

#[test]
fn get_after_set_reads_the_written_value() {
    assert_eq!(ok(r#"g.set(2,1,"Z").get(2,1)"#, "abc\n"), "Z\n");
    assert_eq!(ok(r#"g.set(2,1,"Z")"#, "abc\n"), "aZc\n");
}

#[test]
fn pad_frames_grid_into_rectangle() {
    assert_eq!(
        ok(r#"g.pad(1,2,3,4,".")"#, "ab\ncde\n"),
        "..........\n...ab.....\n...cde....\n..........\n..........\n"
    );
}

#[test]
fn pad_leaves_empty_grid_empty() {
    assert_eq!(ok(r#"g.pad(1,".")"#, ""), "");
}

#[test]
fn align_center_keeps_cells_in_the_middle() {
    assert_eq!(ok(r#"g.al:c,pad:".""#, "a\nbbbbb\n"), "..a..\nbbbbb\n");
}

#[test]
fn align_row_range_with_two_numbers() {
    assert_eq!(ok(r#"g.al("r",rows(2,3),pad("."))"#, "a\nb\ncc\n"), "a\n.b\ncc\n");
}

#[test]
fn mark_keeps_origins_even_when_a_ray_reaches_them() {
    assert_eq!(ok(r#"g.m("K","diag","*")"#, "K..\n...\n..K\n"), "K..\n.*.\n..K\n");
}

#[test]
fn stdin_statement_ignores_previous_output() {
    assert_eq!(ok("r.p:1; stdin.r.p:2", "A 1\nB 2\n"), "A\nB\n---\n1\n2\n");
}

#[test]
fn prev_statement_reads_previous_output() {
    assert_eq!(ok("r.p:1; prev.r.n:1", "A 1\nB 2\n"), ok("r.p:1; r.n:1", "A 1\nB 2\n"));
    assert_eq!(ok("r.p:1; prev.r.n:1", "A 1\nB 2\n"), "A\nB\n---\n1 A\n2 B\n");
}

#[test]
fn unescape_leaves_plain_text_alone() {
    assert_eq!(unescape("a,b"), "a,b");
    assert_eq!(unescape("a\\tb\\n"), "a\tb\n");
}

#[test]
fn split_then_join_restores_text() {
    let parts = split_str("a,,b,", ",");
    assert_eq!(parts, vec!["a", "", "b", ""]);
    assert_eq!(join_strs(&parts, ","), "a,,b,");
}

// Errors

#[test]
fn named_source_is_not_supported() {
    let stmt = Statement {
        source: Source::Named("x".to_string()),
        address: None,
        receiver: Receiver::Rec,
        calls: Vec::new(),
    };
    let e = eval_statement_with_configs(
        &stmt,
        "a\n",
        "a\n",
        &RecConfig::default(),
        &GridConfig::default(),
        &FloatFold,
    )
    .expect_err("named source should fail");
    assert_eq!(e, "named source is not supported yet: x");
}

#[test]
fn unknown_methods_are_reported() {
    assert_eq!(err("r.zz", "a\n"), "unknown rec method: zz");
    assert_eq!(err("g.zz", "a\n"), "unknown grid method: zz");
}

#[test]
fn invalid_field_separator_regex_is_reported() {
    let mut cfg = RecConfig::default();
    cfg.fs = "(".to_string();
    assert_eq!(run_cfg("r.p:1", "a\n", cfg).unwrap_err(), "invalid FS regex: (");
}

#[test]
fn invalid_regex_messages() {
    assert_eq!(err(r#"r.ci("(")"#, "a\n"), "invalid regex: (");
    assert!(err(r#"g.m("a","(","b","*")"#, "a\n").contains("unclosed group"));
}

#[test]
fn pick_without_match_is_reported() {
    assert_eq!(err(r#"g.get(p("Z"))"#, "ab\n"), "pick could not find match #1 for Z");
    assert_eq!(err(r#"g.get(p("a",2))"#, "ab\n"), "pick could not find match #2 for a");
}

#[test]
fn points_outside_the_grid_are_reported() {
    assert_eq!(err("g.get(9,1)", "ab\n"), "grid x out of range at row 1: 9");
    assert_eq!(err("g.get(1,9)", "ab\n"), "grid y out of range: 9");
    assert_eq!(err(r#"g.get("0",1)"#, "ab\n"), "grid coordinates are 1-based");
}

#[test]
fn reshape_mode_must_be_known() {
    assert_eq!(err(r#"r.sh("xx")"#, "a\n"), "reshape mode must be w2l or l2w");
}

#[test]
fn line_errors_are_reported() {
    assert_eq!(err(r#"g.line(1,1,"l","A","B")"#, "...\n"), "line placement goes out of bounds");
    assert_eq!(
        err(r#"g.line(2,1,"h","A","B")"#, "...\n"),
        "centered line directions require an odd number of values"
    );
    assert_eq!(
        err(r#"g.line(1,1,"d","A",wrap("row"))"#, "...\n"),
        "wrap(row) is not compatible with line direction d"
    );
    assert_eq!(
        err(r#"g.line(2,1,"h","A",wrap("row"))"#, "...\n"),
        "wrap is not supported for centered line directions"
    );
    assert_eq!(
        err(r#"g.line(1,1,"r","A",skip(1))"#, "...\n"),
        "skip(...) is only supported for fill_* line directions"
    );
    assert_eq!(
        err(r#"g.line(1,1,"fur","A","B","C")"#, "..\n"),
        "filled line placement runs out of space"
    );
    assert_eq!(err(r#"g.line(1,1,"zz","A")"#, "..\n"), "unknown line direction: zz");
}

#[test]
fn mark_errors_are_reported() {
    assert_eq!(err(r#"g.m("Z","orth","*")"#, "ab\n"), "mark origin not found: Z");
    assert_eq!(err(r#"g.m("a","up","*")"#, "ab\n"), "unknown ray: up");
    assert_eq!(
        err(r#"g.m("a","b")"#, "ab\n"),
        "mark expects 3 args (from, ray, put) or 4 args (from, through_re, to, put)"
    );
}

#[test]
fn grid_argument_errors_are_reported() {
    assert_eq!(
        err("g.pad(1,2)", "ab\n"),
        "pad expects (n, value?) or (top, bottom, left, right, value?)"
    );
    assert_eq!(err(r#"g.rt("x")"#, "ab\n"), "rotate direction must be r, l, or 180");
    assert_eq!(err(r#"g.rev("x")"#, "ab\n"), "rev mode must be h, v, hv, or 180");
    assert_eq!(
        err(r#"g.t(pad("."),pad("."))"#, "ab\n"),
        "transpose expects 0 or 1 args: optional pad(...)"
    );
    assert_eq!(err(r#"g.t(zz("."))"#, "ab\n"), "transpose optional arg must be pad(...)");
    assert_eq!(err("g.get(1,2,3)", "ab\n"), "get expects either (x, y) or (pick(...))");
    assert_eq!(
        err("g.set(1)", "ab\n"),
        "set expects either (x, y, value) or (pick(...), value)"
    );
}

#[test]
fn align_unknown_mode_fails_only_on_short_rows() {
    assert_eq!(ok(r#"g.al("x")"#, "ab\ncd\n"), "ab\ncd\n");
    assert_eq!(
        err(r#"g.al("x")"#, "a\ncd\n"),
        "align mode must be left, center, right, l, c, or r"
    );
}

#[test]
fn groupby_rejects_non_numbers() {
    assert_eq!(err("r.g(1,s(2))", "A x\n"), "not a number: x");
}

#[test]
fn address_errors_are_reported() {
    assert_eq!(err("0r.p:1", "A\n"), "address positions are 1-based: 0r.p:1");
    assert_eq!(
        err("2,/Z/r.p:1", "A\nB\n"),
        "address regex did not match any record: /Z/"
    );
}

#[test]
fn empty_input_gives_empty_output() {
    assert_eq!(ok("r.p:1", ""), "");
    assert_eq!(ok("g.t", ""), "");
}

// Exact values

#[test]
fn groupby_folds_each_aggregate() {
    assert_eq!(
        ok("r.g(1,c,s(2),mn(2),mx(2),a(2))", "A 1\nA 4\nB 2\n"),
        "A 2 5 1 4 2.5\nB 1 2 2 2 2\n"
    );
}

#[test]
fn enum_labels_rows() {
    assert_eq!(ok(r#"r.n("A-Z")"#, "x\ny\n"), "A x\nB y\n");
    assert_eq!(ok(r#"r.n("10")"#, "x\ny\n"), "10 x\n11 y\n");
}

#[test]
fn explode_and_implode() {
    assert_eq!(ok(r#"r.x(2,";")"#, "A 1;2\n"), "A 1\nA 2\n");
    assert_eq!(ok(r#"r.i(1,2,",")"#, "A 1\nA 2\nB 3\n"), "A 1,2\nB 3\n");
}

#[test]
fn reshape_long_to_wide_fills_missing_cells() {
    assert_eq!(
        ok(r#"r.sh("l2w",2,3)"#, "A math 80\nA eng 90\nB math 70\n"),
        "key eng math\nA 90 80\nB  70\n"
    );
}

#[test]
fn flatten_without_template_lists_cells() {
    assert_eq!(ok("r.f", "name age\nalice 20\n"), "name: alice\nage: 20\n");
}

#[test]
fn flatten_template_leaves_unknown_names_empty() {
    assert_eq!(ok(r#"r.f("{x}-{name}")"#, "name\nbob\n"), "-bob\n");
}

#[test]
fn countif_and_replace_use_regexes() {
    assert_eq!(ok(r#"r.ci("^[0-9]+$")"#, "a 1 22\n"), "2\n");
    assert_eq!(ok(r#"r.sb("o","0")"#, "foo boo\n"), "f00 b00\n");
}

#[test]
fn select_field_ranges() {
    assert_eq!(ok(r#"r.p("2:3")"#, "a b c d\n"), "b c\n");
    assert_eq!(ok(r#"r.p(":2")"#, "a b c d\n"), "a b\n");
    assert_eq!(ok(r#"r.p("3:")"#, "a b c d\n"), "c d\n");
}

#[test]
fn chars_mode_splits_every_character() {
    assert_eq!(ok(r#"r.ch.ofs(",")"#, "ab\n"), "a,b\n");
}

#[test]
fn field_separator_regex_splits_fields() {
    let mut cfg = RecConfig::default();
    cfg.fs = "[0-9]+".to_string();
    assert_eq!(run_cfg(r#"r.ofs("|")"#, "a1b22c\n", cfg).unwrap(), "a|b|c\n");
}

#[test]
fn grid_separators_can_change() {
    assert_eq!(ok(r#"g.fs(",").ofs(";")"#, "a,b\n"), "a;b\n");
}

#[test]
fn fill_up_left_and_other_wraps() {
    assert_eq!(ok(r#"g.line(3,1,"ful","A","B","C")"#, "...\n...\n"), ".CA\n..B\n");
    assert_eq!(ok(r#"g.line(1,2,"u","A","B","C",wrap("col"))"#, "..\n..\n"), "B.\nAC\n");
    assert_eq!(ok(r#"g.line(2,1,"dl","A","B","C",wrap("diag_dl"))"#, "..\n..\n"), "CA\nB.\n");
}

#[test]
fn pattern_mark_needs_a_closing_value() {
    assert_eq!(ok(r#"g.m("X","O","Y","*")"#, ".XOOX.\n"), ".XOOX.\n");
}

#[test]
fn pipeline_stage_reads_previous_stage() {
    let program = parse_program("r.p:2 | r.n:1").unwrap();
    let out = eval_pipeline_with_configs(
        &program[0],
        "a b\nc d\n",
        "a b\nc d\n",
        &RecConfig::default(),
        &GridConfig::default(),
        &FloatFold,
    )
    .unwrap();
    assert_eq!(out, "1 b\n2 d\n");
}

#[test]
fn default_pipeline_passes_records_through() {
    let pipeline = Pipeline {
        stages: vec![Statement {
            source: Source::Current,
            address: None,
            receiver: Receiver::Rec,
            calls: Vec::new(),
        }],
    };
    let out = eval_pipeline_with_configs(
        &pipeline,
        "a   b\n\nc\n",
        "",
        &RecConfig::default(),
        &GridConfig::default(),
        &FloatFold,
    )
    .unwrap();
    assert_eq!(out, "a b\nc\n");
}

#[test]
fn outer_parentheses_are_dropped() {
    assert_eq!(parsed("r.p((1),2)"), parsed("r.p(1,2)"));
}

#[test]
fn padding_rows_fills_to_widest() {
    assert_eq!(ok(r#"g.rev("v",pad("."))"#, "ab\ncde\n"), "cde\nab.\n");
}

#[test]
fn records_render_and_read_back_unchanged() {
    assert_eq!(ok(r#"r.fs("\s+")"#, "a  b\nc d\n"), "a b\nc d\n");
    assert_eq!(ok(r#"r.rs("\n").rs("\n")"#, "a b\nc d\n"), "a b\nc d\n");
}

#[test]
fn grids_render_and_read_back_unchanged() {
    assert_eq!(ok(r#"g.rs("\n")"#, "ab\n\ncd\n"), "ab\n\ncd\n");
}

#[test]
fn record_errors_are_reported() {
    assert_eq!(err(r#"r.n("x")"#, "a\n"), "enum start must be integer or A-Z: x");
    assert_eq!(err("r.p(0)", "a\n"), "field positions are 1-based: 0");
    assert_eq!(err(r#"r.p("x")"#, "a\n"), "invalid digit found in string");
    assert_eq!(err(r#"r.sb("a")"#, "a\n"), "missing arg 2 for sb");
    assert_eq!(err(r#"r.x("a",",")"#, "a\n"), "expected integer arg for x");
    assert_eq!(err(r#"r.x(0,",")"#, "a\n"), "expected positive integer arg 1 for x");
    assert_eq!(err("r.g(1,zz(2))", "a 1\n"), "unknown aggregator: zz");
    assert_eq!(err(r#"r.g(1,"s")"#, "a 1\n"), "groupby aggregators must be function calls");
    assert_eq!(err("r.p(s(1))", "a\n"), "nested call cannot be converted to string here");
}

#[test]
fn address_errors_name_the_failing_address() {
    assert_eq!(
        parse_program("0r.n(1)").unwrap_err(),
        "address positions are 1-based: 0r.n(1)"
    );
    assert_eq!(
        parse_program("99999999999999999999999r.n(1)").unwrap_err(),
        "number too large to fit in target type"
    );
    assert_eq!(parse_program("1,xr.n(1)").unwrap_err(), "invalid address: xr.n(1)");
    assert_eq!(parse_program("1,/ab").unwrap_err(), "unterminated regex address: /ab");
    assert_eq!(parse_program("2,").unwrap_err(), "missing address");
}

#[test]
fn zero_column_written_as_text_is_refused() {
    assert_eq!(err(r#"r.x("0",",")"#, "a,b 1\n"), "field positions are 1-based: 0");
    assert_eq!(err(r#"r.i("0",2)"#, "a 1\n"), "field positions are 1-based: 0");
    assert_eq!(err(r#"r.g("0",c)"#, "a 1\n"), "field positions are 1-based: 0");
    assert_eq!(err(r#"r.g(1,s("0"))"#, "a 1\n"), "field positions are 1-based: 0");
}

#[test]
fn enum_numbering_past_the_i64_range_is_refused() {
    assert_eq!(
        err("r.n(9223372036854775807)", "a\nb\n"),
        "enum numbering exceeds the i64 range from: 9223372036854775807"
    );
    assert_eq!(run("r.n(9223372036854775806)", "a\nb\n").unwrap(), "9223372036854775806 a\n9223372036854775807 b\n");
    assert_eq!(run("r.n(9223372036854775807)", "a\n").unwrap(), "9223372036854775807 a\n");
}

#[test]
fn bare_count_aggregator_in_shorthand_counts_rows() {
    assert_eq!(run("r.g:1,c", "A 10\nA 20\nB 7\n").unwrap(), "A 2\nB 1\n");
}


#[test]
fn mark_pattern_that_does_not_compile_is_an_error() {
    assert!(run(r#"g.m(p("X"),"(","X","*")"#, ".XOOX.\n").is_err());
    assert_eq!(run(r#"g.m(p("X"),"O","X","*")"#, ".XOOX.\n").unwrap(), ".X**X.\n");
}

#[test]
fn address_regex_that_does_not_compile_is_an_error() {
    assert!(run("/(/r.p(1)", "a 1\nb 2\n").is_err());
    assert_eq!(run("/b/r.p(1)", "a 1\nb 2\n").unwrap(), "b\n");
}

#[test]
fn stdin_statement_matches_plain_statement_on_input() {
    let input = "A 10\nB 20\n";
    let via_stdin = ok("r.p:2; stdin.r.g:1,s:2", input);
    let plain = ok("r.g:1,s:2", input);
    assert_eq!(via_stdin, format!("10\n20\n---\n{plain}"));
}

#[test]
fn pipeline_is_its_last_stage_on_the_rest() {
    let input = "A 10\nB 20\n";
    let whole = ok("r.ofs=| | g.t", input);
    let first = ok("r.ofs=|", input);
    assert_eq!(whole, ok("g.t", &first));
    assert_eq!(ok("r.ofs=| | g.t", input), whole);
}

#[test]
fn operation_error_messages() {
    assert_eq!(err("g.rt(x)", "ab\n"), "rotate direction must be r, l, or 180");
    assert_eq!(err("g.rev(q)", "ab\n"), "rev mode must be h, v, hv, or 180");
    assert_eq!(err("g.t(1,2)", "ab\n"), "transpose expects 0 or 1 args: optional pad(...)");
    assert_eq!(err(r#"g.get(p("z"))"#, "ab\n"), "pick could not find match #1 for z");
    assert_eq!(err("g.get(3,1)", "ab\n"), "grid x out of range at row 1: 3");
    assert_eq!(err(r#"g.pad("x")"#, "ab\n"), "expected non-negative integer arg for pad");
    assert_eq!(err("r.g(1,foo(2))", "a 1\n"), "unknown aggregator: foo");
    assert_eq!(err("r.sh(zz)", "a 1\n"), "reshape mode must be w2l or l2w");
    assert_eq!(err("r.n(x)", "a 1\n"), "enum start must be integer or A-Z: x");
    assert_eq!(err("r.x(1)", "a 1\n"), "missing arg 2 for x");
    assert_eq!(err(r#"g.m(p("a"),diag2,"*")"#, "ab\n"), "unknown ray: diag2");
}

#[test]
fn nested_argument_errors_are_the_inner_call_message() {
    let e = parse_program("r.g(1,s(2)").unwrap_err();
    assert_eq!(
        e,
        "missing closing `)` in call segment `s(2`. Add the closing `)` or switch to shorthand like `name:arg1,arg2` if that reads better."
    );
}
