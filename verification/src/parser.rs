//! The DSL parser: programs (`;`), pipelines (`|`), statements with optional
//! source and address prefixes, dot-chained calls, and argument expressions.
use vstd::prelude::*;

use crate::ast::{
    opt_range_view, Address, AddressModel, AddressRange, Call, Expr, Pipeline, RangeModel,
    Receiver, Source, SourceModel, Statement,
};
use crate::lexer::{
    find_empty_segment, find_empty_stage, find_top_level, first_top_hit, has_empty_segment,
    has_empty_stage, lemma_scan_depth_bound, lemma_vecs_push, passes_over_exec, scan_before,
    scan_step_exec, short_text, split_top_level, split_top_spec, top_hit, trimmed_pieces,
    trimmed_range, vecs_view,
};
use crate::num::{all_digits, digits_value, is_digit, parse_i64_spec, parse_usize_chars};
use crate::text::{chars_of, string_of, trim_bounds, trim_spec, trim_start_spec, vec_range};

verus! {

// ---------------------------------------------------------------------------
// Literal prefixes and names
// ---------------------------------------------------------------------------

/// `s` begins with `lit`.
pub open spec fn starts_with(s: Seq<char>, lit: Seq<char>) -> bool {
    lit.len() <= s.len() && s.subrange(0, lit.len() as int) == lit
}

/// Whether `s[from..]` begins with `lit`.
fn starts_with_at(s: &Vec<char>, from: usize, lit: &Vec<char>) -> (r: bool)
    requires
        from <= s.len(),
    ensures
        r == starts_with(s@.skip(from as int), lit@),
{
    if lit.len() > s.len() - from {
        return false;
    }
    let mut j: usize = 0;
    while j < lit.len()
        invariant
            j <= lit.len(),
            from + lit.len() <= s.len(),
            forall|k: int| 0 <= k < j ==> s@[from + k] == lit@[k],
        decreases lit.len() - j,
    {
        if s[from + j] != lit[j] {
            assert(s@.skip(from as int).subrange(0, lit.len() as int)[j as int] != lit@[j as int]);
            return false;
        }
        j += 1;
    }
    assert(s@.skip(from as int).subrange(0, lit.len() as int) =~= lit@);
    true
}

/// An ASCII letter.
pub open spec fn is_ascii_alpha(c: char) -> bool {
    ('a' <= c && c <= 'z') || ('A' <= c && c <= 'Z')
}

/// An ASCII letter or digit.
pub open spec fn is_ascii_alnum(c: char) -> bool {
    is_ascii_alpha(c) || is_digit(c)
}

/// A letter or `_`, then letters, digits or `_`.
pub open spec fn is_name(s: Seq<char>) -> bool {
    &&& s.len() > 0
    &&& (is_ascii_alpha(s[0]) || s[0] == '_')
    &&& forall|i: int| 1 <= i < s.len() ==> is_ascii_alnum(#[trigger] s[i]) || s[i] == '_'
}

fn is_name_exec(s: &Vec<char>) -> (r: bool)
    ensures
        r == is_name(s@),
{
    if s.len() == 0 {
        return false;
    }
    let c = s[0];
    if !(('a' <= c && c <= 'z') || ('A' <= c && c <= 'Z') || c == '_') {
        return false;
    }
    let mut i: usize = 1;
    while i < s.len()
        invariant
            1 <= i <= s.len(),
            forall|k: int| 1 <= k < i ==> is_ascii_alnum(#[trigger] s@[k]) || s@[k] == '_',
        decreases s.len() - i,
    {
        let c = s[i];
        if !(('a' <= c && c <= 'z') || ('A' <= c && c <= 'Z') || ('0' <= c && c <= '9') || c
            == '_') {
            return false;
        }
        i += 1;
    }
    true
}

/// The receiver spelled at the start of `t` and the length of its prefix.
pub open spec fn receiver_prefix(t: Seq<char>) -> Option<(Receiver, int)> {
    if starts_with(t, seq!['r', '.']) {
        Some((Receiver::Rec, 2))
    } else if starts_with(t, seq!['r', 'e', 'c', '.']) {
        Some((Receiver::Rec, 4))
    } else if starts_with(t, seq!['g', '.']) {
        Some((Receiver::Grid, 2))
    } else if starts_with(t, seq!['g', 'r', 'i', 'd', '.']) {
        Some((Receiver::Grid, 5))
    } else {
        None
    }
}

fn receiver_prefix_exec(s: &Vec<char>, from: usize) -> (r: Option<(Receiver, usize)>)
    requires
        from <= s.len(),
    ensures
        match r {
            Some((rv, n)) => receiver_prefix(s@.skip(from as int)) == Some((rv, n as int)) && from
                + n <= s.len(),
            None => receiver_prefix(s@.skip(from as int)) is None,
        },
{
    if starts_with_at(s, from, &vec!['r', '.']) {
        Some((Receiver::Rec, 2))
    } else if starts_with_at(s, from, &vec!['r', 'e', 'c', '.']) {
        Some((Receiver::Rec, 4))
    } else if starts_with_at(s, from, &vec!['g', '.']) {
        Some((Receiver::Grid, 2))
    } else if starts_with_at(s, from, &vec!['g', 'r', 'i', 'd', '.']) {
        Some((Receiver::Grid, 5))
    } else {
        None
    }
}

/// A receiver name, which cannot name a source.
pub open spec fn is_receiver_name(s: Seq<char>) -> bool {
    s == seq!['r'] || s == seq!['r', 'e', 'c'] || s == seq!['g'] || s == seq!['g', 'r', 'i', 'd']
}

/// The source named at the start of `s` and where the rest begins:
/// `stdin.`, `prev.`, or a name before the first top-level `.` that is not a
/// receiver name.
pub open spec fn source_prefix(s: Seq<char>) -> (SourceModel, int) {
    if starts_with(s, seq!['s', 't', 'd', 'i', 'n', '.']) {
        (SourceModel::Stdin, 6)
    } else if starts_with(s, seq!['p', 'r', 'e', 'v', '.']) {
        (SourceModel::Prev, 5)
    } else {
        let k = first_top_hit(s, '.', 0);
        if k >= 0 && is_name(s.take(k)) && !is_receiver_name(s.take(k)) {
            (SourceModel::Named(s.take(k)), k + 1)
        } else {
            (SourceModel::Current, 0)
        }
    }
}

pub proof fn lemma_first_top_hit_range(s: Seq<char>, d: char, i: int)
    requires
        0 <= i,
    ensures
        first_top_hit(s, d, i) == -1 || (i <= first_top_hit(s, d, i) < s.len() && top_hit(
            s,
            first_top_hit(s, d, i),
            d,
        )),
    decreases s.len() - i,
{
    if i < s.len() && !top_hit(s, i, d) {
        lemma_first_top_hit_range(s, d, i + 1);
    }
}

fn source_prefix_exec(s: &Vec<char>) -> (r: (Source, usize))
    requires
        short_text(s@),
    ensures
        (r.0@, r.1 as int) == source_prefix(s@),
        r.1 <= s.len(),
{
    if starts_with_at(s, 0, &vec!['s', 't', 'd', 'i', 'n', '.']) {
        assert(s@.skip(0) =~= s@);
        return (Source::Stdin, 6);
    }
    if starts_with_at(s, 0, &vec!['p', 'r', 'e', 'v', '.']) {
        assert(s@.skip(0) =~= s@);
        return (Source::Prev, 5);
    }
    assert(s@.skip(0) =~= s@);
    match find_top_level(s, '.') {
        Some(k) => {
            proof {
                lemma_first_top_hit_range(s@, '.', 0);
            }
            let cand = vec_range(s, 0, k);
            assert(cand@ =~= s@.take(k as int));
            let l1 = vec!['r'];
            let l2 = vec!['r', 'e', 'c'];
            let l3 = vec!['g'];
            let l4 = vec!['g', 'r', 'i', 'd'];
            assert(l1@ =~= seq!['r']);
            assert(l2@ =~= seq!['r', 'e', 'c']);
            assert(l3@ =~= seq!['g']);
            assert(l4@ =~= seq!['g', 'r', 'i', 'd']);
            let reserved = chars_eq_lit(&cand, &l1) || chars_eq_lit(&cand, &l2) || chars_eq_lit(
                &cand,
                &l3,
            ) || chars_eq_lit(&cand, &l4);
            if is_name_exec(&cand) && !reserved {
                (Source::Named(string_of(&cand)), k + 1)
            } else {
                (Source::Current, 0)
            }
        },
        None => (Source::Current, 0),
    }
}

fn chars_eq_lit(a: &Vec<char>, b: &Vec<char>) -> (r: bool)
    ensures
        r == (a@ == b@),
{
    crate::text::chars_eq(a, b)
}

// ---------------------------------------------------------------------------
// Addresses
// ---------------------------------------------------------------------------

/// End of the run of ASCII digits starting at `i`.
pub open spec fn digit_run_end(t: Seq<char>, i: int) -> int
    decreases t.len() - i,
{
    if i < 0 || i >= t.len() || !is_digit(t[i]) {
        i
    } else {
        digit_run_end(t, i + 1)
    }
}

/// Index of the `/` that closes a regex address, scanning from `i`; a
/// backslash escapes the next character. -1 when there is none.
pub open spec fn regex_close(t: Seq<char>, i: int, escaped: bool) -> int
    decreases t.len() - i,
{
    if i < 0 || i >= t.len() {
        -1
    } else if escaped {
        regex_close(t, i + 1, false)
    } else if t[i] == '\\' {
        regex_close(t, i + 1, true)
    } else if t[i] == '/' {
        i
    } else {
        regex_close(t, i + 1, false)
    }
}

/// Each backslash followed by `c` becomes `c`; everything else is kept.
pub open spec fn unescape_one(s: Seq<char>, c: char) -> Seq<char>
    decreases s.len(),
{
    if s.len() == 0 {
        seq![]
    } else if s.len() >= 2 && s[0] == '\\' && s[1] == c {
        seq![c] + unescape_one(s.skip(2), c)
    } else {
        seq![s[0]] + unescape_one(s.skip(1), c)
    }
}

/// An address at the start of `t` and its length: `$`, `/regex/`, or a
/// positive record number that fits in `usize`.
pub open spec fn address_spec(t: Seq<char>) -> Option<(AddressModel, int)> {
    if t.len() == 0 {
        None
    } else if t[0] == '$' {
        Some((AddressModel::Last, 1))
    } else if t[0] == '/' {
        let j = regex_close(t, 1, false);
        if j < 0 {
            None
        } else {
            Some((AddressModel::Regex(unescape_one(t.subrange(1, j), '/')), j + 1))
        }
    } else if is_digit(t[0]) {
        let e = digit_run_end(t, 0);
        let v = digits_value(t.take(e));
        if v == 0 || v > usize::MAX {
            None
        } else {
            Some((AddressModel::Line(v), e))
        }
    } else {
        None
    }
}

/// The message for a text `t` that does not start with an address.
pub open spec fn address_error(t: Seq<char>) -> Seq<char> {
    if t.len() == 0 {
        "missing address"@
    } else if t[0] == '/' {
        "unterminated regex address: "@ + t
    } else if is_digit(t[0]) {
        if digits_value(t.take(digit_run_end(t, 0))) > usize::MAX {
            crate::num::int_error_message(false, false, false)
        } else {
            "address positions are 1-based: "@ + t
        }
    } else {
        "invalid address: "@ + t
    }
}

/// The message for a text `t` that does not start with an address range:
/// that of the first address, or of the second one after a `,`.
pub open spec fn range_error(t: Seq<char>) -> Seq<char> {
    match address_spec(t) {
        None => address_error(t),
        Some((a, k)) => address_error(t.skip(k + 1)),
    }
}

/// An address or `address,address` at the start of `t` and its length.
pub open spec fn range_spec(t: Seq<char>) -> Option<(RangeModel, int)> {
    match address_spec(t) {
        None => None,
        Some((a, k)) => if k < t.len() && t[k] == ',' {
            match address_spec(t.skip(k + 1)) {
                None => None,
                Some((b, m)) => Some((RangeModel { start: a, end: Some(b) }, k + 1 + m)),
            }
        } else {
            Some((RangeModel { start: a, end: None }, k))
        },
    }
}

proof fn lemma_unescape_one_step(s: Seq<char>, c: char, i: int)
    requires
        0 <= i < s.len(),
    ensures
        i + 2 <= s.len() && s[i] == '\\' && s[i + 1] == c ==> unescape_one(s.skip(i), c) == seq![c]
            + unescape_one(s.skip(i + 2), c),
        !(i + 2 <= s.len() && s[i] == '\\' && s[i + 1] == c) ==> unescape_one(s.skip(i), c) == seq![
            s[i],
        ] + unescape_one(s.skip(i + 1), c),
{
    let t = s.skip(i);
    if i + 2 <= s.len() {
        assert(t.skip(2) =~= s.skip(i + 2));
    }
    assert(t.skip(1) =~= s.skip(i + 1));
}

fn unescape_one_exec(v: &Vec<char>, c: char) -> (out: Vec<char>)
    ensures
        out@ == unescape_one(v@, c),
{
    let mut out: Vec<char> = Vec::new();
    let mut i: usize = 0;
    assert(v@.skip(0) == v@);
    while i < v.len()
        invariant
            i <= v.len(),
            unescape_one(v@, c) == out@ + unescape_one(v@.skip(i as int), c),
        decreases v.len() - i,
    {
        proof {
            lemma_unescape_one_step(v@, c, i as int);
        }
        if i + 1 < v.len() && v[i] == '\\' && v[i + 1] == c {
            out.push(c);
            i += 2;
        } else {
            out.push(v[i]);
            i += 1;
        }
    }
    assert(v@.skip(v.len() as int) =~= Seq::<char>::empty());
    assert(out@ + Seq::<char>::empty() == out@);
    out
}

/// `prefix` followed by the text from `from` on.
fn error_with(prefix: &str, s: &Vec<char>, from: usize) -> (out: String)
    requires
        from <= s.len(),
    ensures
        out@ == prefix@ + s@.skip(from as int),
{
    let tail = vec_range(s, from, s.len());
    let t = string_of(&tail);
    crate::text::concat2(prefix, t.as_str())
}

/// Parses the address at `s[from..]`; returns it and the index after it.
fn parse_address(s: &Vec<char>, from: usize) -> (r: Result<(Address, usize), String>)
    requires
        from <= s.len(),
    ensures
        match r {
            Ok((a, n)) => from <= n <= s.len() && address_spec(s@.skip(from as int)) == Some(
                (a@, n - from),
            ),
            Err(m) => address_spec(s@.skip(from as int)) is None && m@ == address_error(
                s@.skip(from as int),
            ),
        },
{
    let ghost t = s@.skip(from as int);
    if from == s.len() {
        return Err(String::from_str("missing address"));
    }
    let first = s[from];
    assert(t[0] == first);
    if first == '$' {
        return Ok((Address::Last, from + 1));
    }
    if first == '/' {
        let mut escaped = false;
        let mut i: usize = from + 1;
        while i < s.len()
            invariant
                from < i <= s.len(),
                t == s@.skip(from as int),
                t[0] == '/',
                regex_close(t, 1, false) == regex_close(t, i - from, escaped),
            decreases s.len() - i,
        {
            let c = s[i];
            assert(t[i - from] == c);
            if escaped {
                escaped = false;
            } else if c == '\\' {
                escaped = true;
            } else if c == '/' {
                let inner = vec_range(s, from + 1, i);
                assert(inner@ =~= t.subrange(1, i - from));
                let pat = unescape_one_exec(&inner, '/');
                return Ok((Address::Regex(string_of(&pat)), i + 1));
            }
            i += 1;
        }
        return Err(error_with("unterminated regex address: ", s, from));
    }
    if '0' <= first && first <= '9' {
        let mut e: usize = from;
        while e < s.len() && '0' <= s[e] && s[e] <= '9'
            invariant
                from <= e <= s.len(),
                t == s@.skip(from as int),
                digit_run_end(t, 0) == digit_run_end(t, e - from),
                forall|k: int| 0 <= k < e - from ==> is_digit(#[trigger] t[k]),
            decreases s.len() - e,
        {
            assert(t[e - from] == s@[e as int]);
            e += 1;
        }
        proof {
            if e < s.len() {
                assert(t[e - from] == s@[e as int]);
            }
            assert(digit_run_end(t, 0) == e - from);
        }
        let digits = vec_range(s, from, e);
        assert(digits@ =~= t.take(e - from));
        assert(all_digits(digits@));
        assert(digits@[0] == first);
        match parse_usize_chars(&digits) {
            Ok(v) => {
                if v == 0 {
                    return Err(error_with("address positions are 1-based: ", s, from));
                }
                return Ok((Address::Line(v), e));
            },
            Err(msg) => {
                return Err(msg);
            },
        }
    }
    Err(error_with("invalid address: ", s, from))
}

/// Parses `address` or `address,address` at `s[from..]`.
fn parse_address_range(s: &Vec<char>, from: usize) -> (r: Result<(AddressRange, usize), String>)
    requires
        from <= s.len(),
    ensures
        match r {
            Ok((a, n)) => from <= n <= s.len() && range_spec(s@.skip(from as int)) == Some(
                (a@, n - from),
            ),
            Err(m) => range_spec(s@.skip(from as int)) is None && m@ == range_error(
                s@.skip(from as int),
            ),
        },
{
    let ghost t = s@.skip(from as int);
    let (start, k) = parse_address(s, from)?;
    if k < s.len() && s[k] == ',' {
        assert(t[k - from] == s@[k as int]);
        let ghost u = t.skip(k - from + 1);
        assert(u =~= s@.skip(k + 1));
        let (end, m) = parse_address(s, k + 1)?;
        Ok((AddressRange { start, end: Some(end) }, m))
    } else {
        proof {
            if k < s.len() {
                assert(t[k - from] == s@[k as int]);
            }
        }
        Ok((AddressRange { start, end: None }, k))
    }
}

// ---------------------------------------------------------------------------
// Statement prefixes
// ---------------------------------------------------------------------------

/// The source, optional address range, receiver, and the index where the
/// call chain begins, for a statement `s`; `None` when `s` does not start
/// with a valid prefix.
pub open spec fn prefix_spec(s: Seq<char>) -> Option<(SourceModel, Option<RangeModel>, Receiver, int)> {
    let (src, k) = source_prefix(s);
    let t = s.skip(k);
    match receiver_prefix(t) {
        Some((rv, n)) => Some((src, None, rv, k + n)),
        None => if t.len() > 0 && (t[0] == '$' || t[0] == '/' || is_digit(t[0])) {
            match range_spec(t) {
                None => None,
                Some((rg, m)) => match receiver_prefix(t.skip(m)) {
                    Some((rv, n)) => Some((src, Some(rg), rv, k + m + n)),
                    None => None,
                },
            }
        } else {
            None
        },
    }
}

/// The message for a statement `src` without a valid receiver prefix.
pub open spec fn invalid_receiver_prefix_text(src: Seq<char>) -> Seq<char> {
    "invalid receiver prefix in `"@ + src
        + "`: expected `r.` / `rec.` or `g.` / `grid.`. Start the statement with a receiver, such as `r.method...` or `g.method...`."@
}

/// The message for a statement without a valid receiver prefix.
pub fn invalid_receiver_prefix_message(src: &Vec<char>) -> (out: String)
    ensures
        out@ == invalid_receiver_prefix_text(src@),
{
    let t = string_of(src);
    crate::text::concat3(
        "invalid receiver prefix in `",
        t.as_str(),
        "`: expected `r.` / `rec.` or `g.` / `grid.`. Start the statement with a receiver, such as `r.method...` or `g.method...`.",
    )
}

/// The message for a statement `s` without a valid prefix: that of a bad
/// address when the text after the source starts like an address but none
/// parses, else the invalid-receiver message.
pub open spec fn prefix_error(s: Seq<char>) -> Seq<char> {
    let t = s.skip(source_prefix(s).1);
    if t.len() > 0 && (t[0] == '$' || t[0] == '/' || is_digit(t[0])) && range_spec(t) is None {
        range_error(t)
    } else {
        invalid_receiver_prefix_text(s)
    }
}

/// Parses a statement prefix: source, optional address range, receiver;
/// returns them with the index where the call chain begins.
pub fn parse_statement_prefix(s: &Vec<char>) -> (r: Result<
    (Source, Option<AddressRange>, Receiver, usize),
    String,
>)
    requires
        short_text(s@),
    ensures
        match r {
            Ok((src, rg, rv, k)) => k <= s.len() && prefix_spec(s@) == Some(
                (src@, opt_range_view(rg), rv, k as int),
            ),
            Err(m) => prefix_spec(s@) is None && m@ == prefix_error(s@),
        },
{
    let (source, k) = source_prefix_exec(s);
    let ghost t = s@.skip(k as int);
    if let Some((rv, n)) = receiver_prefix_exec(s, k) {
        return Ok((source, None, rv, k + n));
    }
    let first_ok = k < s.len() && (s[k] == '$' || s[k] == '/' || ('0' <= s[k] && s[k] <= '9'));
    proof {
        if k < s.len() {
            assert(t[0] == s@[k as int]);
        }
    }
    if !first_ok {
        return Err(invalid_receiver_prefix_message(s));
    }
    let (range, m) = match parse_address_range(s, k) {
        Ok(x) => x,
        Err(_) => {
            return Err(invalid_receiver_prefix_message_or_address(s, k));
        },
    };
    assert(t.skip(m - k) =~= s@.skip(m as int));
    if let Some((rv, n)) = receiver_prefix_exec(s, m) {
        return Ok((source, Some(range), rv, m + n));
    }
    Err(invalid_receiver_prefix_message(s))
}

/// The error that the address parser reports for `s[from..]`.
fn invalid_receiver_prefix_message_or_address(s: &Vec<char>, from: usize) -> (out: String)
    requires
        from <= s.len(),
    ensures
        range_spec(s@.skip(from as int)) is Some ==> out@ == invalid_receiver_prefix_text(s@),
        range_spec(s@.skip(from as int)) is None ==> out@ == range_error(s@.skip(from as int)),
{
    match parse_address_range(s, from) {
        Ok(_) => invalid_receiver_prefix_message(s),
        Err(msg) => msg,
    }
}


// ---------------------------------------------------------------------------
// Calls and expressions
// ---------------------------------------------------------------------------

/// First index of `c` at or after `i` (anywhere in the text), or -1.
pub open spec fn index_of(s: Seq<char>, c: char, i: int) -> int
    decreases s.len() - i,
{
    if i < 0 || i >= s.len() {
        -1
    } else if s[i] == c {
        i
    } else {
        index_of(s, c, i + 1)
    }
}

/// Last index of `c` before `j`, or -1.
pub open spec fn last_index_of(s: Seq<char>, c: char, j: int) -> int
    decreases j,
{
    if j <= 0 || j > s.len() {
        -1
    } else if s[j - 1] == c {
        j - 1
    } else {
        last_index_of(s, c, j - 1)
    }
}

/// The first top-level `:` or `=` of `s`, whichever comes first.
pub open spec fn shorthand_delim(s: Seq<char>) -> Option<(int, char)> {
    let c = first_top_hit(s, ':', 0);
    let e = first_top_hit(s, '=', 0);
    if c >= 0 && e >= 0 {
        if c < e {
            Some((c, ':'))
        } else {
            Some((e, '='))
        }
    } else if c >= 0 {
        Some((c, ':'))
    } else if e >= 0 {
        Some((e, '='))
    } else {
        None
    }
}

/// How a call segment is written: `name(inner)` with the bounds of `inner`,
/// `name:inner` / `name=inner` with the start of `inner`, a bare `name`, or
/// not a valid call.
pub enum CallShape {
    Paren(Seq<char>, int, int),
    Shorthand(Seq<char>, int),
    Bare(Seq<char>),
    Invalid,
}

/// The shape of a call segment. A shorthand delimiter wins when it comes
/// before the first `(`; the paren form runs to the last `)`.
pub open spec fn call_shape(s: Seq<char>) -> CallShape {
    let open = index_of(s, '(', 0);
    let sh = shorthand_delim(s);
    let idx = match sh {
        Some((i, _)) => i,
        None => 0,
    };
    if sh is Some && (open < 0 || idx < open) {
        let name = trim_spec(s.take(idx));
        if !is_name(name) || trim_spec(s.skip(idx + 1)).len() == 0 {
            CallShape::Invalid
        } else {
            CallShape::Shorthand(name, idx + 1)
        }
    } else if open >= 0 {
        let name = trim_spec(s.take(open));
        let close = last_index_of(s, ')', s.len() as int);
        if !is_name(name) || close <= open {
            CallShape::Invalid
        } else {
            CallShape::Paren(name, open + 1, close)
        }
    } else {
        let name = trim_spec(s);
        if is_name(name) {
            CallShape::Bare(name)
        } else {
            CallShape::Invalid
        }
    }
}

/// A double-quoted string literal.
pub open spec fn is_quoted(s: Seq<char>) -> bool {
    s.len() >= 2 && s[0] == '"' && s.last() == '"'
}

/// Written with call syntax: holds a `(` or a top-level `:` / `=`.
pub open spec fn is_call_syntax(s: Seq<char>) -> bool {
    index_of(s, '(', 0) >= 0 || shorthand_delim(s) is Some
}

pub proof fn lemma_trim_len(s: Seq<char>)
    ensures
        trim_spec(s).len() <= s.len(),
{
    crate::text::lemma_trim_bounds(s);
}

pub proof fn lemma_index_of_range(s: Seq<char>, c: char, i: int)
    requires
        0 <= i,
    ensures
        index_of(s, c, i) == -1 || (i <= index_of(s, c, i) < s.len() && s[index_of(s, c, i)] == c),
    decreases s.len() - i,
{
    if i < s.len() && s[i] != c {
        lemma_index_of_range(s, c, i + 1);
    }
}

pub proof fn lemma_last_index_of_range(s: Seq<char>, c: char, j: int)
    requires
        0 <= j <= s.len(),
    ensures
        last_index_of(s, c, j) == -1 || (0 <= last_index_of(s, c, j) < j && s[last_index_of(
            s,
            c,
            j,
        )] == c),
    decreases j,
{
    if j > 0 && s[j - 1] != c {
        lemma_last_index_of_range(s, c, j - 1);
    }
}

pub proof fn lemma_shorthand_range(s: Seq<char>)
    ensures
        shorthand_delim(s) matches Some((i, _)) ==> 0 <= i < s.len(),
{
    lemma_first_top_hit_range(s, ':', 0);
    lemma_first_top_hit_range(s, '=', 0);
}

/// Each range of `top_ranges` lies within the text.
pub proof fn lemma_top_ranges_bounds(s: Seq<char>, d: char, start: int, i: int)
    requires
        0 <= start <= i <= s.len(),
    ensures
        forall|k: int|
            0 <= k < crate::lexer::top_ranges(s, d, start, i).len() ==> 0 <= (
            #[trigger] crate::lexer::top_ranges(s, d, start, i)[k]).0 <= crate::lexer::top_ranges(
                s,
                d,
                start,
                i,
            )[k].1 <= s.len(),
    decreases s.len() - i,
{
    let r = crate::lexer::top_ranges(s, d, start, i);
    if i < s.len() {
        if top_hit(s, i, d) {
            lemma_top_ranges_bounds(s, d, i + 1, i + 1);
            let rest = crate::lexer::top_ranges(s, d, i + 1, i + 1);
            assert(r == seq![(start, i)] + rest);
            assert forall|k: int| 0 <= k < r.len() implies 0 <= (#[trigger] r[k]).0 <= r[k].1
                <= s.len() by {
                if k > 0 {
                    assert(r[k] == rest[k - 1]);
                }
            }
        } else {
            lemma_top_ranges_bounds(s, d, start, i + 1);
            assert(r == crate::lexer::top_ranges(s, d, start, i + 1));
        }
    } else {
        assert(r == seq![(start, s.len() as int)]);
    }
}

/// Each piece of a top-level split is no longer than the text.
pub proof fn lemma_split_piece_len(s: Seq<char>, d: char)
    ensures
        forall|k: int|
            0 <= k < split_top_spec(s, d).len() ==> (#[trigger] split_top_spec(s, d)[k]).len()
                <= s.len() && trim_spec(split_top_spec(s, d)[k]).len() <= s.len(),
{
    let r = crate::lexer::segments(s, d);
    lemma_top_ranges_bounds(s, d, 0, 0);
    assert forall|k: int| 0 <= k < split_top_spec(s, d).len() implies (
    #[trigger] split_top_spec(s, d)[k]).len() <= s.len() && trim_spec(split_top_spec(s, d)[k]).len()
        <= s.len() by {
        let p = r[k];
        assert(split_top_spec(s, d)[k] == trim_spec(s.subrange(p.0, p.1)));
        lemma_trim_len(s.subrange(p.0, p.1));
        lemma_trim_len(split_top_spec(s, d)[k]);
    }
}

/// `e` is what `parse_expr` gives for the text `t`.
pub open spec fn expr_from(t: Seq<char>, e: Expr) -> bool
    decreases t.len(), 1int,
{
    proof {
        lemma_trim_len(t);
    }
    let s = trim_spec(t);
    if is_quoted(s) {
        e matches Expr::Str(x) && x@ == unescape_one(s.subrange(1, s.len() - 1), '"')
    } else if s.len() >= 2 && s[0] == '(' && s.last() == ')' {
        expr_from(s.subrange(1, s.len() - 1), e)
    } else if is_call_syntax(s) {
        e matches Expr::Call(c) && call_from(s, c)
    } else if parse_i64_spec(s) is Some {
        e == Expr::Num(parse_i64_spec(s)->0)
    } else {
        e matches Expr::Ident(x) && x@ == s
    }
}

/// `c` is what `parse_call` gives for the segment `s`.
pub open spec fn call_from(s: Seq<char>, c: Call) -> bool
    decreases s.len(), 0int,
{
    proof {
        lemma_shorthand_range(s);
        lemma_index_of_range(s, '(', 0);
        lemma_last_index_of_range(s, ')', s.len() as int);
    }
    match call_shape(s) {
        CallShape::Invalid => false,
        CallShape::Bare(name) => c.name@ == name && c.args.len() == 0,
        CallShape::Shorthand(name, a) => c.name@ == name && args_from(
            s.subrange(a, s.len() as int),
            c.args@,
        ),
        CallShape::Paren(name, a, b) => c.name@ == name && args_from(s.subrange(a, b), c.args@),
    }
}

/// `args` is what `parse_args` gives for the argument text `inner`.
pub open spec fn args_from(inner: Seq<char>, args: Seq<Expr>) -> bool
    decreases inner.len(), 2int,
{
    proof {
        lemma_split_piece_len(inner, ',');
    }
    let parts = split_top_spec(inner, ',');
    if trim_spec(inner).len() == 0 {
        args.len() == 0
    } else {
        &&& args.len() == parts.len()
        &&& forall|i: int|
            0 <= i < parts.len() ==> expr_from(trim_spec(parts[i]), #[trigger] args[i])
    }
}

/// The message `parse_expr` gives for `t`, or `None` when `t` parses.
pub open spec fn expr_error(t: Seq<char>) -> Option<Seq<char>>
    decreases t.len(), 1int, 0int,
{
    proof {
        lemma_trim_len(t);
    }
    let s = trim_spec(t);
    if is_quoted(s) {
        None
    } else if s.len() >= 2 && s[0] == '(' && s.last() == ')' {
        expr_error(s.subrange(1, s.len() - 1))
    } else if is_call_syntax(s) {
        call_error(s)
    } else {
        None
    }
}

/// The message `parse_call` gives for the segment `s`, or `None` when it
/// parses: a bad shape, else the first argument that fails.
pub open spec fn call_error(s: Seq<char>) -> Option<Seq<char>>
    decreases s.len(), 0int, 0int,
{
    proof {
        lemma_shorthand_range(s);
        lemma_index_of_range(s, '(', 0);
        lemma_last_index_of_range(s, ')', s.len() as int);
    }
    match call_shape(s) {
        CallShape::Invalid => Some(shape_error(s)),
        CallShape::Bare(name) => None,
        CallShape::Shorthand(name, a) => args_error(s.subrange(a, s.len() as int)),
        CallShape::Paren(name, a, b) => args_error(s.subrange(a, b)),
    }
}

/// The message `parse_args` gives for `inner`, or `None` when it parses:
/// that of the first argument that fails.
pub open spec fn args_error(inner: Seq<char>) -> Option<Seq<char>>
    decreases inner.len(), 3int, 0int,
{
    if trim_spec(inner).len() == 0 {
        None
    } else {
        first_bad_arg(inner, 0)
    }
}

/// The message of the first argument of `inner` from `i` on that fails.
pub open spec fn first_bad_arg(inner: Seq<char>, i: int) -> Option<Seq<char>>
    decreases inner.len(), 2int, split_top_spec(inner, ',').len() - i,
{
    proof {
        lemma_split_piece_len(inner, ',');
    }
    let parts = split_top_spec(inner, ',');
    if i < 0 || i >= parts.len() {
        None
    } else if expr_error(trim_spec(parts[i])) is Some {
        expr_error(trim_spec(parts[i]))
    } else {
        first_bad_arg(inner, i + 1)
    }
}

/// First index of `c` in `s` (anywhere).
fn index_of_exec(s: &Vec<char>, c: char) -> (r: Option<usize>)
    ensures
        match r {
            Some(i) => index_of(s@, c, 0) == i as int,
            None => index_of(s@, c, 0) == -1,
        },
{
    let mut i: usize = 0;
    while i < s.len()
        invariant
            i <= s.len(),
            index_of(s@, c, 0) == index_of(s@, c, i as int),
        decreases s.len() - i,
    {
        if s[i] == c {
            return Some(i);
        }
        i += 1;
    }
    None
}

/// Last index of `c` in `s`.
fn last_index_of_exec(s: &Vec<char>, c: char) -> (r: Option<usize>)
    ensures
        match r {
            Some(i) => last_index_of(s@, c, s.len() as int) == i as int,
            None => last_index_of(s@, c, s.len() as int) == -1,
        },
{
    let mut j: usize = s.len();
    while j > 0
        invariant
            j <= s.len(),
            last_index_of(s@, c, s.len() as int) == last_index_of(s@, c, j as int),
        decreases j,
    {
        if s[j - 1] == c {
            return Some(j - 1);
        }
        j -= 1;
    }
    None
}

/// The first top-level `:` or `=`.
fn find_shorthand_delim(s: &Vec<char>) -> (r: Option<(usize, char)>)
    requires
        short_text(s@),
    ensures
        match r {
            Some((i, d)) => shorthand_delim(s@) == Some((i as int, d)),
            None => shorthand_delim(s@) is None,
        },
{
    let colon = find_top_level(s, ':');
    let equals = find_top_level(s, '=');
    match (colon, equals) {
        (Some(c), Some(e)) => Some(
            if c < e {
                (c, ':')
            } else {
                (e, '=')
            },
        ),
        (Some(c), None) => Some((c, ':')),
        (None, Some(e)) => Some((e, '=')),
        (None, None) => None,
    }
}

/// Whether the segment is written with call syntax.
fn is_call_syntax_exec(s: &Vec<char>) -> (r: bool)
    requires
        short_text(s@),
    ensures
        r == is_call_syntax(s@),
{
    index_of_exec(s, '(').is_some() || find_shorthand_delim(s).is_some()
}

/// A call segment split into its name and where its arguments are.
enum CallSyntax {
    Paren { name: Vec<char>, inner_start: usize, inner_end: usize },
    Shorthand { name: Vec<char>, inner_start: usize },
    Bare { name: Vec<char> },
}

/// The message for a shorthand call `src` without a name or without
/// arguments.
pub open spec fn malformed_shorthand_text(src: Seq<char>, delim: char) -> Seq<char> {
    "malformed shorthand call `"@ + src + "`: `"@ + seq![delim]
        + "` must follow a method name and be followed by at least one argument. Use bare `name` for zero-arg calls, or write `name"@
        + seq![delim] + "value` / `name(...)`."@
}

/// The message for a call name that is not a valid name.
pub open spec fn invalid_call_name_text(name: Seq<char>, src: Seq<char>) -> Seq<char> {
    "invalid bare call name `"@ + name + "` in `"@ + src
        + "`: call names must start with a letter or `_`, then use only letters, digits, or `_`. Rename the method token or check for misplaced punctuation."@
}

/// The message for a paren call without its closing `)`.
pub open spec fn missing_closing_paren_text(src: Seq<char>) -> Seq<char> {
    "missing closing `)` in call segment `"@ + src
        + "`. Add the closing `)` or switch to shorthand like `name:arg1,arg2` if that reads better."@
}

/// The message for a paren call without a name before `(`.
pub open spec fn missing_name_text(src: Seq<char>) -> Seq<char> {
    "invalid call segment `"@ + src
        + "`: missing method name before `(`. Add a method name, such as `p(...)`."@
}

/// The message for a call segment `s` of no valid shape, following the
/// checks of [`call_shape`] in order.
pub open spec fn shape_error(s: Seq<char>) -> Seq<char> {
    let open = index_of(s, '(', 0);
    let sh = shorthand_delim(s);
    let idx = match sh {
        Some((i, _)) => i,
        None => 0,
    };
    let delim = match sh {
        Some((_, d)) => d,
        None => ' ',
    };
    if sh is Some && (open < 0 || idx < open) {
        let name = trim_spec(s.take(idx));
        if name.len() == 0 {
            malformed_shorthand_text(s, delim)
        } else if !is_name(name) {
            invalid_call_name_text(name, s)
        } else {
            malformed_shorthand_text(s, delim)
        }
    } else if open >= 0 {
        let name = trim_spec(s.take(open));
        if name.len() == 0 {
            missing_name_text(s)
        } else if !is_name(name) {
            invalid_call_name_text(name, s)
        } else {
            missing_closing_paren_text(s)
        }
    } else {
        invalid_call_name_text(trim_spec(s), s)
    }
}

/// The message for a shorthand call without a name or without arguments.
pub fn malformed_shorthand_message(src: &Vec<char>, delim: char) -> (out: String)
    ensures
        out@ == malformed_shorthand_text(src@, delim),
{
    let d = string_of(&vec![delim]);
    let t = string_of(src);
    let mut out = crate::text::concat3("malformed shorthand call `", t.as_str(), "`: `");
    out.append(d.as_str());
    out.append(
        "` must follow a method name and be followed by at least one argument. Use bare `name` for zero-arg calls, or write `name",
    );
    out.append(d.as_str());
    out.append("value` / `name(...)`.");
    out
}

/// The message for a call name that is not a valid name.
pub fn invalid_call_name_message(name: &Vec<char>, src: &Vec<char>) -> (out: String)
    ensures
        out@ == invalid_call_name_text(name@, src@),
{
    let n = string_of(name);
    let t = string_of(src);
    let mut out = crate::text::concat3("invalid bare call name `", n.as_str(), "` in `");
    out.append(t.as_str());
    out.append(
        "`: call names must start with a letter or `_`, then use only letters, digits, or `_`. Rename the method token or check for misplaced punctuation.",
    );
    out
}

/// The message for a paren call without its closing `)`.
pub fn missing_closing_paren_message(src: &Vec<char>) -> (out: String)
    ensures
        out@ == missing_closing_paren_text(src@),
{
    let t = string_of(src);
    crate::text::concat3(
        "missing closing `)` in call segment `",
        t.as_str(),
        "`. Add the closing `)` or switch to shorthand like `name:arg1,arg2` if that reads better.",
    )
}

/// Classifies a call segment as paren, shorthand or bare call.
fn parse_call_syntax(s: &Vec<char>) -> (r: Result<CallSyntax, String>)
    requires
        short_text(s@),
    ensures
        match r {
            Ok(CallSyntax::Paren { name, inner_start, inner_end }) => call_shape(s@)
                == CallShape::Paren(name@, inner_start as int, inner_end as int),
            Ok(CallSyntax::Shorthand { name, inner_start }) => call_shape(s@) == CallShape::Shorthand(
                name@,
                inner_start as int,
            ),
            Ok(CallSyntax::Bare { name }) => call_shape(s@) == CallShape::Bare(name@),
            Err(m) => call_shape(s@) is Invalid && m@ == shape_error(s@),
        },
{
    let shorthand = find_shorthand_delim(s);
    let open = index_of_exec(s, '(');
    proof {
        lemma_shorthand_range(s@);
        lemma_index_of_range(s@, '(', 0);
        lemma_last_index_of_range(s@, ')', s.len() as int);
    }
    if let Some((idx, delim)) = shorthand {
        let before = match open {
            Some(o) => idx < o,
            None => true,
        };
        if before {
            let name = trimmed_range(s, 0, idx);
            assert(s@.subrange(0, idx as int) =~= s@.take(idx as int));
            if name.len() == 0 {
                return Err(malformed_shorthand_message(s, delim));
            }
            if !is_name_exec(&name) {
                return Err(invalid_call_name_message(&name, s));
            }
            let rest = trimmed_range(s, idx + 1, s.len());
            if rest.len() == 0 {
                return Err(malformed_shorthand_message(s, delim));
            }
            return Ok(CallSyntax::Shorthand { name, inner_start: idx + 1 });
        }
    }
    if let Some(o) = open {
        let name = trimmed_range(s, 0, o);
        assert(s@.subrange(0, o as int) =~= s@.take(o as int));
        if name.len() == 0 {
            let t = string_of(s);
            return Err(
                crate::text::concat3(
                    "invalid call segment `",
                    t.as_str(),
                    "`: missing method name before `(`. Add a method name, such as `p(...)`.",
                ),
            );
        }
        if !is_name_exec(&name) {
            return Err(invalid_call_name_message(&name, s));
        }
        match last_index_of_exec(s, ')') {
            Some(close) => {
                if close <= o {
                    return Err(missing_closing_paren_message(s));
                }
                return Ok(CallSyntax::Paren { name, inner_start: o + 1, inner_end: close });
            },
            None => {
                return Err(missing_closing_paren_message(s));
            },
        }
    }
    let name = trimmed_range(s, 0, s.len());
    assert(s@.subrange(0, s.len() as int) =~= s@);
    if !is_name_exec(&name) {
        return Err(invalid_call_name_message(&name, s));
    }
    Ok(CallSyntax::Bare { name })
}

/// Parses an argument expression: a quoted string, a parenthesized
/// expression, a nested call, an integer, or plain text.
pub fn parse_expr(t: &Vec<char>) -> (r: Result<Expr, String>)
    requires
        short_text(t@),
    ensures
        match r {
            Ok(e) => expr_from(t@, e) && expr_error(t@) is None,
            Err(m) => (forall|e: Expr| !expr_from(t@, e)) && expr_error(t@) == Some(m@),
        },
    decreases t.len(), 1int,
{
    let (a, b) = trim_bounds(t);
    let s = vec_range(t, a, b);
    let n = s.len();
    if n >= 2 && s[0] == '"' && s[n - 1] == '"' {
        let inner = vec_range(&s, 1, n - 1);
        let text = unescape_one_exec(&inner, '"');
        return Ok(Expr::Str(string_of(&text)));
    }
    if n >= 2 && s[0] == '(' && s[n - 1] == ')' {
        let inner = vec_range(&s, 1, n - 1);
        assert(s@ == trim_spec(t@));
        assert(!is_quoted(s@));
        assert(inner@ == s@.subrange(1, s@.len() - 1));
        let r = parse_expr(&inner);
        match &r {
            Ok(e) => {
                assert(expr_from(t@, *e));
            },
            Err(_) => {
                assert forall|e: Expr| !expr_from(t@, e) by {
                    assert(!expr_from(inner@, e));
                }
            },
        }
        return r;
    }
    if is_call_syntax_exec(&s) {
        return match parse_call(&s) {
            Ok(c) => Ok(Expr::Call(c)),
            Err(msg) => {
                assert forall|e: Expr| !expr_from(t@, e) by {
                    if let Expr::Call(c) = e {
                        assert(!call_from(s@, c));
                    }
                }
                Err(msg)
            },
        };
    }
    match crate::num::parse_i64_chars(&s) {
        Ok(v) => Ok(Expr::Num(v)),
        Err(_) => Ok(Expr::Ident(string_of(&s))),
    }
}

/// Parses one call segment.
pub fn parse_call(s: &Vec<char>) -> (r: Result<Call, String>)
    requires
        short_text(s@),
    ensures
        match r {
            Ok(c) => call_from(s@, c) && call_error(s@) is None,
            Err(m) => (forall|c: Call| !call_from(s@, c)) && call_error(s@) == Some(m@),
        },
        call_shape(s@) is Invalid ==> (r matches Err(m) && m@ == shape_error(s@)),
    decreases s.len(), 0int,
{
    proof {
        lemma_shorthand_range(s@);
        lemma_index_of_range(s@, '(', 0);
        lemma_last_index_of_range(s@, ')', s.len() as int);
    }
    match parse_call_syntax(s) {
        Err(msg) => {
            assert forall|c: Call| !call_from(s@, c) by {}
            Err(msg)
        },
        Ok(CallSyntax::Bare { name }) => {
            let c = Call { name: string_of(&name), args: Vec::new() };
            assert(call_from(s@, c));
            Ok(c)
        },
        Ok(CallSyntax::Shorthand { name, inner_start }) => {
            let inner = vec_range(s, inner_start, s.len());
            match parse_args(&inner) {
                Ok(args) => {
                    let c = Call { name: string_of(&name), args };
                    assert(call_from(s@, c));
                    Ok(c)
                },
                Err(msg) => {
                    assert forall|c: Call| !call_from(s@, c) by {
                        assert(!args_from(inner@, c.args@));
                    }
                    Err(msg)
                },
            }
        },
        Ok(CallSyntax::Paren { name, inner_start, inner_end }) => {
            let inner = vec_range(s, inner_start, inner_end);
            match parse_args(&inner) {
                Ok(args) => {
                    let c = Call { name: string_of(&name), args };
                    assert(call_from(s@, c));
                    Ok(c)
                },
                Err(msg) => {
                    assert forall|c: Call| !call_from(s@, c) by {
                        assert(!args_from(inner@, c.args@));
                    }
                    Err(msg)
                },
            }
        },
    }
}

/// Parses comma-separated arguments.
pub fn parse_args(inner: &Vec<char>) -> (r: Result<Vec<Expr>, String>)
    requires
        short_text(inner@),
    ensures
        match r {
            Ok(args) => args_from(inner@, args@) && args_error(inner@) is None,
            Err(m) => (forall|args: Seq<Expr>| !args_from(inner@, args)) && args_error(inner@) == Some(
                m@,
            ),
        },
    decreases inner.len(), 2int,
{
    let (a, b) = trim_bounds(inner);
    if a == b {
        return Ok(Vec::new());
    }
    assert(trim_spec(inner@).len() > 0);
    let parts = split_top_level(inner, ',');
    let ghost pv = split_top_spec(inner@, ',');
    proof {
        lemma_split_piece_len(inner@, ',');
    }
    let mut out: Vec<Expr> = Vec::new();
    let mut i: usize = 0;
    while i < parts.len()
        invariant
            i <= parts.len(),
            short_text(inner@),
            vecs_view(parts@) == pv,
            pv == split_top_spec(inner@, ','),
            forall|k: int| 0 <= k < pv.len() ==> (#[trigger] pv[k]).len() <= inner@.len(),
            out.len() == i,
            trim_spec(inner@).len() > 0,
            forall|k: int| 0 <= k < i ==> expr_from(trim_spec(pv[k]), #[trigger] out@[k]),
            first_bad_arg(inner@, 0) == first_bad_arg(inner@, i as int),
        decreases parts.len() - i,
    {
        let piece = &parts[i];
        assert(piece@ == pv[i as int]);
        let p = trimmed_range(piece, 0, piece.len());
        assert(piece@.subrange(0, piece.len() as int) =~= piece@);
        proof {
            lemma_trim_len(piece@);
        }
        match parse_expr(&p) {
            Ok(e) => {
                out.push(e);
            },
            Err(msg) => {
                proof {
                    assert forall|args: Seq<Expr>| !args_from(inner@, args) by {
                        if args_from(inner@, args) {
                            assert(expr_from(trim_spec(pv[i as int]), args[i as int]));
                        }
                    }
                }
                return Err(msg);
            },
        }
        i += 1;
    }
    Ok(out)
}


// ---------------------------------------------------------------------------
// Statements, pipelines, programs
// ---------------------------------------------------------------------------

/// `st` is what `parse_statement` gives for the text `t`.
pub open spec fn statement_from(t: Seq<char>, st: Statement) -> bool {
    match prefix_spec(t) {
        None => false,
        Some((src, rg, rv, k)) => {
            let rest = t.skip(k);
            let parts = split_top_spec(rest, '.');
            &&& st.source@ == src
            &&& opt_range_view(st.address) == rg
            &&& st.receiver == rv
            &&& (trim_spec(rest).len() > 0 ==> !has_empty_segment(rest, '.'))
            &&& st.calls.len() == parts.len()
            &&& forall|i: int|
                0 <= i < parts.len() ==> call_from(trim_spec(parts[i]), #[trigger] st.calls@[i])
        },
    }
}

/// The message for an empty segment between top-level delimiters.
pub open spec fn empty_segment_text(src: Seq<char>, delim: char, kind: Seq<char>, suggestion: Seq<char>) -> Seq<char> {
    "misused `"@ + seq![delim] + "` in `"@ + src + "`: found an empty "@ + kind + ". "@ + suggestion
}

/// The message for an empty call segment between dots in `rest`.
pub open spec fn empty_call_segment_text(rest: Seq<char>) -> Seq<char> {
    empty_segment_text(
        rest,
        '.',
        "call segment"@,
        "Remove the extra `.` or add a method name between dots."@,
    )
}

/// The message of the first call segment from `i` on that fails to parse.
pub open spec fn first_bad_call(parts: Seq<Seq<char>>, i: int) -> Option<Seq<char>>
    decreases parts.len() - i,
{
    if i < 0 || i >= parts.len() {
        None
    } else if call_error(trim_spec(parts[i])) is Some {
        call_error(trim_spec(parts[i]))
    } else {
        first_bad_call(parts, i + 1)
    }
}

/// The message `parse_statement` gives for `t`: a bad prefix, an empty
/// call segment, or the first call segment that fails; `None` when `t`
/// parses.
pub open spec fn statement_error(t: Seq<char>) -> Option<Seq<char>> {
    match prefix_spec(t) {
        None => Some(prefix_error(t)),
        Some((src, rg, rv, k)) => {
            let rest = t.skip(k);
            if trim_spec(rest).len() > 0 && has_empty_segment(rest, '.') {
                Some(empty_call_segment_text(rest))
            } else {
                first_bad_call(split_top_spec(rest, '.'), 0)
            }
        },
    }
}

/// The message for an empty segment between top-level delimiters.
pub fn empty_segment_message(src: &Vec<char>, delim: char, kind: &str, suggestion: &str) -> (out: String)
    ensures
        out@ == empty_segment_text(src@, delim, kind@, suggestion@),
{
    let d = string_of(&vec![delim]);
    let t = string_of(src);
    let mut out = crate::text::concat3("misused `", d.as_str(), "` in `");
    out.append(t.as_str());
    out.append("`: found an empty ");
    out.append(kind);
    out.append(". ");
    out.append(suggestion);
    out
}

proof fn lemma_trimmed_piece(t: Seq<char>)
    ensures
        trim_spec(t.subrange(0, t.len() as int)) == trim_spec(t),
{
    assert(t.subrange(0, t.len() as int) =~= t);
}

/// Parses one pipeline stage: prefix, then dot-chained calls.
pub fn parse_statement(t: &Vec<char>) -> (r: Result<Statement, String>)
    requires
        short_text(t@),
    ensures
        match r {
            Ok(st) => statement_from(t@, st) && statement_error(t@) is None,
            Err(m) => (forall|st: Statement| !statement_from(t@, st)) && statement_error(t@) == Some(
                m@,
            ),
        },
{
    proof {
        reveal_strlit("call segment");
        reveal_strlit("Remove the extra `.` or add a method name between dots.");
    }
    let (source, address, receiver, k) = match parse_statement_prefix(t) {
        Ok(x) => x,
        Err(msg) => {
            assert forall|st: Statement| !statement_from(t@, st) by {}
            return Err(msg);
        },
    };
    let rest = vec_range(t, k, t.len());
    assert(rest@ =~= t@.skip(k as int));
    assert(prefix_spec(t@) == Some((source@, opt_range_view(address), receiver, k as int)));
    let (a, b) = trim_bounds(&rest);
    assert(rest@.subrange(a as int, b as int) == trim_spec(rest@));
    if a < b {
        if find_empty_segment(&rest, '.') {
            assert forall|st: Statement| !statement_from(t@, st) by {}
            return Err(
                empty_segment_message(
                    &rest,
                    '.',
                    "call segment",
                    "Remove the extra `.` or add a method name between dots.",
                ),
            );
        }
    }
    let parts = split_top_level(&rest, '.');
    let ghost pv = split_top_spec(rest@, '.');
    proof {
        lemma_split_piece_len(rest@, '.');
    }
    let mut calls: Vec<Call> = Vec::new();
    let mut i: usize = 0;
    while i < parts.len()
        invariant
            i <= parts.len(),
            short_text(rest@),
            rest@ == t@.skip(k as int),
            prefix_spec(t@) == Some((source@, opt_range_view(address), receiver, k as int)),
            trim_spec(rest@).len() > 0 ==> !has_empty_segment(rest@, '.'),
            vecs_view(parts@) == pv,
            pv == split_top_spec(rest@, '.'),
            forall|j: int| 0 <= j < pv.len() ==> (#[trigger] pv[j]).len() <= rest@.len(),
            calls.len() == i,
            forall|j: int| 0 <= j < i ==> call_from(trim_spec(pv[j]), #[trigger] calls@[j]),
            first_bad_call(pv, 0) == first_bad_call(pv, i as int),
        decreases parts.len() - i,
    {
        let piece = &parts[i];
        assert(piece@ == pv[i as int]);
        let p = trimmed_range(piece, 0, piece.len());
        proof {
            lemma_trimmed_piece(piece@);
            lemma_trim_len(piece@);
        }
        match parse_call(&p) {
            Ok(c) => {
                assert(call_from(trim_spec(pv[i as int]), c));
                assert(first_bad_call(pv, i as int) == first_bad_call(pv, i + 1));
                calls.push(c);
            },
            Err(msg) => {
                assert(first_bad_call(pv, i as int) == Some(msg@));
                assert forall|st: Statement| !statement_from(t@, st) by {
                    if statement_from(t@, st) {
                        assert(st.calls.len() == pv.len());
                        assert(call_from(trim_spec(pv[i as int]), st.calls@[i as int]));
                    }
                }
                return Err(msg);
            },
        }
        i += 1;
    }
    let st = Statement { source, address, receiver, calls };
    assert(statement_from(t@, st));
    Ok(st)
}

/// `s[i]` is a top-level `|` followed by text that starts a statement.
pub open spec fn pipe_hit(s: Seq<char>, i: int) -> bool {
    top_hit(s, i, '|') && prefix_spec(trim_start_spec(s.skip(i + 1))) is Some
}

/// The stages of a pipeline as index ranges, scanning from `i` with the
/// current stage starting at `start`.
pub open spec fn pipe_ranges(s: Seq<char>, start: int, i: int) -> Seq<(int, int)>
    decreases s.len() - i,
{
    if i < 0 || i >= s.len() {
        seq![(start, s.len() as int)]
    } else if pipe_hit(s, i) {
        seq![(start, i)] + pipe_ranges(s, i + 1, i + 1)
    } else {
        pipe_ranges(s, start, i + 1)
    }
}

/// The trimmed stage texts of a pipeline; a blank final stage is dropped.
pub open spec fn stage_texts(s: Seq<char>) -> Seq<Seq<char>> {
    trimmed_pieces(s, pipe_ranges(s, 0, 0))
}

/// Whether the text after `s[i]` starts a statement.
fn starts_with_receiver(s: &Vec<char>, i: usize) -> (r: bool)
    requires
        i < s.len(),
        short_text(s@),
    ensures
        r == (prefix_spec(trim_start_spec(s@.skip(i + 1))) is Some),
{
    let rest = vec_range(s, i + 1, s.len());
    assert(rest@ =~= s@.skip(i + 1));
    let (a, _) = trim_bounds(&rest);
    let ts = vec_range(&rest, a, rest.len());
    parse_statement_prefix(&ts).is_ok()
}

/// Splits a pipeline at the top-level `|` that start a new statement.
fn split_pipeline_stages(s: &Vec<char>) -> (out: Vec<Vec<char>>)
    requires
        short_text(s@),
    ensures
        vecs_view(out@) == stage_texts(s@),
{
    let mut out: Vec<Vec<char>> = Vec::new();
    let mut depth: i64 = 0;
    let mut in_str = false;
    let mut prev = '\0';
    let mut start: usize = 0;
    let mut i: usize = 0;
    let ghost f = |p: (int, int)| trim_spec(s@.subrange(p.0, p.1));
    let ghost mut done: Seq<(int, int)> = seq![];
    while i < s.len()
        invariant
            start <= i <= s.len(),
            short_text(s@),
            (depth as int, in_str, prev) == scan_before(s@, i as int),
            pipe_ranges(s@, 0, 0) == done + pipe_ranges(s@, start as int, i as int),
            vecs_view(out@) == done.map_values(f),
            f == (|p: (int, int)| trim_spec(s@.subrange(p.0, p.1))),
        decreases s.len() - i,
    {
        let c = s[i];
        proof {
            lemma_scan_depth_bound(s@, i as int);
        }
        if c == '|' && passes_over_exec(in_str, prev, c) && !in_str && depth == 0
            && starts_with_receiver(s, i) {
            let piece = trimmed_range(s, start, i);
            proof {
                lemma_vecs_push(out@, piece);
                assert(done.push((start as int, i as int)).map_values(f) =~= done.map_values(f).push(
                    f((start as int, i as int)),
                ));
                assert(done + pipe_ranges(s@, start as int, i as int) =~= done.push(
                    (start as int, i as int),
                ) + pipe_ranges(s@, i + 1, i + 1));
                done = done.push((start as int, i as int));
            }
            out.push(piece);
            start = i + 1;
        }
        let st = scan_step_exec(depth, in_str, prev, c);
        depth = st.0;
        in_str = st.1;
        prev = st.2;
        i += 1;
    }
    let last = trimmed_range(s, start, s.len());
    proof {
        let r = done.push((start as int, s.len() as int));
        assert(pipe_ranges(s@, 0, 0) =~= r);
        assert(r.map_values(f) =~= done.map_values(f).push(f((start as int, s.len() as int))));
        assert(r.map_values(f).drop_last() =~= done.map_values(f));
    }
    if last.len() > 0 {
        proof {
            lemma_vecs_push(out@, last);
        }
        out.push(last);
    }
    out
}

/// `p` is what `parse_pipeline` gives for the text `t`.
pub open spec fn pipeline_from(t: Seq<char>, p: Pipeline) -> bool {
    let parts = stage_texts(t);
    &&& !has_empty_stage(t)
    &&& p.stages.len() == parts.len()
    &&& forall|i: int|
        0 <= i < parts.len() ==> statement_from(trim_spec(parts[i]), #[trigger] p.stages@[i])
}

proof fn lemma_stage_piece_len(s: Seq<char>, start: int, i: int)
    requires
        0 <= start <= i <= s.len(),
    ensures
        forall|k: int|
            0 <= k < pipe_ranges(s, start, i).len() ==> 0 <= (#[trigger] pipe_ranges(
                s,
                start,
                i,
            )[k]).0 <= pipe_ranges(s, start, i)[k].1 <= s.len(),
    decreases s.len() - i,
{
    let r = pipe_ranges(s, start, i);
    if i < s.len() {
        if pipe_hit(s, i) {
            lemma_stage_piece_len(s, i + 1, i + 1);
            let rest = pipe_ranges(s, i + 1, i + 1);
            assert(r == seq![(start, i)] + rest);
            assert forall|k: int| 0 <= k < r.len() implies 0 <= (#[trigger] r[k]).0 <= r[k].1
                <= s.len() by {
                if k > 0 {
                    assert(r[k] == rest[k - 1]);
                }
            }
        } else {
            lemma_stage_piece_len(s, start, i + 1);
            assert(r == pipe_ranges(s, start, i + 1));
        }
    } else {
        assert(r == seq![(start, s.len() as int)]);
    }
}

proof fn lemma_stage_len(s: Seq<char>)
    ensures
        forall|k: int|
            0 <= k < stage_texts(s).len() ==> (#[trigger] stage_texts(s)[k]).len() <= s.len(),
{
    lemma_stage_piece_len(s, 0, 0);
    let r = pipe_ranges(s, 0, 0);
    assert forall|k: int| 0 <= k < stage_texts(s).len() implies (
    #[trigger] stage_texts(s)[k]).len() <= s.len() by {
        let p = r[k];
        assert(stage_texts(s)[k] == trim_spec(s.subrange(p.0, p.1)));
        lemma_trim_len(s.subrange(p.0, p.1));
    }
}

/// The message for a pipeline `t` with an empty stage.
pub open spec fn empty_stage_text(t: Seq<char>) -> Seq<char> {
    "misused `|` in `"@ + t
        + "`: found an empty pipeline stage. Add a receiver after `|`, such as `r.` or `g.`, or remove the extra `|`."@
}

/// The message of the first stage from `i` on that fails to parse.
pub open spec fn first_bad_stage(stages: Seq<Seq<char>>, i: int) -> Option<Seq<char>>
    decreases stages.len() - i,
{
    if i < 0 || i >= stages.len() {
        None
    } else if statement_error(trim_spec(stages[i])) is Some {
        statement_error(trim_spec(stages[i]))
    } else {
        first_bad_stage(stages, i + 1)
    }
}

/// The message `parse_pipeline` gives for `t`: an empty stage, or the
/// first stage that fails; `None` when `t` parses.
pub open spec fn pipeline_error(t: Seq<char>) -> Option<Seq<char>> {
    if has_empty_stage(t) {
        Some(empty_stage_text(t))
    } else {
        first_bad_stage(stage_texts(t), 0)
    }
}

/// Parses one pipeline: stages separated by `|`.
pub fn parse_pipeline(t: &Vec<char>) -> (r: Result<Pipeline, String>)
    requires
        short_text(t@),
    ensures
        match r {
            Ok(p) => pipeline_from(t@, p) && pipeline_error(t@) is None,
            Err(m) => (forall|p: Pipeline| !pipeline_from(t@, p)) && pipeline_error(t@) == Some(m@),
        },
{
    if find_empty_stage(t) {
        let src = string_of(t);
        return Err(
            crate::text::concat3(
                "misused `|` in `",
                src.as_str(),
                "`: found an empty pipeline stage. Add a receiver after `|`, such as `r.` or `g.`, or remove the extra `|`.",
            ),
        );
    }
    let parts = split_pipeline_stages(t);
    let ghost pv = stage_texts(t@);
    proof {
        lemma_stage_len(t@);
    }
    let mut stages: Vec<Statement> = Vec::new();
    let mut i: usize = 0;
    while i < parts.len()
        invariant
            i <= parts.len(),
            short_text(t@),
            vecs_view(parts@) == pv,
            pv == stage_texts(t@),
            forall|j: int| 0 <= j < pv.len() ==> (#[trigger] pv[j]).len() <= t@.len(),
            stages.len() == i,
            forall|j: int| 0 <= j < i ==> statement_from(trim_spec(pv[j]), #[trigger] stages@[j]),
            !has_empty_stage(t@),
            first_bad_stage(pv, 0) == first_bad_stage(pv, i as int),
        decreases parts.len() - i,
    {
        let piece = &parts[i];
        assert(piece@ == pv[i as int]);
        let p = trimmed_range(piece, 0, piece.len());
        proof {
            lemma_trimmed_piece(piece@);
            lemma_trim_len(piece@);
        }
        match parse_statement(&p) {
            Ok(st) => {
                assert(statement_from(trim_spec(pv[i as int]), st));
                assert(first_bad_stage(pv, i as int) == first_bad_stage(pv, i + 1));
                stages.push(st);
            },
            Err(msg) => {
                assert(first_bad_stage(pv, i as int) == Some(msg@));
                assert forall|pp: Pipeline| !pipeline_from(t@, pp) by {
                    if pipeline_from(t@, pp) {
                        assert(statement_from(trim_spec(pv[i as int]), pp.stages@[i as int]));
                    }
                }
                return Err(msg);
            },
        }
        i += 1;
    }
    let p = Pipeline { stages };
    assert(pipeline_from(t@, p));
    Ok(p)
}

/// The statement texts of a program: the trimmed top-level `;` segments
/// that are not empty.
pub open spec fn statement_texts(t: Seq<char>) -> Seq<Seq<char>> {
    split_top_spec(t, ';').map_values(|x: Seq<char>| trim_spec(x)).filter(
        |x: Seq<char>| x.len() > 0,
    )
}

/// `ps` is what `parse_program` gives for the text `t`.
pub open spec fn program_from(t: Seq<char>, ps: Seq<Pipeline>) -> bool {
    let texts = statement_texts(t);
    &&& !has_empty_segment(t, ';')
    &&& ps.len() == texts.len()
    &&& forall|i: int| 0 <= i < texts.len() ==> pipeline_from(texts[i], #[trigger] ps[i])
}

/// The message for a program `t` with an empty statement between `;`.
pub open spec fn empty_statement_text(t: Seq<char>) -> Seq<char> {
    empty_segment_text(
        t,
        ';',
        "statement"@,
        "Remove the extra `;` or add another statement after it."@,
    )
}

/// The message of the first nonempty statement text from `i` on that
/// fails to parse.
pub open spec fn first_bad_pipeline(texts: Seq<Seq<char>>, i: int) -> Option<Seq<char>>
    decreases texts.len() - i,
{
    if i < 0 || i >= texts.len() {
        None
    } else if texts[i].len() > 0 && pipeline_error(texts[i]) is Some {
        pipeline_error(texts[i])
    } else {
        first_bad_pipeline(texts, i + 1)
    }
}

/// The message `parse_program` gives for `t`: an empty statement, or the
/// first statement that fails; `None` when `t` parses.
pub open spec fn program_error(t: Seq<char>) -> Option<Seq<char>> {
    if has_empty_segment(t, ';') {
        Some(empty_statement_text(t))
    } else {
        first_bad_pipeline(split_top_spec(t, ';').map_values(|x: Seq<char>| trim_spec(x)), 0)
    }
}

/// Parses a whole program: statements separated by `;`, each a pipeline.
pub fn parse_program(src: &str) -> (r: Result<Vec<Pipeline>, String>)
    requires
        short_text(src@),
    ensures
        match r {
            Ok(ps) => program_from(src@, ps@) && program_error(src@) is None,
            Err(m) => (forall|ps: Seq<Pipeline>| !program_from(src@, ps)) && program_error(src@)
                == Some(m@),
        },
{
    proof {
        reveal_strlit("statement");
        reveal_strlit("Remove the extra `;` or add another statement after it.");
    }
    let t = chars_of(src);
    if find_empty_segment(&t, ';') {
        return Err(
            empty_segment_message(
                &t,
                ';',
                "statement",
                "Remove the extra `;` or add another statement after it.",
            ),
        );
    }
    let parts = split_top_level(&t, ';');
    let ghost pv = split_top_spec(t@, ';');
    let ghost tv = pv.map_values(|x: Seq<char>| trim_spec(x));
    proof {
        lemma_split_piece_len(t@, ';');
    }
    let mut out: Vec<Pipeline> = Vec::new();
    let mut i: usize = 0;
    while i < parts.len()
        invariant
            i <= parts.len(),
            short_text(t@),
            t@ == src@,
            vecs_view(parts@) == pv,
            pv == split_top_spec(t@, ';'),
            tv == pv.map_values(|x: Seq<char>| trim_spec(x)),
            forall|j: int| 0 <= j < pv.len() ==> (#[trigger] pv[j]).len() <= t@.len(),
            out.len() == tv.take(i as int).filter(|x: Seq<char>| x.len() > 0).len(),
            forall|j: int|
                0 <= j < out.len() ==> pipeline_from(
                    tv.take(i as int).filter(|x: Seq<char>| x.len() > 0)[j],
                    #[trigger] out@[j],
                ),
            !has_empty_segment(t@, ';'),
            first_bad_pipeline(tv, 0) == first_bad_pipeline(tv, i as int),
        decreases parts.len() - i,
    {
        let piece = &parts[i];
        assert(piece@ == pv[i as int]);
        let p = trimmed_range(piece, 0, piece.len());
        proof {
            lemma_trimmed_piece(piece@);
            lemma_trim_len(piece@);
            reveal_with_fuel(Seq::filter, 1);
            assert(tv.take(i + 1).drop_last() =~= tv.take(i as int));
            assert(tv.take(i + 1).last() == p@);
        }
        assert(tv[i as int] == p@);
        if p.len() > 0 {
            match parse_pipeline(&p) {
                Ok(pl) => {
                    assert(pipeline_from(tv[i as int], pl));
                    assert(first_bad_pipeline(tv, i as int) == first_bad_pipeline(tv, i + 1));
                    out.push(pl);
                },
                Err(msg) => {
                    assert(first_bad_pipeline(tv, i as int) == Some(msg@));
                    proof {
                        assert forall|ps: Seq<Pipeline>| !program_from(src@, ps) by {
                            if program_from(src@, ps) {
                                crate::seqs::lemma_filter_prefix_index(tv, |x: Seq<char>| x.len() > 0, i as int);
                                let j = tv.take(i as int).filter(|x: Seq<char>| x.len() > 0).len();
                                assert(statement_texts(src@)[j as int] == p@);
                                assert(pipeline_from(statement_texts(src@)[j as int], ps[j as int]));
                            }
                        }
                    }
                    return Err(msg);
                },
            }
        } else {
            assert(first_bad_pipeline(tv, i as int) == first_bad_pipeline(tv, i + 1));
        }
        i += 1;
    }
    proof {
        assert(tv.take(parts.len() as int) =~= tv);
        assert(tv.len() == parts.len());
    }
    Ok(out)
}

// ---------------------------------------------------------------------------
// Laws
// ---------------------------------------------------------------------------

proof fn lemma_name_trim(n: Seq<char>)
    requires
        is_name(n),
    ensures
        trim_spec(n) == n,
{
    assert(!crate::text::is_ws(n[0]));
    assert(!crate::text::is_ws(n[n.len() - 1]));
    assert(n.subrange(0, n.len() as int) =~= n);
}

proof fn lemma_name_scan(s: Seq<char>, n: Seq<char>, i: int)
    requires
        is_name(n),
        n.len() <= s.len(),
        s.take(n.len() as int) == n,
        0 <= i <= n.len(),
    ensures
        scan_before(s, i).0 == 0,
        !scan_before(s, i).1,
    decreases i,
{
    if i > 0 {
        lemma_name_scan(s, n, i - 1);
        assert(s[i - 1] == n[i - 1]);
    }
}

proof fn lemma_first_top_hit_skip(s: Seq<char>, d: char, i: int, k: int)
    requires
        0 <= i <= k <= s.len(),
        forall|j: int| i <= j < k ==> s[j] != d,
    ensures
        first_top_hit(s, d, i) == first_top_hit(s, d, k),
    decreases k - i,
{
    if i < k {
        lemma_first_top_hit_skip(s, d, i + 1, k);
    }
}

proof fn lemma_index_of_skip(s: Seq<char>, c: char, i: int, k: int)
    requires
        0 <= i <= k <= s.len(),
        forall|j: int| i <= j < k ==> s[j] != c,
    ensures
        index_of(s, c, i) == index_of(s, c, k),
    decreases k - i,
{
    if i < k {
        lemma_index_of_skip(s, c, i + 1, k);
    }
}

/// The shorthand `name:args` (or `name=args`) parses as the same call as
/// `name(args)`, whenever the latter has no top-level `:` or `=`.
pub proof fn law_shorthand_matches_classic(n: Seq<char>, a: Seq<char>, d: char, c: Call)
    requires
        is_name(n),
        d == ':' || d == '=',
        trim_spec(a).len() > 0,
        shorthand_delim(n + seq!['('] + a + seq![')']) is None,
    ensures
        call_from(n + seq![d] + a, c) == call_from(n + seq!['('] + a + seq![')'], c),
{
    let l = n.len() as int;
    let c1 = n + seq![d] + a;
    let c2 = n + seq!['('] + a + seq![')'];
    lemma_name_trim(n);
    assert forall|j: int| 0 <= j < l implies c1[j] != ':' && c1[j] != '=' && c1[j] != '(' && c2[j] != '(' by {
        assert(c1[j] == n[j] && c2[j] == n[j]);
        if j > 0 {
            assert(is_ascii_alnum(n[j]) || n[j] == '_');
        }
    }
    // the shorthand form
    assert(c1.take(l) =~= n);
    lemma_name_scan(c1, n, l);
    assert(top_hit(c1, l, d));
    lemma_first_top_hit_skip(c1, d, 0, l);
    let other = if d == ':' {
        '='
    } else {
        ':'
    };
    lemma_first_top_hit_skip(c1, other, 0, l + 1);
    lemma_first_top_hit_range(c1, other, l + 1);
    lemma_first_top_hit_range(c1, d, l);
    assert(shorthand_delim(c1) == Some((l, d)));
    lemma_index_of_skip(c1, '(', 0, l + 1);
    lemma_index_of_range(c1, '(', l + 1);
    assert(c1.skip(l + 1) =~= a);
    assert(c1.subrange(l + 1, c1.len() as int) =~= a);
    // the classic form
    assert(c2.take(l) =~= n);
    lemma_index_of_skip(c2, '(', 0, l);
    assert(index_of(c2, '(', 0) == l);
    assert(last_index_of(c2, ')', c2.len() as int) == c2.len() - 1);
    assert(c2.subrange(l + 1, c2.len() - 1) =~= a);
}

/// A bare `name` parses as the same call as `name()`.
pub proof fn law_bare_matches_empty_call(n: Seq<char>, c: Call)
    requires
        is_name(n),
    ensures
        call_from(n, c) == call_from(n + seq!['(', ')'], c),
{
    let l = n.len() as int;
    let c2 = n + seq!['(', ')'];
    lemma_name_trim(n);
    assert forall|j: int| 0 <= j < l implies n[j] != ':' && n[j] != '=' && n[j] != '(' && c2[j] != ':'
        && c2[j] != '=' && c2[j] != '(' by {
        assert(c2[j] == n[j]);
        if j > 0 {
            assert(is_ascii_alnum(n[j]) || n[j] == '_');
        }
    }
    lemma_first_top_hit_skip(n, ':', 0, l);
    lemma_first_top_hit_skip(n, '=', 0, l);
    lemma_index_of_skip(n, '(', 0, l);
    assert(shorthand_delim(n) is None);
    lemma_first_top_hit_skip(c2, ':', 0, l + 2);
    lemma_first_top_hit_skip(c2, '=', 0, l + 2);
    assert(shorthand_delim(c2) is None);
    lemma_index_of_skip(c2, '(', 0, l);
    assert(c2.take(l) =~= n);
    assert(last_index_of(c2, ')', c2.len() as int) == l + 1);
    assert(c2.subrange(l + 1, l + 1) =~= Seq::<char>::empty());
    assert(trim_spec(Seq::<char>::empty()) =~= Seq::<char>::empty());
}

/// One outer pair of parentheses around an expression is dropped.
pub proof fn law_outer_parens(t: Seq<char>, e: Expr)
    requires
        trim_spec(t) == t,
    ensures
        expr_from(seq!['('] + t + seq![')'], e) == expr_from(t, e),
{
    let s = seq!['('] + t + seq![')'];
    assert(!crate::text::is_ws(s[0]));
    assert(!crate::text::is_ws(s[s.len() - 1]));
    assert(s.subrange(0, s.len() as int) =~= s);
    assert(trim_spec(s) == s);
    assert(s.subrange(1, s.len() - 1) =~= t);
}

} // verus!
