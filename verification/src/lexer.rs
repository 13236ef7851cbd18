//! Top-level scanning of DSL text: a character is at top level when it is
//! outside double-quoted strings and outside parentheses. A `"` toggles the
//! string state unless the previous character is a backslash; parentheses
//! count only outside strings.
use vstd::prelude::*;

use crate::text::{is_blank, is_ws, is_ws_exec, trim_bounds, trim_spec, vec_range};

verus! {

/// Scanner state before a character: parenthesis depth, inside a string,
/// previous character.
pub type ScanState = (int, bool, char);

/// The state at the start of the text.
pub open spec fn scan_init() -> ScanState {
    (0, false, '\0')
}

/// The character is neither a string quote nor a parenthesis that the
/// scanner counts.
pub open spec fn passes_over(st: ScanState, c: char) -> bool {
    !((c == '"' && st.2 != '\\') || (c == '(' && !st.1) || (c == ')' && !st.1))
}

/// The state after reading `c`.
pub open spec fn scan_step(st: ScanState, c: char) -> ScanState {
    if c == '"' && st.2 != '\\' {
        (st.0, !st.1, c)
    } else if c == '(' && !st.1 {
        (st.0 + 1, st.1, c)
    } else if c == ')' && !st.1 {
        (st.0 - 1, st.1, c)
    } else {
        (st.0, st.1, c)
    }
}

/// The state before `s[i]`.
pub open spec fn scan_before(s: Seq<char>, i: int) -> ScanState
    decreases i,
{
    if i <= 0 || i > s.len() {
        scan_init()
    } else {
        scan_step(scan_before(s, i - 1), s[i - 1])
    }
}

/// `s[i]` is an occurrence of `d` at top level.
pub open spec fn top_hit(s: Seq<char>, i: int, d: char) -> bool {
    0 <= i < s.len() && s[i] == d && passes_over(scan_before(s, i), s[i]) && !scan_before(s, i).1
        && scan_before(s, i).0 == 0
}

/// The first top-level occurrence of `d` at or after `i`, or -1.
pub open spec fn first_top_hit(s: Seq<char>, d: char, i: int) -> int
    decreases s.len() - i,
{
    if i < 0 || i >= s.len() {
        -1
    } else if top_hit(s, i, d) {
        i
    } else {
        first_top_hit(s, d, i + 1)
    }
}

/// The segments of `s` between top-level occurrences of `d`, as index
/// ranges, scanning from `i` with the current segment starting at `start`.
pub open spec fn top_ranges(s: Seq<char>, d: char, start: int, i: int) -> Seq<(int, int)>
    decreases s.len() - i,
{
    if i < 0 || i >= s.len() {
        seq![(start, s.len() as int)]
    } else if top_hit(s, i, d) {
        seq![(start, i)] + top_ranges(s, d, i + 1, i + 1)
    } else {
        top_ranges(s, d, start, i + 1)
    }
}

/// The segments of `s` between top-level occurrences of `d`.
pub open spec fn segments(s: Seq<char>, d: char) -> Seq<(int, int)> {
    top_ranges(s, d, 0, 0)
}

/// The text of the segments, each trimmed; a blank final segment is dropped.
pub open spec fn trimmed_pieces(s: Seq<char>, r: Seq<(int, int)>) -> Seq<Seq<char>> {
    let pieces = r.map_values(|p: (int, int)| trim_spec(s.subrange(p.0, p.1)));
    if r.len() > 0 && trim_spec(s.subrange(r.last().0, r.last().1)).len() == 0 {
        pieces.drop_last()
    } else {
        pieces
    }
}

/// What `split_top_level` yields.
pub open spec fn split_top_spec(s: Seq<char>, d: char) -> Seq<Seq<char>> {
    trimmed_pieces(s, segments(s, d))
}

/// Some character in `s[a..b]` is content: not whitespace, and not a quote or
/// parenthesis that the scanner counts.
pub open spec fn has_content(s: Seq<char>, a: int, b: int) -> bool {
    exists|j: int| a <= j < b && passes_over(scan_before(s, j), s[j]) && !is_ws(#[trigger] s[j])
}

/// `s` has at least one top-level `d` and some segment has no content.
pub open spec fn has_empty_segment(s: Seq<char>, d: char) -> bool {
    let r = segments(s, d);
    r.len() > 1 && exists|k: int| 0 <= k < r.len() && !has_content(s, r[k].0, #[trigger] r[k].1)
}

/// The character views of vectors of characters.
pub open spec fn vecs_view(v: Seq<Vec<char>>) -> Seq<Seq<char>> {
    v.map_values(|x: Vec<char>| x@)
}

/// A scanner position whose depth fits in an `i64`.
pub open spec fn short_text(s: Seq<char>) -> bool {
    s.len() < 0x8000_0000
}

pub proof fn lemma_scan_depth_bound(s: Seq<char>, i: int)
    requires
        0 <= i <= s.len(),
    ensures
        -i <= scan_before(s, i).0 <= i,
    decreases i,
{
    if i > 0 {
        lemma_scan_depth_bound(s, i - 1);
    }
}

/// Reads one character: the new scanner state, and whether the character
/// passed over.
pub fn scan_step_exec(depth: i64, in_str: bool, prev: char, c: char) -> (r: (i64, bool, char))
    requires
        -0x8000_0000 < depth < 0x8000_0000,
    ensures
        (r.0 as int, r.1, r.2) == scan_step((depth as int, in_str, prev), c),
{
    if c == '"' && prev != '\\' {
        (depth, !in_str, c)
    } else if c == '(' && !in_str {
        (depth + 1, in_str, c)
    } else if c == ')' && !in_str {
        (depth - 1, in_str, c)
    } else {
        (depth, in_str, c)
    }
}

/// Whether the character passes over in the given state.
pub fn passes_over_exec(in_str: bool, prev: char, c: char) -> (r: bool)
    ensures
        forall|d: int| r == passes_over((d, in_str, prev), c),
{
    !((c == '"' && prev != '\\') || (c == '(' && !in_str) || (c == ')' && !in_str))
}

/// The first top-level occurrence of `d` in `s`.
pub fn find_top_level(s: &Vec<char>, d: char) -> (r: Option<usize>)
    requires
        short_text(s@),
    ensures
        match r {
            Some(i) => first_top_hit(s@, d, 0) == i as int,
            None => first_top_hit(s@, d, 0) == -1,
        },
{
    let mut depth: i64 = 0;
    let mut in_str = false;
    let mut prev = '\0';
    let mut i: usize = 0;
    while i < s.len()
        invariant
            i <= s.len(),
            short_text(s@),
            (depth as int, in_str, prev) == scan_before(s@, i as int),
            first_top_hit(s@, d, 0) == first_top_hit(s@, d, i as int),
        decreases s.len() - i,
    {
        let c = s[i];
        proof {
            lemma_scan_depth_bound(s@, i as int);
        }
        if c == d && passes_over_exec(in_str, prev, c) && !in_str && depth == 0 {
            return Some(i);
        }
        let st = scan_step_exec(depth, in_str, prev, c);
        depth = st.0;
        in_str = st.1;
        prev = st.2;
        i += 1;
    }
    None
}

pub proof fn lemma_vecs_push(v: Seq<Vec<char>>, x: Vec<char>)
    ensures
        vecs_view(v.push(x)) == vecs_view(v).push(x@),
{
    assert(vecs_view(v.push(x)) =~= vecs_view(v).push(x@));
}

/// Trimmed copy of `v[a..b]`.
pub fn trimmed_range(v: &Vec<char>, a: usize, b: usize) -> (out: Vec<char>)
    requires
        a <= b <= v.len(),
    ensures
        out@ == trim_spec(v@.subrange(a as int, b as int)),
{
    let piece = vec_range(v, a, b);
    let (x, y) = trim_bounds(&piece);
    vec_range(&piece, x, y)
}

/// The trimmed segments of `s` between top-level occurrences of `d`; a blank
/// final segment is dropped.
pub fn split_top_level(s: &Vec<char>, d: char) -> (out: Vec<Vec<char>>)
    requires
        short_text(s@),
    ensures
        vecs_view(out@) == split_top_spec(s@, d),
{
    let mut out: Vec<Vec<char>> = Vec::new();
    let mut depth: i64 = 0;
    let mut in_str = false;
    let mut prev = '\0';
    let mut start: usize = 0;
    let mut i: usize = 0;
    let ghost f = |p: (int, int)| trim_spec(s@.subrange(p.0, p.1));
    let ghost mut done: Seq<(int, int)> = seq![];
    while i < s.len()
        invariant
            start <= i <= s.len(),
            short_text(s@),
            (depth as int, in_str, prev) == scan_before(s@, i as int),
            segments(s@, d) == done + top_ranges(s@, d, start as int, i as int),
            vecs_view(out@) == done.map_values(f),
            forall|k: int| 0 <= k < done.len() ==> 0 <= #[trigger] done[k].0 <= done[k].1 <= s.len(),
            f == (|p: (int, int)| trim_spec(s@.subrange(p.0, p.1))),
        decreases s.len() - i,
    {
        let c = s[i];
        proof {
            lemma_scan_depth_bound(s@, i as int);
        }
        if c == d && passes_over_exec(in_str, prev, c) && !in_str && depth == 0 {
            let piece = trimmed_range(s, start, i);
            proof {
                lemma_vecs_push(out@, piece);
                assert(done.push((start as int, i as int)).map_values(f) =~= done.map_values(f).push(
                    f((start as int, i as int)),
                ));
                assert(done + top_ranges(s@, d, start as int, i as int) =~= done.push(
                    (start as int, i as int),
                ) + top_ranges(s@, d, i + 1, i + 1));
                done = done.push((start as int, i as int));
            }
            out.push(piece);
            start = i + 1;
        }
        let st = scan_step_exec(depth, in_str, prev, c);
        depth = st.0;
        in_str = st.1;
        prev = st.2;
        i += 1;
    }
    let last = trimmed_range(s, start, s.len());
    proof {
        let r = done.push((start as int, s.len() as int));
        assert(segments(s@, d) =~= r);
        assert(r.map_values(f) =~= done.map_values(f).push(f((start as int, s.len() as int))));
        assert(r.map_values(f).drop_last() =~= done.map_values(f));
    }
    if last.len() > 0 {
        proof {
            lemma_vecs_push(out@, last);
        }
        out.push(last);
    }
    out
}


pub proof fn lemma_top_ranges_nonempty(s: Seq<char>, d: char, start: int, i: int)
    ensures
        top_ranges(s, d, start, i).len() >= 1,
    decreases s.len() - i,
{
    if 0 <= i < s.len() {
        lemma_top_ranges_nonempty(s, d, if top_hit(s, i, d) { i + 1 } else { start }, i + 1);
    }
}

proof fn lemma_content_extend(s: Seq<char>, a: int, i: int)
    requires
        0 <= a <= i < s.len(),
    ensures
        has_content(s, a, i + 1) == (has_content(s, a, i) || (passes_over(scan_before(s, i), s[i])
            && !is_ws(s[i]))),
{
    if has_content(s, a, i + 1) {
        let j = choose|j: int| a <= j < i + 1 && passes_over(scan_before(s, j), s[j]) && !is_ws(
            #[trigger] s[j],
        );
        if j < i {
            assert(has_content(s, a, i));
        }
    }
    if has_content(s, a, i) {
        let j = choose|j: int| a <= j < i && passes_over(scan_before(s, j), s[j]) && !is_ws(
            #[trigger] s[j],
        );
        assert(a <= j < i + 1);
    }
    if passes_over(scan_before(s, i), s[i]) && !is_ws(s[i]) {
        assert(a <= i < i + 1);
    }
}

/// Whether some segment between top-level occurrences of `d` has no content
/// (checked only when `s` holds at least one such occurrence).
pub fn find_empty_segment(s: &Vec<char>, d: char) -> (r: bool)
    requires
        short_text(s@),
    ensures
        r == has_empty_segment(s@, d),
{
    let mut depth: i64 = 0;
    let mut in_str = false;
    let mut prev = '\0';
    let mut saw_delim = false;
    let mut cur_has_content = false;
    let mut start: usize = 0;
    let mut i: usize = 0;
    let ghost mut done: Seq<(int, int)> = seq![];
    while i < s.len()
        invariant
            start <= i <= s.len(),
            short_text(s@),
            (depth as int, in_str, prev) == scan_before(s@, i as int),
            segments(s@, d) == done + top_ranges(s@, d, start as int, i as int),
            forall|k: int| 0 <= k < done.len() ==> has_content(s@, done[k].0, #[trigger] done[k].1),
            cur_has_content == has_content(s@, start as int, i as int),
            saw_delim == (done.len() > 0),
        decreases s.len() - i,
    {
        let c = s[i];
        proof {
            lemma_scan_depth_bound(s@, i as int);
        }
        let passes = passes_over_exec(in_str, prev, c);
        if c == d && passes && !in_str && depth == 0 {
            let ghost rest = top_ranges(s@, d, i + 1, i + 1);
            if !cur_has_content {
                proof {
                    let r = segments(s@, d);
                    assert(r == done + seq![(start as int, i as int)] + rest);
                    lemma_top_ranges_nonempty(s@, d, i + 1, i + 1);
                    assert(r[done.len() as int] == (start as int, i as int));
                    assert(!has_content(s@, r[done.len() as int].0, r[done.len() as int].1));
                }
                return true;
            }
            proof {
                assert(done + top_ranges(s@, d, start as int, i as int) =~= done.push(
                    (start as int, i as int),
                ) + rest);
                done = done.push((start as int, i as int));
            }
            saw_delim = true;
            cur_has_content = false;
            start = i + 1;
            assert(!has_content(s@, start as int, start as int));
        } else {
            proof {
                lemma_content_extend(s@, start as int, i as int);
            }
            if passes && !is_ws_exec(c) {
                cur_has_content = true;
            }
        }
        let st = scan_step_exec(depth, in_str, prev, c);
        depth = st.0;
        in_str = st.1;
        prev = st.2;
        i += 1;
    }
    proof {
        let r = segments(s@, d);
        assert(r =~= done.push((start as int, s.len() as int)));
        if saw_delim && !cur_has_content {
            assert(r[done.len() as int] == (start as int, s.len() as int));
            assert(!has_content(s@, r[done.len() as int].0, r[done.len() as int].1));
        }
        if saw_delim && cur_has_content {
            assert forall|k: int| 0 <= k < r.len() implies has_content(s@, r[k].0, #[trigger] r[k].1) by {
                if k < done.len() {
                    assert(r[k] == done[k]);
                }
            }
        }
    }
    saw_delim && !cur_has_content
}

/// `s[i]` is a top-level `|` with whitespace on one side and nothing but
/// whitespace after it.
pub open spec fn empty_stage_at(s: Seq<char>, i: int) -> bool {
    &&& top_hit(s, i, '|')
    &&& ((i > 0 && is_ws(s[i - 1])) || (i + 1 < s.len() && is_ws(s[i + 1])))
    &&& is_blank(s.subrange(i + 1, s.len() as int))
}

/// Some top-level `|` leads to an empty pipeline stage.
pub open spec fn has_empty_stage(s: Seq<char>) -> bool {
    exists|i: int| #[trigger] empty_stage_at(s, i)
}

/// Whether `s[a..]` is all whitespace.
pub fn blank_from(s: &Vec<char>, a: usize) -> (r: bool)
    requires
        a <= s.len(),
    ensures
        r == is_blank(s@.subrange(a as int, s.len() as int)),
{
    let mut j: usize = a;
    while j < s.len()
        invariant
            a <= j <= s.len(),
            forall|k: int| a <= k < j ==> is_ws(#[trigger] s@[k]),
        decreases s.len() - j,
    {
        if !is_ws_exec(s[j]) {
            assert(!is_ws(s@.subrange(a as int, s.len() as int)[j - a]));
            return false;
        }
        j += 1;
    }
    assert forall|k: int| 0 <= k < s.len() - a implies is_ws(
        #[trigger] s@.subrange(a as int, s.len() as int)[k],
    ) by {
        assert(s@.subrange(a as int, s.len() as int)[k] == s@[a + k]);
    }
    true
}

/// Whether some top-level `|` leads to an empty pipeline stage.
pub fn find_empty_stage(s: &Vec<char>) -> (r: bool)
    requires
        short_text(s@),
    ensures
        r == has_empty_stage(s@),
{
    let mut depth: i64 = 0;
    let mut in_str = false;
    let mut prev = '\0';
    let mut i: usize = 0;
    while i < s.len()
        invariant
            i <= s.len(),
            short_text(s@),
            (depth as int, in_str, prev) == scan_before(s@, i as int),
            forall|k: int| 0 <= k < i ==> !#[trigger] empty_stage_at(s@, k),
        decreases s.len() - i,
    {
        let c = s[i];
        proof {
            lemma_scan_depth_bound(s@, i as int);
        }
        if c == '|' && passes_over_exec(in_str, prev, c) && !in_str && depth == 0 {
            let spaced = (i > 0 && is_ws_exec(s[i - 1])) || (i + 1 < s.len() && is_ws_exec(
                s[i + 1],
            ));
            if spaced && blank_from(s, i + 1) {
                assert(empty_stage_at(s@, i as int));
                return true;
            }
        }
        let st = scan_step_exec(depth, in_str, prev, c);
        depth = st.0;
        in_str = st.1;
        prev = st.2;
        i += 1;
    }
    assert(!has_empty_stage(s@)) by {
        assert forall|k: int| !#[trigger] empty_stage_at(s@, k) by {
            if 0 <= k < s.len() {
            }
        }
    }
    false
}

} // verus!
