//! Character-level text primitives: conversions between strings and
//! character vectors, separator splitting, joining, trimming and the
//! `\t` / `\n` / `\r` escapes used by separators.
use vstd::prelude::*;

verus! {

// ---------------------------------------------------------------------------
// Conversions
// ---------------------------------------------------------------------------

/// The characters of a string slice, in order.
pub fn chars_of(s: &str) -> (out: Vec<char>)
    ensures
        out@ == s@,
{
    let mut out: Vec<char> = Vec::new();
    for c in it: s.chars()
        invariant
            out@ == it.seq().take(it.index() as int),
            it.seq() == s@,
    {
        out.push(c);
    }
    out
}

/// Appends one character to a string (std `String::push`).
#[verifier::external_body]
fn push_char(s: &mut String, c: char)
    ensures
        final(s)@ == old(s)@.push(c),
{
    s.push(c);
}

/// A string holding exactly the given characters.
pub fn string_of(v: &Vec<char>) -> (out: String)
    ensures
        out@ == v@,
{
    let mut out = String::new();
    let mut i: usize = 0;
    while i < v.len()
        invariant
            i <= v.len(),
            out@ == v@.take(i as int),
        decreases v.len() - i,
    {
        push_char(&mut out, v[i]);
        i += 1;
        assert(v@.take(i as int) == v@.take(i - 1).push(v@[i - 1]));
    }
    assert(v@.take(v.len() as int) == v@);
    out
}

/// A string holding exactly the given characters, taken from a slice of a vector.
pub fn string_of_range(v: &Vec<char>, start: usize, end: usize) -> (out: String)
    requires
        start <= end <= v.len(),
    ensures
        out@ == v@.subrange(start as int, end as int),
{
    let mut out = String::new();
    let mut i: usize = start;
    while i < end
        invariant
            start <= i <= end <= v.len(),
            out@ == v@.subrange(start as int, i as int),
        decreases end - i,
    {
        push_char(&mut out, v[i]);
        i += 1;
        assert(v@.subrange(start as int, i as int) == v@.subrange(start as int, i - 1).push(
            v@[i - 1],
        ));
    }
    out
}

/// A copy of `v[start..end]`.
pub fn vec_range(v: &Vec<char>, start: usize, end: usize) -> (out: Vec<char>)
    requires
        start <= end <= v.len(),
    ensures
        out@ == v@.subrange(start as int, end as int),
{
    let mut out: Vec<char> = Vec::new();
    let mut i: usize = start;
    while i < end
        invariant
            start <= i <= end <= v.len(),
            out@ == v@.subrange(start as int, i as int),
        decreases end - i,
    {
        out.push(v[i]);
        i += 1;
        assert(v@.subrange(start as int, i as int) == v@.subrange(start as int, i - 1).push(
            v@[i - 1],
        ));
    }
    out
}

/// Appends the characters of `src` to `dst`.
pub fn append_chars(dst: &mut Vec<char>, src: &Vec<char>)
    ensures
        final(dst)@ == old(dst)@ + src@,
{
    let mut i: usize = 0;
    while i < src.len()
        invariant
            i <= src.len(),
            dst@ == old(dst)@ + src@.take(i as int),
        decreases src.len() - i,
    {
        dst.push(src[i]);
        i += 1;
        assert(src@.take(i as int) == src@.take(i - 1).push(src@[i - 1]));
    }
    assert(src@.take(src.len() as int) == src@);
}

/// Whether two character vectors are equal.
pub fn chars_eq(a: &Vec<char>, b: &Vec<char>) -> (r: bool)
    ensures
        r == (a@ == b@),
{
    if a.len() != b.len() {
        return false;
    }
    let mut i: usize = 0;
    while i < a.len()
        invariant
            i <= a.len() == b.len(),
            forall|j: int| 0 <= j < i ==> a@[j] == b@[j],
        decreases a.len() - i,
    {
        if a[i] != b[i] {
            return false;
        }
        i += 1;
    }
    assert(a@ =~= b@);
    true
}

/// Whether a string equals a string literal.
pub fn str_is(s: &str, lit: &str) -> (r: bool)
    ensures
        r == (s@ == lit@),
{
    let a = chars_of(s);
    let b = chars_of(lit);
    chars_eq(&a, &b)
}

/// Whether a string equals one of two literals.
pub fn str_is2(s: &str, a: &str, b: &str) -> (r: bool)
    ensures
        r == (s@ == a@ || s@ == b@),
{
    str_is(s, a) || str_is(s, b)
}

/// Concatenation of three strings.
pub fn concat3(a: &str, b: &str, c: &str) -> (out: String)
    ensures
        out@ == a@ + b@ + c@,
{
    let mut out = String::from_str(a);
    out.append(b);
    out.append(c);
    out
}

/// Concatenation of two strings.
pub fn concat2(a: &str, b: &str) -> (out: String)
    ensures
        out@ == a@ + b@,
{
    let mut out = String::from_str(a);
    out.append(b);
    out
}

// ---------------------------------------------------------------------------
// Escapes
// ---------------------------------------------------------------------------

/// The control character that `\c` stands for, for `c` in `t`, `n`, `r`.
pub open spec fn escape_target(c: char) -> Option<char> {
    if c == 't' {
        Some('\t')
    } else if c == 'n' {
        Some('\n')
    } else if c == 'r' {
        Some('\r')
    } else {
        None
    }
}

/// Each `\t`, `\n` and `\r` (a backslash followed by the letter) becomes the
/// control character; every other character is kept.
pub open spec fn unescape_spec(s: Seq<char>) -> Seq<char>
    decreases s.len(),
{
    if s.len() == 0 {
        seq![]
    } else if s.len() >= 2 && s[0] == '\\' && escape_target(s[1]) is Some {
        seq![escape_target(s[1])->0] + unescape_spec(s.skip(2))
    } else {
        seq![s[0]] + unescape_spec(s.skip(1))
    }
}

proof fn lemma_unescape_step(s: Seq<char>, i: int)
    requires
        0 <= i < s.len(),
    ensures
        i + 2 <= s.len() && s[i] == '\\' && escape_target(s[i + 1]) is Some ==> unescape_spec(
            s.skip(i),
        ) == seq![escape_target(s[i + 1])->0] + unescape_spec(s.skip(i + 2)),
        !(i + 2 <= s.len() && s[i] == '\\' && escape_target(s[i + 1]) is Some) ==> unescape_spec(
            s.skip(i),
        ) == seq![s[i]] + unescape_spec(s.skip(i + 1)),
{
    let t = s.skip(i);
    if i + 2 <= s.len() {
        assert(t.skip(2) =~= s.skip(i + 2));
    }
    assert(t.skip(1) =~= s.skip(i + 1));
}

fn escape_target_exec(c: char) -> (r: Option<char>)
    ensures
        r == escape_target(c),
{
    if c == 't' {
        Some('\t')
    } else if c == 'n' {
        Some('\n')
    } else if c == 'r' {
        Some('\r')
    } else {
        None
    }
}

/// Decodes the `\t`, `\n` and `\r` escapes used in separators.
pub fn unescape(s: &str) -> (out: String)
    ensures
        out@ == unescape_spec(s@),
{
    let v = chars_of(s);
    let out_chars = unescape_chars(&v);
    string_of(&out_chars)
}

/// Decodes the `\t`, `\n` and `\r` escapes in a character vector.
pub fn unescape_chars(v: &Vec<char>) -> (out: Vec<char>)
    ensures
        out@ == unescape_spec(v@),
{
    let mut out: Vec<char> = Vec::new();
    let mut i: usize = 0;
    proof {
        assert(v@.skip(0) == v@);
    }
    while i < v.len()
        invariant
            i <= v.len(),
            unescape_spec(v@) == out@ + unescape_spec(v@.skip(i as int)),
        decreases v.len() - i,
    {
        proof {
            lemma_unescape_step(v@, i as int);
        }
        if i + 1 < v.len() && v[i] == '\\' {
            match escape_target_exec(v[i + 1]) {
                Some(c) => {
                    out.push(c);
                    i += 2;
                    continue ;
                },
                None => {},
            }
        }
        out.push(v[i]);
        i += 1;
    }
    proof {
        assert(v@.skip(v.len() as int) =~= Seq::<char>::empty());
        assert(out@ + Seq::<char>::empty() == out@);
    }
    out
}


// ---------------------------------------------------------------------------
// Splitting by a separator string
// ---------------------------------------------------------------------------

/// `sep` occurs in `s` at position `i`.
pub open spec fn matches_at(s: Seq<char>, i: int, sep: Seq<char>) -> bool {
    0 <= i && i + sep.len() <= s.len() && s.subrange(i, i + sep.len()) == sep
}

/// Leftmost, non-overlapping splitting of `s` at a nonempty `sep`, scanning
/// from position `i` with the current piece starting at `start`.
pub open spec fn split_scan(s: Seq<char>, sep: Seq<char>, start: int, i: int) -> Seq<Seq<char>>
    decreases s.len() - i,
{
    if sep.len() == 0 || i < 0 || i + sep.len() > s.len() {
        seq![s.subrange(start, s.len() as int)]
    } else if matches_at(s, i, sep) {
        seq![s.subrange(start, i)] + split_scan(s, sep, i + sep.len(), i + sep.len())
    } else {
        split_scan(s, sep, start, i + 1)
    }
}

/// The pieces of `s` between the occurrences of `sep` (std `str::split` with a
/// string pattern). An empty separator matches at every character boundary.
pub open spec fn split_spec(s: Seq<char>, sep: Seq<char>) -> Seq<Seq<char>> {
    if sep.len() == 0 {
        seq![Seq::<char>::empty()] + Seq::new(s.len(), |k: int| seq![s[k]]) + seq![
            Seq::<char>::empty(),
        ]
    } else {
        split_scan(s, sep, 0, 0)
    }
}

/// The text of an optional string.
pub open spec fn opt_view(o: Option<String>) -> Option<Seq<char>> {
    match o {
        Some(s) => Some(s@),
        None => None,
    }
}

/// The views of a vector of strings.
pub open spec fn strs_view(v: Seq<String>) -> Seq<Seq<char>> {
    v.map_values(|x: String| x@)
}

fn matches_at_exec(v: &Vec<char>, i: usize, p: &Vec<char>) -> (r: bool)
    requires
        i <= v.len(),
        p.len() <= v.len() - i,
    ensures
        r == matches_at(v@, i as int, p@),
{
    let mut j: usize = 0;
    while j < p.len()
        invariant
            j <= p.len(),
            i + p.len() <= v.len(),
            forall|k: int| 0 <= k < j ==> v@[i + k] == p@[k],
        decreases p.len() - j,
    {
        if v[i + j] != p[j] {
            assert(v@.subrange(i as int, i + p.len())[j as int] != p@[j as int]);
            return false;
        }
        j += 1;
    }
    assert(v@.subrange(i as int, i + p.len()) =~= p@);
    true
}

proof fn lemma_push_view(v: Seq<String>, x: String)
    ensures
        strs_view(v.push(x)) == strs_view(v).push(x@),
{
    assert(strs_view(v.push(x)) =~= strs_view(v).push(x@));
}

/// The pieces of `v` between the occurrences of `p`.
pub fn split_chars(v: &Vec<char>, p: &Vec<char>) -> (out: Vec<String>)
    ensures
        strs_view(out@) == split_spec(v@, p@),
{
    let mut out: Vec<String> = Vec::new();
    if p.len() == 0 {
        out.push(String::new());
        let mut k: usize = 0;
        while k < v.len()
            invariant
                k <= v.len(),
                strs_view(out@) == seq![Seq::<char>::empty()] + Seq::new(
                    k as nat,
                    |j: int| seq![v@[j]],
                ),
            decreases v.len() - k,
        {
            let piece = string_of_range(v, k, k + 1);
            proof {
                lemma_push_view(out@, piece);
                assert(v@.subrange(k as int, k + 1) =~= seq![v@[k as int]]);
            }
            out.push(piece);
            k += 1;
            assert(strs_view(out@) =~= seq![Seq::<char>::empty()] + Seq::new(
                k as nat,
                |j: int| seq![v@[j]],
            ));
        }
        let e = String::new();
        proof {
            lemma_push_view(out@, e);
        }
        out.push(e);
        assert(strs_view(out@) =~= split_spec(v@, p@));
        return out;
    }
    let mut start: usize = 0;
    let mut i: usize = 0;
    while p.len() <= v.len() - i
        invariant
            p.len() > 0,
            start <= i <= v.len(),
            split_spec(v@, p@) == strs_view(out@) + split_scan(v@, p@, start as int, i as int),
        decreases v.len() - i,
    {
        if matches_at_exec(v, i, p) {
            let piece = string_of_range(v, start, i);
            proof {
                lemma_push_view(out@, piece);
            }
            out.push(piece);
            i = i + p.len();
            start = i;
        } else {
            i = i + 1;
        }
    }
    let last = string_of_range(v, start, v.len());
    proof {
        lemma_push_view(out@, last);
    }
    out.push(last);
    out
}

/// The pieces of `s` between the occurrences of `sep` (std `str::split`).
pub fn split_str(s: &str, sep: &str) -> (out: Vec<String>)
    ensures
        strs_view(out@) == split_spec(s@, sep@),
{
    let v = chars_of(s);
    let p = chars_of(sep);
    split_chars(&v, &p)
}

// ---------------------------------------------------------------------------
// Lines
// ---------------------------------------------------------------------------

/// `s` without one trailing carriage return.
pub open spec fn strip_cr(s: Seq<char>) -> Seq<char> {
    if s.len() > 0 && s.last() == '\r' {
        s.drop_last()
    } else {
        s
    }
}

/// The lines of `s` from position `i` on, the current line starting at `start`.
pub open spec fn lines_scan(s: Seq<char>, start: int, i: int) -> Seq<Seq<char>>
    decreases s.len() - i,
{
    if i < 0 || i >= s.len() {
        if start < s.len() {
            seq![s.subrange(start, s.len() as int)]
        } else {
            seq![]
        }
    } else if s[i] == '\n' {
        seq![strip_cr(s.subrange(start, i))] + lines_scan(s, i + 1, i + 1)
    } else {
        lines_scan(s, start, i + 1)
    }
}

/// The lines of `s` (std `str::lines`): split after each `\n`, a `\r` just
/// before a `\n` dropped, no empty line after a final `\n`.
pub open spec fn lines_spec(s: Seq<char>) -> Seq<Seq<char>> {
    lines_scan(s, 0, 0)
}

fn strip_cr_range(v: &Vec<char>, start: usize, end: usize) -> (out: String)
    requires
        start <= end <= v.len(),
    ensures
        out@ == strip_cr(v@.subrange(start as int, end as int)),
{
    if end > start && v[end - 1] == '\r' {
        let r = string_of_range(v, start, end - 1);
        assert(v@.subrange(start as int, end as int).drop_last() =~= v@.subrange(
            start as int,
            end - 1,
        ));
        r
    } else {
        string_of_range(v, start, end)
    }
}

/// The lines of `s` (std `str::lines`).
pub fn lines_of(s: &str) -> (out: Vec<String>)
    ensures
        strs_view(out@) == lines_spec(s@),
{
    let v = chars_of(s);
    let mut out: Vec<String> = Vec::new();
    let mut start: usize = 0;
    let mut i: usize = 0;
    while i < v.len()
        invariant
            start <= i <= v.len(),
            v@ == s@,
            lines_spec(v@) == strs_view(out@) + lines_scan(v@, start as int, i as int),
        decreases v.len() - i,
    {
        if v[i] == '\n' {
            let piece = strip_cr_range(&v, start, i);
            proof {
                lemma_push_view(out@, piece);
            }
            out.push(piece);
            start = i + 1;
        }
        i += 1;
    }
    if start < v.len() {
        let piece = string_of_range(&v, start, v.len());
        proof {
            lemma_push_view(out@, piece);
        }
        out.push(piece);
    } else {
        assert(strs_view(out@) + Seq::<Seq<char>>::empty() == strs_view(out@));
    }
    out
}

// ---------------------------------------------------------------------------
// Filtering, trailing carriage returns, records
// ---------------------------------------------------------------------------

/// The nonempty pieces, in order.
pub open spec fn nonempty_parts(parts: Seq<Seq<char>>) -> Seq<Seq<char>> {
    parts.filter(|p: Seq<char>| p.len() > 0)
}

/// Keeps the nonempty strings, in order.
pub fn keep_nonempty(parts: Vec<String>) -> (out: Vec<String>)
    ensures
        strs_view(out@) == nonempty_parts(strs_view(parts@)),
{
    let mut out: Vec<String> = Vec::new();
    let mut i: usize = 0;
    let n = parts.len();
    while i < n
        invariant
            i <= n == parts.len(),
            strs_view(out@) == nonempty_parts(strs_view(parts@.take(i as int))),
        decreases n - i,
    {
        proof {
            reveal_with_fuel(Seq::filter, 1);
            assert(strs_view(parts@.take(i + 1)).drop_last() =~= strs_view(parts@.take(i as int)));
            assert(strs_view(parts@.take(i + 1)).last() == parts@[i as int]@);
        }
        let is_empty = parts[i].as_str().unicode_len() == 0;
        if !is_empty {
            let x = parts[i].clone();
            proof {
                lemma_push_view(out@, x);
            }
            out.push(x);
        }
        i += 1;
    }
    assert(parts@.take(n as int) =~= parts@);
    out
}

/// `s` without all of its trailing carriage returns
/// (std `str::trim_end_matches('\r')`).
pub open spec fn trim_end_cr(s: Seq<char>) -> Seq<char>
    decreases s.len(),
{
    if s.len() > 0 && s.last() == '\r' {
        trim_end_cr(s.drop_last())
    } else {
        s
    }
}

/// Removes all trailing carriage returns.
pub fn trim_end_cr_str(s: &String) -> (out: String)
    ensures
        out@ == trim_end_cr(s@),
{
    let v = chars_of(s.as_str());
    let mut end: usize = v.len();
    assert(v@.subrange(0, end as int) =~= v@);
    while end > 0 && v[end - 1] == '\r'
        invariant
            end <= v.len(),
            trim_end_cr(v@) == trim_end_cr(v@.subrange(0, end as int)),
        decreases end,
    {
        assert(v@.subrange(0, end as int).drop_last() =~= v@.subrange(0, end - 1));
        end -= 1;
    }
    string_of_range(&v, 0, end)
}

/// What `split_keep_nonempty` yields: the lines when the separator is a single
/// newline, else the nonempty pieces between separators.
pub open spec fn records_spec(input: Seq<char>, sep: Seq<char>) -> Seq<Seq<char>> {
    if sep == seq!['\n'] {
        lines_spec(input)
    } else {
        nonempty_parts(split_spec(input, sep))
    }
}

/// Splits input into records: `lines()` for a newline separator, else the
/// nonempty pieces between separators.
pub fn split_keep_nonempty(input: &str, sep: &str) -> (out: Vec<String>)
    ensures
        strs_view(out@) == records_spec(input@, sep@),
{
    proof {
        reveal_strlit("\n");
        assert("\n"@ =~= seq!['\n']);
    }
    if str_is(sep, "\n") {
        lines_of(input)
    } else {
        let parts = split_str(input, sep);
        keep_nonempty(parts)
    }
}

// ---------------------------------------------------------------------------
// Joining
// ---------------------------------------------------------------------------

/// The pieces with `sep` between consecutive ones.
pub open spec fn join_spec(parts: Seq<Seq<char>>, sep: Seq<char>) -> Seq<char>
    decreases parts.len(),
{
    if parts.len() == 0 {
        seq![]
    } else if parts.len() == 1 {
        parts[0]
    } else {
        join_spec(parts.drop_last(), sep) + sep + parts.last()
    }
}

/// Joins the strings with `sep` between consecutive ones.
pub fn join_strs(parts: &Vec<String>, sep: &str) -> (out: String)
    ensures
        out@ == join_spec(strs_view(parts@), sep@),
{
    let mut out = String::new();
    let mut i: usize = 0;
    while i < parts.len()
        invariant
            i <= parts.len(),
            out@ == join_spec(strs_view(parts@.take(i as int)), sep@),
        decreases parts.len() - i,
    {
        proof {
            assert(strs_view(parts@.take(i + 1)).drop_last() =~= strs_view(parts@.take(i as int)));
        }
        if i != 0 {
            out.append(sep);
        }
        out.append(parts[i].as_str());
        i += 1;
    }
    assert(parts@.take(parts.len() as int) =~= parts@);
    out
}

// ---------------------------------------------------------------------------
// Whitespace
// ---------------------------------------------------------------------------

/// Unicode `White_Space` (std `char::is_whitespace`).
pub open spec fn is_ws(c: char) -> bool {
    let u = c as u32;
    (0x9 <= u && u <= 0xd) || u == 0x20 || u == 0x85 || u == 0xa0 || u == 0x1680 || (0x2000 <= u
        && u <= 0x200a) || u == 0x2028 || u == 0x2029 || u == 0x202f || u == 0x205f || u == 0x3000
}

/// Unicode `White_Space` (std `char::is_whitespace`).
pub fn is_ws_exec(c: char) -> (r: bool)
    ensures
        r == is_ws(c),
{
    let u = c as u32;
    (0x9 <= u && u <= 0xd) || u == 0x20 || u == 0x85 || u == 0xa0 || u == 0x1680 || (0x2000 <= u
        && u <= 0x200a) || u == 0x2028 || u == 0x2029 || u == 0x202f || u == 0x205f || u == 0x3000
}

/// Pieces of `s` between whitespace characters, scanning from `i` with the
/// current piece starting at `start`.
pub open spec fn ws_scan(s: Seq<char>, start: int, i: int) -> Seq<Seq<char>>
    decreases s.len() - i,
{
    if i < 0 || i >= s.len() {
        seq![s.subrange(start, s.len() as int)]
    } else if is_ws(s[i]) {
        seq![s.subrange(start, i)] + ws_scan(s, i + 1, i + 1)
    } else {
        ws_scan(s, start, i + 1)
    }
}

/// The maximal runs of non-whitespace characters (std `str::split_whitespace`).
pub open spec fn split_ws_spec(s: Seq<char>) -> Seq<Seq<char>> {
    nonempty_parts(ws_scan(s, 0, 0))
}

/// The maximal runs of non-whitespace characters (std `str::split_whitespace`).
pub fn split_whitespace(s: &str) -> (out: Vec<String>)
    ensures
        strs_view(out@) == split_ws_spec(s@),
{
    let v = chars_of(s);
    let mut parts: Vec<String> = Vec::new();
    let mut start: usize = 0;
    let mut i: usize = 0;
    while i < v.len()
        invariant
            start <= i <= v.len(),
            v@ == s@,
            ws_scan(v@, 0, 0) == strs_view(parts@) + ws_scan(v@, start as int, i as int),
        decreases v.len() - i,
    {
        if is_ws_exec(v[i]) {
            let piece = string_of_range(&v, start, i);
            proof {
                lemma_push_view(parts@, piece);
            }
            parts.push(piece);
            start = i + 1;
        }
        i += 1;
    }
    let piece = string_of_range(&v, start, v.len());
    proof {
        lemma_push_view(parts@, piece);
    }
    parts.push(piece);
    assert(strs_view(parts@) =~= ws_scan(v@, 0, 0));
    keep_nonempty(parts)
}

/// Index of the first non-whitespace character at or after `i` (`s.len()` if none).
pub open spec fn first_non_ws(s: Seq<char>, i: int) -> int
    decreases s.len() - i,
{
    if i < 0 || i >= s.len() {
        s.len() as int
    } else if is_ws(s[i]) {
        first_non_ws(s, i + 1)
    } else {
        i
    }
}

/// End of the last non-whitespace character at or before `j` (0 if none).
pub open spec fn last_non_ws_end(s: Seq<char>, j: int) -> int
    decreases j,
{
    if j <= 0 || j > s.len() {
        0
    } else if is_ws(s[j - 1]) {
        last_non_ws_end(s, j - 1)
    } else {
        j
    }
}

/// `s` without leading whitespace (std `str::trim_start`).
pub open spec fn trim_start_spec(s: Seq<char>) -> Seq<char> {
    s.subrange(first_non_ws(s, 0), s.len() as int)
}

/// `s` without leading and trailing whitespace (std `str::trim`).
pub open spec fn trim_spec(s: Seq<char>) -> Seq<char> {
    let a = first_non_ws(s, 0);
    let b = last_non_ws_end(s, s.len() as int);
    if a >= b {
        seq![]
    } else {
        s.subrange(a, b)
    }
}

proof fn lemma_first_non_ws_bounds(s: Seq<char>, i: int)
    requires
        0 <= i <= s.len(),
    ensures
        i <= first_non_ws(s, i) <= s.len(),
    decreases s.len() - i,
{
    if i < s.len() && is_ws(s[i]) {
        lemma_first_non_ws_bounds(s, i + 1);
    }
}

proof fn lemma_last_non_ws_bounds(s: Seq<char>, j: int)
    requires
        0 <= j <= s.len(),
    ensures
        0 <= last_non_ws_end(s, j) <= j,
    decreases j,
{
    if j > 0 && is_ws(s[j - 1]) {
        lemma_last_non_ws_bounds(s, j - 1);
    }
}

pub proof fn lemma_trim_bounds(s: Seq<char>)
    ensures
        trim_spec(s).len() <= s.len(),
        0 <= first_non_ws(s, 0) <= s.len(),
{
    lemma_first_non_ws_bounds(s, 0);
    lemma_last_non_ws_bounds(s, s.len() as int);
}

/// The bounds `(a, b)` of `v` without leading and trailing whitespace.
pub fn trim_bounds(v: &Vec<char>) -> (r: (usize, usize))
    ensures
        r.0 <= r.1 <= v.len(),
        v@.subrange(r.0 as int, r.1 as int) == trim_spec(v@),
        r.0 as int == first_non_ws(v@, 0),
{
    let mut a: usize = 0;
    while a < v.len() && is_ws_exec(v[a])
        invariant
            a <= v.len(),
            first_non_ws(v@, 0) == first_non_ws(v@, a as int),
        decreases v.len() - a,
    {
        a += 1;
    }
    let mut b: usize = v.len();
    while b > a && is_ws_exec(v[b - 1])
        invariant
            a <= b <= v.len(),
            last_non_ws_end(v@, v.len() as int) == last_non_ws_end(v@, b as int),
        decreases b,
    {
        b -= 1;
    }
    proof {
        lemma_last_non_ws_bounds(v@, v.len() as int);
        if a == b {
            if a < v.len() {
                lemma_last_non_ws_bounds(v@, b as int);
            }
            assert(v@.subrange(a as int, b as int) =~= Seq::<char>::empty());
        }
    }
    (a, b)
}

/// Whether `s` has no non-whitespace character.
pub open spec fn is_blank(s: Seq<char>) -> bool {
    forall|i: int| 0 <= i < s.len() ==> is_ws(#[trigger] s[i])
}

// ---------------------------------------------------------------------------
// Laws
// ---------------------------------------------------------------------------

/// Text without a backslash has nothing to unescape.
pub proof fn law_unescape_plain(s: Seq<char>)
    requires
        !s.contains('\\'),
    ensures
        unescape_spec(s) == s,
    decreases s.len(),
{
    if s.len() > 0 {
        assert(s[0] != '\\');
        let rest = s.skip(1);
        assert forall|k: int| 0 <= k < rest.len() implies rest[k] != '\\' by {
            assert(rest[k] == s[k + 1]);
        }
        law_unescape_plain(rest);
        assert(seq![s[0]] + rest =~= s);
    }
}

proof fn lemma_join_front(p: Seq<char>, rest: Seq<Seq<char>>, sep: Seq<char>)
    requires
        rest.len() > 0,
    ensures
        join_spec(seq![p] + rest, sep) == p + sep + join_spec(rest, sep),
    decreases rest.len(),
{
    let all = seq![p] + rest;
    if rest.len() == 1 {
        assert(all.drop_last() =~= seq![p]);
        assert(join_spec(seq![p], sep) == p);
        assert(join_spec(rest, sep) == rest[0]);
        assert(join_spec(all, sep) == join_spec(all.drop_last(), sep) + sep + all.last());
        assert(join_spec(all, sep) =~= p + sep + join_spec(rest, sep));
    } else {
        lemma_join_front(p, rest.drop_last(), sep);
        assert(all.drop_last() =~= seq![p] + rest.drop_last());
        assert(join_spec(all, sep) == join_spec(all.drop_last(), sep) + sep + all.last());
        assert(join_spec(rest, sep) == join_spec(rest.drop_last(), sep) + sep + rest.last());
        assert(join_spec(all, sep) =~= p + sep + join_spec(rest, sep));
    }
}

proof fn lemma_split_scan_join(s: Seq<char>, sep: Seq<char>, start: int, i: int)
    requires
        sep.len() > 0,
        0 <= start <= i,
        i <= s.len() || start == i,
        start <= s.len(),
    ensures
        join_spec(split_scan(s, sep, start, i), sep) == s.subrange(start, s.len() as int),
    decreases s.len() - i,
{
    if i + sep.len() > s.len() {
    } else if matches_at(s, i, sep) {
        let next = i + sep.len();
        lemma_split_scan_join(s, sep, next, next);
        let rest = split_scan(s, sep, next, next);
        lemma_split_scan_len(s, sep, next, next);
        lemma_join_front(s.subrange(start, i), rest, sep);
        assert(s.subrange(start, i) + sep + s.subrange(next, s.len() as int) =~= s.subrange(
            start,
            s.len() as int,
        ));
    } else {
        lemma_split_scan_join(s, sep, start, i + 1);
    }
}

proof fn lemma_split_scan_len(s: Seq<char>, sep: Seq<char>, start: int, i: int)
    ensures
        split_scan(s, sep, start, i).len() > 0,
    decreases s.len() - i,
{
    if sep.len() == 0 || i < 0 || i + sep.len() > s.len() {
    } else if matches_at(s, i, sep) {
        lemma_split_scan_len(s, sep, i + sep.len(), i + sep.len());
    } else {
        lemma_split_scan_len(s, sep, start, i + 1);
    }
}

/// Joining the pieces of a split with the same (nonempty) separator gives
/// the text back.
pub proof fn law_split_then_join(s: Seq<char>, sep: Seq<char>)
    requires
        sep.len() > 0,
    ensures
        join_spec(split_spec(s, sep), sep) == s,
{
    lemma_split_scan_join(s, sep, 0, 0);
    assert(s.subrange(0, s.len() as int) =~= s);
}

proof fn lemma_lines_shift(p: Seq<char>, y: Seq<char>, a: int, b: int)
    requires
        0 <= a <= b <= y.len(),
    ensures
        lines_scan(p + y, p.len() + a, p.len() + b) == lines_scan(y, a, b),
    decreases y.len() - b,
{
    let s = p + y;
    if b < y.len() {
        assert(s[p.len() + b] == y[b]);
        if y[b] == '\n' {
            lemma_lines_shift(p, y, b + 1, b + 1);
            assert(s.subrange(p.len() + a, p.len() + b) =~= y.subrange(a, b));
        } else {
            lemma_lines_shift(p, y, a, b + 1);
        }
    } else {
        assert(s.subrange(p.len() + a, s.len() as int) =~= y.subrange(a, y.len() as int));
    }
}

proof fn lemma_lines_concat_scan(x: Seq<char>, y: Seq<char>, start: int, i: int)
    requires
        x.len() > 0,
        x.last() == '\n',
        0 <= start <= i <= x.len(),
        i == x.len() ==> start == i,
    ensures
        lines_scan(x + y, start, i) == lines_scan(x, start, i) + lines_scan(y, 0, 0),
    decreases x.len() - i,
{
    let s = x + y;
    if i == x.len() {
        lemma_lines_shift(x, y, 0, 0);
        assert(lines_scan(x, start, i) =~= Seq::<Seq<char>>::empty());
        assert(Seq::<Seq<char>>::empty() + lines_scan(y, 0, 0) =~= lines_scan(y, 0, 0));
    } else {
        assert(s[i] == x[i]);
        assert(s.subrange(start, i) =~= x.subrange(start, i));
        if x[i] == '\n' {
            lemma_lines_concat_scan(x, y, i + 1, i + 1);
            assert(seq![strip_cr(x.subrange(start, i))] + (lines_scan(x, i + 1, i + 1) + lines_scan(
                y,
                0,
                0,
            )) =~= seq![strip_cr(x.subrange(start, i))] + lines_scan(x, i + 1, i + 1)
                + lines_scan(y, 0, 0));
        } else {
            lemma_lines_concat_scan(x, y, start, i + 1);
        }
    }
}

/// The lines of text that ends with a newline, followed by more text, are
/// its own lines followed by the lines of the rest.
pub proof fn lemma_lines_concat(x: Seq<char>, y: Seq<char>)
    requires
        x.len() == 0 || x.last() == '\n',
    ensures
        lines_spec(x + y) == lines_spec(x) + lines_spec(y),
{
    if x.len() == 0 {
        assert(x + y =~= y);
        assert(lines_spec(x) =~= Seq::<Seq<char>>::empty());
        assert(lines_spec(x) + lines_spec(y) =~= lines_spec(y));
    } else {
        lemma_lines_concat_scan(x, y, 0, 0);
    }
}

/// A line without a newline, followed by one, is a single line (without a
/// final carriage return).
pub proof fn lemma_lines_single(a: Seq<char>)
    requires
        !a.contains('\n'),
    ensures
        lines_spec(a + seq!['\n']) == seq![strip_cr(a)],
{
    lemma_lines_single_scan(a, 0);
}

proof fn lemma_lines_single_scan(a: Seq<char>, k: int)
    requires
        !a.contains('\n'),
        0 <= k <= a.len(),
    ensures
        lines_scan(a + seq!['\n'], 0, k) == seq![strip_cr(a)],
    decreases a.len() - k,
{
    let s = a + seq!['\n'];
    if k < a.len() {
        assert(s[k] == a[k]);
        assert(a[k] != '\n');
        lemma_lines_single_scan(a, k + 1);
    } else {
        assert(s.subrange(0, k) =~= a);
        assert(lines_scan(s, k + 1, k + 1) =~= Seq::<Seq<char>>::empty());
    }
}

proof fn lemma_ws_shift(p: Seq<char>, y: Seq<char>, a: int, b: int)
    requires
        0 <= a <= b <= y.len(),
    ensures
        ws_scan(p + y, p.len() + a, p.len() + b) == ws_scan(y, a, b),
    decreases y.len() - b,
{
    let s = p + y;
    if b < y.len() {
        assert(s[p.len() + b] == y[b]);
        if is_ws(y[b]) {
            lemma_ws_shift(p, y, b + 1, b + 1);
            assert(s.subrange(p.len() + a, p.len() + b) =~= y.subrange(a, b));
        } else {
            lemma_ws_shift(p, y, a, b + 1);
        }
    } else {
        assert(s.subrange(p.len() + a, s.len() as int) =~= y.subrange(a, y.len() as int));
    }
}

proof fn lemma_ws_concat_scan(x: Seq<char>, c: char, y: Seq<char>, start: int, i: int)
    requires
        is_ws(c),
        0 <= start <= i <= x.len(),
    ensures
        ws_scan(x + seq![c] + y, start, i) == ws_scan(x, start, i) + ws_scan(y, 0, 0),
    decreases x.len() - i,
{
    let s = x + seq![c] + y;
    let xc = x + seq![c];
    assert(s == xc + y);
    if i == x.len() {
        assert(s[i] == c);
        lemma_ws_shift(xc, y, 0, 0);
        assert(s.subrange(start, i) =~= x.subrange(start, x.len() as int));
    } else {
        assert(s[i] == x[i]);
        assert(s.subrange(start, i) =~= x.subrange(start, i));
        if is_ws(x[i]) {
            lemma_ws_concat_scan(x, c, y, i + 1, i + 1);
            assert(seq![x.subrange(start, i)] + (ws_scan(x, i + 1, i + 1) + ws_scan(y, 0, 0))
                =~= seq![x.subrange(start, i)] + ws_scan(x, i + 1, i + 1) + ws_scan(y, 0, 0));
        } else {
            lemma_ws_concat_scan(x, c, y, start, i + 1);
        }
    }
}

/// Text without whitespace is one piece.
proof fn lemma_ws_plain(a: Seq<char>, k: int)
    requires
        forall|j: int| 0 <= j < a.len() ==> !is_ws(#[trigger] a[j]),
        0 <= k <= a.len(),
    ensures
        ws_scan(a, 0, k) == seq![a],
    decreases a.len() - k,
{
    if k < a.len() {
        lemma_ws_plain(a, k + 1);
    } else {
        assert(a.subrange(0, a.len() as int) =~= a);
    }
}

/// Fields without whitespace, joined by single spaces, are the whitespace
/// pieces of the joined text.
pub proof fn lemma_ws_join(fields: Seq<Seq<char>>)
    requires
        fields.len() > 0,
        forall|k: int, j: int|
            0 <= k < fields.len() && 0 <= j < fields[k].len() ==> !is_ws(#[trigger] fields[k][j]),
    ensures
        ws_scan(join_spec(fields, seq![' ']), 0, 0) == fields,
    decreases fields.len(),
{
    let last = fields.last();
    assert forall|j: int| 0 <= j < last.len() implies !is_ws(#[trigger] last[j]) by {
        assert(last[j] == fields[fields.len() - 1][j]);
    }
    lemma_ws_plain(last, 0);
    if fields.len() == 1 {
        assert(join_spec(fields, seq![' ']) == fields[0]);
        assert(fields =~= seq![last]);
    } else {
        let init = fields.drop_last();
        assert forall|k: int, j: int| 0 <= k < init.len() && 0 <= j < init[k].len() implies !is_ws(
            #[trigger] init[k][j],
        ) by {
            assert(init[k] == fields[k]);
        }
        lemma_ws_join(init);
        let x = join_spec(init, seq![' ']);
        assert(join_spec(fields, seq![' ']) == x + seq![' '] + last);
        assert(is_ws(' '));
        lemma_ws_concat_scan(x, ' ', last, 0, 0);
        assert(init + seq![last] =~= fields);
    }
}

} // verus!
