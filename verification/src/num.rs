//! Decimal integers: rendering (as `Display` does) and parsing (as `FromStr`
//! does for `usize` and `i64`).
use vstd::prelude::*;

verus! {

/// The ASCII digit for `d` in `0..10`.
pub open spec fn digit_char(d: int) -> char {
    ((d + 48) as u32) as char
}

/// The decimal digits of `n`, most significant first.
pub open spec fn nat_text(n: nat) -> Seq<char>
    decreases n,
{
    if n < 10 {
        seq![digit_char(n as int)]
    } else {
        nat_text(n / 10).push(digit_char((n % 10) as int))
    }
}

/// The decimal text of `n`, with a leading `-` when negative.
pub open spec fn int_text(n: int) -> Seq<char> {
    if n < 0 {
        seq!['-'] + nat_text((-n) as nat)
    } else {
        nat_text(n as nat)
    }
}

fn digit_exec(d: u64) -> (c: char)
    requires
        d < 10,
    ensures
        c == digit_char(d as int),
{
    if d == 0 {
        '0'
    } else if d == 1 {
        '1'
    } else if d == 2 {
        '2'
    } else if d == 3 {
        '3'
    } else if d == 4 {
        '4'
    } else if d == 5 {
        '5'
    } else if d == 6 {
        '6'
    } else if d == 7 {
        '7'
    } else if d == 8 {
        '8'
    } else {
        '9'
    }
}

fn push_digits(out: &mut Vec<char>, n: u64)
    ensures
        final(out)@ == old(out)@ + nat_text(n as nat),
    decreases n,
{
    if n >= 10 {
        push_digits(out, n / 10);
    }
    let c = digit_exec(n % 10);
    out.push(c);
    proof {
        if n >= 10 {
            assert(nat_text(n as nat) == nat_text((n / 10) as nat).push(digit_char((n % 10) as int)));
        } else {
            assert(nat_text(n as nat) == seq![digit_char(n as int)]);
        }
    }
}

/// The decimal text of an unsigned number (as `usize::to_string`).
pub fn usize_text(n: usize) -> (out: String)
    ensures
        out@ == nat_text(n as nat),
{
    let mut v: Vec<char> = Vec::new();
    push_digits(&mut v, n as u64);
    assert(v@ =~= nat_text(n as nat));
    crate::text::string_of(&v)
}

/// The decimal text of a signed number (as `i64::to_string`).
pub fn i64_text(n: i64) -> (out: String)
    ensures
        out@ == int_text(n as int),
{
    let mut v: Vec<char> = Vec::new();
    if n < 0 {
        v.push('-');
        let m: u64 = ((-(n + 1)) as u64) + 1;
        push_digits(&mut v, m);
        assert(v@ =~= int_text(n as int));
    } else {
        push_digits(&mut v, n as u64);
        assert(v@ =~= int_text(n as int));
    }
    crate::text::string_of(&v)
}

/// An ASCII decimal digit.
pub open spec fn is_digit(c: char) -> bool {
    '0' <= c && c <= '9'
}

/// The value of an ASCII decimal digit.
pub open spec fn digit_value(c: char) -> nat {
    ((c as u32) - 48) as nat
}

/// The value of a sequence of decimal digits.
pub open spec fn digits_value(s: Seq<char>) -> nat
    decreases s.len(),
{
    if s.len() == 0 {
        0
    } else {
        digits_value(s.drop_last()) * 10 + digit_value(s.last())
    }
}

/// All characters are ASCII digits.
pub open spec fn all_digits(s: Seq<char>) -> bool {
    forall|i: int| 0 <= i < s.len() ==> is_digit(#[trigger] s[i])
}

/// The digits of an unsigned number: the text without one leading `+`.
pub open spec fn unsigned_body(s: Seq<char>) -> Seq<char> {
    if s.len() > 0 && s[0] == '+' {
        s.skip(1)
    } else {
        s
    }
}

/// What `s.parse::<usize>()` gives: an optional `+`, then one or more ASCII
/// digits whose value fits in `usize`.
pub open spec fn parse_usize_spec(s: Seq<char>) -> Option<usize> {
    let b = unsigned_body(s);
    if b.len() > 0 && all_digits(b) && digits_value(b) <= usize::MAX {
        Some(digits_value(b) as usize)
    } else {
        None
    }
}

/// The digits of a signed number: the text without one leading `+` or `-`.
pub open spec fn signed_body(s: Seq<char>) -> Seq<char> {
    if s.len() > 0 && (s[0] == '+' || s[0] == '-') {
        s.skip(1)
    } else {
        s
    }
}

/// The text starts with `-`.
pub open spec fn is_negative_text(s: Seq<char>) -> bool {
    s.len() > 0 && s[0] == '-'
}

/// What `s.parse::<i64>()` gives: an optional sign, then one or more ASCII
/// digits whose signed value fits in `i64`.
pub open spec fn parse_i64_spec(s: Seq<char>) -> Option<i64> {
    let b = signed_body(s);
    let v: int = if is_negative_text(s) {
        -(digits_value(b) as int)
    } else {
        digits_value(b) as int
    };
    if b.len() > 0 && all_digits(b) && i64::MIN <= v && v <= i64::MAX {
        Some(v as i64)
    } else {
        None
    }
}

proof fn lemma_digits_value_take(s: Seq<char>, k: int)
    requires
        0 <= k < s.len(),
    ensures
        digits_value(s.take(k + 1)) == digits_value(s.take(k)) * 10 + digit_value(s[k]),
{
    assert(s.take(k + 1).drop_last() =~= s.take(k));
}

proof fn lemma_digits_value_mono(s: Seq<char>, k: int, n: int)
    requires
        0 <= k <= n <= s.len(),
    ensures
        digits_value(s.take(k)) <= digits_value(s.take(n)),
    decreases n - k,
{
    if k < n {
        lemma_digits_value_mono(s, k, n - 1);
        lemma_digits_value_take(s, n - 1);
    }
}

fn is_digit_exec(c: char) -> (r: bool)
    ensures
        r == is_digit(c),
{
    '0' <= c && c <= '9'
}

/// The value of the digits `v[from..]`, if they are all digits and the value
/// is at most `limit`.
fn digits_upto(v: &Vec<char>, from: usize, limit: u64) -> (r: Result<u64, bool>)
    requires
        from <= v.len(),
        limit >= 10,
    ensures
        ({
            let b = v@.skip(from as int);
            match r {
                Ok(x) => all_digits(b) && x == digits_value(b) && x <= limit,
                Err(invalid) => invalid == !all_digits(b) && (!invalid ==> digits_value(b)
                    > limit),
            }
        }),
{
    let ghost b = v@.skip(from as int);
    let mut acc: u64 = 0;
    let mut overflow = false;
    let mut i: usize = from;
    while i < v.len()
        invariant
            from <= i <= v.len(),
            limit >= 10,
            b == v@.skip(from as int),
            all_digits(b.take(i - from)),
            !overflow ==> acc == digits_value(b.take(i - from)) && acc <= limit,
            overflow ==> digits_value(b.take(i - from)) > limit,
        decreases v.len() - i,
    {
        let c = v[i];
        proof {
            assert(b[i - from] == v@[i as int]);
            lemma_digits_value_take(b, i - from);
        }
        if !is_digit_exec(c) {
            assert(!is_digit(b[i - from]));
            return Err(true);
        }
        let d: u64 = (c as u32 - 48) as u64;
        if !overflow {
            if acc > (limit - d) / 10 {
                overflow = true;
                assert(acc * 10 + d > limit) by (nonlinear_arith)
                    requires
                        acc > (limit - d) / 10,
                        d <= limit || d > limit,
                        d < 10,
                ;
            } else {
                assert(acc * 10 + d <= limit) by (nonlinear_arith)
                    requires
                        acc <= (limit - d) / 10,
                        d < 10,
                        limit >= d,
                ;
                acc = acc * 10 + d;
            }
        } else {
            assert(digits_value(b.take(i - from)) * 10 + d >= digits_value(b.take(i - from)))
                by (nonlinear_arith);
        }
        i += 1;
        assert(all_digits(b.take(i - from))) by {
            assert forall|j: int| 0 <= j < i - from implies is_digit(#[trigger] b.take(i - from)[j]) by {
                if j < i - from - 1 {
                    assert(b.take(i - from)[j] == b.take(i - from - 1)[j]);
                }
            }
        }
    }
    assert(b.take(i - from) =~= b);
    if overflow {
        Err(false)
    } else {
        Ok(acc)
    }
}

/// The message of std's `ParseIntError`: for empty text, for a character
/// that is not a digit, for a value below the type's range, and otherwise for
/// a value above it.
pub open spec fn int_error_message(empty: bool, invalid: bool, negative: bool) -> Seq<char> {
    if empty {
        "cannot parse integer from empty string"@
    } else if invalid {
        "invalid digit found in string"@
    } else if negative {
        "number too small to fit in target type"@
    } else {
        "number too large to fit in target type"@
    }
}

/// The message that `s.parse::<usize>()` fails with, for a text that does not
/// parse.
pub open spec fn usize_error_message(s: Seq<char>) -> Seq<char> {
    let b = unsigned_body(s);
    int_error_message(s.len() == 0, !all_digits(b) || b.len() == 0, false)
}

/// The message of std's `ParseIntError` for each way parsing can fail.
pub fn int_error_text(empty: bool, invalid: bool, negative: bool) -> (out: String)
    ensures
        out@ == int_error_message(empty, invalid, negative),
{
    if empty {
        String::from_str("cannot parse integer from empty string")
    } else if invalid {
        String::from_str("invalid digit found in string")
    } else if negative {
        String::from_str("number too small to fit in target type")
    } else {
        String::from_str("number too large to fit in target type")
    }
}

/// Parses an unsigned decimal number as `s.parse::<usize>()` does; the error
/// is std's message.
pub fn parse_usize(s: &str) -> (r: Result<usize, String>)
    ensures
        r is Ok <==> parse_usize_spec(s@) is Some,
        r matches Ok(n) ==> parse_usize_spec(s@) == Some(n),
        r matches Err(m) ==> m@ == usize_error_message(s@),
{
    let v = crate::text::chars_of(s);
    parse_usize_chars(&v)
}

/// Parses an unsigned decimal number given as characters, as
/// `s.parse::<usize>()` does; the error is std's message.
pub fn parse_usize_chars(v: &Vec<char>) -> (r: Result<usize, String>)
    ensures
        r is Ok <==> parse_usize_spec(v@) is Some,
        r matches Ok(n) ==> parse_usize_spec(v@) == Some(n),
        r matches Err(m) ==> m@ == usize_error_message(v@),
{
    if v.len() == 0 {
        return Err(int_error_text(true, false, false));
    }
    let from: usize = if v[0] == '+' {
        1
    } else {
        0
    };
    proof {
        if from == 0 {
            assert(v@.skip(0) =~= v@);
        }
    }
    if from == v.len() {
        assert(unsigned_body(v@).len() == 0);
        return Err(int_error_text(false, true, false));
    }
    match digits_upto(v, from, usize::MAX as u64) {
        Ok(x) => Ok(x as usize),
        Err(invalid) => Err(int_error_text(false, invalid, false)),
    }
}

/// Parses a signed decimal number as `s.parse::<i64>()` does; the error is
/// std's message.
pub fn parse_i64(s: &str) -> (r: Result<i64, String>)
    ensures
        r is Ok <==> parse_i64_spec(s@) is Some,
        r matches Ok(n) ==> parse_i64_spec(s@) == Some(n),
{
    let v = crate::text::chars_of(s);
    parse_i64_chars(&v)
}

/// Parses a signed decimal number given as characters, as
/// `s.parse::<i64>()` does; the error is std's message.
pub fn parse_i64_chars(v: &Vec<char>) -> (r: Result<i64, String>)
    ensures
        r is Ok <==> parse_i64_spec(v@) is Some,
        r matches Ok(n) ==> parse_i64_spec(v@) == Some(n),
{
    if v.len() == 0 {
        return Err(int_error_text(true, false, false));
    }
    let neg = v[0] == '-';
    let from: usize = if v[0] == '+' || v[0] == '-' {
        1
    } else {
        0
    };
    proof {
        if from == 0 {
            assert(v@.skip(0) =~= v@);
        }
    }
    if from == v.len() {
        assert(signed_body(v@).len() == 0);
        return Err(int_error_text(false, true, false));
    }
    let limit: u64 = if neg {
        0x8000_0000_0000_0000
    } else {
        0x7fff_ffff_ffff_ffff
    };
    match digits_upto(v, from, limit) {
        Ok(x) => {
            if neg {
                if x == 0x8000_0000_0000_0000 {
                    Ok(i64::MIN)
                } else {
                    Ok(-(x as i64))
                }
            } else {
                Ok(x as i64)
            }
        },
        Err(invalid) => Err(int_error_text(false, invalid, neg)),
    }
}

} // verus!
