//! Reading call arguments as text and as 1-based positions.
use vstd::prelude::*;

use crate::ast::{Call, Expr};
use crate::num::{i64_text, int_text, nat_text, parse_usize_spec, usize_text};

verus! {

/// The text of an argument: a string or identifier as written, a number in
/// decimal; a nested call has none.
pub open spec fn expr_text(e: Expr) -> Option<Seq<char>> {
    match e {
        Expr::Str(s) => Some(s@),
        Expr::Num(n) => Some(int_text(n as int)),
        Expr::Ident(s) => Some(s@),
        Expr::Call(_) => None,
    }
}

/// The text of argument `idx` of a call, if it has one.
pub open spec fn arg_text(call: Call, idx: int) -> Option<Seq<char>> {
    if 0 <= idx < call.args.len() {
        expr_text(call.args@[idx])
    } else {
        None
    }
}

/// Argument `idx` read as a positive integer: a number above zero, or a
/// string that parses as `usize`.
pub open spec fn arg_positive(call: Call, idx: int) -> Option<usize> {
    if 0 <= idx < call.args.len() {
        match call.args@[idx] {
            Expr::Num(n) => if n > 0 {
                Some(n as usize)
            } else {
                None
            },
            Expr::Str(s) => parse_usize_spec(s@),
            _ => None,
        }
    } else {
        None
    }
}

/// The text of an argument expression.
pub fn expr_to_string(e: &Expr) -> (r: Result<String, String>)
    ensures
        match r {
            Ok(s) => expr_text(*e) == Some(s@),
            Err(m) => expr_text(*e) is None && m@ == "nested call cannot be converted to string here"@,
        },
{
    match e {
        Expr::Str(s) => Ok(s.clone()),
        Expr::Num(n) => Ok(i64_text(*n)),
        Expr::Ident(s) => Ok(s.clone()),
        Expr::Call(_) => Err(String::from_str("nested call cannot be converted to string here")),
    }
}

/// The message when argument `idx` has no text: it is missing, or it is a
/// nested call.
pub open spec fn arg_text_error(call: Call, idx: int) -> Seq<char> {
    if idx >= call.args.len() {
        "missing arg "@ + nat_text((idx + 1) as nat) + " for "@ + call.name@
    } else {
        "nested call cannot be converted to string here"@
    }
}

/// The message when argument `idx` is not a positive integer: text that is
/// not a number, or anything else.
pub open spec fn arg_positive_error(call: Call, idx: int) -> Seq<char> {
    if 0 <= idx < call.args.len() && call.args@[idx] is Str {
        "expected integer arg for "@ + call.name@
    } else {
        "expected positive integer arg "@ + nat_text((idx + 1) as nat) + " for "@ + call.name@
    }
}

/// The message when argument `idx` names no column.
pub open spec fn arg_column_error(call: Call, idx: int) -> Seq<char> {
    if arg_positive(call, idx) == Some(0usize) {
        "field positions are 1-based: "@ + arg_text(call, idx)->0
    } else {
        arg_positive_error(call, idx)
    }
}

/// The text of argument `idx`.
pub fn arg_string(call: &Call, idx: usize) -> (r: Result<String, String>)
    requires
        idx < usize::MAX,
    ensures
        r is Ok <==> arg_text(*call, idx as int) is Some,
        r matches Ok(s) ==> arg_text(*call, idx as int) == Some(s@),
        r matches Err(m) ==> m@ == arg_text_error(*call, idx as int),
{
    if idx >= call.args.len() {
        let n = usize_text(idx + 1);
        let mut m = crate::text::concat3("missing arg ", n.as_str(), " for ");
        m.append(call.name.as_str());
        return Err(m);
    }
    expr_to_string(&call.args[idx])
}

/// Argument `idx` as a positive integer (1-based position).
pub fn arg_usize_expr(call: &Call, idx: usize) -> (r: Result<usize, String>)
    requires
        idx < usize::MAX,
    ensures
        r is Ok <==> arg_positive(*call, idx as int) is Some,
        r matches Ok(n) ==> arg_positive(*call, idx as int) == Some(n),
        r matches Err(m) ==> m@ == arg_positive_error(*call, idx as int),
{
    if idx < call.args.len() {
        match &call.args[idx] {
            Expr::Num(n) => {
                if *n > 0 {
                    return Ok(*n as usize);
                }
            },
            Expr::Str(s) => {
                return match crate::num::parse_usize(s.as_str()) {
                    Ok(v) => Ok(v),
                    Err(_) => Err(
                        crate::text::concat2("expected integer arg for ", call.name.as_str()),
                    ),
                };
            },
            _ => {},
        }
    }
    let n = usize_text(idx + 1);
    let mut m = crate::text::concat3("expected positive integer arg ", n.as_str(), " for ");
    m.append(call.name.as_str());
    Err(m)
}

/// Argument `idx` as a positive integer (1-based position).
pub fn arg_usize1(call: &Call, idx: usize) -> (r: Result<usize, String>)
    requires
        idx < usize::MAX,
    ensures
        r is Ok <==> arg_positive(*call, idx as int) is Some,
        r matches Ok(n) ==> arg_positive(*call, idx as int) == Some(n),
        r matches Err(m) ==> m@ == arg_positive_error(*call, idx as int),
{
    arg_usize_expr(call, idx)
}

/// The 0-based column that argument `idx` names: a positive 1-based
/// position, given as a number or as text.
pub open spec fn arg_column(call: Call, idx: int) -> Option<usize> {
    match arg_positive(call, idx) {
        Some(n) => if n > 0 {
            Some((n - 1) as usize)
        } else {
            None
        },
        None => None,
    }
}

/// Argument `idx` as a 0-based column; a position of zero, though written
/// as text, is refused since positions are 1-based.
pub fn arg_col(call: &Call, idx: usize) -> (r: Result<usize, String>)
    requires
        idx < usize::MAX,
    ensures
        r is Ok <==> arg_column(*call, idx as int) is Some,
        r matches Ok(c) ==> arg_column(*call, idx as int) == Some(c),
        r matches Err(m) ==> m@ == arg_column_error(*call, idx as int),
{
    let n = arg_usize1(call, idx)?;
    if n == 0 {
        let t = arg_string(call, idx)?;
        return Err(crate::text::concat2("field positions are 1-based: ", t.as_str()));
    }
    Ok(n - 1)
}

} // verus!
