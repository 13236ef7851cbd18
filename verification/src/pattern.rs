//! Regular expressions, through the `regex` crate.
use vstd::prelude::*;

use crate::text::strs_view;

verus! {

/// The compiled `regex::Regex`, carried without a view of its insides.
#[verifier::external_type_specification]
#[verifier::external_body]
pub struct ExRegex(regex::Regex);

/// A compiled regular expression together with the pattern text it was
/// compiled from.
pub struct Pattern {
    source: String,
    compiled: regex::Regex,
}

impl View for Pattern {
    type V = Seq<char>;

    /// The pattern text.
    closed spec fn view(&self) -> Seq<char> {
        self.source@
    }
}

/// Whether `regex::Regex::is_match` finds a match of the pattern in the text.
pub uninterp spec fn regex_is_match(pat: Seq<char>, text: Seq<char>) -> bool;

/// The pieces that `regex::Regex::split` yields for the pattern and text.
pub uninterp spec fn regex_split(pat: Seq<char>, text: Seq<char>) -> Seq<Seq<char>>;

/// The text that `regex::Regex::replace_all` yields for the pattern, text
/// and replacement (with `$` group references expanded).
pub uninterp spec fn regex_replace_all(pat: Seq<char>, text: Seq<char>, rep: Seq<char>) -> Seq<
    char,
>;

/// Whether `regex::Regex::new` accepts the pattern (its syntax, under the
/// crate's fixed default size and nesting limits).
pub uninterp spec fn regex_compiles(pat: Seq<char>) -> bool;

/// The message of the `regex::Error` that `regex::Regex::new` returns for a
/// pattern that does not compile (its `Display` text).
pub uninterp spec fn regex_new_error(pat: Seq<char>) -> Seq<char>;

/// Compiles `pat` with `regex::Regex::new`. It succeeds exactly when the
/// pattern compiles, and the result then carries `pat` as its pattern text;
/// otherwise the error is shown as text. The pattern `\s+` (one or more
/// whitespace characters, the crate's documented Perl class and repetition)
/// always compiles.
#[verifier::external_body]
fn regex_new(pat: &str) -> (r: Result<Pattern, String>)
    ensures
        r is Ok <==> regex_compiles(pat@),
        r matches Ok(p) ==> p@ == pat@,
        r matches Err(m) ==> m@ == regex_new_error(pat@),
        pat@ == seq!['\\', 's', '+'] ==> r is Ok,
{
    match regex::Regex::new(pat) {
        Ok(compiled) => Ok(Pattern { source: String::from(pat), compiled }),
        Err(e) => Err(e.to_string()),
    }
}

/// Compiles a pattern; the error is the regex crate's message. The
/// whitespace pattern `\s+` always compiles.
pub fn compile(pat: &str) -> (r: Result<Pattern, String>)
    ensures
        r is Ok <==> regex_compiles(pat@),
        r matches Ok(p) ==> p@ == pat@,
        r matches Err(m) ==> m@ == regex_new_error(pat@),
        pat@ == seq!['\\', 's', '+'] ==> r is Ok,
{
    regex_new(pat)
}

/// `regex::Regex::is_match`: whether the pattern matches somewhere in the text.
#[verifier::external_body]
pub(crate) fn is_match(p: &Pattern, text: &str) -> (r: bool)
    ensures
        r == regex_is_match(p@, text@),
{
    p.compiled.is_match(text)
}

/// `regex::Regex::split`: the pieces of the text between matches.
#[verifier::external_body]
pub(crate) fn split(p: &Pattern, text: &str) -> (out: Vec<String>)
    ensures
        strs_view(out@) == regex_split(p@, text@),
{
    p.compiled.split(text).map(|s| s.to_string()).collect()
}

/// `regex::Regex::replace_all`: every match replaced by `rep`.
#[verifier::external_body]
pub(crate) fn replace_all(p: &Pattern, text: &str, rep: &str) -> (out: String)
    ensures
        out@ == regex_replace_all(p@, text@, rep@),
{
    p.compiled.replace_all(text, rep).to_string()
}

} // verus!
