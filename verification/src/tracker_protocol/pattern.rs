//! Matching tracker URLs with `regex`.
use vstd::prelude::*;

verus! {

/// The compile error of `regex`.
#[verifier::external_type_specification]
#[verifier::external_body]
pub struct ExRegexError(regex::Error);

/// Whether `regex` compiles `pattern` (`Regex::new` gives `Ok`).
pub uninterp spec fn regex_compiles(pattern: Seq<char>) -> bool;

/// What the first capture group of `pattern` matches in `text`, if the
/// pattern matches.
pub uninterp spec fn regex_first_group(pattern: Seq<char>, text: Seq<char>) -> Option<Seq<char>>;

/// `Regex::new(pattern)` and then `captures(text)` from `regex`, reduced to
/// the text of the first capture group. Whether the pattern compiles and what
/// the group matches are named, not stated; the compile error is handed back
/// as it is.
#[verifier::external_body]
pub(crate) fn first_capture(pattern: &str, text: &str) -> (r: Result<Option<String>, regex::Error>)
    ensures
        r is Ok <==> regex_compiles(pattern@),
        r matches Ok(c) ==> (c is Some <==> regex_first_group(pattern@, text@) is Some) && (c matches Some(
            s,
        ) ==> s@ == regex_first_group(pattern@, text@).unwrap()),
{
    let re = regex::Regex::new(pattern)?;
    Ok(re.captures(text).and_then(|c| c.get(1)).map(|m| m.as_str().to_owned()))
}

} // verus!
