//! Regular expressions, as the `regex` crate compiles and searches them.
use vstd::prelude::*;

verus! {

/// A compiled regular expression of the `regex` crate.
#[verifier::external_type_specification]
#[verifier::external_body]
pub struct ExRegex(regex::Regex);

/// Why the `regex` crate refused a source text.
#[verifier::external_type_specification]
#[verifier::external_body]
pub struct ExRegexError(regex::Error);

/// The texts in which a compiled expression finds a match.
pub uninterp spec fn regex_texts(re: regex::Regex) -> Set<Seq<char>>;

/// The texts in which the expression with this source finds a match, letter case ignored or not;
/// `None` where the source is refused.
pub uninterp spec fn regex_language(source: Seq<char>, ignore_case: bool) -> Option<
    Set<Seq<char>>,
>;

/// `regex::RegexBuilder`: `new` with the source, `case_insensitive` with the flag, then `build`.
/// Whether the source is accepted, and what the expression then matches, depends on the source and
/// the flag alone.
#[verifier::external_body]
pub(crate) fn compile(source: &str, ignore_case: bool) -> (r: Result<regex::Regex, regex::Error>)
    ensures
        match r {
            Ok(re) => regex_language(source@, ignore_case) == Some(regex_texts(re)),
            Err(_) => regex_language(source@, ignore_case) is None,
        },
{
    regex::RegexBuilder::new(source).case_insensitive(ignore_case).build()
}

/// `regex::Regex::is_match`: whether the expression finds a match anywhere in the text.
#[verifier::external_body]
pub(crate) fn is_match(re: &regex::Regex, haystack: &str) -> (r: bool)
    ensures
        r == regex_texts(*re).contains(haystack@),
{
    re.is_match(haystack)
}

/// `Clone` of `regex::Regex`: an expression that finds a match in the same texts.
#[verifier::external_body]
pub(crate) fn copy(re: &regex::Regex) -> (r: regex::Regex)
    ensures
        regex_texts(r) == regex_texts(*re),
{
    re.clone()
}

} // verus!
