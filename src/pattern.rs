use vstd::prelude::*;

verus! {

/// Whether `pattern` compiles as a regular expression, case-insensitively
/// where the flag says so.
pub uninterp spec fn regex_accepts(pattern: Seq<char>, case_insensitive: bool) -> bool;

/// Whether the compiled `pattern` finds a match anywhere in `text`.
pub uninterp spec fn regex_finds(pattern: Seq<char>, case_insensitive: bool, text: Seq<char>) -> bool;

/// The characters that have a meaning of their own in a regular expression.
pub open spec fn is_meta_character(c: char) -> bool {
    ||| c == '\\' || c == '.' || c == '+' || c == '*' || c == '?' || c == '('
    ||| c == ')' || c == '|' || c == '[' || c == ']' || c == '{' || c == '}'
    ||| c == '^' || c == '$' || c == '#' || c == '&' || c == '-' || c == '~'
}

/// `text` with a backslash put before each meta character.
pub open spec fn escaped_of(text: Seq<char>) -> Seq<char>
    decreases text.len(),
{
    if text.len() == 0 {
        Seq::empty()
    } else {
        let last = text[text.len() - 1];
        let rest = escaped_of(text.subrange(0, text.len() - 1));
        if is_meta_character(last) {
            rest.push('\\').push(last)
        } else {
            rest.push(last)
        }
    }
}

/// Relies on `regex::escape`: a backslash before each meta character.
#[verifier::external_body]
pub(crate) fn escape_literal(text: &str) -> (r: String)
    ensures
        r@ == escaped_of(text@),
{
    regex::escape(text)
}

/// Relies on `regex::RegexBuilder::build` (with `case_insensitive` set): it
/// fails exactly on the patterns that do not compile.
#[verifier::external_body]
pub(crate) fn fails_to_compile(pattern: &str, case_insensitive: bool) -> (r: bool)
    ensures
        r == !regex_accepts(pattern@, case_insensitive),
{
    regex::RegexBuilder::new(pattern).case_insensitive(case_insensitive).build().is_err()
}

/// Relies on `regex::RegexBuilder::build` (with `case_insensitive` set) and on
/// `regex::Regex::is_match` of the compiled pattern: whether it matches
/// somewhere in `text`.
#[verifier::external_body]
pub(crate) fn finds_match(pattern: &str, case_insensitive: bool, text: &str) -> (r: bool)
    requires
        regex_accepts(pattern@, case_insensitive),
    ensures
        r == regex_finds(pattern@, case_insensitive, text@),
{
    match regex::RegexBuilder::new(pattern).case_insensitive(case_insensitive).build() {
        Ok(re) => re.is_match(text),
        Err(_) => false,
    }
}

} // verus!
