//! The regular expression engine behind the route matcher.
//!
//! Matching is done by the `regex` crate. Nothing in this module is proved: each
//! item states what a function of the crate does, and the rest of the library
//! reasons from these statements. What an expression matches is not spelled
//! out here: it has a name, and the contracts speak of it by that name.

use regex::Regex;
use vstd::prelude::*;

verus! {

/// `regex::Regex`, a compiled expression. The library keeps it and hands it
/// back to the crate; it looks at nothing inside.
#[verifier::external_type_specification]
#[verifier::external_body]
pub struct ExRegex(regex::Regex);

/// `regex::Error`, why a pattern was rejected. The library tells it from
/// success and drops it.
#[verifier::external_type_specification]
#[verifier::external_body]
pub struct ExRegexError(regex::Error);

/// The pattern text that `Regex::new` compiled an expression from. The
/// library makes its expressions with `Regex::new` and in no other way, and
/// nothing is known of the source of an expression of another origin: one
/// that was built with other options matches differently for the same text.
pub uninterp spec fn regex_source(re: Regex) -> Seq<char>;

/// Whether `Regex::new` accepts `pattern`.
pub uninterp spec fn regex_compiles(pattern: Seq<char>) -> bool;

/// Whether the expression written as `pattern` has a match somewhere in `text`:
/// what `Regex::is_match` returns.
pub uninterp spec fn regex_matches(pattern: Seq<char>, text: Seq<char>) -> bool;

/// `Regex::new` compiles a pattern or rejects it; the compiled expression
/// remembers the text it was built from.
pub assume_specification[ Regex::new ](re: &str) -> (r: Result<Regex, regex::Error>)
    ensures
        r is Ok <==> regex_compiles(re@),
        r is Ok ==> regex_source(r->Ok_0) == re@,
;

/// `Regex::is_match` depends only on the text searched and on the pattern
/// that `Regex::new` compiled the expression from.
pub assume_specification[ Regex::is_match ](re: &Regex, haystack: &str) -> (b: bool)
    ensures
        b == regex_matches(regex_source(*re), haystack@),
;

/// The expression that one word character matches, or an underscore.
pub const WORD: &'static str = "^[\\w_]$";

/// Whether the engine counts `c` as a word character: a letter, a mark or a
/// digit of any script, a connecting punctuation such as the underscore.
pub open spec fn is_word_char(c: char) -> bool {
    regex_compiles(WORD@) && regex_matches(WORD@, seq![c])
}

/// Whether the engine counts `c` as a word character.
pub fn word_char(c: char) -> (r: bool)
    ensures
        r == is_word_char(c),
{
    match Regex::new(WORD) {
        Ok(re) => {
            let mut text = String::new();
            text.push(c);
            assert(text@ =~= seq![c]);
            re.is_match(text.as_str())
        },
        Err(_) => false,
    }
}

/// The text that the group called `name` captured in the first match of the
/// expression written as `pattern` in `text`; `None` where there is no match,
/// no such group, or the group took no part in the match.
pub uninterp spec fn regex_group(pattern: Seq<char>, text: Seq<char>, name: Seq<char>) -> Option<
    Seq<char>,
>;

/// The characters that mean something in an expression.
pub open spec fn is_meta(c: char) -> bool {
    c == '\\' || c == '.' || c == '+' || c == '*' || c == '?' || c == '(' || c == ')' || c == '|'
        || c == '[' || c == ']' || c == '{' || c == '}' || c == '^' || c == '$' || c == '#' || c
        == '&' || c == '-' || c == '~'
}

/// `text` with a backslash before each character that means something in an
/// expression.
pub open spec fn escaped(text: Seq<char>) -> Seq<char>
    decreases text.len(),
{
    if text.len() == 0 {
        Seq::empty()
    } else if is_meta(text.last()) {
        escaped(text.drop_last()).push('\\').push(text.last())
    } else {
        escaped(text.drop_last()).push(text.last())
    }
}

/// `regex::escape` puts a backslash before each meta character and leaves the
/// other characters as they are.
pub assume_specification[ regex::escape ](pattern: &str) -> (r: std::string::String)
    ensures
        r@ == escaped(pattern@),
;

/// `Regex::captures` followed by `Captures::name`: the text of a named group in
/// the first match, which depends only on the pattern, the text and the name.
#[verifier::external_body]
pub(crate) fn named_group(re: &Regex, text: &str, name: &str) -> (r: Option<String>)
    ensures
        r is Some <==> regex_group(regex_source(*re), text@, name@) is Some,
        r is Some ==> r->Some_0@ == regex_group(regex_source(*re), text@, name@)->Some_0,
{
    match re.captures(text) {
        Some(caps) => caps.name(name).map(|m| m.as_str().to_string()),
        None => None,
    }
}

} // verus!
