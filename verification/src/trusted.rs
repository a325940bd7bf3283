//! What is believed, and not proved, of the code that this library calls
//! outside itself: the regex, chrono and uuid crates, and one function of the
//! standard library. Each item names the outside function and says what is
//! believed of it; everything else in the library is proved from these.

use crate::entry::{clock_format, is_clock_text, is_uid_text};
use vstd::prelude::*;

verus! {

/// `regex::Regex`, a compiled regular expression; nothing inside it is seen
/// here.
#[verifier::external_type_specification]
#[verifier::external_body]
pub struct ExRegex(regex::Regex);

/// `regex::Error`, why a pattern did not compile; nothing inside it is seen
/// here.
#[verifier::external_type_specification]
#[verifier::external_body]
pub struct ExRegexError(regex::Error);

/// What `regex::Regex::new` makes of `pattern`: nothing where the pattern
/// does not compile, and otherwise the haystacks in which the regular
/// expression that it compiles finds a match.
pub uninterp spec fn compiled_language(pattern: Seq<char>) -> Option<Set<Seq<char>>>;

/// `regex::Regex::new` compiles `pattern`.
pub open spec fn pattern_compiles(pattern: Seq<char>) -> bool {
    compiled_language(pattern) is Some
}

/// The haystacks in which the regular expression that `regex::Regex::new`
/// compiles from `pattern` finds a match.
pub open spec fn pattern_language(pattern: Seq<char>) -> Set<Seq<char>> {
    compiled_language(pattern)->Some_0
}

/// The haystacks in which `re` finds a match.
pub uninterp spec fn regex_language(re: regex::Regex) -> Set<Seq<char>>;

/// `regex::Regex::new` compiles a pattern with the default options. Believed
/// of it: whether it returns a regex, and the haystacks that the regex
/// matches where it does, rest on the pattern alone. The call fails on a
/// pattern with an error of syntax and on one whose compiled program is
/// larger than the limit of the default options; the limit is a constant,
/// and the size is counted from the pattern, in units that are fixed for
/// the target that the program is built for.
pub assume_specification[ regex::Regex::new ](re: &str) -> (r: Result<regex::Regex, regex::Error>)
    ensures
        r is Ok == compiled_language(re@) is Some,
        r matches Ok(compiled) ==> compiled_language(re@) == Some(regex_language(compiled)),
;

/// `regex::Regex::is_match` says whether the regex matches anywhere in the
/// haystack. Believed of it: the answer rests on the regex and the haystack
/// alone.
pub assume_specification[ regex::Regex::is_match ](re: &regex::Regex, haystack: &str) -> (b: bool)
    ensures
        b == regex_language(*re).contains(haystack@),
;

/// `chrono::NaiveTime`, a time of day; nothing inside it is seen here.
#[verifier::external_type_specification]
#[verifier::external_body]
pub struct ExNaiveTime(chrono::NaiveTime);

/// `chrono::ParseError`, why a text was not read as a time; nothing inside
/// it is seen here.
#[verifier::external_type_specification]
#[verifier::external_body]
pub struct ExParseError(chrono::ParseError);

/// Whether `chrono::NaiveTime::parse_from_str` reads `text` as a time of day
/// written in `format`.
pub uninterp spec fn time_parses(text: Seq<char>, format: Seq<char>) -> bool;

/// `chrono::NaiveTime::parse_from_str` reads a time of day in a given format.
/// Believed of it: whether it succeeds rests on the text and the format
/// alone.
pub assume_specification[ chrono::NaiveTime::parse_from_str ](s: &str, fmt: &str) -> (r:
    chrono::ParseResult<chrono::NaiveTime>)
    ensures
        r is Ok == time_parses(s@, fmt@),
;

/// The current local time of day as `chrono::Local::now` gives it, written by
/// `chrono::DateTime::format`. Believed of it: with the clock format the text
/// is two digits, a colon and two digits, whatever the time is. The format is
/// held to the clock format, which `format` can write; with a format that it
/// cannot write the conversion to text panics. The call panics as well where
/// the clock of the system stands before the year 1970.
#[verifier::external_body]
pub(crate) fn local_time_text(format: &str) -> (text: String)
    requires
        format@ == clock_format(),
    ensures
        is_clock_text(text@),
{
    chrono::Local::now().format(format).to_string()
}

/// A fresh random identifier from `uuid::Uuid::new_v4`, in the text that its
/// `Display` writes. Believed of it: the text is the hyphenated form of a
/// version 4 identifier, whatever the random bits are. The call panics where
/// the system has no random bytes to give.
#[verifier::external_body]
pub(crate) fn random_uid_text() -> (text: String)
    ensures
        is_uid_text(text@),
{
    uuid::Uuid::new_v4().to_string()
}

/// `String::push` appends one character to a string. Believed of it: the
/// string then reads as it did, with that character after the others.
pub assume_specification[ String::push ](s: &mut String, ch: char)
    ensures
        final(s)@ == old(s)@.push(ch),
;

} // verus!
