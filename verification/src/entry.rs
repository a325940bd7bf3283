//! A viewing entry: the time it bears, its identifier, the text it is written
//! as, and the note it is appended to.

use crate::latest::{get_last_not_path, ResolveError};
use crate::path::{path_views, NotePath};
use crate::text::chars_of;
use crate::trusted::{local_time_text, random_uid_text, time_parses};
use vstd::prelude::*;
use vstd::string::StringExecFns;

verus! {

/// The format of a time of day: hours of the 24-hour clock and minutes.
pub open spec fn clock_format() -> Seq<char> {
    "%H:%M"@
}

/// A decimal digit.
pub open spec fn is_digit(c: char) -> bool {
    '0' <= c <= '9'
}

/// A digit of a hexadecimal number written in small letters.
pub open spec fn is_small_hex_digit(c: char) -> bool {
    is_digit(c) || 'a' <= c <= 'f'
}

/// Two digits, a colon, two digits.
pub open spec fn is_clock_text(text: Seq<char>) -> bool {
    &&& text.len() == 5
    &&& is_digit(text[0])
    &&& is_digit(text[1])
    &&& text[2] == ':'
    &&& is_digit(text[3])
    &&& is_digit(text[4])
}

/// A version 4 identifier in its hyphenated form: 32 small hexadecimal
/// digits in groups of 8, 4, 4, 4 and 12, the third group led by the version
/// and the fourth by the variant.
pub open spec fn is_uid_text(text: Seq<char>) -> bool {
    &&& text.len() == 36
    &&& forall|i: int|
        0 <= i < 36 ==> if i == 8 || i == 13 || i == 18 || i == 23 {
            #[trigger] text[i] == '-'
        } else {
            is_small_hex_digit(text[i])
        }
    &&& text[14] == '4'
    &&& (text[19] == '8' || text[19] == '9' || text[19] == 'a' || text[19] == 'b')
}

/// A time of day that is taken as it was given: of the shape of a clock
/// text, and a time of day to chrono.
pub open spec fn time_accepted(text: Seq<char>) -> bool {
    is_clock_text(text) && time_parses(text, clock_format())
}

/// What a string that may be absent reads as.
pub open spec fn text_of(supplied: Option<&str>) -> Option<Seq<char>> {
    match supplied {
        Some(text) => Some(text@),
        None => None,
    }
}

/// The time that an entry bears: the one that was given where one was given
/// and is accepted, the current time otherwise.
pub open spec fn entry_time(supplied: Option<Seq<char>>, accepted: bool, now: Seq<char>) -> Seq<
    char,
> {
    match supplied {
        Some(text) if accepted => text,
        _ => now,
    }
}

/// The time that an entry bears where the time given is judged as
/// `time_accepted` says.
pub open spec fn effective_time(supplied: Option<Seq<char>>, now: Seq<char>) -> Seq<char> {
    entry_time(supplied, supplied matches Some(text) && time_accepted(text), now)
}

/// The text that marks the heading of an entry.
pub open spec fn marker() -> Seq<char> {
    "[nost-film] Visionnage"@
}

/// The heading of an entry.
pub open spec fn heading_line() -> Seq<char> {
    "## "@ + marker()
}

/// The line that records an entry for machines, in the form of a comment.
pub open spec fn metadata_line(uid: Seq<char>, time: Seq<char>, title: Seq<char>) -> Seq<char> {
    "[//]: # \"not_film:{uid: "@ + uid + ", time: "@ + time + ", name: "@ + title + " }\""@
}

/// The line that shows an entry to readers.
pub open spec fn display_line(title: Seq<char>, time: Seq<char>) -> Seq<char> {
    title + " - "@ + time
}

/// The text of an entry: an empty line, the heading, an empty line, the
/// metadata, an empty line, the display line. No line break ends it.
pub open spec fn entry_text(uid: Seq<char>, time: Seq<char>, title: Seq<char>) -> Seq<char> {
    "\n"@ + heading_line() + "\n\n"@ + metadata_line(uid, time, title) + "\n\n"@ + display_line(
        title,
        time,
    )
}

/// `content` is the text of an entry with this title, with some version 4
/// identifier, and with the time given or, where that is absent or not
/// accepted, some time of day.
pub open spec fn is_entry_for(
    content: Seq<char>,
    supplied: Option<Seq<char>>,
    title: Seq<char>,
) -> bool {
    exists|uid: Seq<char>, now: Seq<char>|
        is_uid_text(uid) && is_clock_text(now) && content == #[trigger] entry_text(
            uid,
            effective_time(supplied, now),
            title,
        )
}

/// Whether `text` is two digits, a colon and two digits.
pub fn has_clock_shape(text: &str) -> (b: bool)
    ensures
        b == is_clock_text(text@),
{
    let chars = chars_of(text);
    chars.len() == 5 && '0' <= chars[0] && chars[0] <= '9' && '0' <= chars[1] && chars[1] <= '9'
        && chars[2] == ':' && '0' <= chars[3] && chars[3] <= '9' && '0' <= chars[4] && chars[4]
        <= '9'
}

/// Whether `text` is taken as the time of an entry.
pub fn accepts_time(text: &str) -> (b: bool)
    ensures
        b == time_accepted(text@),
{
    if has_clock_shape(text) {
        match chrono::NaiveTime::parse_from_str(text, "%H:%M") {
            Ok(_) => true,
            Err(_) => false,
        }
    } else {
        false
    }
}

/// The time that an entry bears, given whether the supplied time is accepted.
pub fn choose_time(supplied: Option<&str>, accepted: bool, now: &str) -> (time: String)
    ensures
        time@ == entry_time(text_of(supplied), accepted, now@),
{
    match supplied {
        Some(text) => {
            if accepted {
                text.to_owned()
            } else {
                now.to_owned()
            }
        },
        None => now.to_owned(),
    }
}

/// The time that an entry bears: `supplied` where it is accepted, `now`
/// where it is not or is absent.
pub fn checked_time(supplied: Option<&str>, now: &str) -> (time: String)
    ensures
        time@ == effective_time(text_of(supplied), now@),
{
    let accepted = match supplied {
        Some(text) => accepts_time(text),
        None => false,
    };
    choose_time(supplied, accepted, now)
}

/// The text of an entry.
pub fn format_entry(uid: &str, time: &str, title: &str) -> (text: String)
    ensures
        text@ == entry_text(uid@, time@, title@),
{
    let mut text = String::from_str("\n");
    text.append("## ");
    text.append("[nost-film] Visionnage");
    text.append("\n\n");
    text.append("[//]: # \"not_film:{uid: ");
    text.append(uid);
    text.append(", time: ");
    text.append(time);
    text.append(", name: ");
    text.append(title);
    text.append(" }\"");
    text.append("\n\n");
    text.append(title);
    text.append(" - ");
    text.append(time);
    text
}

/// An append that is still to be made: the note to append to and the
/// content to append to it as a line.
#[derive(Debug, PartialEq, Eq)]
pub struct PlannedAppend {
    pub target: NotePath,
    pub content: String,
}

/// The append that records a viewing with this identifier, time and title:
/// its entry, to go to the last of `not_files`; `NotFound` where there is no
/// note.
pub fn plan_append(not_files: &Vec<NotePath>, uid: &str, time: &str, title: &str) -> (r: Result<
    PlannedAppend,
    ResolveError,
>)
    ensures
        r is Err <==> not_files.len() == 0,
        r matches Err(e) ==> e == ResolveError::NotFound,
        r matches Ok(plan) ==> plan.target@ == path_views(not_files@).last() && plan.content@
            == entry_text(uid@, time@, title@),
{
    match get_last_not_path(not_files) {
        Err(e) => Err(e),
        Ok(target) => Ok(PlannedAppend { target, content: format_entry(uid, time, title) }),
    }
}

/// The append that records a viewing of `title` now: an entry with a fresh
/// identifier and with the time given, or the current local time where none
/// is given or the one given is not accepted, to go to the last of
/// `not_files`; `NotFound` where there is no note.
pub fn append_film_viewing(
    not_files: &Vec<NotePath>,
    title: &str,
    viewing_time: Option<&str>,
) -> (r: Result<PlannedAppend, ResolveError>)
    ensures
        r is Err <==> not_files.len() == 0,
        r matches Err(e) ==> e == ResolveError::NotFound,
        r matches Ok(plan) ==> plan.target@ == path_views(not_files@).last() && is_entry_for(
            plan.content@,
            text_of(viewing_time),
            title@,
        ),
{
    if not_files.len() == 0 {
        return Err(ResolveError::NotFound);
    }
    let now = local_time_text("%H:%M");
    let time = checked_time(viewing_time, now.as_str());
    let uid = random_uid_text();
    plan_append(not_files, uid.as_str(), time.as_str(), title)
}

/// A time that is not accepted counts as no time at all: with the same
/// current time the entry bears the same time, and shows the same line.
pub proof fn lemma_rejected_time_counts_as_absent(
    given: Seq<char>,
    now: Seq<char>,
    title: Seq<char>,
)
    requires
        !time_accepted(given),
    ensures
        effective_time(Some(given), now) == effective_time(None, now),
        effective_time(Some(given), now) == now,
        display_line(title, effective_time(Some(given), now)) == display_line(
            title,
            effective_time(None, now),
        ),
{
}

/// The time that an entry bears is always two digits, a colon and two
/// digits, where the current time is.
pub proof fn lemma_effective_time_is_clock_text(supplied: Option<Seq<char>>, now: Seq<char>)
    requires
        is_clock_text(now),
    ensures
        is_clock_text(effective_time(supplied, now)),
{
}

} // verus!
