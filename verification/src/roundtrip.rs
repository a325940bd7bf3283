//! What is appended is what is listed: an entry that goes to the end of a
//! note is the last one that the lister shows of that note, and what the
//! note listed before is listed before it, as it was.

use crate::entry::{
    display_line, effective_time, entry_text, heading_line, is_clock_text, is_entry_for,
    is_uid_text, marker, metadata_line,
};
use crate::listing::{
    contains_text, display_lines, first_break, is_marker_line, lemma_first_break_in_range,
    lemma_first_break_is, lemma_listed_among_stops, lines_of, listed_among, occurs_at,
};
use vstd::prelude::*;

verus! {

/// No line feed stands in `text`.
#[verifier::opaque]
pub open spec fn is_single_line(text: Seq<char>) -> bool {
    forall|i: int| 0 <= i < text.len() ==> text[i] != '\n'
}

/// A line that reads as it was written: no line feed stands in it and no
/// carriage return ends it.
pub open spec fn is_plain_line(line: Seq<char>) -> bool {
    is_single_line(line) && (line.len() == 0 || line.last() != '\r')
}

/// What a note holds once `content` has been appended to it as a line: its
/// text, the content, a line feed.
pub open spec fn note_after_append(note: Seq<char>, content: Seq<char>) -> Seq<char> {
    note + content + seq!['\n']
}

/// A line, a line feed, and more text.
spec fn line_then(line: Seq<char>, rest: Seq<char>) -> Seq<char> {
    line + seq!['\n'] + rest
}

/// The lines that an entry adds to a note, from its heading on.
spec fn entry_lines(uid: Seq<char>, time: Seq<char>, title: Seq<char>) -> Seq<Seq<char>> {
    seq![
        heading_line(),
        Seq::empty(),
        metadata_line(uid, time, title),
        Seq::empty(),
        display_line(title, time),
    ]
}

/// Five lines, each with a line feed after it.
spec fn five_lines(
    first: Seq<char>,
    second: Seq<char>,
    third: Seq<char>,
    fourth: Seq<char>,
    fifth: Seq<char>,
) -> Seq<char> {
    line_then(
        first,
        line_then(second, line_then(third, line_then(fourth, line_then(fifth, Seq::empty())))),
    )
}

/// The text of an entry from its heading on, each line with a line feed
/// after it.
spec fn entry_block(uid: Seq<char>, time: Seq<char>, title: Seq<char>) -> Seq<char> {
    five_lines(
        heading_line(),
        Seq::empty(),
        metadata_line(uid, time, title),
        Seq::empty(),
        display_line(title, time),
    )
}

/// Before the first line feed stands none, and a line feed stands there
/// unless the text has come to its end.
proof fn lemma_first_break_found(text: Seq<char>)
    ensures
        forall|i: int| 0 <= i < first_break(text) ==> text[i] != '\n',
        first_break(text) < text.len() ==> text[first_break(text)] == '\n',
    decreases text.len(),
{
    if text.len() > 0 && text[0] != '\n' {
        let rest = text.drop_first();
        lemma_first_break_found(rest);
        lemma_first_break_in_range(rest);
        assert forall|i: int| 0 <= i < first_break(text) implies text[i] != '\n' by {
            if i > 0 {
                assert(text[i] == rest[i - 1]);
            }
        }
    }
}

/// A plain line, a line feed and more text: the lines are that line and the
/// lines of what follows.
proof fn lemma_lines_of_line_then(line: Seq<char>, rest: Seq<char>)
    requires
        is_plain_line(line),
    ensures
        lines_of(line_then(line, rest)) == seq![line] + lines_of(rest),
{
    reveal(lines_of);
    reveal(is_single_line);
    let text = line_then(line, rest);
    lemma_first_break_is(text, line.len() as int);
    assert(text.take(line.len() as int) =~= line);
    assert(text.skip(line.len() as int + 1) =~= rest);
}

/// Text that ends in a line feed and more text after it: the lines are those
/// of the one and then those of the other.
proof fn lemma_lines_of_ended_and_more(ended: Seq<char>, more: Seq<char>)
    requires
        ended.len() > 0,
        ended.last() == '\n',
    ensures
        lines_of(ended + more) == lines_of(ended) + lines_of(more),
    decreases ended.len(),
{
    reveal(lines_of);
    let end = first_break(ended);
    lemma_first_break_in_range(ended);
    lemma_first_break_found(ended);
    let whole = ended + more;
    lemma_first_break_is(whole, end);
    assert(whole.take(end) =~= ended.take(end));
    assert(whole.skip(end + 1) =~= ended.skip(end + 1) + more);
    let tail = ended.skip(end + 1);
    if tail.len() == 0 {
        assert(lines_of(tail) =~= Seq::<Seq<char>>::empty());
    } else {
        lemma_lines_of_ended_and_more(tail, more);
    }
}

/// Five plain lines, each with a line feed after it, read as those five
/// lines.
proof fn lemma_lines_of_five_lines(
    first: Seq<char>,
    second: Seq<char>,
    third: Seq<char>,
    fourth: Seq<char>,
    fifth: Seq<char>,
)
    requires
        is_plain_line(first),
        is_plain_line(second),
        is_plain_line(third),
        is_plain_line(fourth),
        is_plain_line(fifth),
    ensures
        lines_of(five_lines(first, second, third, fourth, fifth)) == seq![
            first,
            second,
            third,
            fourth,
            fifth,
        ],
{
    let none = Seq::<char>::empty();
    let tail4 = line_then(fifth, none);
    let tail3 = line_then(fourth, tail4);
    let tail2 = line_then(third, tail3);
    let tail1 = line_then(second, tail2);
    assert(lines_of(none) =~= Seq::<Seq<char>>::empty()) by {
        reveal(lines_of);
    }
    lemma_lines_of_line_then(fifth, none);
    lemma_lines_of_line_then(fourth, tail4);
    lemma_lines_of_line_then(third, tail3);
    lemma_lines_of_line_then(second, tail2);
    lemma_lines_of_line_then(first, tail1);
}

/// Two texts without a line feed, one after the other, hold none.
proof fn lemma_single_lines_joined(first: Seq<char>, second: Seq<char>)
    requires
        is_single_line(first),
        is_single_line(second),
    ensures
        is_single_line(first + second),
{
    reveal(is_single_line);
}

/// The heading is a plain line and bears the marker.
proof fn lemma_heading_line_is_marker_line()
    ensures
        is_plain_line(heading_line()),
        is_marker_line(heading_line()),
{
    reveal_strlit("## ");
    reveal_strlit("[nost-film] Visionnage");
    reveal(is_single_line);
    reveal(contains_text);
    let heading = heading_line();
    assert(heading.subrange(3, 25) =~= marker());
    assert(occurs_at(heading, marker(), 3));
}

/// The metadata of an entry is a plain line where its parts hold no line
/// feed.
proof fn lemma_metadata_line_is_plain(uid: Seq<char>, time: Seq<char>, title: Seq<char>)
    requires
        is_single_line(uid),
        is_single_line(time),
        is_single_line(title),
    ensures
        is_plain_line(metadata_line(uid, time, title)),
{
    let a = "[//]: # \"not_film:{uid: "@;
    let b = ", time: "@;
    let c = ", name: "@;
    let d = " }\""@;
    assert(is_single_line(a) && is_single_line(b) && is_single_line(c) && is_single_line(d)
        && d.len() == 3 && d[2] == '"') by {
        reveal_strlit("[//]: # \"not_film:{uid: ");
        reveal_strlit(", time: ");
        reveal_strlit(", name: ");
        reveal_strlit(" }\"");
        reveal(is_single_line);
    }
    lemma_single_lines_joined(a, uid);
    lemma_single_lines_joined(a + uid, b);
    lemma_single_lines_joined(a + uid + b, time);
    lemma_single_lines_joined(a + uid + b + time, c);
    lemma_single_lines_joined(a + uid + b + time + c, title);
    lemma_single_lines_joined(a + uid + b + time + c + title, d);
}

/// The display line of an entry is a plain line where its title holds no
/// line feed and its time is a plain line.
proof fn lemma_display_line_is_plain(title: Seq<char>, time: Seq<char>)
    requires
        is_single_line(title),
        is_plain_line(time),
    ensures
        is_plain_line(display_line(title, time)),
{
    let dash = " - "@;
    assert(is_single_line(dash) && dash.len() == 3 && dash[2] == ' ') by {
        reveal_strlit(" - ");
        reveal(is_single_line);
    }
    lemma_single_lines_joined(title, dash);
    lemma_single_lines_joined(title + dash, time);
}

/// An entry reads as the five lines that it was written as, where its
/// identifier and its title hold no line feed and its time is a plain line.
proof fn lemma_lines_of_entry_block(uid: Seq<char>, time: Seq<char>, title: Seq<char>)
    requires
        is_single_line(uid),
        is_plain_line(time),
        is_single_line(title),
    ensures
        lines_of(entry_block(uid, time, title)) == entry_lines(uid, time, title),
{
    let none = Seq::<char>::empty();
    lemma_heading_line_is_marker_line();
    lemma_metadata_line_is_plain(uid, time, title);
    lemma_display_line_is_plain(title, time);
    assert(is_plain_line(none)) by {
        reveal(is_single_line);
    }
    lemma_lines_of_five_lines(
        heading_line(),
        none,
        metadata_line(uid, time, title),
        none,
        display_line(title, time),
    );
}

/// A note to which an entry was appended holds what it held, a line feed,
/// and the five lines of the entry.
proof fn lemma_note_after_append_of_entry(
    note: Seq<char>,
    uid: Seq<char>,
    time: Seq<char>,
    title: Seq<char>,
)
    ensures
        note_after_append(note, entry_text(uid, time, title)) == (note + seq!['\n']) + entry_block(
            uid,
            time,
            title,
        ),
{
    let feed = seq!['\n'];
    let heading = heading_line();
    let metadata = metadata_line(uid, time, title);
    let display = display_line(title, time);
    assert("\n"@ =~= feed && "\n\n"@ =~= feed + feed) by {
        reveal_strlit("\n");
        reveal_strlit("\n\n");
    }
    lemma_joined_lines(note, heading, metadata, display);
}

/// A note, then an entry written with its line feeds between the lines, then
/// a line feed: the same text as the note, a line feed, and the lines of the
/// entry each with a line feed after it.
proof fn lemma_joined_lines(
    note: Seq<char>,
    heading: Seq<char>,
    metadata: Seq<char>,
    display: Seq<char>,
)
    ensures
        ({
            let feed = seq!['\n'];
            let none = Seq::<char>::empty();
            note + (feed + heading + (feed + feed) + metadata + (feed + feed) + display) + feed == (
            note + feed) + five_lines(heading, none, metadata, none, display)
        }),
{
}

/// Text that ends in a line feed, and after it a block of five lines the
/// first of which bears the marker: the fifth is the last display line that
/// is listed.
proof fn lemma_block_at_end_is_listed_last(
    ended: Seq<char>,
    block: Seq<char>,
    added: Seq<Seq<char>>,
)
    requires
        ended.len() > 0,
        ended.last() == '\n',
        lines_of(block) == added,
        added.len() == 5,
        is_marker_line(added[0]),
    ensures
        display_lines(lines_of(ended + block)).len() > 0,
        display_lines(lines_of(ended + block)).last() == added[4],
{
    lemma_lines_of_ended_and_more(ended, block);
    let above = lines_of(ended);
    let lines = above + added;
    let n = above.len() as int;
    lemma_listed_among_stops(lines, n + 1, n + 5);
}

/// Round trip. An entry that is appended to a note as a line is listed, and
/// listed last: the last display line of the note is then the title, a dash
/// and the time of the entry. This holds of every note, and of every entry
/// whose identifier, time and title hold no line feed and whose time does
/// not end in a carriage return.
pub proof fn theorem_appended_entry_is_listed_last(
    note: Seq<char>,
    uid: Seq<char>,
    time: Seq<char>,
    title: Seq<char>,
)
    requires
        is_single_line(uid),
        is_plain_line(time),
        is_single_line(title),
    ensures
        ({
            let listed = display_lines(
                lines_of(note_after_append(note, entry_text(uid, time, title))),
            );
            listed.len() > 0 && listed.last() == display_line(title, time)
        }),
{
    let head = note + seq!['\n'];
    let added = entry_lines(uid, time, title);
    lemma_note_after_append_of_entry(note, uid, time, title);
    lemma_lines_of_entry_block(uid, time, title);
    lemma_heading_line_is_marker_line();
    lemma_block_at_end_is_listed_last(head, entry_block(uid, time, title), added);
}

/// Text that does not end in a line feed or a carriage return reads as the
/// same lines with a line feed after it.
proof fn lemma_lines_of_unended(text: Seq<char>)
    requires
        text.len() > 0,
        text.last() != '\n',
        text.last() != '\r',
    ensures
        lines_of(text + seq!['\n']) == lines_of(text),
    decreases text.len(),
{
    reveal(lines_of);
    let end = first_break(text);
    let whole = text + seq!['\n'];
    lemma_first_break_in_range(text);
    lemma_first_break_found(text);
    lemma_first_break_is(whole, end);
    assert(whole.take(end) =~= text.take(end));
    if end == text.len() {
        assert(text.take(end) =~= text);
        assert(whole.skip(end + 1) =~= Seq::<char>::empty());
        assert(lines_of(whole.skip(end + 1)) =~= Seq::<Seq<char>>::empty());
        assert(lines_of(whole) =~= seq![text]);
    } else {
        let tail = text.skip(end + 1);
        assert(tail.len() > 0);
        assert(tail.last() == text.last());
        assert(whole.skip(end + 1) =~= tail + seq!['\n']);
        lemma_lines_of_unended(tail);
    }
}

/// The lines of a note stay as they are when a line feed and more text come
/// after it, unless the note ends in a carriage return.
proof fn lemma_lines_are_kept(note: Seq<char>, more: Seq<char>)
    requires
        note.len() == 0 || note.last() != '\r',
    ensures
        lines_of(note).is_prefix_of(lines_of(note + seq!['\n'] + more)),
{
    let feed = seq!['\n'];
    if note.len() == 0 {
        assert(lines_of(note) =~= Seq::<Seq<char>>::empty()) by {
            reveal(lines_of);
        }
    } else if note.last() == '\n' {
        assert(note + feed + more =~= note + (feed + more));
        lemma_lines_of_ended_and_more(note, feed + more);
    } else {
        lemma_lines_of_unended(note);
        lemma_lines_of_ended_and_more(note + feed, more);
    }
}

/// What is listed among the first lines of a note is listed first among
/// more of its lines.
proof fn lemma_listed_among_grows(lines: Seq<Seq<char>>, fewer: int, more: int)
    requires
        0 <= fewer <= more,
    ensures
        listed_among(lines, fewer).is_prefix_of(listed_among(lines, more)),
    decreases more - fewer,
{
    if fewer < more {
        lemma_listed_among_grows(lines, fewer, more - 1);
    }
}

/// What is listed among the first lines of a note does not turn on the
/// lines further down than four lines below them.
proof fn lemma_listed_among_same_lines(first: Seq<Seq<char>>, second: Seq<Seq<char>>, n: int)
    requires
        0 <= n,
        n + 4 <= first.len(),
        first.is_prefix_of(second),
    ensures
        listed_among(first, n) == listed_among(second, n),
    decreases n,
{
    if n > 0 {
        lemma_listed_among_same_lines(first, second, n - 1);
        assert(first[n - 1] == second[n - 1]);
        assert(first[n + 3] == second[n + 3]);
    }
}

/// What a note lists stays listed, and listed first, when lines come after
/// its lines.
proof fn lemma_display_lines_are_kept(lines: Seq<Seq<char>>, longer: Seq<Seq<char>>)
    requires
        lines.is_prefix_of(longer),
    ensures
        display_lines(lines).is_prefix_of(display_lines(longer)),
{
    let settled: int = if lines.len() >= 4 {
        lines.len() - 4
    } else {
        0
    };
    lemma_listed_among_stops(lines, settled, lines.len() as int);
    if lines.len() >= 4 {
        lemma_listed_among_same_lines(lines, longer, settled);
    }
    lemma_listed_among_grows(longer, settled, longer.len() as int);
}

/// An append leaves what was listed as it was: what a note listed before
/// content was appended to it is what it lists first afterwards. This holds
/// of every note that does not end in a carriage return, and of all content
/// that begins with a line feed, as every entry does.
pub proof fn theorem_append_keeps_what_was_listed(note: Seq<char>, content: Seq<char>)
    requires
        note.len() == 0 || note.last() != '\r',
        content.len() > 0,
        content[0] == '\n',
    ensures
        display_lines(lines_of(note)).is_prefix_of(
            display_lines(lines_of(note_after_append(note, content))),
        ),
{
    let more = content.drop_first() + seq!['\n'];
    assert(note_after_append(note, content) =~= note + seq!['\n'] + more);
    lemma_lines_are_kept(note, more);
    lemma_display_lines_are_kept(lines_of(note), lines_of(note + seq!['\n'] + more));
}

/// An entry that is appended to a note leaves what the note listed as it
/// was, unless the note ends in a carriage return.
pub proof fn theorem_appended_entry_keeps_what_was_listed(
    note: Seq<char>,
    uid: Seq<char>,
    time: Seq<char>,
    title: Seq<char>,
)
    requires
        note.len() == 0 || note.last() != '\r',
    ensures
        display_lines(lines_of(note)).is_prefix_of(
            display_lines(lines_of(note_after_append(note, entry_text(uid, time, title)))),
        ),
{
    let content = entry_text(uid, time, title);
    assert(content.len() > 0 && content[0] == '\n') by {
        reveal_strlit("\n");
    }
    theorem_append_keeps_what_was_listed(note, content);
}

/// A clock text and the text of an identifier are plain lines.
proof fn lemma_clock_and_uid_are_plain(time: Seq<char>, uid: Seq<char>)
    requires
        is_clock_text(time),
        is_uid_text(uid),
    ensures
        is_plain_line(time),
        is_single_line(uid),
{
    reveal(is_single_line);
}

/// What `append_film_viewing` plans is listed once it is appended: with a
/// title that holds no line feed, the last display line of the note is then
/// the title, a dash, and the time given or some time of day.
pub proof fn theorem_planned_entry_is_listed_last(
    note: Seq<char>,
    content: Seq<char>,
    supplied: Option<Seq<char>>,
    title: Seq<char>,
)
    requires
        is_entry_for(content, supplied, title),
        is_single_line(title),
    ensures
        ({
            let listed = display_lines(lines_of(note_after_append(note, content)));
            listed.len() > 0 && exists|now: Seq<char>|
                is_clock_text(now) && #[trigger] display_line(
                    title,
                    effective_time(supplied, now),
                ) == listed.last()
        }),
{
    let (uid, now) = choose|uid: Seq<char>, now: Seq<char>|
        is_uid_text(uid) && is_clock_text(now) && content == #[trigger] entry_text(
            uid,
            effective_time(supplied, now),
            title,
        );
    let time = effective_time(supplied, now);
    lemma_clock_and_uid_are_plain(time, uid);
    theorem_appended_entry_is_listed_last(note, uid, time, title);
}

} // verus!
