//! The viewing lister: the lines of a note, the lines that bear the marker,
//! and the display line that stands four lines below each of them.

use crate::entry::marker;
use crate::text::{chars_of, string_of};
use vstd::prelude::*;

verus! {

/// The place of the first line feed in `text`, or the length of `text` where
/// it holds none.
pub open spec fn first_break(text: Seq<char>) -> int
    decreases text.len(),
{
    if text.len() == 0 {
        0
    } else if text[0] == '\n' {
        0
    } else {
        1 + first_break(text.drop_first())
    }
}

/// `line` without the carriage return at its end, where it has one.
pub open spec fn without_return(line: Seq<char>) -> Seq<char> {
    if line.len() > 0 && line.last() == '\r' {
        line.drop_last()
    } else {
        line
    }
}

/// The lines of `text`. A line ends at a line feed, or at a carriage return
/// followed by a line feed, and holds neither; what follows the last line
/// feed is a line too, unless it is empty, and is kept as it stands.
#[verifier::opaque]
pub open spec fn lines_of(text: Seq<char>) -> Seq<Seq<char>>
    decreases text.len(),
    via lines_of_terminates
{
    if text.len() == 0 {
        Seq::empty()
    } else {
        let end = first_break(text);
        if end == text.len() {
            seq![text]
        } else {
            seq![without_return(text.take(end))] + lines_of(text.skip(end + 1))
        }
    }
}

#[via_fn]
proof fn lines_of_terminates(text: Seq<char>) {
    lemma_first_break_in_range(text);
}

/// `needle` stands in `line` from place `at` on.
pub open spec fn occurs_at(line: Seq<char>, needle: Seq<char>, at: int) -> bool {
    0 <= at && at + needle.len() <= line.len() && line.subrange(at, at + needle.len()) == needle
}

/// `needle` stands somewhere in `line`.
#[verifier::opaque]
pub open spec fn contains_text(line: Seq<char>, needle: Seq<char>) -> bool {
    exists|at: int| occurs_at(line, needle, at)
}

/// A line that opens an entry: the marker stands in it.
pub open spec fn is_marker_line(line: Seq<char>) -> bool {
    contains_text(line, marker())
}

/// Line `i` opens an entry that is listed: it bears the marker and a line
/// stands four lines below it.
pub open spec fn yields_entry(lines: Seq<Seq<char>>, i: int) -> bool {
    0 <= i && i + 4 < lines.len() && is_marker_line(lines[i])
}

/// The display lines of the entries that the first `n` lines open, in the
/// order of the lines.
pub open spec fn listed_among(lines: Seq<Seq<char>>, n: int) -> Seq<Seq<char>>
    decreases n,
{
    if n <= 0 {
        Seq::empty()
    } else {
        let before = listed_among(lines, n - 1);
        if yields_entry(lines, n - 1) {
            before.push(lines[n + 3])
        } else {
            before
        }
    }
}

/// The display lines of the entries in a note with these lines.
pub open spec fn display_lines(lines: Seq<Seq<char>>) -> Seq<Seq<char>> {
    listed_among(lines, lines.len() as int)
}

/// The first line feed lies within the text or at its end.
pub proof fn lemma_first_break_in_range(text: Seq<char>)
    ensures
        0 <= first_break(text) <= text.len(),
    decreases text.len(),
{
    if text.len() > 0 && text[0] != '\n' {
        lemma_first_break_in_range(text.drop_first());
    }
}

/// The first line feed is where a line feed stands with none before it.
pub proof fn lemma_first_break_is(text: Seq<char>, at: int)
    requires
        0 <= at <= text.len(),
        forall|i: int| 0 <= i < at ==> text[i] != '\n',
        at < text.len() ==> text[at] == '\n',
    ensures
        first_break(text) == at,
    decreases at,
{
    if at > 0 {
        lemma_first_break_is(text.drop_first(), at - 1);
    }
}

/// From a line on that has fewer than four lines below it, no line adds to
/// what is listed.
pub proof fn lemma_listed_among_stops(lines: Seq<Seq<char>>, from: int, to: int)
    requires
        0 <= from <= to <= lines.len(),
        lines.len() - 1 - from < 4,
    ensures
        listed_among(lines, to) == listed_among(lines, from),
    decreases to - from,
{
    if from < to {
        lemma_listed_among_stops(lines, from, to - 1);
    }
}

/// A marker line with fewer than four lines below it opens no entry that is
/// listed: the lister shows what the lines above it open, and no more.
pub proof fn lemma_truncated_entry_is_passed_over(lines: Seq<Seq<char>>, i: int)
    requires
        0 <= i < lines.len(),
        lines.len() - 1 - i < 4,
    ensures
        !yields_entry(lines, i),
        display_lines(lines) == listed_among(lines, i),
{
    lemma_listed_among_stops(lines, i, lines.len() as int);
}

/// A note in which every marker line has fewer than four lines below it
/// lists nothing.
pub proof fn lemma_only_truncated_entries_list_nothing(lines: Seq<Seq<char>>)
    requires
        forall|i: int|
            0 <= i < lines.len() && is_marker_line(#[trigger] lines[i]) ==> lines.len() - 1 - i < 4,
    ensures
        display_lines(lines) == Seq::<Seq<char>>::empty(),
{
    lemma_nothing_listed_among(lines, lines.len() as int);
}

proof fn lemma_nothing_listed_among(lines: Seq<Seq<char>>, n: int)
    requires
        0 <= n <= lines.len(),
        forall|i: int|
            0 <= i < lines.len() && is_marker_line(#[trigger] lines[i]) ==> lines.len() - 1 - i < 4,
    ensures
        listed_among(lines, n) == Seq::<Seq<char>>::empty(),
    decreases n,
{
    if n > 0 {
        lemma_nothing_listed_among(lines, n - 1);
    }
}

/// A part of a text, from one place to another.
struct Span {
    start: usize,
    end: usize,
}

/// The text that `span` marks off in `text`.
spec fn span_text(text: Seq<char>, span: Span) -> Seq<char> {
    text.subrange(span.start as int, span.end as int)
}

/// The texts that `spans` mark off in `text`.
spec fn span_texts(text: Seq<char>, spans: Seq<Span>) -> Seq<Seq<char>> {
    spans.map_values(|span: Span| span_text(text, span))
}

/// Where each line of `text` starts and ends.
fn line_spans(text: &Vec<char>) -> (spans: Vec<Span>)
    ensures
        span_texts(text@, spans@) == lines_of(text@),
        forall|i: int|
            0 <= i < spans.len() ==> (#[trigger] spans[i]).start <= spans[i].end <= text.len(),
{
    let mut spans: Vec<Span> = Vec::new();
    let mut start: usize = 0;
    let mut at: usize = 0;
    assert(text@.skip(0) =~= text@);
    while at < text.len()
        invariant
            start <= at <= text.len(),
            forall|i: int| start <= i < at ==> text[i] != '\n',
            span_texts(text@, spans@) + lines_of(text@.skip(start as int)) == lines_of(text@),
            forall|i: int|
                0 <= i < spans.len() ==> (#[trigger] spans[i]).start <= spans[i].end <= text.len(),
        decreases text.len() - at,
    {
        if text[at] == '\n' {
            let end = if start < at && text[at - 1] == '\r' {
                at - 1
            } else {
                at
            };
            let span = Span { start, end };
            proof {
                reveal(lines_of);
                let rest = text@.skip(start as int);
                lemma_first_break_is(rest, at - start);
                assert(without_return(rest.take(at - start)) =~= span_text(text@, span));
                assert(rest.skip(at - start + 1) =~= text@.skip(at + 1));
            }
            spans.push(span);
            start = at + 1;
        }
        at = at + 1;
    }
    if start < text.len() {
        let span = Span { start, end: text.len() };
        proof {
            reveal(lines_of);
            let rest = text@.skip(start as int);
            lemma_first_break_is(rest, rest.len() as int);
        }
        spans.push(span);
    } else {
        assert(span_texts(text@, spans@) =~= span_texts(text@, spans@) + lines_of(
            text@.skip(start as int),
        )) by {
            reveal(lines_of);
        }
    }
    spans
}

/// Whether `needle` stands in `text` from place `at` on.
fn stands_at(text: &Vec<char>, at: usize, needle: &Vec<char>) -> (b: bool)
    requires
        at + needle.len() <= text.len(),
    ensures
        b == (text@.subrange(at as int, at + needle.len()) == needle@),
{
    let mut k: usize = 0;
    while k < needle.len()
        invariant
            k <= needle.len(),
            at + needle.len() <= text.len(),
            text@.subrange(at as int, at + k) == needle@.take(k as int),
        decreases needle.len() - k,
    {
        if text[at + k] != needle[k] {
            return false;
        }
        k = k + 1;
    }
    assert(needle@.take(k as int) =~= needle@);
    true
}

/// Whether `needle` stands somewhere in the part of `text` that `span` marks
/// off.
fn span_contains(text: &Vec<char>, span: &Span, needle: &Vec<char>) -> (b: bool)
    requires
        span.start <= span.end <= text.len(),
    ensures
        b == contains_text(span_text(text@, *span), needle@),
{
    let ghost line = span_text(text@, *span);
    reveal(contains_text);
    if span.end - span.start < needle.len() {
        return false;
    }
    let last = span.end - needle.len();
    let mut at: usize = span.start;
    loop
        invariant
            span.start <= at <= last,
            last + needle.len() == span.end,
            span.end <= text.len(),
            line == span_text(text@, *span),
            forall|before: int| 0 <= before < at - span.start ==> !occurs_at(line, needle@, before),
        decreases last - at,
    {
        let found = stands_at(text, at, needle);
        reveal(contains_text);
        assert(line.subrange(at - span.start, at - span.start + needle.len()) =~= text@.subrange(
            at as int,
            at + needle.len(),
        ));
        if found {
            assert(occurs_at(line, needle@, at - span.start));
            return true;
        }
        if at == last {
            return false;
        }
        at = at + 1;
    }
}

/// The display lines of the entries in a note with this content, in the
/// order of the note: for each line that bears the marker, the line four
/// lines below it, where there is one.
pub fn list_film_viewings(content: &str) -> (listed: Vec<String>)
    ensures
        listed.deep_view() == display_lines(lines_of(content@)),
{
    let text = chars_of(content);
    let spans = line_spans(&text);
    let needle = chars_of("[nost-film] Visionnage");
    let ghost lines = lines_of(content@);
    let mut listed: Vec<String> = Vec::new();
    let mut i: usize = 0;
    while i < spans.len()
        invariant
            i <= spans.len(),
            text@ == content@,
            needle@ == marker(),
            lines == lines_of(content@),
            span_texts(text@, spans@) == lines,
            forall|k: int|
                0 <= k < spans.len() ==> (#[trigger] spans[k]).start <= spans[k].end <= text.len(),
            listed.deep_view() == listed_among(lines, i as int),
        decreases spans.len() - i,
    {
        if spans.len() - i > 4 && span_contains(&text, &spans[i], &needle) {
            let shown = &spans[i + 4];
            listed.push(string_of(&text, shown.start, shown.end));
        }
        i = i + 1;
    }
    listed
}

} // verus!
