//! The grammar of an access log: a text is a run of lines, a line is a run of
//! fields parted by single spaces, and two of the fields are read by position.

use crate::text::{find_from, first_index, lemma_first_index};
use vstd::prelude::*;
use vstd::slice::slice_subrange;

verus! {

/// Position, counted from zero, of the field that holds the request path.
pub const PATH_FIELD: usize = 6;

/// Position, counted from zero, of the field that holds the response status.
pub const STATUS_FIELD: usize = 8;

/// The pieces of `s` between occurrences of `sep`. There is always at least
/// one piece; two separators in a row part an empty piece.
pub open spec fn split(s: Seq<char>, sep: char) -> Seq<Seq<char>>
    decreases s.len(),
{
    let n = first_index(s, sep);
    if 0 <= n < s.len() {
        seq![s.take(n)] + split(s.skip(n + 1), sep)
    } else {
        seq![s]
    }
}

/// The fields of a log line.
pub open spec fn fields(line: Seq<char>) -> Seq<Seq<char>> {
    split(line, ' ')
}

/// A terminated line without the carriage return that may precede the line feed.
pub open spec fn without_cr(line: Seq<char>) -> Seq<char> {
    if line.len() > 0 && line.last() == '\r' {
        line.drop_last()
    } else {
        line
    }
}

/// The lines of a text. A line ends at a line feed, which is not part of it,
/// nor is one carriage return right before the line feed. Text after the last
/// line feed is a line as it stands; no text after it adds no line.
pub open spec fn log_lines(text: Seq<char>) -> Seq<Seq<char>>
    decreases text.len(),
{
    if text.len() == 0 {
        Seq::empty()
    } else {
        let n = first_index(text, '\n');
        if 0 <= n < text.len() {
            seq![without_cr(text.take(n))] + log_lines(text.skip(n + 1))
        } else {
            seq![text]
        }
    }
}

/// The path and status fields of a line, where the line has both.
pub open spec fn request_of(line: Seq<char>) -> Option<(Seq<char>, Seq<char>)> {
    let all = fields(line);
    if all.len() > STATUS_FIELD {
        Some((all[PATH_FIELD as int], all[STATUS_FIELD as int]))
    } else {
        None
    }
}

/// Reads the line that begins at `start`: returns where its text ends and
/// where the following line begins.
pub fn next_line(text: &[char], start: usize) -> (bounds: (usize, usize))
    requires
        start < text.len(),
    ensures
        start <= bounds.0 <= bounds.1 <= text.len(),
        start < bounds.1,
        log_lines(text@.skip(start as int)) == seq![
            text@.subrange(start as int, bounds.0 as int),
        ] + log_lines(text@.skip(bounds.1 as int)),
{
    let feed = find_from(text, start, '\n');
    let ghost rest = text@.skip(start as int);
    proof {
        lemma_first_index(rest, '\n');
    }
    if feed == text.len() {
        (feed, feed)
    } else {
        let end = if feed > start && text[feed - 1] == '\r' {
            feed - 1
        } else {
            feed
        };
        assert(rest.take(feed - start) == text@.subrange(start as int, feed as int));
        assert(without_cr(text@.subrange(start as int, feed as int)) == text@.subrange(
            start as int,
            end as int,
        ));
        assert(rest.skip(feed - start + 1) == text@.skip(feed + 1));
        (end, feed + 1)
    }
}

/// The field at position `index` of a line, where the line has that many.
pub fn field_at<'a>(line: &'a [char], index: usize) -> (field: Option<&'a [char]>)
    ensures
        match field {
            Some(found) => index < fields(line@).len() && found@ == fields(line@)[index as int],
            None => fields(line@).len() <= index,
        },
{
    let mut start: usize = 0;
    let mut passed: usize = 0;
    let ghost mut before: Seq<Seq<char>> = Seq::empty();
    assert(line@.skip(0) == line@);
    loop
        invariant
            start <= line.len(),
            passed <= index,
            before.len() == passed,
            fields(line@) == before + fields(line@.skip(start as int)),
        decreases line.len() - start,
    {
        let end = find_from(line, start, ' ');
        let ghost rest = line@.skip(start as int);
        proof {
            lemma_first_index(rest, ' ');
            assert(rest.take(end - start) == line@.subrange(start as int, end as int));
            if end < line.len() {
                assert(rest.skip(end - start + 1) == line@.skip(end + 1));
            }
        }
        if passed == index {
            return Some(slice_subrange(line, start, end));
        }
        if end == line.len() {
            return None;
        }
        proof {
            let piece = line@.subrange(start as int, end as int);
            assert(before + (seq![piece] + fields(line@.skip(end + 1))) == before.push(piece)
                + fields(line@.skip(end + 1)));
            before = before.push(piece);
        }
        start = end + 1;
        passed += 1;
    }
}

/// Reads the path and the status of a line by their fixed positions.
pub fn read_request<'a>(line: &'a [char]) -> (request: Option<(&'a [char], &'a [char])>)
    ensures
        match request {
            Some((path, status)) => request_of(line@) == Some((path@, status@)),
            None => request_of(line@) is None,
        },
{
    match field_at(line, STATUS_FIELD) {
        None => None,
        Some(status) => match field_at(line, PATH_FIELD) {
            None => None,
            Some(path) => Some((path, status)),
        },
    }
}

} // verus!
