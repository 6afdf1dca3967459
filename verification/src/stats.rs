//! Counting the successful visits that an access log records.

use crate::counter::{lemma_counts_of, lemma_pairs_of_counts, Pair, VisitCounter, MAX_VISITS};
use crate::line::{log_lines, next_line, read_request, request_of};
use crate::path::{classify, path_key};
use crate::status::{is_success, parse_i32, parse_status, STATUS_OK};
use crate::text::chars_of;
use vstd::prelude::*;
use vstd::slice::slice_subrange;

verus! {

/// Why a log cannot be counted.
#[derive(Clone, Copy, Debug, PartialEq, Eq, Structural)]
pub enum FaultKind {
    /// The line has too few fields to hold a path and a status.
    MissingField,
    /// The path is one that is counted, and the status field is no number.
    BadStatus,
    /// The line is a visit under a key whose count is already at its bound.
    TooManyVisits,
}

/// The first line of a log that cannot be counted, and why.
#[derive(Clone, Copy, Debug, PartialEq, Eq, Structural)]
pub struct LogFault {
    /// Position of the line in the log, counted from zero.
    pub line: usize,
    /// What is wrong with it.
    pub kind: FaultKind,
}

/// The key under which a line counts one visit: the key of its path, where
/// the path is one that is counted and the status is that of success.
pub open spec fn counted_key(line: Seq<char>) -> Option<Seq<char>> {
    match request_of(line) {
        Some((path, status)) => if is_success(status) {
            path_key(path)
        } else {
            None
        },
        None => None,
    }
}

/// Number of lines that count a visit under `key`.
pub open spec fn visits(lines: Seq<Seq<char>>, key: Seq<char>) -> nat
    decreases lines.len(),
{
    if lines.len() == 0 {
        0
    } else if counted_key(lines.last()) == Some(key) {
        visits(lines.drop_last(), key) + 1
    } else {
        visits(lines.drop_last(), key)
    }
}

/// The keys under which some line counts a visit, each once, in the order of
/// their first such line.
pub open spec fn first_seen(lines: Seq<Seq<char>>) -> Seq<Seq<char>>
    decreases lines.len(),
{
    if lines.len() == 0 {
        Seq::empty()
    } else {
        let earlier = first_seen(lines.drop_last());
        match counted_key(lines.last()) {
            Some(key) => if visits(lines.drop_last(), key) == 0 {
                earlier.push(key)
            } else {
                earlier
            },
            None => earlier,
        }
    }
}

/// The statistics of a log: each key with at least one visit, mapped to its
/// number of visits.
pub open spec fn visit_counts(lines: Seq<Seq<char>>) -> Map<Seq<char>, u16> {
    Map::new(
        |key: Seq<char>| visits(lines, key) > 0,
        |key: Seq<char>| visits(lines, key) as u16,
    )
}

/// The statistics of a log as pairs: the keys in the order of their first
/// visit, each with its number of visits.
pub open spec fn counted_pairs(lines: Seq<Seq<char>>) -> Seq<Pair> {
    Seq::new(
        first_seen(lines).len(),
        |i: int| (first_seen(lines)[i], visits(lines, first_seen(lines)[i]) as u16),
    )
}

/// What is wrong with a line for a counter that holds `counts`, if anything:
/// it has too few fields for a path and a status; or its path is one that is
/// counted and its status is no number; or it is one more visit under a key
/// whose count is at its bound. The status is read only where the path is
/// one that is counted.
pub open spec fn fault_for(counts: Map<Seq<char>, u16>, line: Seq<char>) -> Option<FaultKind> {
    match request_of(line) {
        None => Some(FaultKind::MissingField),
        Some((path, status)) => match path_key(path) {
            None => None,
            Some(key) => match parse_i32(status) {
                None => Some(FaultKind::BadStatus),
                Some(code) => if code == STATUS_OK && counts.contains_key(key) && counts[key]
                    >= MAX_VISITS {
                    Some(FaultKind::TooManyVisits)
                } else {
                    None
                },
            },
        },
    }
}

/// The first fault of a log, or `None` for a log that can be counted: the
/// first line that is at fault for the statistics of the lines before it.
pub open spec fn first_fault(lines: Seq<Seq<char>>) -> Option<LogFault>
    decreases lines.len(),
{
    if lines.len() == 0 {
        None
    } else {
        match first_fault(lines.drop_last()) {
            Some(fault) => Some(fault),
            None => match fault_for(visit_counts(lines.drop_last()), lines.last()) {
                Some(kind) => Some(LogFault { line: (lines.len() - 1) as usize, kind }),
                None => None,
            },
        }
    }
}

/// The counts after one more visit under `key`.
pub open spec fn counts_with(counts: Map<Seq<char>, u16>, key: Seq<char>) -> Map<Seq<char>, u16> {
    counts.insert(
        key,
        if counts.contains_key(key) {
            (counts[key] + 1) as u16
        } else {
            1u16
        },
    )
}

/// The keys, in order of first count, after one more visit under `key`.
pub open spec fn paths_with(
    paths: Seq<Seq<char>>,
    counts: Map<Seq<char>, u16>,
    key: Seq<char>,
) -> Seq<Seq<char>> {
    if counts.contains_key(key) {
        paths
    } else {
        paths.push(key)
    }
}

/// A fault that a log has by some line is the fault of every longer log.
pub proof fn lemma_fault_persists(shorter: Seq<Seq<char>>, lines: Seq<Seq<char>>)
    requires
        shorter.is_prefix_of(lines),
        first_fault(shorter) is Some,
    ensures
        first_fault(lines) == first_fault(shorter),
    decreases lines.len(),
{
    if lines.len() > shorter.len() {
        lemma_fault_persists(shorter, lines.drop_last());
    } else {
        assert(shorter == lines);
    }
}

/// The statistics of an access log.
pub struct CountStatistics {
    statistics: VisitCounter,
}

impl View for CountStatistics {
    type V = Map<Seq<char>, u16>;

    /// The mapping from each counted key to its number of visits.
    open spec fn view(&self) -> Map<Seq<char>, u16> {
        self.counter()@
    }
}

impl CountStatistics {
    /// The counter that holds the statistics.
    pub closed spec fn counter(&self) -> VisitCounter {
        self.statistics
    }

    /// The counter that holds the statistics.
    pub fn statistics(&self) -> (counter: &VisitCounter)
        ensures
            *counter == self.counter(),
    {
        &self.statistics
    }

    /// Counts one request: a visit under `key` where `status` is that of
    /// success, nothing where it is another number.
    pub fn count_status(statistics: VisitCounter, key: String, status: &[char]) -> (counted: Result<
        VisitCounter,
        FaultKind,
    >)
        ensures
            match counted {
                Ok(after) => match parse_i32(status@) {
                    Some(code) => if code == STATUS_OK {
                        &&& !(statistics@.contains_key(key@) && statistics@[key@] >= MAX_VISITS)
                        &&& after@ == counts_with(statistics@, key@)
                        &&& after.paths() == paths_with(statistics.paths(), statistics@, key@)
                    } else {
                        after == statistics
                    },
                    None => false,
                },
                Err(kind) => match parse_i32(status@) {
                    Some(code) => kind == FaultKind::TooManyVisits && code == STATUS_OK
                        && statistics@.contains_key(key@) && statistics@[key@] >= MAX_VISITS,
                    None => kind == FaultKind::BadStatus,
                },
            },
    {
        match parse_status(status) {
            None => Err(FaultKind::BadStatus),
            Some(code) => {
                if code != STATUS_OK {
                    Ok(statistics)
                } else {
                    match statistics.get(key.as_str()) {
                        Some(held) if held >= MAX_VISITS => Err(FaultKind::TooManyVisits),
                        _ => Ok(statistics.with_visit(key)),
                    }
                }
            },
        }
    }

    /// Counts one request, as `count_status` does, for a status that is a
    /// number and a key whose count is below its bound.
    pub fn count_path_visits(statistics: VisitCounter, path: String, status: &str) -> (counted:
        VisitCounter)
        requires
            parse_i32(status@) is Some,
            is_success(status@) && statistics@.contains_key(path@) ==> statistics@[path@]
                < MAX_VISITS,
        ensures
            is_success(status@) ==> counted@ == counts_with(statistics@, path@) && counted.paths()
                == paths_with(statistics.paths(), statistics@, path@),
            !is_success(status@) ==> counted == statistics,
    {
        let status_text = chars_of(status);
        match parse_status(status_text.as_slice()) {
            Some(code) if code == STATUS_OK => statistics.with_visit(path),
            _ => statistics,
        }
    }

    /// Counts one line of a log.
    pub fn count_line(statistics: VisitCounter, line: &[char]) -> (counted: Result<
        VisitCounter,
        FaultKind,
    >)
        ensures
            match counted {
                Ok(after) => fault_for(statistics@, line@) is None && match counted_key(line@) {
                    Some(key) => after@ == counts_with(statistics@, key) && after.paths()
                        == paths_with(statistics.paths(), statistics@, key),
                    None => after == statistics,
                },
                Err(kind) => fault_for(statistics@, line@) == Some(kind),
            },
    {
        match read_request(line) {
            None => Err(FaultKind::MissingField),
            Some((path, status)) => match classify(path) {
                None => Ok(statistics),
                Some(key) => Self::count_status(statistics, key, status),
            },
        }
    }

    /// Counts the lines of a log, up to its first fault.
    pub fn tally(text: &[char]) -> (counted: Result<VisitCounter, LogFault>)
        ensures
            match counted {
                Ok(statistics) => {
                    &&& first_fault(log_lines(text@)) is None
                    &&& statistics@ == visit_counts(log_lines(text@))
                    &&& statistics.paths() == first_seen(log_lines(text@))
                    &&& statistics.pairs() == counted_pairs(log_lines(text@))
                },
                Err(fault) => first_fault(log_lines(text@)) == Some(fault),
            },
    {
        let mut statistics = VisitCounter::new();
        let mut start: usize = 0;
        let mut number: usize = 0;
        let ghost mut done: Seq<Seq<char>> = Seq::empty();
        proof {
            assert(text@.skip(0) == text@);
        }
        while start < text.len()
            invariant
                start <= text.len(),
                number <= start,
                done.len() == number,
                log_lines(text@) == done + log_lines(text@.skip(start as int)),
                first_fault(done) is None,
                forall|key: Seq<char>| visits(done, key) <= MAX_VISITS,
                statistics@ == visit_counts(done),
                statistics.paths() == first_seen(done),
            decreases text.len() - start,
        {
            let (end, next) = next_line(text, start);
            let line = slice_subrange(text, start, end);
            let ghost longer = done.push(line@);
            proof {
                assert(longer.drop_last() == done);
                assert(done + (seq![line@] + log_lines(text@.skip(next as int))) == longer
                    + log_lines(text@.skip(next as int)));
            }
            match Self::count_line(statistics, line) {
                Err(kind) => {
                    proof {
                        lemma_fault_persists(longer, log_lines(text@));
                    }
                    return Err(LogFault { line: number, kind });
                },
                Ok(after) => {
                    statistics = after;
                },
            }
            proof {
                assert forall|key: Seq<char>| visits(longer, key) <= MAX_VISITS by {
                    assert(visits(done, key) <= MAX_VISITS);
                }
                done = longer;
            }
            start = next;
            number += 1;
        }
        proof {
            use_type_invariant(&statistics);
            lemma_counts_of(statistics.pairs());
            lemma_pairs_of_counts(statistics.pairs());
        }
        Ok(statistics)
    }

    /// The visits that an access log records, for a log without a fault.
    pub fn insert_page_visits(access_log: String) -> (statistics: VisitCounter)
        requires
            first_fault(log_lines(access_log@)) is None,
        ensures
            statistics@ == visit_counts(log_lines(access_log@)),
            statistics.paths() == first_seen(log_lines(access_log@)),
            statistics.pairs() == counted_pairs(log_lines(access_log@)),
    {
        let text = chars_of(access_log.as_str());
        match Self::tally(text.as_slice()) {
            Ok(statistics) => statistics,
            Err(_) => unreached(),
        }
    }

    /// The statistics of an access log, or its first fault.
    pub fn new(access_log: String) -> (made: Result<CountStatistics, LogFault>)
        ensures
            match made {
                Ok(stats) => {
                    &&& first_fault(log_lines(access_log@)) is None
                    &&& stats@ == visit_counts(log_lines(access_log@))
                    &&& stats.counter().paths() == first_seen(log_lines(access_log@))
                    &&& stats.counter().pairs() == counted_pairs(log_lines(access_log@))
                },
                Err(fault) => first_fault(log_lines(access_log@)) == Some(fault),
            },
    {
        let text = chars_of(access_log.as_str());
        match Self::tally(text.as_slice()) {
            Ok(statistics) => Ok(CountStatistics { statistics }),
            Err(fault) => Err(fault),
        }
    }
}

} // verus!
