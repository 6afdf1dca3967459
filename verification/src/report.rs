//! The report: one line of text for each counted key.

use crate::counter::{Pair, VisitCounter};
use crate::order::{arranged, sorted_pairs};
use crate::stats::CountStatistics;
use crate::text::{chars_of, is_text};
use vstd::prelude::*;
use vstd::string::StringExecFns;

verus! {

/// The character that writes the decimal digit `d`.
pub open spec fn digit_char(d: nat) -> char {
    ((48 + d) as u8) as char
}

/// The decimal writing of `n`, without leading zeros.
pub open spec fn decimal(n: nat) -> Seq<char>
    decreases n,
{
    if n < 10 {
        seq![digit_char(n)]
    } else {
        decimal(n / 10).push(digit_char(n % 10))
    }
}

/// The line that reports `visits` visits for `path`.
pub open spec fn report_line(path: Seq<char>, visits: u16) -> Seq<char> {
    "Visits for "@ + path + " is: "@ + decimal(visits as nat)
}

/// The lines that report `pairs`, in their order.
pub open spec fn report_of(pairs: Seq<Pair>) -> Seq<Seq<char>> {
    Seq::new(pairs.len(), |i: int| report_line(pairs[i].0, pairs[i].1))
}

/// Appends the decimal writing of `n` to `text`.
pub fn push_decimal(text: &mut String, n: u16)
    ensures
        final(text)@ == old(text)@ + decimal(n as nat),
    decreases n,
{
    if n >= 10 {
        push_decimal(text, n / 10);
    }
    let digit: u8 = (n % 10) as u8;
    text.push((48u8 + digit) as char);
    proof {
        let before = old(text)@;
        if n >= 10 {
            assert(before + decimal(n as nat / 10).push(digit_char(n as nat % 10)) =~= (before
                + decimal(n as nat / 10)).push(digit_char(n as nat % 10)));
        }
    }
}

/// Writes the line that reports `visits` visits for `path`.
pub fn format_line(path: &str, visits: u16) -> (line: String)
    ensures
        line@ == report_line(path@, visits),
{
    let mut line = "Visits for ".to_string();
    line.append(path);
    line.append(" is: ");
    push_decimal(&mut line, visits);
    line
}

/// The lines that a report sorted by `order` holds: the pairs by ascending
/// number of visits for `asc`, by descending number for `desc`. Any other
/// order gives a warning, and after it the pairs as they stand.
pub open spec fn sorted_report(pairs: Seq<Pair>, order: Seq<char>) -> Seq<Seq<char>> {
    if order == "asc"@ {
        report_of(sorted_pairs(pairs, false))
    } else if order == "desc"@ {
        report_of(sorted_pairs(pairs, true))
    } else {
        seq!["Invalid sort order! The valid options are: 'asc' or 'desc'"@] + report_of(pairs)
    }
}

impl VisitCounter {
    /// The report of the pairs at the positions that `order` lists.
    pub fn report_in(&self, order: &Vec<usize>) -> (lines: Vec<String>)
        requires
            forall|i: int| 0 <= i < order.len() ==> (#[trigger] order@[i]) < self.pairs().len(),
        ensures
            lines.deep_view() == report_of(arranged(self.pairs(), order@)),
    {
        let mut lines: Vec<String> = Vec::new();
        let mut i: usize = 0;
        while i < order.len()
            invariant
                i <= order.len(),
                lines.len() == i,
                forall|i: int| 0 <= i < order.len() ==> (#[trigger] order@[i]) < self.pairs().len(),
                forall|j: int|
                    0 <= j < i ==> (#[trigger] lines@[j])@ == report_line(
                        self.pairs()[order@[j] as int].0,
                        self.pairs()[order@[j] as int].1,
                    ),
            decreases order.len() - i,
        {
            let at: usize = order[i];
            lines.push(format_line(self.path_at(at).as_str(), self.visits_at(at)));
            i += 1;
        }
        lines
    }

    /// The report of the counter, in the order in which its keys were first
    /// counted.
    pub fn report(&self) -> (lines: Vec<String>)
        ensures
            lines.deep_view() == report_of(self.pairs()),
    {
        let mut lines: Vec<String> = Vec::new();
        let mut i: usize = 0;
        while i < self.len()
            invariant
                i <= self.pairs().len(),
                lines.len() == i,
                forall|j: int|
                    0 <= j < i ==> (#[trigger] lines@[j])@ == report_line(
                        self.pairs()[j].0,
                        self.pairs()[j].1,
                    ),
            decreases self.pairs().len() - i,
        {
            lines.push(format_line(self.path_at(i).as_str(), self.visits_at(i)));
            i += 1;
        }
        lines
    }
}

impl CountStatistics {
    /// The lines that display the statistics, one for each key, in the order
    /// in which the keys were first counted.
    pub fn display_count(&self) -> (lines: Vec<String>)
        ensures
            lines.deep_view() == report_of(self.counter().pairs()),
    {
        self.statistics().report()
    }

    /// The lines that display the statistics sorted by number of visits:
    /// ascending for the order `asc`, descending for `desc`. For any other
    /// order the first line is a warning, and the statistics follow unsorted.
    pub fn display_count_sorted(&self, order: &str) -> (lines: Vec<String>)
        ensures
            lines.deep_view() == sorted_report(self.counter().pairs(), order@),
    {
        let counter = self.statistics();
        let wanted = chars_of(order);
        if is_text(wanted.as_slice(), "asc") {
            let ranking = counter.ranking(false);
            counter.report_in(&ranking)
        } else if is_text(wanted.as_slice(), "desc") {
            let ranking = counter.ranking(true);
            counter.report_in(&ranking)
        } else {
            let mut lines: Vec<String> = Vec::new();
            lines.push("Invalid sort order! The valid options are: 'asc' or 'desc'".to_string());
            let mut rest = counter.report();
            lines.append(&mut rest);
            lines
        }
    }
}

} // verus!
