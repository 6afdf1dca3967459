//! The command line: which arguments the program takes, and what it prints
//! for them.

use crate::counter::Pair;
use crate::report::{report_of, sorted_report};
use crate::line::log_lines;
use crate::stats::{counted_pairs, first_fault, CountStatistics, LogFault};
use crate::text::{chars_of, is_text};
use vstd::prelude::*;
use vstd::string::StringExecFns;

verus! {

/// The order in which the statistics are reported.
#[derive(Clone, Copy, Debug, PartialEq, Eq, Structural)]
pub enum ReportMode {
    /// In the order in which the keys were first counted.
    Unordered,
    /// By ascending number of visits.
    Ascending,
    /// By descending number of visits.
    Descending,
}

/// What the program was asked to do.
#[derive(Debug, PartialEq, Eq)]
pub struct Invocation {
    /// Name of the file that holds the access log.
    pub filename: String,
    /// The option that follows the file's name, if any.
    pub option: Option<String>,
}

/// The text of an optional argument.
pub open spec fn text_of(option: Option<&str>) -> Option<Seq<char>> {
    match option {
        Some(text) => Some(text@),
        None => None,
    }
}

/// The report mode that an option asks for: unordered without an option,
/// ascending for `--sorted` and `-s`, descending for `--reverse-sorted` and
/// `-rs`. Any other option asks for none.
pub open spec fn mode_of(option: Option<Seq<char>>) -> Option<ReportMode> {
    match option {
        None => Some(ReportMode::Unordered),
        Some(text) => if text == "--sorted"@ || text == "-s"@ {
            Some(ReportMode::Ascending)
        } else if text == "--reverse-sorted"@ || text == "-rs"@ {
            Some(ReportMode::Descending)
        } else {
            None
        },
    }
}

/// The line that rejects an option.
pub open spec fn invalid_option(text: Seq<char>) -> Seq<char> {
    "Invalid option: "@ + text
}

/// The lines that the program prints for statistics `pairs` and an option:
/// the report in the mode that the option asks for, or for an option that
/// asks for none, one line that rejects it and no report.
pub open spec fn output_of(pairs: Seq<Pair>, option: Option<Seq<char>>) -> Seq<Seq<char>> {
    match mode_of(option) {
        Some(ReportMode::Unordered) => report_of(pairs),
        Some(ReportMode::Ascending) => sorted_report(pairs, "asc"@),
        Some(ReportMode::Descending) => sorted_report(pairs, "desc"@),
        None => match option {
            Some(text) => seq![invalid_option(text)],
            None => Seq::empty(),
        },
    }
}

/// Reads the program's arguments, without the program's own name: the first
/// names the log file, the second is the option, and the rest is ignored.
/// Without a first argument there is nothing to do.
pub fn read_arguments(arguments: &Vec<String>) -> (read: Option<Invocation>)
    ensures
        match read {
            Some(invocation) => {
                &&& arguments.len() > 0
                &&& invocation.filename@ == arguments[0]@
                &&& match invocation.option {
                    Some(option) => arguments.len() > 1 && option@ == arguments[1]@,
                    None => arguments.len() == 1,
                }
            },
            None => arguments.len() == 0,
        },
{
    if arguments.len() == 0 {
        None
    } else {
        let filename = arguments[0].clone();
        let option = if arguments.len() > 1 {
            Some(arguments[1].clone())
        } else {
            None
        };
        Some(Invocation { filename, option })
    }
}

/// Reads the report mode that an option asks for.
pub fn read_mode(option: Option<&str>) -> (mode: Option<ReportMode>)
    ensures
        mode == mode_of(text_of(option)),
{
    match option {
        None => Some(ReportMode::Unordered),
        Some(text) => {
            let given = chars_of(text);
            if is_text(given.as_slice(), "--sorted") || is_text(given.as_slice(), "-s") {
                Some(ReportMode::Ascending)
            } else if is_text(given.as_slice(), "--reverse-sorted") || is_text(
                given.as_slice(),
                "-rs",
            ) {
                Some(ReportMode::Descending)
            } else {
                None
            }
        },
    }
}

/// What the program prints for an access log and an option, or the first
/// fault of the log. The log is counted before the option is looked at, so
/// a fault of the log comes before an option that asks for no mode.
pub fn run(access_log: String, option: Option<&str>) -> (printed: Result<Vec<String>, LogFault>)
    ensures
        match printed {
            Ok(lines) => {
                &&& first_fault(log_lines(access_log@)) is None
                &&& lines.deep_view() == output_of(
                    counted_pairs(log_lines(access_log@)),
                    text_of(option),
                )
            },
            Err(fault) => first_fault(log_lines(access_log@)) == Some(fault),
        },
{
    match CountStatistics::new(access_log) {
        Ok(count_statistics) => Ok(count_statistics.output(option)),
        Err(fault) => Err(fault),
    }
}

impl CountStatistics {
    /// The lines that the program prints for these statistics and an option.
    pub fn output(&self, option: Option<&str>) -> (lines: Vec<String>)
        ensures
            lines.deep_view() == output_of(self.counter().pairs(), text_of(option)),
    {
        match read_mode(option) {
            Some(ReportMode::Unordered) => self.display_count(),
            Some(ReportMode::Ascending) => self.display_count_sorted("asc"),
            Some(ReportMode::Descending) => self.display_count_sorted("desc"),
            None => {
                let mut lines: Vec<String> = Vec::new();
                match option {
                    Some(text) => {
                        let mut line = "Invalid option: ".to_string();
                        line.append(text);
                        lines.push(line);
                    },
                    None => {},
                }
                lines
            },
        }
    }
}

} // verus!
