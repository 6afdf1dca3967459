//! Page-visit statistics from a web server access log.
//!
//! A log is a text of lines, each a run of fields parted by single spaces.
//! Every line whose path is one of the counted paths and whose status is 200
//! counts one visit under the key of its path. The statistics map each key
//! with a visit to its number of visits, and are reported one line for each
//! key: as they stand, or sorted by number of visits.
//!
//! - `text`: strings as sequences of characters, and scanning them
//! - `line`: the lines of a log and the fields of a line
//! - `path`: the counted paths and their keys
//! - `status`: the status field as a number
//! - `counter`: the mapping from keys to counts
//! - `stats`: counting a log, and the faults that stop the count
//! - `order`: the order of a sorted report
//! - `report`: the lines of a report
//! - `cli`: the program's arguments and what it prints for them
//! - `laws`: what holds of the statistics of every log

pub mod cli;
pub mod counter;
pub mod laws;
pub mod line;
pub mod order;
pub mod path;
pub mod report;
pub mod stats;
pub mod status;
pub mod text;
