use page_visits::cli::{read_arguments, read_mode, run, Invocation, ReportMode};
use page_visits::counter::VisitCounter;
use page_visits::report::{format_line, push_decimal};
use page_visits::stats::{CountStatistics, FaultKind, LogFault};

fn line(path: &str, status: &str) -> String {
    format!("a b c d e f {} g {} h\n", path, status)
}

fn visits(path: &str, times: usize) -> String {
    line(path, "200").repeat(times)
}

fn stats(log: String) -> CountStatistics {
    CountStatistics::new(log).ok().unwrap()
}

fn sample() -> CountStatistics {
    stats(visits("/rss.xml", 3) + &visits("/", 1) + &visits("/posts/a.html", 12) + &visits("/posts/b.html", 2))
}

fn with_ties() -> CountStatistics {
    stats(visits("/rss.xml", 2) + &visits("/", 1) + &visits("/posts/a.html", 2) + &visits("/posts/b.html", 1))
}

fn decimal(n: u16) -> String {
    let mut text = String::new();
    push_decimal(&mut text, n);
    text
}

#[test]
fn decimal_writes_numbers_without_leading_zeros() {
    assert_eq!(decimal(0), "0");
    assert_eq!(decimal(7), "7");
    assert_eq!(decimal(10), "10");
    assert_eq!(decimal(200), "200");
    assert_eq!(decimal(1005), "1005");
    assert_eq!(decimal(65535), "65535");
}

#[test]
fn decimal_agrees_with_std() {
    for n in [0u16, 1, 9, 10, 11, 99, 100, 101, 999, 1000, 9999, 10000, 12345, 65534, 65535] {
        assert_eq!(decimal(n), n.to_string());
    }
}

#[test]
fn decimal_appends_to_what_is_there() {
    let mut text = "n = ".to_string();
    push_decimal(&mut text, 42);
    assert_eq!(text, "n = 42");
}

#[test]
fn line_names_path_and_visits() {
    assert_eq!(format_line("/", 1), "Visits for / is: 1");
    assert_eq!(format_line("/posts/a.html", 65535), "Visits for /posts/a.html is: 65535");
    assert_eq!(format_line("", 10), "Visits for  is: 10");
}

#[test]
fn display_count_reports_in_order_of_first_visit() {
    assert_eq!(
        sample().display_count(),
        vec![
            "Visits for /rss.xml is: 3",
            "Visits for / is: 1",
            "Visits for /posts/a.html is: 12",
            "Visits for /posts/b.html is: 2",
        ]
    );
}

#[test]
fn display_count_of_empty_statistics() {
    assert_eq!(stats(String::new()).display_count(), Vec::<String>::new());
    assert_eq!(stats(String::new()).display_count_sorted("asc"), Vec::<String>::new());
    assert_eq!(stats(String::new()).display_count_sorted("desc"), Vec::<String>::new());
}

#[test]
fn display_count_sorted_ascending() {
    assert_eq!(
        sample().display_count_sorted("asc"),
        vec![
            "Visits for / is: 1",
            "Visits for /posts/b.html is: 2",
            "Visits for /rss.xml is: 3",
            "Visits for /posts/a.html is: 12",
        ]
    );
}

#[test]
fn display_count_sorted_descending() {
    assert_eq!(
        sample().display_count_sorted("desc"),
        vec![
            "Visits for /posts/a.html is: 12",
            "Visits for /rss.xml is: 3",
            "Visits for /posts/b.html is: 2",
            "Visits for / is: 1",
        ]
    );
}

#[test]
fn descending_is_ascending_reversed_without_ties() {
    let mut ascending = sample().display_count_sorted("asc");
    ascending.reverse();
    assert_eq!(sample().display_count_sorted("desc"), ascending);
}

#[test]
fn ties_keep_the_order_of_first_visit() {
    assert_eq!(
        with_ties().display_count_sorted("asc"),
        vec![
            "Visits for / is: 1",
            "Visits for /posts/b.html is: 1",
            "Visits for /rss.xml is: 2",
            "Visits for /posts/a.html is: 2",
        ]
    );
    assert_eq!(
        with_ties().display_count_sorted("desc"),
        vec![
            "Visits for /rss.xml is: 2",
            "Visits for /posts/a.html is: 2",
            "Visits for / is: 1",
            "Visits for /posts/b.html is: 1",
        ]
    );
}

#[test]
fn invalid_sort_order_warns_and_reports_unsorted() {
    for order in ["", "ascending", "ASC", "asc ", "-s"] {
        assert_eq!(
            sample().display_count_sorted(order),
            vec![
                "Invalid sort order! The valid options are: 'asc' or 'desc'",
                "Visits for /rss.xml is: 3",
                "Visits for / is: 1",
                "Visits for /posts/a.html is: 12",
                "Visits for /posts/b.html is: 2",
            ]
        );
    }
}

#[test]
fn ranking_lists_positions_by_visits() {
    let sample = sample();
    let counter: &VisitCounter = sample.statistics();
    assert_eq!(counter.ranking(false), vec![1, 3, 0, 2]);
    assert_eq!(counter.ranking(true), vec![2, 0, 3, 1]);
    let ties = with_ties();
    assert_eq!(ties.statistics().ranking(false), vec![1, 3, 0, 2]);
    assert_eq!(ties.statistics().ranking(true), vec![0, 2, 1, 3]);
    assert_eq!(VisitCounter::new().ranking(false), Vec::<usize>::new());
}

#[test]
fn report_in_follows_the_given_positions() {
    let sample = sample();
    assert_eq!(
        sample.statistics().report_in(&vec![3, 3, 0]),
        vec![
            "Visits for /posts/b.html is: 2",
            "Visits for /posts/b.html is: 2",
            "Visits for /rss.xml is: 3",
        ]
    );
    assert_eq!(sample.statistics().report(), sample.display_count());
}

#[test]
fn mode_of_each_option() {
    assert_eq!(read_mode(None), Some(ReportMode::Unordered));
    assert_eq!(read_mode(Some("--sorted")), Some(ReportMode::Ascending));
    assert_eq!(read_mode(Some("-s")), Some(ReportMode::Ascending));
    assert_eq!(read_mode(Some("--reverse-sorted")), Some(ReportMode::Descending));
    assert_eq!(read_mode(Some("-rs")), Some(ReportMode::Descending));
    assert_eq!(read_mode(Some("-x")), None);
    assert_eq!(read_mode(Some("")), None);
    assert_eq!(read_mode(Some("asc")), None);
    assert_eq!(read_mode(Some("--Sorted")), None);
    assert_eq!(read_mode(Some("-s ")), None);
}

#[test]
fn output_without_option_is_unordered() {
    assert_eq!(sample().output(None), sample().display_count());
}

#[test]
fn output_sorted() {
    assert_eq!(sample().output(Some("--sorted")), sample().display_count_sorted("asc"));
    assert_eq!(sample().output(Some("-s")), sample().display_count_sorted("asc"));
    assert_eq!(sample().output(Some("-s"))[0], "Visits for / is: 1");
}

#[test]
fn output_reverse_sorted() {
    assert_eq!(sample().output(Some("--reverse-sorted")), sample().display_count_sorted("desc"));
    assert_eq!(sample().output(Some("-rs")), sample().display_count_sorted("desc"));
    assert_eq!(sample().output(Some("-rs"))[0], "Visits for /posts/a.html is: 12");
}

#[test]
fn invalid_option_prints_no_report() {
    assert_eq!(sample().output(Some("-x")), vec!["Invalid option: -x"]);
    assert_eq!(sample().output(Some("")), vec!["Invalid option: "]);
    assert_eq!(sample().output(Some("desc")), vec!["Invalid option: desc"]);
}

#[test]
fn missing_filename_reads_no_invocation() {
    assert_eq!(read_arguments(&vec![]), None);
}

#[test]
fn filename_alone() {
    assert_eq!(
        read_arguments(&vec!["access.log".to_string()]),
        Some(Invocation { filename: "access.log".to_string(), option: None })
    );
}

#[test]
fn filename_and_option() {
    assert_eq!(
        read_arguments(&vec!["access.log".to_string(), "-rs".to_string()]),
        Some(Invocation { filename: "access.log".to_string(), option: Some("-rs".to_string()) })
    );
}

#[test]
fn further_arguments_are_ignored() {
    assert_eq!(
        read_arguments(&vec!["a".to_string(), "-x".to_string(), "c".to_string(), "d".to_string()]),
        Some(Invocation { filename: "a".to_string(), option: Some("-x".to_string()) })
    );
}

#[test]
fn run_prints_the_report_of_the_log() {
    let log = visits("/rss.xml", 3) + &line("/", "404") + &visits("/index.html", 11);
    assert_eq!(
        run(log.clone(), None),
        Ok(vec!["Visits for /rss.xml is: 3".to_string(), "Visits for / is: 11".to_string()])
    );
    assert_eq!(
        run(log.clone(), Some("-rs")),
        Ok(vec!["Visits for / is: 11".to_string(), "Visits for /rss.xml is: 3".to_string()])
    );
    assert_eq!(
        run(log, Some("--sorted")),
        Ok(vec!["Visits for /rss.xml is: 3".to_string(), "Visits for / is: 11".to_string()])
    );
}

#[test]
fn run_rejects_an_invalid_option_after_counting() {
    assert_eq!(run(visits("/", 2), Some("-x")), Ok(vec!["Invalid option: -x".to_string()]));
    assert_eq!(
        run("too short".to_string(), Some("-x")),
        Err(LogFault { line: 0, kind: FaultKind::MissingField })
    );
}

#[test]
fn run_stops_at_the_first_fault() {
    let log = visits("/", 2) + &line("/rss.xml", "two hundred");
    assert_eq!(run(log, None), Err(LogFault { line: 2, kind: FaultKind::BadStatus }));
}
