use page_visits::counter::{VisitCounter, MAX_VISITS};
use page_visits::stats::{CountStatistics, FaultKind, LogFault};

fn pairs(counter: &VisitCounter) -> Vec<(String, u16)> {
    counter.to_vec()
}

fn pair(path: &str, visits: u16) -> (String, u16) {
    (path.to_string(), visits)
}

fn line(path: &str, status: &str) -> String {
    format!("a b c d e f {} g {} h\n", path, status)
}

fn counted(log: &str) -> Vec<(String, u16)> {
    pairs(&CountStatistics::insert_page_visits(log.to_string()))
}

fn fault(log: &str) -> Option<LogFault> {
    CountStatistics::new(log.to_string()).err()
}

#[test]
fn new_counter_is_empty() {
    let counter = VisitCounter::new();
    assert_eq!(counter.len(), 0);
    assert_eq!(counter.get("/"), None);
    assert_eq!(pairs(&counter), vec![]);
}

#[test]
fn with_visit_adds_then_increments() {
    let counter = VisitCounter::new().with_visit("/".to_string());
    assert_eq!(counter.get("/"), Some(1));
    assert_eq!(counter.len(), 1);
    let counter = counter.with_visit("/rss.xml".to_string()).with_visit("/".to_string());
    assert_eq!(counter.get("/"), Some(2));
    assert_eq!(counter.get("/rss.xml"), Some(1));
    assert_eq!(counter.get("/other"), None);
    assert_eq!(counter.len(), 2);
    assert_eq!(pairs(&counter), vec![pair("/", 2), pair("/rss.xml", 1)]);
    assert_eq!(counter.path_at(1), "/rss.xml");
    assert_eq!(counter.visits_at(0), 2);
}

#[test]
fn count_path_visits_counts_status_200() {
    let counter = CountStatistics::count_path_visits(VisitCounter::new(), "/".to_string(), "200");
    assert_eq!(pairs(&counter), vec![pair("/", 1)]);
    let counter = CountStatistics::count_path_visits(counter, "/".to_string(), "200");
    assert_eq!(pairs(&counter), vec![pair("/", 2)]);
    let counter = CountStatistics::count_path_visits(counter, "/rss.xml".to_string(), "+0200");
    assert_eq!(pairs(&counter), vec![pair("/", 2), pair("/rss.xml", 1)]);
}

#[test]
fn count_path_visits_ignores_other_statuses() {
    let mut counter = VisitCounter::new();
    for status in ["404", "301", "500", "0", "-200", "201", "199", "2000"] {
        counter = CountStatistics::count_path_visits(counter, "/".to_string(), status);
    }
    assert_eq!(pairs(&counter), vec![]);
    assert_eq!(counter.get("/"), None);
}

#[test]
fn count_status_reports_bad_status() {
    let status: Vec<char> = "abc".chars().collect();
    let counted = CountStatistics::count_status(VisitCounter::new(), "/".to_string(), &status);
    assert_eq!(counted.err(), Some(FaultKind::BadStatus));
}

#[test]
fn count_line_counts_a_qualifying_line() {
    let text: Vec<char> = "a b c d e f /index.html g 200 h".chars().collect();
    let counter = CountStatistics::count_line(VisitCounter::new(), &text).ok().unwrap();
    assert_eq!(pairs(&counter), vec![pair("/", 1)]);
}

#[test]
fn count_line_reports_missing_field() {
    let text: Vec<char> = "a b c d e f / g".chars().collect();
    let counted = CountStatistics::count_line(VisitCounter::new(), &text);
    assert_eq!(counted.err(), Some(FaultKind::MissingField));
}

#[test]
fn example_log_counts_root_and_feed() {
    let log = "a b c d e f / g 200 h\na b c d e f / g 404 h\na b c d e f /rss.xml g 200 h";
    let counter = CountStatistics::insert_page_visits(log.to_string());
    assert_eq!(counter.len(), 2);
    assert_eq!(counter.get("/"), Some(1));
    assert_eq!(counter.get("/rss.xml"), Some(1));
    assert_eq!(pairs(&counter), vec![pair("/", 1), pair("/rss.xml", 1)]);
}

#[test]
fn example_log_with_final_line_feed() {
    let log = "a b c d e f / g 200 h\na b c d e f / g 404 h\na b c d e f /rss.xml g 200 h\n";
    assert_eq!(counted(log), vec![pair("/", 1), pair("/rss.xml", 1)]);
}

#[test]
fn empty_log_counts_nothing() {
    assert_eq!(counted(""), vec![]);
    assert_eq!(fault(""), None);
}

#[test]
fn path_without_successful_visit_is_absent() {
    let log = line("/rss.xml", "404") + &line("/", "200") + &line("/posts/a.html", "500");
    let counter = CountStatistics::insert_page_visits(log);
    assert_eq!(counter.get("/rss.xml"), None);
    assert_eq!(counter.get("/posts/a.html"), None);
    assert_eq!(counter.get("/"), Some(1));
    assert_eq!(counter.len(), 1);
    for (_, visits) in pairs(&counter) {
        assert!(visits > 0);
    }
}

#[test]
fn index_page_and_root_share_a_key() {
    let log = line("/index.html", "200") + &line("/", "200") + &line("/index.html", "200");
    let counter = CountStatistics::insert_page_visits(log);
    assert_eq!(counter.get("/"), Some(3));
    assert_eq!(counter.get("/index.html"), None);
    assert_eq!(pairs(&counter), vec![pair("/", 3)]);
}

#[test]
fn posts_are_counted_verbatim() {
    let log = line("/posts/a.html", "200")
        + &line("/posts/b.html", "200")
        + &line("/posts/a.html", "200")
        + &line("/posts/other.txt", "200")
        + &line("/other/page.html", "200");
    let counter = CountStatistics::insert_page_visits(log);
    assert_eq!(pairs(&counter), vec![pair("/posts/a.html", 2), pair("/posts/b.html", 1)]);
    assert_eq!(counter.get("/posts/other.txt"), None);
    assert_eq!(counter.get("/other/page.html"), None);
}

#[test]
fn other_statuses_count_nothing() {
    let log = line("/", "404")
        + &line("/", "301")
        + &line("/rss.xml", "500")
        + &line("/posts/a.html", "304")
        + &line("/index.html", "-200");
    assert_eq!(counted(&log), vec![]);
}

#[test]
fn other_status_leaves_counts_as_they_were() {
    let before = line("/", "200") + &line("/rss.xml", "200");
    let after = before.clone() + &line("/", "404") + &line("/posts/a.html", "301");
    assert_eq!(counted(&after), counted(&before));
}

#[test]
fn keys_stand_in_order_of_first_visit() {
    let log = line("/rss.xml", "404")
        + &line("/posts/z.html", "200")
        + &line("/rss.xml", "200")
        + &line("/", "200")
        + &line("/posts/z.html", "200");
    assert_eq!(counted(&log), vec![pair("/posts/z.html", 2), pair("/rss.xml", 1), pair("/", 1)]);
}

#[test]
fn status_with_sign_or_leading_zeros_is_read_as_a_number() {
    let log = line("/", "+200") + &line("/", "0200") + &line("/", "200");
    assert_eq!(counted(&log), vec![pair("/", 3)]);
}

#[test]
fn carriage_return_before_line_feed_is_no_part_of_the_line() {
    let log = "a b c d e f / g 200\r\na b c d e f / g 200\r\n";
    assert_eq!(counted(log), vec![pair("/", 2)]);
}

#[test]
fn statistics_hold_what_the_log_counts() {
    let log = line("/", "200") + &line("/rss.xml", "200") + &line("/", "200");
    let stats = CountStatistics::new(log).ok().unwrap();
    assert_eq!(pairs(stats.statistics()), vec![pair("/", 2), pair("/rss.xml", 1)]);
}

#[test]
fn line_with_too_few_fields_is_a_fault() {
    let log = line("/", "200") + "a b c d e f / g\n" + &line("/", "200");
    assert_eq!(fault(&log), Some(LogFault { line: 1, kind: FaultKind::MissingField }));
}

#[test]
fn empty_line_is_a_fault() {
    let log = line("/", "200") + &line("/", "200") + "\n";
    assert_eq!(fault(&log), Some(LogFault { line: 2, kind: FaultKind::MissingField }));
}

#[test]
fn too_few_fields_is_a_fault_whatever_the_path() {
    assert_eq!(
        fault("a b c d e f /nothing g"),
        Some(LogFault { line: 0, kind: FaultKind::MissingField })
    );
    assert_eq!(fault("a b c d e f"), Some(LogFault { line: 0, kind: FaultKind::MissingField }));
}

#[test]
fn bad_status_on_a_counted_path_is_a_fault() {
    let log = line("/", "200") + &line("/", "200") + &line("/rss.xml", "OK");
    assert_eq!(fault(&log), Some(LogFault { line: 2, kind: FaultKind::BadStatus }));
    assert_eq!(
        fault(&line("/posts/a.html", "99999999999")),
        Some(LogFault { line: 0, kind: FaultKind::BadStatus })
    );
    assert_eq!(fault(&line("/", "-")), Some(LogFault { line: 0, kind: FaultKind::BadStatus }));
}

#[test]
fn bad_status_on_another_path_is_no_fault() {
    let log = line("/favicon.ico", "OK") + &line("/", "200") + &line("/posts/a.txt", "-");
    assert_eq!(fault(&log), None);
    assert_eq!(counted(&log), vec![pair("/", 1)]);
}

#[test]
fn bare_carriage_return_at_the_end_spoils_the_status() {
    let log = "a b c d e f / g 200\r";
    assert_eq!(fault(log), Some(LogFault { line: 0, kind: FaultKind::BadStatus }));
}

#[test]
fn first_fault_is_the_one_reported() {
    let log = line("/", "200") + &line("/", "x") + "short\n" + &line("/", "y");
    assert_eq!(fault(&log), Some(LogFault { line: 1, kind: FaultKind::BadStatus }));
    let log = "short\n".to_string() + &line("/", "x");
    assert_eq!(fault(&log), Some(LogFault { line: 0, kind: FaultKind::MissingField }));
}

#[test]
fn counter_holds_up_to_its_bound() {
    assert_eq!(MAX_VISITS, 65535);
    let log = line("/", "200").repeat(65535);
    let counter = CountStatistics::insert_page_visits(log);
    assert_eq!(counter.get("/"), Some(65535));
}

#[test]
fn visit_beyond_the_bound_is_a_fault() {
    let log = line("/", "200").repeat(65535) + &line("/rss.xml", "200") + &line("/index.html", "200");
    assert_eq!(fault(&log), Some(LogFault { line: 65536, kind: FaultKind::TooManyVisits }));
    let log = line("/", "200").repeat(65535) + &line("/", "404") + &line("/rss.xml", "200");
    assert_eq!(fault(&log), None);
}

#[test]
fn count_status_reports_a_full_counter() {
    let full = CountStatistics::insert_page_visits(line("/", "200").repeat(65535));
    let status: Vec<char> = "200".chars().collect();
    let counted = CountStatistics::count_status(full, "/".to_string(), &status);
    assert_eq!(counted.err(), Some(FaultKind::TooManyVisits));
}

#[test]
fn tally_counts_a_character_buffer() {
    let text: Vec<char> = (line("/", "200") + &line("/", "200")).chars().collect();
    let counter = CountStatistics::tally(&text).ok().unwrap();
    assert_eq!(pairs(&counter), vec![pair("/", 2)]);
}
