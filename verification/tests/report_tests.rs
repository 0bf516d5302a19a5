use dhanush::reporter::{
    format_number, reports_group_details, shows_error_line, shows_overall_summary, sorted_status_codes,
    status_class, RunTotals, StatusClass,
};
use dhanush::stats::WorkerStats;
use std::collections::HashMap;

#[test]
fn numbers_get_thousands_separators() {
    assert_eq!(format_number(0), "0");
    assert_eq!(format_number(7), "7");
    assert_eq!(format_number(999), "999");
    assert_eq!(format_number(1000), "1,000");
    assert_eq!(format_number(15234), "15,234");
    assert_eq!(format_number(457037), "457,037");
    assert_eq!(format_number(1234567), "1,234,567");
    assert_eq!(format_number(u64::MAX), "18,446,744,073,709,551,615");
}

#[test]
fn status_codes_in_ascending_order() {
    let mut m: HashMap<u16, u64> = HashMap::new();
    m.insert(500, 55);
    m.insert(200, 456982);
    m.insert(404, 3);
    assert_eq!(sorted_status_codes(&m), vec![(200, 456982), (404, 3), (500, 55)]);
    assert!(sorted_status_codes(&HashMap::new()).is_empty());
}

#[test]
fn status_classes() {
    assert_eq!(status_class(200), StatusClass::Success);
    assert_eq!(status_class(301), StatusClass::Redirection);
    assert_eq!(status_class(404), StatusClass::ClientError);
    assert_eq!(status_class(503), StatusClass::ServerError);
    assert_eq!(status_class(101), StatusClass::Other);
    assert_eq!(status_class(600), StatusClass::Other);
}

#[test]
fn summary_only_for_several_groups() {
    assert!(!shows_overall_summary(0));
    assert!(!shows_overall_summary(1));
    assert!(shows_overall_summary(2));
}

#[test]
fn run_totals_add_up() {
    let mut w = WorkerStats::new();
    w.record_success(5, 200, 100);
    w.record_error(6);
    let g1 = RunTotals::of_group(&w);
    assert_eq!(g1, RunTotals { total_requests: 2, total_bytes: 100, total_errors: 1 });
    let g2 = RunTotals { total_requests: 457037, total_bytes: 388169420, total_errors: 12 };
    let t = RunTotals::from_groups(&[g1, g2]);
    assert_eq!(t, RunTotals { total_requests: 457039, total_bytes: 388169520, total_errors: 13 });
    assert_eq!(RunTotals::from_groups(&[]), RunTotals { total_requests: 0, total_bytes: 0, total_errors: 0 });
}

#[test]
fn comma_groups_have_three_digits_after_the_first() {
    for n in [0u64, 12, 999, 1000, 12345, 999_999, 1_000_000, 98_765_432_101, u64::MAX] {
        let s = format_number(n);
        let groups: Vec<&str> = s.split(',').collect();
        assert!((1..=3).contains(&groups[0].len()));
        assert!(groups[1..].iter().all(|g| g.len() == 3));
        assert_eq!(s.replace(',', ""), n.to_string());
    }
}

#[test]
fn run_totals_add_over_concatenation_in_any_order() {
    let a = RunTotals { total_requests: 3, total_bytes: 30, total_errors: 1 };
    let b = RunTotals { total_requests: 5, total_bytes: 7, total_errors: 0 };
    let c = RunTotals { total_requests: 11, total_bytes: 0, total_errors: 4 };
    let ab = RunTotals::from_groups(&[a, b]);
    let c_only = RunTotals::from_groups(&[c]);
    let all = RunTotals::from_groups(&[a, b, c]);
    assert_eq!(all.total_requests, ab.total_requests + c_only.total_requests);
    assert_eq!(all.total_bytes, ab.total_bytes + c_only.total_bytes);
    assert_eq!(all.total_errors, ab.total_errors + c_only.total_errors);
    assert_eq!(RunTotals::from_groups(&[c, a, b]), all);
    assert_eq!(RunTotals::from_groups(&[b, c, a]), all);
}

#[test]
fn group_report_parts_follow_the_counts() {
    assert!(!reports_group_details(0));
    assert!(reports_group_details(1));
    assert!(!shows_error_line(0));
    assert!(shows_error_line(3));
}
