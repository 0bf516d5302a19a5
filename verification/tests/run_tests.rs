use dhanush::config::{EndpointConfig, GroupConfig, TestMode, TimeSpan};
use dhanush::engine::{duration_tick, order_by_name, progress_length, start_delay_us, start_delays, uses_request_counter};
use dhanush::http_client::{client_settings, total_weight_of, RequestSelector};
use dhanush::error::DhanushError;
use dhanush::worker::{should_stop, RequestOutcome};
use dhanush::stats::WorkerStats;
use std::collections::HashMap;

/// The number of latencies a worker's histogram holds.
fn held(s: &WorkerStats) -> u64 {
    s.latency_buckets().iter().map(|b| b.1).sum()
}

fn ep(url: &str, method: &str, weight: u32) -> EndpointConfig {
    EndpointConfig { url: url.to_string(), method: method.to_string(), headers: vec![], body: None, weight }
}

#[test]
fn selector_never_picks_zero_weight_endpoints() {
    let eps = vec![ep("http://a", "GET", 0), ep("http://b", "GET", 3), ep("http://c", "GET", 0)];
    let s = RequestSelector::new(&eps).unwrap();
    for _ in 0..2000 {
        assert_eq!(s.select().url, "http://b");
    }
}

#[test]
fn selector_follows_weights_roughly() {
    let eps = vec![ep("http://a", "GET", 50), ep("http://b", "GET", 30), ep("http://c", "GET", 20)];
    let s = RequestSelector::new(&eps).unwrap();
    let mut counts: HashMap<String, u32> = HashMap::new();
    for _ in 0..20000 {
        *counts.entry(s.select().url.clone()).or_insert(0) += 1;
    }
    let a = counts["http://a"];
    let c = counts["http://c"];
    assert!(a > 9000 && a < 11000, "{}", a);
    assert!(c > 3300 && c < 4700, "{}", c);
}

#[test]
fn selector_rejects_empty_and_all_zero() {
    match RequestSelector::new(&[]) {
        Err(DhanushError::Config(m)) => assert_eq!(m, "Invalid weights: No weights provided in distribution"),
        _ => panic!("expected an error"),
    }
    match RequestSelector::new(&[ep("http://a", "GET", 0)]) {
        Err(DhanushError::Config(m)) => assert_eq!(m, "Invalid weights: All weights are zero in distribution"),
        _ => panic!("expected an error"),
    }
}

#[test]
fn templates_keep_valid_method_and_headers() {
    let mut e = ep("http://a", "PATCH", 1);
    e.headers = vec![
        ("X-Ok".to_string(), "yes".to_string()),
        ("Bad Name".to_string(), "v".to_string()),
        ("X-Bad-Value".to_string(), "line\nbreak".to_string()),
        ("X-Tab".to_string(), "a\tb".to_string()),
    ];
    e.body = Some("payload".to_string());
    let s = RequestSelector::new(&[e]).unwrap();
    let t = s.select();
    assert_eq!(t.method, "PATCH");
    assert_eq!(t.headers, vec![("X-Ok".to_string(), "yes".to_string()), ("X-Tab".to_string(), "a\tb".to_string())]);
    assert_eq!(t.body.as_deref(), Some("payload"));
}

#[test]
fn invalid_method_falls_back_to_get() {
    let s = RequestSelector::new(&[ep("http://a", "BAD METHOD", 1)]).unwrap();
    assert_eq!(s.select().method, "GET");
    let s = RequestSelector::new(&[ep("http://a", "", 1)]).unwrap();
    assert_eq!(s.select().method, "GET");
}

#[test]
fn total_weight_sums() {
    assert_eq!(total_weight_of(&[ep("a", "GET", 50), ep("b", "GET", 30), ep("c", "GET", 20)]), 100);
}

fn group(insecure: bool) -> GroupConfig {
    GroupConfig {
        name: "g".to_string(),
        endpoints: vec![ep("http://a", "GET", 1)],
        connections: 25,
        test_mode: TestMode::RequestCount(10),
        timeout: TimeSpan { secs: 7, nanos: 0 },
        insecure,
        ramp_up: None,
    }
}

#[test]
fn client_settings_follow_group() {
    let s = client_settings(&group(true));
    assert_eq!(s.timeout, TimeSpan { secs: 7, nanos: 0 });
    assert_eq!(s.pool_max_idle_per_host, 25);
    assert_eq!(s.pool_idle_timeout, TimeSpan { secs: 90, nanos: 0 });
    assert!(s.tcp_nodelay);
    assert!(s.accept_invalid_certs);
    assert!(!client_settings(&group(false)).accept_invalid_certs);
}

#[test]
fn ramp_up_spreads_workers_linearly() {
    let d = start_delays(Some(TimeSpan { secs: 10, nanos: 0 }), 100);
    assert_eq!(d.len(), 100);
    assert_eq!(d[0], 0);
    assert_eq!(d[99], 10_000_000);
    assert_eq!(d[50], 5_050_505);
    assert!(d.windows(2).all(|w| w[0] <= w[1]));
    assert_eq!(start_delay_us(1_000_000, 0, 1), 0);
}

#[test]
fn no_ramp_up_starts_all_at_once() {
    assert_eq!(start_delays(None, 5), vec![0, 0, 0, 0, 0]);
    assert!(start_delays(None, 0).is_empty());
}

#[test]
fn ramp_up_in_sub_second_units() {
    let d = start_delays(Some(TimeSpan { secs: 0, nanos: 1_500_999 }), 3);
    assert_eq!(d, vec![0, 750, 1500]);
}

#[test]
fn duration_timer() {
    let dur = TimeSpan { secs: 10, nanos: 0 };
    assert_eq!(duration_tick(&TimeSpan { secs: 3, nanos: 5 }, &dur), (3, false));
    assert_eq!(duration_tick(&TimeSpan { secs: 10, nanos: 0 }, &dur), (10, true));
    assert_eq!(duration_tick(&TimeSpan { secs: 11, nanos: 2 }, &dur), (10, true));
    assert_eq!(duration_tick(&TimeSpan { secs: 9, nanos: 999_999_999 }, &dur), (9, false));
}

#[test]
fn progress_and_counter() {
    assert_eq!(progress_length(&TestMode::Duration(TimeSpan { secs: 30, nanos: 9 })), 30);
    assert_eq!(progress_length(&TestMode::RequestCount(1234)), 1234);
    assert!(uses_request_counter(&TestMode::RequestCount(1)));
    assert!(!uses_request_counter(&TestMode::Duration(TimeSpan { secs: 1, nanos: 0 })));
}

#[test]
fn workers_stop_on_cancel_or_exhausted_count() {
    let d = TestMode::Duration(TimeSpan { secs: 1, nanos: 0 });
    assert!(!should_stop(&d, false, None));
    assert!(should_stop(&d, true, None));
    let c = TestMode::RequestCount(3);
    assert!(!should_stop(&c, true, Some(2)));
    assert!(should_stop(&c, false, Some(3)));
    assert!(!should_stop(&c, false, None));
}

#[test]
fn count_mode_sends_exactly_n_requests() {
    // Simulate workers racing on the shared counter.
    let mode = TestMode::RequestCount(10_000);
    let counter = std::sync::atomic::AtomicU64::new(0);
    let mut sent = vec![0u64; 50];
    let mut active: Vec<bool> = vec![true; 50];
    while active.iter().any(|a| *a) {
        for w in 0..50 {
            if !active[w] {
                continue;
            }
            let t = counter.fetch_add(1, std::sync::atomic::Ordering::Relaxed);
            if should_stop(&mode, false, Some(t)) {
                active[w] = false;
            } else {
                sent[w] += 1;
            }
        }
    }
    assert_eq!(sent.iter().sum::<u64>(), 10_000);
}

#[test]
fn results_sorted_by_group_name() {
    let names: Vec<String> = ["beta", "alpha", "Zeta", "beta", "al"].iter().map(|s| s.to_string()).collect();
    let order = order_by_name(&names);
    assert_eq!(order, vec![2, 4, 1, 0, 3]);
    assert!(order_by_name(&vec![]).is_empty());
}

#[test]
fn worker_stats_count_every_request() {
    let mut s = WorkerStats::new();
    s.record_success(1200, 200, 512);
    s.record_success(800, 200, 100);
    s.record_success(90_000_000, 500, 0);
    s.record_error(3000);
    assert_eq!(s.total_requests, 4);
    assert_eq!(s.errors, 1);
    assert_eq!(s.total_bytes, 612);
    assert_eq!(s.status_codes[&200], 2);
    assert_eq!(s.status_codes[&500], 1);
    // the latency above the histogram's top is not tracked
    assert_eq!(held(&s), 3);
}

#[test]
fn outcomes_are_recorded() {
    let mut s = WorkerStats::new();
    s.record_outcome(RequestOutcome::Response { latency_us: 10, status: 404, bytes: 7 });
    s.record_outcome(RequestOutcome::Failed { latency_us: 20 });
    assert_eq!(s.total_requests, 2);
    assert_eq!(s.errors, 1);
    assert_eq!(s.total_bytes, 7);
    assert_eq!(s.status_codes[&404], 1);
}

#[test]
fn worker_stats_merge() {
    let mut a = WorkerStats::new();
    a.record_success(100, 200, 10);
    a.record_success(200, 404, 20);
    let mut b = WorkerStats::new();
    b.record_success(300, 200, 30);
    b.record_error(400);
    let m = WorkerStats::merge_all(vec![a, b]);
    assert_eq!(m.total_requests, 4);
    assert_eq!(m.total_bytes, 60);
    assert_eq!(m.errors, 1);
    assert_eq!(m.status_codes.len(), 2);
    assert_eq!(m.status_codes[&200], 2);
    assert_eq!(m.status_codes[&404], 1);
    assert_eq!(held(&m), 4);
    let buckets = m.latency_buckets();
    assert_eq!(buckets.len(), 4);
    assert_eq!(buckets[0], (100, 1));
    assert_eq!(m.latency_max(), 400);
    let empty = WorkerStats::merge_all(vec![]);
    assert_eq!(empty.total_requests, 0);
    assert!(empty.status_codes.is_empty());
}

#[test]
fn histogram_top_bounds_recorded_latencies() {
    let mut s = WorkerStats::new();
    // Up to 60 s every latency is taken; the histogram's last bucket reaches
    // a little further, to 2^26 - 1 microseconds.
    s.record_success(60_000_000, 200, 0);
    s.record_success(67_108_863, 200, 0);
    assert_eq!(held(&s), 2);
    s.record_success(67_108_864, 200, 0);
    s.record_error(u64::MAX);
    assert_eq!(held(&s), 2);
    assert_eq!(s.total_requests, 4);
    let buckets = s.latency_buckets();
    assert_eq!(buckets, vec![(60_030_975, 1), (67_108_863, 1)]);
    assert_eq!(s.latency_max(), 67_108_863);
    assert_eq!(WorkerStats::new().latency_max(), 0);
}

#[test]
fn header_names_follow_the_token_rule() {
    let mut e = ep("http://a", "GET", 1);
    e.headers = vec![
        ("UPPER-Case_1~".to_string(), "a".to_string()),
        ("".to_string(), "empty".to_string()),
        ("caf\u{e9}".to_string(), "accent".to_string()),
        ("a:b".to_string(), "colon".to_string()),
        ("x".repeat(65535), "long".to_string()),
        ("x".repeat(65536), "too long".to_string()),
    ];
    let t = dhanush::http_client::template_from_endpoint(&e);
    let names: Vec<usize> = t.headers.iter().map(|(k, _)| k.len()).collect();
    assert_eq!(names, vec![13, 65535]);
    assert_eq!(t.headers[0].0, "UPPER-Case_1~");
}
