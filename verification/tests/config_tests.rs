use dhanush::cli::CliArgs;
use dhanush::config::{
    parse_duration_str, parse_headers, output_format_from, Config, OutputFormat, TestMode,
    TimeSpan, YamlConfig, YamlDefaults, YamlEndpoint, YamlGroup,
};
use dhanush::error::DhanushError;

fn cli(url: Option<&str>) -> CliArgs {
    CliArgs {
        url: url.map(|s| s.to_string()),
        connections: 10,
        duration: "10s".to_string(),
        num_requests: None,
        threads: None,
        method: "GET".to_string(),
        headers: vec![],
        body: None,
        timeout: "5s".to_string(),
        insecure: false,
        output_format: "text".to_string(),
        no_progress: false,
        ramp_up: None,
        config: None,
    }
}

fn config_message(e: DhanushError) -> String {
    match e {
        DhanushError::Config(m) => m,
        other => panic!("expected a configuration error, got {:?}", other),
    }
}

fn endpoint(url: &str, weight: Option<u32>) -> YamlEndpoint {
    YamlEndpoint { url: url.to_string(), method: None, headers: None, body: None, weight }
}

fn group(name: &str, endpoints: Vec<YamlEndpoint>) -> YamlGroup {
    YamlGroup {
        name: name.to_string(),
        connections: None,
        duration: None,
        num_requests: None,
        timeout: None,
        insecure: None,
        ramp_up: None,
        endpoints,
    }
}

fn no_defaults() -> YamlDefaults {
    YamlDefaults {
        connections: None,
        duration: None,
        num_requests: None,
        threads: None,
        timeout: None,
        insecure: None,
        ramp_up: None,
    }
}

#[test]
fn durations_parse_in_human_units() {
    assert_eq!(parse_duration_str("10s").unwrap(), TimeSpan { secs: 10, nanos: 0 });
    assert_eq!(parse_duration_str("1m").unwrap(), TimeSpan { secs: 60, nanos: 0 });
    assert_eq!(parse_duration_str("2m30s").unwrap(), TimeSpan { secs: 150, nanos: 0 });
    assert_eq!(parse_duration_str("250ms").unwrap(), TimeSpan { secs: 0, nanos: 250_000_000 });
}

#[test]
fn bad_duration_is_a_config_error_naming_the_input() {
    let m = config_message(parse_duration_str("soon").unwrap_err());
    assert!(m.starts_with("Invalid duration 'soon': "), "{}", m);
    assert!(m.len() > "Invalid duration 'soon': ".len());
}

#[test]
fn headers_split_at_first_colon_and_trim() {
    let h = parse_headers(&["Content-Type:  application/json ".to_string(), "X-Url: http://a:1".to_string()]).unwrap();
    assert_eq!(
        h,
        vec![
            ("Content-Type".to_string(), "application/json".to_string()),
            ("X-Url".to_string(), "http://a:1".to_string()),
        ]
    );
}

#[test]
fn later_header_replaces_earlier_value() {
    let h = parse_headers(&["A: 1".to_string(), "B: 2".to_string(), "A: 3".to_string()]).unwrap();
    assert_eq!(h, vec![("A".to_string(), "3".to_string()), ("B".to_string(), "2".to_string())]);
}

#[test]
fn header_without_colon_is_rejected() {
    let e = parse_headers(&["A: 1".to_string(), "broken".to_string(), "alsobroken".to_string()]).unwrap_err();
    assert_eq!(config_message(e), "Invalid header format 'broken', expected 'Key: Value'");
}

#[test]
fn no_headers_is_empty() {
    assert!(parse_headers(&[]).unwrap().is_empty());
}

#[test]
fn output_formats() {
    assert_eq!(output_format_from("json").unwrap(), OutputFormat::Json);
    assert_eq!(output_format_from("text").unwrap(), OutputFormat::Text);
    assert_eq!(
        config_message(output_format_from("xml").unwrap_err()),
        "Unknown output format 'xml', expected 'text' or 'json'"
    );
}

#[test]
fn single_url_defaults() {
    let c = Config::from_cli(&cli(Some("http://localhost:8080/api")), None).unwrap();
    assert_eq!(c.groups.len(), 1);
    let g = &c.groups[0];
    assert_eq!(g.name, "default");
    assert_eq!(g.connections, 10);
    assert_eq!(g.test_mode, TestMode::Duration(TimeSpan { secs: 10, nanos: 0 }));
    assert_eq!(g.timeout, TimeSpan { secs: 5, nanos: 0 });
    assert_eq!(g.ramp_up, None);
    assert!(!g.insecure);
    assert_eq!(g.endpoints.len(), 1);
    assert_eq!(g.endpoints[0].url, "http://localhost:8080/api");
    assert_eq!(g.endpoints[0].method, "GET");
    assert_eq!(g.endpoints[0].weight, 1);
    assert_eq!(c.output_format, OutputFormat::Text);
    assert!(c.threads >= 1);
}

#[test]
fn single_url_options() {
    let mut a = cli(Some("http://h/x"));
    a.method = "post".to_string();
    a.num_requests = Some(10000);
    a.ramp_up = Some("5s".to_string());
    a.headers = vec!["Content-Type: application/json".to_string()];
    a.body = Some("{\"key\":\"value\"}".to_string());
    a.threads = Some(3);
    a.output_format = "JSON".to_string();
    a.no_progress = true;
    a.connections = 100;
    let c = Config::from_cli(&a, None).unwrap();
    let g = &c.groups[0];
    assert_eq!(g.endpoints[0].method, "POST");
    assert_eq!(g.test_mode, TestMode::RequestCount(10000));
    assert_eq!(g.ramp_up, Some(TimeSpan { secs: 5, nanos: 0 }));
    assert_eq!(g.connections, 100);
    assert_eq!(g.endpoints[0].headers, vec![("Content-Type".to_string(), "application/json".to_string())]);
    assert_eq!(g.endpoints[0].body.as_deref(), Some("{\"key\":\"value\"}"));
    assert_eq!(c.threads, 3);
    assert_eq!(c.output_format, OutputFormat::Json);
    assert!(c.no_progress);
}

#[test]
fn url_is_required_without_config() {
    let e = Config::from_cli(&cli(None), None).unwrap_err();
    assert_eq!(config_message(e), "URL is required in single-URL mode. Provide a URL or use --config");
}

#[test]
fn unknown_output_format_comes_first() {
    let mut a = cli(None);
    a.output_format = "xml".to_string();
    let e = Config::from_cli(&a, None).unwrap_err();
    assert_eq!(config_message(e), "Unknown output format 'xml', expected 'text' or 'json'");
}

#[test]
fn bad_timeout_is_reported() {
    let mut a = cli(Some("http://h"));
    a.timeout = "never".to_string();
    let m = config_message(Config::from_cli(&a, None).unwrap_err());
    assert!(m.starts_with("Invalid duration 'never'"), "{}", m);
}

#[test]
fn duration_ignored_in_count_mode() {
    let mut a = cli(Some("http://h"));
    a.duration = "not a duration".to_string();
    a.num_requests = Some(5);
    assert!(Config::from_cli(&a, None).is_ok());
}

#[test]
fn file_load_error_is_passed_on() {
    let mut a = cli(None);
    a.config = Some("x.yaml".to_string());
    let e = Config::from_cli(&a, Some(Err(DhanushError::Io("missing".to_string())))).unwrap_err();
    assert!(matches!(e, DhanushError::Io(m) if m == "missing"));
}

#[test]
fn yaml_groups_take_defaults_and_overrides() {
    let mut api = group("API endpoints", vec![
        endpoint("http://api/users", Some(50)),
        YamlEndpoint {
            url: "http://api/orders".to_string(),
            method: Some("post".to_string()),
            headers: Some(vec![("Content-Type".to_string(), "application/json".to_string())]),
            body: Some("{\"item\":\"widget\"}".to_string()),
            weight: Some(30),
        },
        endpoint("http://api/health", None),
    ]);
    api.connections = Some(200);
    api.duration = Some("60s".to_string());
    api.ramp_up = Some("10s".to_string());
    let assets = group("Static assets", vec![endpoint("http://cdn/style.css", Some(60))]);
    let yaml = YamlConfig {
        defaults: Some(YamlDefaults {
            connections: Some(100),
            duration: Some("30s".to_string()),
            timeout: Some("5s".to_string()),
            ramp_up: Some("3s".to_string()),
            ..no_defaults()
        }),
        groups: vec![api, assets],
    };
    let gs = Config::build_groups_from_yaml(yaml, &cli(None)).unwrap();
    assert_eq!(gs.len(), 2);
    assert_eq!(gs[0].name, "API endpoints");
    assert_eq!(gs[0].connections, 200);
    assert_eq!(gs[0].test_mode, TestMode::Duration(TimeSpan { secs: 60, nanos: 0 }));
    assert_eq!(gs[0].ramp_up, Some(TimeSpan { secs: 10, nanos: 0 }));
    assert_eq!(gs[0].endpoints[1].method, "POST");
    assert_eq!(gs[0].endpoints[2].method, "GET");
    assert_eq!(gs[0].endpoints[2].weight, 1);
    assert_eq!(gs[1].connections, 100);
    assert_eq!(gs[1].test_mode, TestMode::Duration(TimeSpan { secs: 30, nanos: 0 }));
    assert_eq!(gs[1].ramp_up, Some(TimeSpan { secs: 3, nanos: 0 }));
    assert_eq!(gs[1].timeout, TimeSpan { secs: 5, nanos: 0 });
}

#[test]
fn yaml_builtin_defaults() {
    let yaml = YamlConfig { defaults: None, groups: vec![group("g", vec![endpoint("http://x", None)])] };
    let gs = Config::build_groups_from_yaml(yaml, &cli(None)).unwrap();
    assert_eq!(gs[0].connections, 10);
    assert_eq!(gs[0].test_mode, TestMode::Duration(TimeSpan { secs: 10, nanos: 0 }));
    assert_eq!(gs[0].timeout, TimeSpan { secs: 5, nanos: 0 });
    assert!(!gs[0].insecure);
    assert_eq!(gs[0].ramp_up, None);
}

#[test]
fn yaml_request_count_precedence() {
    let mut g1 = group("a", vec![endpoint("http://x", None)]);
    g1.num_requests = Some(7);
    g1.duration = Some("1s".to_string());
    let mut g2 = group("b", vec![endpoint("http://x", None)]);
    g2.duration = Some("2s".to_string());
    let g3 = group("c", vec![endpoint("http://x", None)]);
    let yaml = YamlConfig {
        defaults: Some(YamlDefaults { num_requests: Some(99), duration: Some("9s".to_string()), ..no_defaults() }),
        groups: vec![g1, g2, g3],
    };
    let gs = Config::build_groups_from_yaml(yaml, &cli(None)).unwrap();
    assert_eq!(gs[0].test_mode, TestMode::RequestCount(7));
    assert_eq!(gs[1].test_mode, TestMode::Duration(TimeSpan { secs: 2, nanos: 0 }));
    assert_eq!(gs[2].test_mode, TestMode::RequestCount(99));
}

#[test]
fn command_line_overrides_every_file_group() {
    let mut g1 = group("a", vec![endpoint("http://x", None)]);
    g1.num_requests = Some(7);
    g1.ramp_up = Some("1s".to_string());
    let g2 = group("b", vec![endpoint("http://x", None)]);
    let yaml = YamlConfig { defaults: None, groups: vec![g1, g2] };
    let mut a = cli(None);
    a.num_requests = Some(500);
    a.ramp_up = Some("4s".to_string());
    let gs = Config::build_groups_from_yaml(yaml, &a).unwrap();
    for g in &gs {
        assert_eq!(g.test_mode, TestMode::RequestCount(500));
        assert_eq!(g.ramp_up, Some(TimeSpan { secs: 4, nanos: 0 }));
    }
}

#[test]
fn yaml_errors() {
    let e = Config::build_groups_from_yaml(YamlConfig { defaults: None, groups: vec![] }, &cli(None)).unwrap_err();
    assert_eq!(config_message(e), "Config file has no groups");
    let e = Config::build_groups_from_yaml(
        YamlConfig { defaults: None, groups: vec![group("empty", vec![])] },
        &cli(None),
    )
    .unwrap_err();
    assert_eq!(config_message(e), "Group 'empty' has no endpoints");
    let e = Config::build_groups_from_yaml(
        YamlConfig { defaults: None, groups: vec![group("zero", vec![endpoint("http://x", Some(0)), endpoint("http://y", Some(0))])] },
        &cli(None),
    )
    .unwrap_err();
    assert_eq!(config_message(e), "Group 'zero' has zero total weight");
}

#[test]
fn first_failing_group_reports() {
    let mut g1 = group("a", vec![]);
    g1.duration = Some("bogus".to_string());
    let g2 = group("b", vec![]);
    let e = Config::build_groups_from_yaml(YamlConfig { defaults: None, groups: vec![g1, g2] }, &cli(None)).unwrap_err();
    assert!(config_message(e).starts_with("Invalid duration 'bogus'"));
}

#[test]
fn from_cli_uses_the_file() {
    let mut a = cli(None);
    a.config = Some("c.yaml".to_string());
    a.output_format = "Json".to_string();
    let yaml = YamlConfig { defaults: None, groups: vec![group("g", vec![endpoint("http://x", Some(2))])] };
    let c = Config::from_cli(&a, Some(Ok(yaml))).unwrap();
    assert_eq!(c.groups.len(), 1);
    assert_eq!(c.groups[0].name, "g");
    assert_eq!(c.output_format, OutputFormat::Json);
}

#[test]
fn error_messages_carry_their_kind() {
    assert_eq!(DhanushError::Config("bad".to_string()).message(), "Configuration error: bad");
    assert_eq!(DhanushError::Io("gone".to_string()).message(), "IO error: gone");
    assert_eq!(DhanushError::Yaml("odd".to_string()).message(), "YAML parse error: odd");
    assert_eq!(DhanushError::Http("tls".to_string()).message(), "HTTP client error: tls");
}

#[test]
fn header_trimming_matches_str_trim() {
    let lines = [
        "\u{3000}Name\u{a0}:\t value \u{2003}\n",
        "\u{85}K\u{1680}:\u{200a}v\u{2028}\u{2029}\u{202f}\u{205f}",
        "  spaced key  :  a : b  ",
        ":",
        "x\u{200b}:\u{200b}y",
    ];
    let parsed = parse_headers(&lines.iter().map(|s| s.to_string()).collect::<Vec<_>>()).unwrap();
    for (line, (k, v)) in lines.iter().zip(parsed.iter()) {
        let (ek, ev) = line.split_once(':').unwrap();
        assert_eq!(k, ek.trim());
        assert_eq!(v, ev.trim());
    }
}

#[test]
fn long_durations_reach_the_parser() {
    assert_eq!(parse_duration_str("100000000000ns").unwrap(), TimeSpan { secs: 100, nanos: 0 });
    assert_eq!(parse_duration_str("1000000000000ns").unwrap(), TimeSpan { secs: 1000, nanos: 0 });
    assert_eq!(
        parse_duration_str("10000000000000ms").unwrap(),
        TimeSpan { secs: 10_000_000_000, nanos: 0 }
    );
    assert_eq!(
        parse_duration_str("5000000000000d 1.5s").unwrap(),
        TimeSpan { secs: 5_000_000_000_000 * 86_400 + 1, nanos: 500_000_000 }
    );
    assert_eq!(parse_duration_str("18446744073709551615s").unwrap(), TimeSpan { secs: u64::MAX, nanos: 0 });
    assert_eq!(
        parse_duration_str("99999999999y 1ms").unwrap(),
        TimeSpan { secs: 99_999_999_999 * 31_557_600, nanos: 1_000_000 }
    );
    let m = config_message(parse_duration_str("99999999999999999999y").unwrap_err());
    assert_eq!(
        m,
        "Invalid duration '99999999999999999999y': number is too large or cannot be represented \
         without a lack of precision (values below 1ns are not supported)"
    );
}

#[test]
fn durations_that_could_overflow_the_parser_are_refused() {
    let m = config_message(parse_duration_str("18446744073709551615s 1000000000ns").unwrap_err());
    assert_eq!(m, "Invalid duration '18446744073709551615s 1000000000ns': too large to add up safely");
    let m = config_message(parse_duration_str("18446744073709551615s 0.5s 0.5s").unwrap_err());
    assert!(m.ends_with("too large to add up safely"));
}

#[test]
fn file_threads_apply_without_the_flag() {
    let mut a = cli(None);
    a.config = Some("c.yaml".to_string());
    let mut d = no_defaults();
    d.threads = Some(8);
    let yaml = YamlConfig { defaults: Some(d.clone()), groups: vec![group("g", vec![endpoint("http://x", None)])] };
    let c = Config::from_cli(&a, Some(Ok(yaml))).unwrap();
    assert_eq!(c.threads, 8);
    a.threads = Some(3);
    let yaml = YamlConfig { defaults: Some(d), groups: vec![group("g", vec![endpoint("http://x", None)])] };
    let c = Config::from_cli(&a, Some(Ok(yaml))).unwrap();
    assert_eq!(c.threads, 3);
}

#[test]
fn weights_up_to_u32_max_are_accepted() {
    let yaml = YamlConfig {
        defaults: None,
        groups: vec![group("g", vec![endpoint("http://a", Some(u32::MAX - 1)), endpoint("http://b", Some(1))])],
    };
    let gs = Config::build_groups_from_yaml(yaml, &cli(None)).unwrap();
    assert_eq!(gs[0].endpoints.len(), 2);
}

#[test]
fn weights_beyond_u32_max_give_no_configuration() {
    let mut a = cli(None);
    a.config = Some("c.yaml".to_string());
    let heavy = || group("g", vec![endpoint("http://a", Some(u32::MAX)), endpoint("http://b", Some(1))]);
    let yaml = YamlConfig { defaults: None, groups: vec![heavy()] };
    assert!(Config::from_cli_checked(&a, Some(Ok(yaml))).is_none());

    // An earlier group's error ends the building before the sum is taken.
    let mut bad = group("bad", vec![]);
    bad.duration = Some("bogus".to_string());
    let yaml = YamlConfig { defaults: None, groups: vec![bad, heavy()] };
    let e = Config::from_cli_checked(&a, Some(Ok(yaml))).unwrap().unwrap_err();
    assert!(config_message(e).starts_with("Invalid duration 'bogus'"));

    // An unknown output format is reported first.
    a.output_format = "xml".to_string();
    let yaml = YamlConfig { defaults: None, groups: vec![heavy()] };
    let e = Config::from_cli_checked(&a, Some(Ok(yaml))).unwrap().unwrap_err();
    assert_eq!(config_message(e), "Unknown output format 'xml', expected 'text' or 'json'");

    // Without a file nothing is summed.
    let b = cli(Some("http://x"));
    assert!(Config::from_cli_checked(&b, None).unwrap().is_ok());
}
