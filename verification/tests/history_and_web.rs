use driftdns::config::{
    parse_duration,
    CloudflareRecordConfig, Config, DnsBackendConfig, IpDetectorConfig, RecordConfig, RecordType,
    WebConfig,
};
use driftdns::history::{
    format_history_line, format_history_text, parse_history_line, parse_history_text, History,
    HistoryEntry, HistoryError, HistoryLine,
};
use driftdns::ip::IpAddress;
use driftdns::logger::format_log_line;
use driftdns::text::{push_decimal, trimmed};
use driftdns::web::{
    dashboard_html, dashboard_state, format_duration, http_response, record_state, request_path,
    route_request, Route,
};

#[test]
fn history_keeps_the_newest() {
    let mut h = History::new();
    assert_eq!(h.get(RecordType::A), None);
    h.set(RecordType::A, IpAddress::V4(1), 100, 2);
    h.set(RecordType::A, IpAddress::V4(2), 200, 2);
    h.set(RecordType::A, IpAddress::V4(3), 300, 2);
    assert_eq!(h.get(RecordType::A), Some(IpAddress::V4(3)));
    assert_eq!(
        h.entries(RecordType::A),
        &vec![
            HistoryEntry { ip: IpAddress::V4(2), changed_at: 200 },
            HistoryEntry { ip: IpAddress::V4(3), changed_at: 300 }
        ]
    );
    assert_eq!(h.get(RecordType::Aaaa), None);
    h.set(RecordType::Aaaa, IpAddress::V6(9), 400, 0);
    assert_eq!(h.get(RecordType::Aaaa), None);
    assert_eq!(h.latest_entry(RecordType::A), Some(&HistoryEntry { ip: IpAddress::V4(3), changed_at: 300 }));
}

#[test]
fn history_lines() {
    assert_eq!(format_history_line(RecordType::A, 1710000000, "203.0.113.10"), "A|1710000000|203.0.113.10");
    let line = parse_history_line("AAAA|1710000300|2001:db8::10\r").unwrap();
    assert_eq!(line.record_type, RecordType::Aaaa);
    assert_eq!(line.changed_at, 1710000300);
    assert_eq!(line.ip_text, "2001:db8::10");
    assert_eq!(parse_history_line("A|1").err(), Some(HistoryError::MalformedLine));
    assert_eq!(parse_history_line("MX|1|x").err(), Some(HistoryError::UnknownRecordType));
    assert_eq!(parse_history_line("a|1|x").err(), Some(HistoryError::UnknownRecordType));
    assert_eq!(parse_history_line("A|now|x").err(), Some(HistoryError::BadTimestamp));
    let written = format_history_line(RecordType::Aaaa, 5, "2001:db8::1");
    let read = parse_history_line(&written).unwrap();
    assert_eq!((read.record_type, read.changed_at, read.ip_text.as_str()), (RecordType::Aaaa, 5, "2001:db8::1"));
}

#[test]
fn history_files() {
    let lines = parse_history_text("A|1710000000|203.0.113.10\n\nAAAA|1710000300|2001:db8::10\n").unwrap();
    assert_eq!(lines.len(), 2);
    assert_eq!(lines[1].ip_text, "2001:db8::10");
    assert_eq!(parse_history_text("A|1|x\nbad\nMX|1|y").err(), Some(HistoryError::MalformedLine));
    assert_eq!(parse_history_text("").unwrap().len(), 0);
}

#[test]
fn history_files_read_back() {
    let lines = vec![
        HistoryLine { record_type: RecordType::A, changed_at: 1710000000, ip_text: "203.0.113.10".to_string() },
        HistoryLine { record_type: RecordType::Aaaa, changed_at: 1710000300, ip_text: "2001:db8::10".to_string() },
        HistoryLine { record_type: RecordType::A, changed_at: 0, ip_text: "198.51.100.7".to_string() },
    ];
    let text = format_history_text(&lines);
    assert_eq!(
        text,
        "A|1710000000|203.0.113.10\nAAAA|1710000300|2001:db8::10\nA|0|198.51.100.7\n"
    );
    let read = parse_history_text(&text).unwrap();
    assert_eq!(read.len(), 3);
    for (a, b) in read.iter().zip(lines.iter()) {
        assert_eq!((a.record_type, a.changed_at, a.ip_text.as_str()), (b.record_type, b.changed_at, b.ip_text.as_str()));
    }
    assert_eq!(format_history_text(&vec![]), "");
}

#[test]
fn request_paths() {
    assert_eq!(request_path("GET /api/state HTTP/1.1\r\nHost: x\r\n\r\n"), "/api/state");
    assert_eq!(request_path("GET  /  HTTP/1.1\r\n"), "/");
    assert_eq!(request_path(""), "/");
    assert_eq!(request_path("GET\n/x y"), "/");
    assert_eq!(request_path("GET /favicon.ico"), "/favicon.ico");
    assert_eq!(route_request(b"GET / HTTP/1.1\r\n"), Route::Dashboard);
    assert_eq!(route_request(b"GET /api/state HTTP/1.1\r\n"), Route::State);
    assert_eq!(route_request(b"GET /nope HTTP/1.1\r\n"), Route::NotFound);
    assert_eq!(route_request(b""), Route::Dashboard);
    assert_eq!(route_request(b"GET /api/state\xff HTTP/1.1\r\n"), Route::NotFound);
    assert_eq!(route_request(b"\xffGET /api/state HTTP/1.1\r\n"), Route::State);
}

#[test]
fn http_responses() {
    assert_eq!(
        http_response("404 Not Found", "text/plain; charset=utf-8", "not found"),
        "HTTP/1.1 404 Not Found\r\nContent-Type: text/plain; charset=utf-8\r\nContent-Length: 9\r\nCache-Control: no-store\r\nConnection: close\r\n\r\nnot found"
    );
    let r = http_response("200 OK", "text/plain", "\u{e9}");
    assert!(r.contains("Content-Length: 2\r\n"));
    assert!(dashboard_html().starts_with("<!doctype html>"));
}

#[test]
fn durations_for_display() {
    assert_eq!(format_duration(0), "0s");
    assert_eq!(format_duration(45), "45s");
    assert_eq!(format_duration(60), "1m");
    assert_eq!(format_duration(5400), "1h 30m");
    assert_eq!(format_duration(86400), "1d");
    assert_eq!(format_duration(90061), "1d 1h 1m 1s");
    assert_eq!(format_duration(86401), "1d 1s");
}

#[test]
fn displayed_durations_read_back() {
    for seconds in [1u64, 59, 60, 3599, 3600, 5400, 86399, 86400, 90061, 1_000_000, u64::MAX] {
        let shown = format_duration(seconds);
        let parts: Vec<&str> = shown.split(' ').collect();
        assert!(!parts.is_empty() && parts.len() <= 4);
        let total: u128 = parts.iter().map(|p| parse_duration(p).unwrap() as u128).sum();
        assert_eq!(total, seconds as u128);
        if parts.len() == 1 {
            assert_eq!(parse_duration(&shown), Ok(seconds));
        }
    }
}

#[test]
fn dashboard_state_of_records() {
    let record = RecordConfig {
        name: "x.example".to_string(),
        record_type: RecordType::A,
        backend: DnsBackendConfig::Cloudflare(CloudflareRecordConfig {
            api_token: None,
            api_token_env: None,
            zone_id: "z".to_string(),
            ttl: 1,
            proxied: None,
        }),
    };
    let mut history = History::new();
    let state = record_state(&record, &history, 10);
    assert_eq!(state.current_ip, None);
    assert_eq!(state.last_changed_at, None);
    history.push_loaded(RecordType::A, HistoryEntry { ip: IpAddress::V4(7), changed_at: 0 });
    let state = record_state(&record, &history, 10);
    assert_eq!(state.current_ip, Some(IpAddress::V4(7)));
    assert_eq!(state.last_changed_at, None);
    assert_eq!(state.record_type, "A");
    assert_eq!(state.dns_backend, "cloudflare");
    history.set(RecordType::A, IpAddress::V4(8), 1234, 10);
    let state = record_state(&record, &history, 10);
    assert_eq!(state.last_changed_at, Some(1234));
    assert_eq!(state.history.len(), 2);

    let config = Config {
        history_file: "h".to_string(),
        dry_run: false,
        check_interval: Some(3600),
        history_limit: 3,
        web: WebConfig::default(),
        ip_detector: IpDetectorConfig { ipv4: None, ipv6: None },
        records: vec![record],
    };
    let dashboard = dashboard_state(&config, &history);
    assert_eq!(dashboard.check_interval, Some("1h".to_string()));
    assert_eq!(dashboard.history_limit, 3);
    assert_eq!(dashboard.records.len(), 1);
}

#[test]
fn log_lines_and_numbers() {
    assert_eq!(
        format_log_line(1780076387, 23, "INFO", "main", "update_started dry_run=true"),
        "1780076387.023 level=INFO target=main update_started dry_run=true"
    );
    assert_eq!(format_log_line(0, 5, "WARN", "t", "m"), "0.005 level=WARN target=t m");
    assert_eq!(format_log_line(1, 999, "ERROR", "t", ""), "1.999 level=ERROR target=t ");
    assert_eq!(format_log_line(2, 1234, "INFO", "t", "m"), format!("2.{:03} level=INFO target=t m", 1234));
    let mut s = String::from("n=");
    push_decimal(&mut s, 18446744073709551615);
    assert_eq!(s, "n=18446744073709551615");
    assert_eq!(trimmed("\u{3000} x \u{85}"), "x");
}
