use driftdns::cloudflare::{
    api_token_source, authorization_header, authorization_value, plan_upsert, record_url, records_url, ApiError,
    BackendError, BackendSettings, CloudflareResponse, ExistingRecord, TokenSource, UpsertAction,
};
use driftdns::config::{
    CloudflareRecordConfig, Config, DnsBackendConfig, IpDetectorConfig, IpDetectorListConfig,
    RecordConfig, RecordType, WebConfig,
};
use driftdns::detector::{DetectorError, DetectorKind};
use driftdns::history::History;
use driftdns::ip::IpAddress;
use driftdns::runner::{
    check_interval_or_default, distinct_record_types, ensure_ip_detector_supports,
    finish_record_type, finish_update, history_needs_saving, ip_changed, ip_detector_config,
    is_dry_run, keeps_running, records_of_type, validate_ip_detector_placement, RunError,
    after_reload, config_changed, next_step, record_write, LoopEvent, LoopStep, RecordWrite,
};

fn cloudflare(token: Option<&str>, env: Option<&str>) -> CloudflareRecordConfig {
    CloudflareRecordConfig {
        api_token: token.map(|t| t.to_string()),
        api_token_env: env.map(|e| e.to_string()),
        zone_id: "zone".to_string(),
        ttl: 60,
        proxied: Some(false),
    }
}

fn record(name: &str, record_type: RecordType) -> RecordConfig {
    RecordConfig {
        name: name.to_string(),
        record_type,
        backend: DnsBackendConfig::Cloudflare(cloudflare(None, Some("CLOUDFLARE_API_TOKEN"))),
    }
}

fn config(ipv4: Option<&str>, ipv6: Option<&str>, records: Vec<RecordConfig>) -> Config {
    Config {
        history_file: "h.txt".to_string(),
        dry_run: false,
        check_interval: None,
        history_limit: 10,
        web: WebConfig::default(),
        ip_detector: IpDetectorConfig {
            ipv4: ipv4.map(|p| IpDetectorListConfig { provider: p.to_string() }),
            ipv6: ipv6.map(|p| IpDetectorListConfig { provider: p.to_string() }),
        },
        records,
    }
}

#[test]
fn token_comes_from_config_then_environment() {
    assert_eq!(
        api_token_source(&cloudflare(Some("t"), Some("ENV"))),
        Ok(TokenSource::Inline("t".to_string()))
    );
    assert_eq!(
        api_token_source(&cloudflare(None, Some("ENV"))),
        Ok(TokenSource::Environment("ENV".to_string()))
    );
    assert_eq!(api_token_source(&cloudflare(None, None)), Err(BackendError::MissingApiToken));
    assert_eq!(authorization_value("abc"), "Bearer abc");
}

#[test]
fn api_urls() {
    assert_eq!(records_url("z1"), "https://api.cloudflare.com/client/v4/zones/z1/dns_records");
    assert_eq!(
        record_url("z1", "r9"),
        "https://api.cloudflare.com/client/v4/zones/z1/dns_records/r9"
    );
}

#[test]
fn upsert_decisions() {
    assert_eq!(plan_upsert(&vec![], "1.2.3.4"), UpsertAction::Create);
    let existing = vec![
        ExistingRecord { id: "a".to_string(), content: "1.2.3.4".to_string() },
        ExistingRecord { id: "b".to_string(), content: "5.6.7.8".to_string() },
    ];
    assert_eq!(plan_upsert(&existing, "1.2.3.4"), UpsertAction::AlreadyCurrent);
    assert_eq!(plan_upsert(&existing, "5.6.7.8"), UpsertAction::Update("a".to_string()));
}

#[test]
fn payload_carries_settings() {
    let settings = BackendSettings::from_config(&cloudflare(None, Some("E")));
    let payload = settings.payload("A", "x.example", "1.2.3.4");
    assert_eq!(payload.record_type, "A");
    assert_eq!(payload.name, "x.example");
    assert_eq!(payload.content, "1.2.3.4");
    assert_eq!(payload.ttl, 60);
    assert_eq!(payload.proxied, Some(false));
    assert_eq!(settings.zone_id, "zone");
}

#[test]
fn api_responses() {
    let ok = CloudflareResponse { success: true, errors: vec![], result: Some(5u32) };
    assert_eq!(ok.into_result(), Ok(5));
    let empty: CloudflareResponse<u32> =
        CloudflareResponse { success: true, errors: vec![], result: None };
    assert_eq!(empty.into_result(), Err(BackendError::EmptyResponse));
    let failed: CloudflareResponse<u32> = CloudflareResponse {
        success: false,
        errors: vec![
            ApiError { code: 1003, message: "Invalid zone".to_string() },
            ApiError { code: 7, message: "x".to_string() },
        ],
        result: Some(1),
    };
    assert_eq!(
        failed.into_result(),
        Err(BackendError::Api("1003: Invalid zone; 7: x".to_string()))
    );
    let none: CloudflareResponse<u32> =
        CloudflareResponse { success: false, errors: vec![], result: None };
    assert_eq!(none.into_result(), Err(BackendError::Api(String::new())));
}

#[test]
fn detector_lists_per_family() {
    let c = config(Some("ipify"), None, vec![record("a", RecordType::A)]);
    assert_eq!(ip_detector_config(&c, RecordType::A).unwrap().provider, "ipify");
    assert_eq!(
        ip_detector_config(&c, RecordType::Aaaa).err(),
        Some(RunError::DetectorNotConfigured(RecordType::Aaaa))
    );
}

#[test]
fn detector_placement() {
    let ok = config(Some("cloudflare_dns, ipify"), Some("ip.sb"), vec![]);
    assert_eq!(validate_ip_detector_placement(&ok), Ok(()));
    let bad = config(Some("ipify"), Some("icanhazip, cloudflare_dns"), vec![]);
    assert_eq!(
        validate_ip_detector_placement(&bad),
        Err(RunError::DetectorDoesNotServe {
            record_type: RecordType::Aaaa,
            detector: DetectorKind::CloudflareDns
        })
    );
    let unknown = IpDetectorListConfig { provider: "nope".to_string() };
    assert_eq!(
        ensure_ip_detector_supports(&unknown, RecordType::A),
        Err(RunError::Detector(DetectorError::UnsupportedDetector("nope".to_string())))
    );
}

#[test]
fn record_types_of_a_run() {
    let records = vec![
        record("x", RecordType::Aaaa),
        record("y", RecordType::A),
        record("z", RecordType::Aaaa),
    ];
    assert_eq!(distinct_record_types(&records), vec![RecordType::A, RecordType::Aaaa]);
    assert_eq!(records_of_type(&records, RecordType::Aaaa), vec![0, 2]);
    assert_eq!(records_of_type(&records, RecordType::A), vec![1]);
    assert_eq!(distinct_record_types(&vec![]), Vec::<RecordType>::new());
}

#[test]
fn history_advances_only_after_every_record() {
    let ip = IpAddress::V4(0xcb00_710a);
    let mut history = History::new();

    assert_eq!(
        finish_record_type(&mut history, RecordType::A, ip, 100, 2, vec!["A x: down".to_string()], false),
        Err(RunError::RecordUpdatesFailed(vec!["A x: down".to_string()]))
    );
    assert!(history.entries(RecordType::A).is_empty());

    assert_eq!(finish_record_type(&mut history, RecordType::A, ip, 100, 2, vec![], true), Ok(false));
    assert!(history.entries(RecordType::A).is_empty());

    assert_eq!(finish_record_type(&mut history, RecordType::A, ip, 100, 2, vec![], false), Ok(true));
    assert_eq!(history.get(RecordType::A), Some(ip));
    assert_eq!(history.entries(RecordType::A).len(), 1);
    assert_eq!(history.entries(RecordType::A)[0].changed_at, 100);
    assert!(history.entries(RecordType::Aaaa).is_empty());

    assert!(history_needs_saving(false, true));
    assert!(!history_needs_saving(true, true));
    assert!(!history_needs_saving(false, false));
    assert_eq!(finish_update(vec![]), Ok(()));
    assert_eq!(
        finish_update(vec!["AAAA: down".to_string()]),
        Err(RunError::UpdateFailed(vec!["AAAA: down".to_string()]))
    );
}

#[test]
fn address_changes() {
    let a = IpAddress::V4(1);
    assert!(ip_changed(None, a));
    assert!(!ip_changed(Some(a), a));
    assert!(ip_changed(Some(IpAddress::V4(2)), a));
    assert!(ip_changed(Some(IpAddress::V6(1)), a));
}

#[test]
fn run_mode() {
    let mut c = config(Some("ipify"), None, vec![]);
    assert!(!keeps_running(&c));
    assert_eq!(check_interval_or_default(&c), 60);
    assert!(is_dry_run(true, &c));
    assert!(!is_dry_run(false, &c));
    c.web.enabled = true;
    assert!(keeps_running(&c));
    c.web.enabled = false;
    c.check_interval = Some(300);
    assert!(keeps_running(&c));
    assert_eq!(check_interval_or_default(&c), 300);
    c.dry_run = true;
    assert!(is_dry_run(false, &c));
}

#[test]
fn run_loop_steps() {
    assert_eq!(next_step(&LoopEvent::Tick), LoopStep::Update);
    assert_eq!(next_step(&LoopEvent::ConfigChanged(Some(5))), LoopStep::Reload);
    assert_eq!(next_step(&LoopEvent::ConfigChanged(None)), LoopStep::Reload);

    assert!(!config_changed(Some(1), Some(1)));
    assert!(config_changed(Some(1), Some(2)));
    assert!(config_changed(None, Some(2)));
    assert!(config_changed(Some(1), None));
    assert!(!config_changed(None, None));

    let mut watched = Some(1);
    assert!(after_reload(&mut watched, Some(Some(3)), Some(2)));
    assert_eq!(watched, Some(3));

    let mut watched = Some(1);
    assert!(!after_reload(&mut watched, None, Some(2)));
    assert_eq!(watched, Some(2));
    assert!(!config_changed(watched, Some(2)));
}

#[test]
fn authorization_headers() {
    let header = authorization_header("abc123").unwrap().into_value();
    assert_eq!(header.to_str().unwrap(), "Bearer abc123");
    assert_eq!(authorization_header("caf\u{e9}").unwrap().into_value().as_bytes(), "Bearer caf\u{e9}".as_bytes());
    assert!(authorization_header("tab\tok").is_ok());
    assert!(authorization_header("caf\u{e9}").is_ok());
    assert_eq!(
        authorization_header("line\nbreak").err(),
        Some(BackendError::InvalidAuthorizationHeader)
    );
    assert_eq!(
        authorization_header("del\u{7f}").err(),
        Some(BackendError::InvalidAuthorizationHeader)
    );
}

#[test]
fn dry_runs_plan_writes() {
    assert_eq!(record_write(true), RecordWrite::Planned);
    assert_eq!(record_write(false), RecordWrite::Write);
}
