use driftdns::config::{
    default_cloudflare_api_token_env, default_history_file, default_history_limit, default_ttl,
    default_web_bind, parse_duration, parse_record_type, CloudflareRecordConfig, Config,
    ConfigError, DnsBackendConfig, DurationError, IpDetectorConfig, IpDetectorListConfig,
    RecordConfig, RecordType, WebConfig,
};
use driftdns::ip::IpAddress;

fn list(provider: &str) -> IpDetectorListConfig {
    IpDetectorListConfig { provider: provider.to_string() }
}

fn record(name: &str, record_type: RecordType) -> RecordConfig {
    RecordConfig {
        name: name.to_string(),
        record_type,
        backend: DnsBackendConfig::Cloudflare(CloudflareRecordConfig {
            api_token: None,
            api_token_env: default_cloudflare_api_token_env(),
            zone_id: "zone".to_string(),
            ttl: default_ttl(),
            proxied: None,
        }),
    }
}

fn config(records: Vec<RecordConfig>, ipv4: bool, ipv6: bool) -> Config {
    Config {
        history_file: default_history_file(),
        dry_run: false,
        check_interval: None,
        history_limit: default_history_limit(),
        web: WebConfig::default(),
        ip_detector: IpDetectorConfig {
            ipv4: if ipv4 { Some(list("ipify")) } else { None },
            ipv6: if ipv6 { Some(list("icanhazip")) } else { None },
        },
        records,
    }
}

#[test]
fn matches_ip_version_to_record_type() {
    let v4_localhost = IpAddress::V4(0x7f00_0001);
    let v6_localhost = IpAddress::V6(1);
    assert!(RecordType::A.matches_ip(v4_localhost));
    assert!(RecordType::Aaaa.matches_ip(v6_localhost));
    assert!(!RecordType::A.matches_ip(v6_localhost));
    assert!(!RecordType::Aaaa.matches_ip(v4_localhost));
}

#[test]
fn record_type_names() {
    assert_eq!(RecordType::A.history_key(), "A");
    assert_eq!(RecordType::Aaaa.history_key(), "AAAA");
    assert_eq!(RecordType::Aaaa.as_dns_type(), "AAAA");
}

#[test]
fn record_types_read_in_any_case() {
    assert_eq!(parse_record_type("a"), Ok(RecordType::A));
    assert_eq!(parse_record_type("AaAa"), Ok(RecordType::Aaaa));
    assert_eq!("AAAA".parse::<RecordType>(), Ok(RecordType::Aaaa));
    assert_eq!(
        parse_record_type("cname"),
        Err(ConfigError::UnsupportedRecordType("CNAME".to_string()))
    );
    assert_eq!(
        parse_record_type(" A"),
        Err(ConfigError::UnsupportedRecordType(" A".to_string()))
    );
}

#[test]
fn detector_lists_split_at_commas() {
    let two = list("ipify, ip.sb");
    let names = two.provider_names().unwrap();
    assert_eq!(names, vec!["ipify", "ip.sb"]);
    let spaced = list(" cloudflare_dns ,, ipify ,\t");
    let names = spaced.provider_names().unwrap();
    assert_eq!(names, vec!["cloudflare_dns", "ipify"]);
    assert_eq!(list(" , ,").provider_names(), Err(ConfigError::EmptyDetectorList));
    assert_eq!(list("").provider_names(), Err(ConfigError::EmptyDetectorList));
}

#[test]
fn backend_names() {
    let r = record("x", RecordType::A);
    assert_eq!(r.backend.backend_name(), "cloudflare");
}

#[test]
fn defaults() {
    assert_eq!(default_history_file(), "ddns-history.txt");
    assert_eq!(default_history_limit(), 10);
    assert_eq!(default_web_bind(), "127.0.0.1:8080");
    assert_eq!(default_ttl(), 1);
    assert_eq!(default_cloudflare_api_token_env(), Some("CLOUDFLARE_API_TOKEN".to_string()));
    let web = WebConfig::default();
    assert!(!web.enabled);
    assert_eq!(web.bind, "127.0.0.1:8080");
}

#[test]
fn validation_requires_records_and_detectors() {
    assert_eq!(config(vec![], true, true).validate(), Err(ConfigError::NoRecords));
    assert_eq!(config(vec![record("a.example", RecordType::A)], true, false).validate(), Ok(()));
    assert_eq!(
        config(
            vec![record("a.example", RecordType::A), record("b.example", RecordType::Aaaa)],
            true,
            false
        )
        .validate(),
        Err(ConfigError::MissingIpv6Detector("b.example".to_string()))
    );
    assert_eq!(
        config(
            vec![record("b.example", RecordType::Aaaa), record("a.example", RecordType::A)],
            false,
            false
        )
        .validate(),
        Err(ConfigError::MissingIpv6Detector("b.example".to_string()))
    );
    assert_eq!(
        config(vec![record("a.example", RecordType::A)], false, true).validate(),
        Err(ConfigError::MissingIpv4Detector("a.example".to_string()))
    );
}

#[test]
fn durations_in_each_unit() {
    assert_eq!(parse_duration("1s"), Ok(1));
    assert_eq!(parse_duration("1m"), Ok(60));
    assert_eq!(parse_duration("1h"), Ok(60 * 60));
    assert_eq!(parse_duration("1d"), Ok(24 * 60 * 60));
    assert_eq!(parse_duration(" 30S "), Ok(30));
    assert_eq!(parse_duration("5M"), Ok(300));
    assert_eq!(parse_duration("2H"), Ok(7200));
    assert_eq!(parse_duration("+3D"), Ok(3 * 86400));
}

#[test]
fn duration_errors() {
    assert_eq!(parse_duration(""), Err(DurationError::TooShort));
    assert_eq!(parse_duration(" s "), Err(DurationError::TooShort));
    assert_eq!(parse_duration("xs"), Err(DurationError::InvalidAmount));
    assert_eq!(parse_duration("-1s"), Err(DurationError::InvalidAmount));
    assert_eq!(parse_duration("+s"), Err(DurationError::InvalidAmount));
    assert_eq!(parse_duration("1 s"), Err(DurationError::InvalidAmount));
    assert_eq!(parse_duration("0m"), Err(DurationError::Zero));
    assert_eq!(parse_duration("10w"), Err(DurationError::UnsupportedUnit));
    assert_eq!(parse_duration("18446744073709551615s"), Ok(u64::MAX));
    assert_eq!(parse_duration("18446744073709551616s"), Err(DurationError::InvalidAmount));
    assert_eq!(parse_duration("18446744073709551615m"), Err(DurationError::TooLarge));
    assert_eq!(parse_duration("213503982334601d"), Ok(213503982334601 * 86400));
    assert_eq!(parse_duration("213503982334602d"), Err(DurationError::TooLarge));
}
