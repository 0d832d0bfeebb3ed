use driftdns::config::{IpDetectorListConfig, RecordType};
use driftdns::detector::{
    build_detector, build_detectors, detected, detector_url, ensure_record_type_matches_ip, icanhazip_url,
    query_id, query_id_of,
    next_random, normalize_provider_name, random_order, CloudflareDnsProvider, DetectorError,
    DetectorKind, Fallback,
};
use driftdns::ip::IpAddress;

#[test]
fn detector_names_are_normalized() {
    assert_eq!(normalize_provider_name(" IP.SB "), "ip_sb");
    assert_eq!(normalize_provider_name("Cloudflare-DNS"), "cloudflare_dns");
    let once = normalize_provider_name(" Ip.Sb-Two ");
    assert_eq!(once, "ip_sb_two");
    assert_eq!(normalize_provider_name(&once), once);
    assert_eq!(build_detector("ip.sb"), Ok(DetectorKind::IpSb));
    assert_eq!(build_detector(" IPIFY"), Ok(DetectorKind::Ipify));
    assert_eq!(build_detector("icanhazip"), Ok(DetectorKind::Icanhazip));
    assert_eq!(build_detector("cloudflare-dns"), Ok(DetectorKind::CloudflareDns));
    assert_eq!(
        build_detector("dig"),
        Err(DetectorError::UnsupportedDetector("dig".to_string()))
    );
}

#[test]
fn detector_lists_build_in_order() {
    let list = IpDetectorListConfig { provider: "cloudflare_dns, ipify, ip.sb".to_string() };
    assert_eq!(
        build_detectors(&list),
        Ok(vec![DetectorKind::CloudflareDns, DetectorKind::Ipify, DetectorKind::IpSb])
    );
    let bad = IpDetectorListConfig { provider: "ipify, nope, alsonot".to_string() };
    assert_eq!(build_detectors(&bad), Err(DetectorError::UnsupportedDetector("nope".to_string())));
    let empty = IpDetectorListConfig { provider: ",".to_string() };
    assert_eq!(build_detectors(&empty), Err(DetectorError::EmptyDetectorList));
}

#[test]
fn cloudflare_dns_serves_a_only() {
    assert!(DetectorKind::CloudflareDns.supports(RecordType::A));
    assert!(!DetectorKind::CloudflareDns.supports(RecordType::Aaaa));
    assert!(DetectorKind::Ipify.supports(RecordType::Aaaa));
    assert_eq!(DetectorKind::CloudflareDns.supported_record_types(), vec![RecordType::A]);
    assert_eq!(
        DetectorKind::IpSb.supported_record_types(),
        vec![RecordType::A, RecordType::Aaaa]
    );
    assert_eq!(DetectorKind::CloudflareDns.name(), "cloudflare_dns");
    let provider = CloudflareDnsProvider::new();
    assert_eq!(provider.name(), "cloudflare_dns");
    assert_eq!(provider.supported_record_types(), vec![RecordType::A]);
    assert_eq!(provider.check_record_type(RecordType::A), Ok(()));
    assert_eq!(
        provider.check_record_type(RecordType::Aaaa),
        Err(DetectorError::CloudflareDnsNeedsA)
    );
}

#[test]
fn address_family_must_match() {
    let v4 = IpAddress::V4(0xcb00_710a);
    let v6 = IpAddress::V6(0x2001_0db8 << 96);
    assert_eq!(ensure_record_type_matches_ip(RecordType::A, v4), Ok(v4));
    assert_eq!(
        ensure_record_type_matches_ip(RecordType::A, v6),
        Err(DetectorError::IpFamilyMismatch { record_type: RecordType::A, ip: v6 })
    );
}

#[test]
fn cloudflare_dns_answers() {
    let provider = CloudflareDnsProvider::new();
    let v4 = IpAddress::V4(0xcb00_710a);
    let v6 = IpAddress::V6(1);
    assert_eq!(provider.answer_ip(RecordType::A, vec![], &vec![]), Err(DetectorError::NoTxtAnswer));
    assert_eq!(
        provider.answer_ip(
            RecordType::A,
            vec!["junk".to_string(), "203.0.113.10".to_string()],
            &vec![None, Some(v4)]
        ),
        Ok(v4)
    );
    assert_eq!(
        provider.answer_ip(RecordType::A, vec!["::1".to_string()], &vec![Some(v6)]),
        Err(DetectorError::IpFamilyMismatch { record_type: RecordType::A, ip: v6 })
    );
    assert_eq!(
        provider.answer_ip(RecordType::A, vec!["junk".to_string()], &vec![None]),
        Err(DetectorError::NoIpInAnswers(vec!["junk".to_string()]))
    );
}

#[test]
fn cloudflare_dns_round_trip() {
    let provider = CloudflareDnsProvider::new();
    let mut response = provider.query(0x0102).unwrap();
    assert_eq!(&response[12..], b"\x06whoami\x0acloudflare\0\0\x10\0\x03");
    response[2] = 0x80;
    assert_eq!(provider.answers(0x0102, &response), Ok(Vec::<String>::new()));
    response[7] = 1;
    response.extend_from_slice(&[0xc0, 0x0c, 0, 16, 0, 3, 0, 0, 0, 0, 0, 8, 7]);
    response.extend_from_slice(b"1.2.3.4");
    assert_eq!(provider.answers(0x0102, &response), Ok(vec!["1.2.3.4".to_string()]));
    let found = detected(DetectorKind::CloudflareDns, IpAddress::V4(0x01020304));
    assert_eq!(found.detector_name, "cloudflare_dns");
    assert_eq!(found.ip, IpAddress::V4(0x01020304));
}

#[test]
fn icanhazip_endpoints() {
    assert_eq!(icanhazip_url(RecordType::A), "https://ipv4.icanhazip.com");
    assert_eq!(icanhazip_url(RecordType::Aaaa), "https://ipv6.icanhazip.com");
}

#[test]
fn xorshift_step() {
    let mut s: u64 = 1;
    s ^= s << 13;
    s ^= s >> 7;
    s ^= s << 17;
    assert_eq!(next_random(1), s);
    assert_eq!(next_random(0), 0);
}

#[test]
fn random_order_is_a_permutation() {
    for len in 0..10usize {
        for seed in [0u64, 1, 42, 0xdead_beef, u64::MAX] {
            let mut order = random_order(len, seed);
            order.sort();
            assert_eq!(order, (0..len).collect::<Vec<_>>());
        }
    }
    assert_eq!(random_order(1, 7), vec![0]);
}

#[test]
fn random_order_follows_the_shuffle() {
    let seed = 12345u64;
    let mut expected: Vec<usize> = (0..5).collect();
    let mut state = seed;
    for index in (1..5usize).rev() {
        state = next_random(state);
        let swap_with = (state as usize) % (index + 1);
        expected.swap(index, swap_with);
    }
    assert_eq!(random_order(5, seed), expected);
}

#[test]
fn fallback_tries_each_in_order() {
    let mut fallback = Fallback::new(vec![2, 0, 1]);
    assert_eq!(fallback.next_candidate(), Some(2));
    fallback.record_failure("first: down".to_string());
    assert_eq!(fallback.next_candidate(), Some(0));
    fallback.record_failure("second: down".to_string());
    assert_eq!(fallback.next_candidate(), Some(1));
    fallback.record_failure("third: down".to_string());
    assert_eq!(fallback.next_candidate(), None);
    assert_eq!(
        fallback.into_error(RecordType::Aaaa),
        DetectorError::AllDetectorsFailed {
            record_type: RecordType::Aaaa,
            failures: vec![
                "first: down".to_string(),
                "second: down".to_string(),
                "third: down".to_string()
            ],
        }
    );
}

#[test]
fn query_ids_from_the_clock() {
    assert_eq!(query_id_of(None), 0);
    assert_eq!(query_id_of(Some(12)), 12);
    assert_eq!(query_id_of(Some(65536 + 7)), 7);
    assert_eq!(query_id_of(Some(999_999_999)), (999_999_999u32 % 65536) as u16);
    let _ = query_id();
}

#[test]
fn http_detector_endpoints() {
    assert_eq!(detector_url(DetectorKind::Ipify, RecordType::A), Some("https://api.ipify.org"));
    assert_eq!(detector_url(DetectorKind::Ipify, RecordType::Aaaa), Some("https://api6.ipify.org"));
    assert_eq!(detector_url(DetectorKind::Icanhazip, RecordType::A), Some("https://ipv4.icanhazip.com"));
    assert_eq!(detector_url(DetectorKind::Icanhazip, RecordType::Aaaa), Some("https://ipv6.icanhazip.com"));
    assert_eq!(detector_url(DetectorKind::IpSb, RecordType::A), Some("https://api-ipv4.ip.sb/ip"));
    assert_eq!(detector_url(DetectorKind::IpSb, RecordType::Aaaa), Some("https://api-ipv6.ip.sb/ip"));
    assert_eq!(detector_url(DetectorKind::CloudflareDns, RecordType::A), None);
}
