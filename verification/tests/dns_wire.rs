use driftdns::dns::{
    build_txt_ch_query, checked_add, encode_qname, extract_txt_answers, parse_txt_rdata, read_u16,
    skip_name, DnsError, DnsField, DNS_CLASS_CH, DNS_TYPE_TXT,
};

#[test]
fn builds_txt_ch_query() {
    let query = build_txt_ch_query(0x1234, "whoami.cloudflare.").unwrap();

    assert_eq!(&query[0..2], &[0x12, 0x34]);
    assert_eq!(&query[12..], b"\x06whoami\x0acloudflare\0\0\x10\0\x03");
}

#[test]
fn extracts_txt_answer_from_compressed_response() {
    let mut response = build_txt_ch_query(0x1234, "whoami.cloudflare.").unwrap();
    response[2] = 0x80;
    response[7] = 1;
    response.extend_from_slice(&[0xc0, 0x0c]);
    response.extend_from_slice(&DNS_TYPE_TXT.to_be_bytes());
    response.extend_from_slice(&DNS_CLASS_CH.to_be_bytes());
    response.extend_from_slice(&0u32.to_be_bytes());
    response.extend_from_slice(&13u16.to_be_bytes());
    response.push(12);
    response.extend_from_slice(b"203.0.113.10");

    let answers = extract_txt_answers(0x1234, &response).unwrap();

    assert_eq!(answers, vec!["203.0.113.10"]);
}

fn response_with_answer(rdata: &[u8], record_type: u16, class: u16) -> Vec<u8> {
    let mut response = build_txt_ch_query(0x4242, "whoami.cloudflare").unwrap();
    response[2] = 0x81;
    response[7] = 1;
    response.extend_from_slice(&[0xc0, 0x0c]);
    response.extend_from_slice(&record_type.to_be_bytes());
    response.extend_from_slice(&class.to_be_bytes());
    response.extend_from_slice(&0u32.to_be_bytes());
    response.extend_from_slice(&(rdata.len() as u16).to_be_bytes());
    response.extend_from_slice(rdata);
    response
}

#[test]
fn query_header_and_question_are_exact() {
    let query = build_txt_ch_query(0xbeef, "a.b").unwrap();
    assert_eq!(
        query,
        vec![0xbe, 0xef, 0, 0, 0, 1, 0, 0, 0, 0, 0, 0, 1, b'a', 1, b'b', 0, 0, 16, 0, 3]
    );
}

#[test]
fn query_name_errors() {
    assert_eq!(build_txt_ch_query(1, "..."), Err(DnsError::EmptyQueryName));
    assert_eq!(build_txt_ch_query(1, ""), Err(DnsError::EmptyQueryName));
    assert_eq!(build_txt_ch_query(1, "a..b"), Err(DnsError::EmptyLabel));
    assert_eq!(build_txt_ch_query(1, ".a"), Err(DnsError::EmptyLabel));
    let long = "x".repeat(64);
    assert_eq!(build_txt_ch_query(1, &long), Err(DnsError::LabelTooLong));
    let just_fits = "x".repeat(63);
    assert!(build_txt_ch_query(1, &just_fits).is_ok());
}

#[test]
fn encode_qname_keeps_labels_written_before_an_error() {
    let mut bytes = vec![9u8];
    assert_eq!(encode_qname("ab..c", &mut bytes), Err(DnsError::EmptyLabel));
    assert_eq!(bytes, vec![9, 2, b'a', b'b']);

    let mut bytes = Vec::new();
    assert_eq!(encode_qname("x.y..", &mut bytes), Ok(()));
    assert_eq!(bytes, vec![1, b'x', 1, b'y', 0]);
}

#[test]
fn utf8_labels_count_bytes() {
    let mut bytes = Vec::new();
    assert_eq!(encode_qname("\u{e9}", &mut bytes), Ok(()));
    assert_eq!(bytes, vec![2, 0xc3, 0xa9, 0]);
}

#[test]
fn header_errors() {
    assert_eq!(extract_txt_answers(1, &[0u8; 11]), Err(DnsError::ShortHeader));

    let mut response = response_with_answer(b"\x01x", DNS_TYPE_TXT, DNS_CLASS_CH);
    assert_eq!(
        extract_txt_answers(0x4243, &response),
        Err(DnsError::IdMismatch { expected: 0x4243, got: 0x4242 })
    );
    response[2] = 0x01;
    assert_eq!(extract_txt_answers(0x4242, &response), Err(DnsError::NotAResponse));
    response[2] = 0x80;
    response[3] = 0x03;
    assert_eq!(extract_txt_answers(0x4242, &response), Err(DnsError::ServerError(3)));
}

#[test]
fn skips_other_records_and_blank_texts() {
    let a_record = response_with_answer(&[1, 2, 3, 4], 1, 1);
    assert_eq!(extract_txt_answers(0x4242, &a_record), Ok(Vec::<String>::new()));

    let blank = response_with_answer(b"\x03   ", DNS_TYPE_TXT, DNS_CLASS_CH);
    assert_eq!(extract_txt_answers(0x4242, &blank), Ok(Vec::<String>::new()));

    let in_class = response_with_answer(b"\x01x", DNS_TYPE_TXT, 1);
    assert_eq!(extract_txt_answers(0x4242, &in_class), Ok(Vec::<String>::new()));

    let two_strings = response_with_answer(b"\x02 1\x03.2 ", DNS_TYPE_TXT, DNS_CLASS_CH);
    assert_eq!(extract_txt_answers(0x4242, &two_strings), Ok(vec!["1.2".to_string()]));
}

#[test]
fn truncated_answers_are_errors() {
    let mut response = response_with_answer(b"\x01x", DNS_TYPE_TXT, DNS_CLASS_CH);
    response.pop();
    assert_eq!(
        extract_txt_answers(0x4242, &response),
        Err(DnsError::Truncated(DnsField::AnswerData))
    );
    let overrun = response_with_answer(b"\x05x", DNS_TYPE_TXT, DNS_CLASS_CH);
    assert_eq!(extract_txt_answers(0x4242, &overrun), Err(DnsError::TxtOverrun));
}

#[test]
fn txt_rdata_joins_strings() {
    assert_eq!(parse_txt_rdata(b"").unwrap(), "");
    assert_eq!(parse_txt_rdata(b"\x02ab\x00\x01c").unwrap(), "abc");
    assert_eq!(parse_txt_rdata(b"\x01\xff").unwrap(), "\u{fffd}");
    assert_eq!(parse_txt_rdata(b"\x03ab"), Err(DnsError::TxtOverrun));
}

#[test]
fn names_with_pointers() {
    // name at 0: "a" then pointer to 4; at 4: "b" then end.
    let bytes = [1, b'a', 0xc0, 4, 1, b'b', 0];
    assert_eq!(skip_name(&bytes, 0), Ok(4));
    assert_eq!(skip_name(&bytes, 4), Ok(7));
    assert_eq!(skip_name(&bytes, 7), Err(DnsError::NameOutOfBounds));
    assert_eq!(skip_name(&[0xc0], 0), Err(DnsError::IncompletePointer));
    assert_eq!(skip_name(&[0x40, 0], 0), Err(DnsError::UnsupportedLabel));
    assert_eq!(skip_name(&[0x80, 0], 0), Err(DnsError::UnsupportedLabel));
    assert_eq!(skip_name(&[3, b'a'], 0), Err(DnsError::Truncated(DnsField::NameLabel)));
    // a pointer to itself loops until the jump limit.
    assert_eq!(skip_name(&[0xc0, 0], 0), Err(DnsError::TooManyJumps));
}

#[test]
fn sixteen_jumps_are_allowed() {
    // 16 pointers in a row, each to the next, then the root label.
    let mut bytes = Vec::new();
    for i in 0..16u8 {
        bytes.extend_from_slice(&[0xc0, 2 * (i + 1)]);
    }
    bytes.push(0);
    assert_eq!(skip_name(&bytes, 0), Ok(2));
    let mut seventeen = Vec::new();
    for i in 0..17u8 {
        seventeen.extend_from_slice(&[0xc0, 2 * (i + 1)]);
    }
    seventeen.push(0);
    assert_eq!(skip_name(&seventeen, 0), Err(DnsError::TooManyJumps));
}

#[test]
fn reads_and_bounds() {
    assert_eq!(read_u16(&[0x12, 0x34, 0x56], 1), Ok(0x3456));
    assert_eq!(read_u16(&[0x12, 0x34], 1), Err(DnsError::Truncated(DnsField::U16)));
    assert_eq!(checked_add(3, 4, 7, DnsField::AnswerHeader), Ok(7));
    assert_eq!(
        checked_add(3, 5, 7, DnsField::AnswerHeader),
        Err(DnsError::Truncated(DnsField::AnswerHeader))
    );
    assert_eq!(
        checked_add(usize::MAX, 1, usize::MAX, DnsField::QuestionFields),
        Err(DnsError::OffsetOverflow(DnsField::QuestionFields))
    );
}

#[test]
fn encoded_name_is_skipped_exactly() {
    let mut bytes = vec![7u8, 7, 7];
    encode_qname("host.example.org.", &mut bytes).unwrap();
    let end = bytes.len();
    bytes.extend_from_slice(&[1, 2, 3]);
    assert_eq!(skip_name(&bytes, 3), Ok(end));
}
