use dns_codec::DNSHeader;
use dns_codec::DNSQuestion;
use dns_codec::DnsError;
use dns_codec::domain_to_labels;
use dns_codec::labels_to_domains;
use dns_codec::parse_query_type;

#[test]
fn encode_google_com() {
    let labels = domain_to_labels("google.com").unwrap();
    assert_eq!(labels, vec![6, 103, 111, 111, 103, 108, 101, 3, 99, 111, 109, 0]);
}

#[test]
fn name_round_trip() {
    for name in ["google.com", "a", "news.google.com", "x.y.z.w.v"] {
        let labels = domain_to_labels(name).unwrap();
        assert_eq!(labels_to_domains(&labels).unwrap(), name);
    }
}

#[test]
fn encode_rejects_long_segment() {
    let long_segment = "a".repeat(64);
    assert_eq!(domain_to_labels(&long_segment), Err(DnsError::InvalidName));
    let fine_segment = "a".repeat(63);
    assert!(domain_to_labels(&fine_segment).is_ok());
}

#[test]
fn encode_rejects_long_name() {
    // 64 segments of 3 bytes: 255 bytes dotted, 257 encoded
    let long_name = vec!["abc"; 64].join(".");
    assert_eq!(domain_to_labels(&long_name), Err(DnsError::InvalidName));
    // 63 segments plus one of 1 byte: 251 bytes dotted, 253 encoded
    let mut parts = vec!["abc"; 62];
    parts.push("abcde");
    let edge_name = parts.join(".");
    assert!(edge_name.len() <= 253);
    assert!(domain_to_labels(&edge_name).is_ok());
}

#[test]
fn decode_rejects_overrun_and_unprintable() {
    // length byte overruns the available bytes
    assert_eq!(labels_to_domains(&vec![5, 97, 98, 0]), Err(DnsError::MalformedName));
    // no terminator at all
    assert_eq!(labels_to_domains(&vec![]), Err(DnsError::MalformedName));
    // a control byte inside a segment is not printable ASCII
    assert_eq!(labels_to_domains(&vec![2, 97, 7, 0]), Err(DnsError::MalformedName));
}

#[test]
fn question_bytes_for_google_a() {
    // the concrete question-section bytes for "google.com", type A, class 1
    let q = DNSQuestion::create_question("google.com", 1).unwrap();
    assert_eq!(
        q.prepare(),
        vec![
            0x06, 0x67, 0x6F, 0x6F, 0x67, 0x6C, 0x65, 0x03, 0x63, 0x6F, 0x6D, 0x00, 0x00, 0x01,
            0x00, 0x01
        ]
    );
}

#[test]
fn query_type_codes() {
    let cases = [
        ("A", 1),
        ("NS", 2),
        ("MD", 3),
        ("MF", 4),
        ("CNAME", 5),
        ("SOA", 6),
        ("MB", 7),
        ("MG", 8),
        ("MR", 9),
        ("NULL", 10),
        ("WKS", 11),
        ("PTR", 12),
        ("HINFO", 13),
        ("MINFO", 14),
        ("MX", 15),
        ("TXT", 16),
        ("AAAA", 0),
        ("", 0),
        ("a", 0),
    ];
    for (mnemonic, code) in cases {
        assert_eq!(parse_query_type(mnemonic), code);
    }
}

#[test]
fn header_flags_0x0100_decodes_recursion_desired() {
    let bytes: Vec<u8> = vec![0x12, 0x34, 0x01, 0x00, 0, 1, 0, 0, 0, 0, 0, 0];
    let h = DNSHeader::parse_header_from_response(&bytes).unwrap();
    assert_eq!(h.flags, 0x0100);
    assert_eq!(h.recursion_desired(), 1);
    assert_eq!(h.qr_bit(), 0);
    assert_eq!(h.opcode(), 0);
    assert_eq!(h.authoritative(), 0);
    assert_eq!(h.truncated(), 0);
    assert_eq!(h.recursion_available(), 0);
    assert_eq!(h.reserved(), 0);
    assert_eq!(h.response_code(), 0);
}

#[test]
fn header_round_trip() {
    let h = DNSHeader {
        query_id: 0xABCD,
        flags: 0x8183,
        questions_count: 2,
        answers_count: 3,
        authority_count: 4,
        additional_count: 5,
    };
    let bytes = h.prepare();
    assert_eq!(bytes.len(), 12);
    assert_eq!(bytes[0], 0xAB);
    assert_eq!(bytes[1], 0xCD);
    let parsed = DNSHeader::parse_header_from_response(&bytes).unwrap();
    assert_eq!(parsed, h);
}

#[test]
fn header_rejects_short_buffer() {
    let short: Vec<u8> = vec![1, 2, 3, 4, 5];
    assert_eq!(DNSHeader::parse_header_from_response(&short), Err(DnsError::TruncatedHeader));
}

#[test]
fn create_query_header_fields() {
    let h = DNSHeader::create_query_header(7);
    assert_eq!(h.flags, 0x0100);
    assert_eq!(h.questions_count, 7);
    assert_eq!(h.answers_count, 0);
    assert_eq!(h.authority_count, 0);
    assert_eq!(h.additional_count, 0);
}

#[test]
fn parse_question_reads_fields() {
    // 3 bytes of padding, then a question for "ab", type 5, class 1
    let buf: Vec<u8> = vec![9, 9, 9, 2, 97, 98, 0, 0, 5, 0, 1];
    let (used, q) = DNSQuestion::parse_question_from_response(&buf, 3).unwrap();
    assert_eq!(used, 8);
    assert_eq!(q.query_name, vec![2, 97, 98, 0]);
    assert_eq!(q.query_type, 5);
    assert_eq!(q.query_class, 1);
}

#[test]
fn parse_question_truncated() {
    // no terminating zero byte
    let unterminated: Vec<u8> = vec![2, 97, 98];
    assert_eq!(
        DNSQuestion::parse_question_from_response(&unterminated, 0),
        Err(DnsError::TruncatedQuestion)
    );
    // terminator present but type and class missing
    let short_fields: Vec<u8> = vec![2, 97, 98, 0, 0, 5];
    assert_eq!(
        DNSQuestion::parse_question_from_response(&short_fields, 0),
        Err(DnsError::TruncatedQuestion)
    );
}
