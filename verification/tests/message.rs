use dns_codec::DNSHeader;
use dns_codec::DNSPacket;
use dns_codec::DNSQuestion;
use dns_codec::DNSResourceRecord;
use dns_codec::DnsError;

fn sample_message() -> DNSPacket {
    DNSPacket {
        header: DNSHeader {
            query_id: 0x1234,
            flags: 0x8180,
            questions_count: 1,
            answers_count: 2,
            authority_count: 0,
            additional_count: 0,
        },
        questions: vec![DNSQuestion {
            query_name: vec![6, 103, 111, 111, 103, 108, 101, 3, 99, 111, 109, 0],
            query_type: 1,
            query_class: 1,
        }],
        resource_records: vec![
            DNSResourceRecord {
                query_name: vec![6, 103, 111, 111, 103, 108, 101, 3, 99, 111, 109, 0],
                query_type: 1,
                query_class: 1,
                record_ttl: 300,
                rdata_length: 4,
                rdata: vec![142, 250, 203, 110],
            },
            DNSResourceRecord {
                query_name: vec![1, 97, 0],
                query_type: 5,
                query_class: 1,
                record_ttl: -1,
                rdata_length: 2,
                rdata: vec![7, 8],
            },
        ],
    }
}

#[test]
fn message_round_trip() {
    // serializing a message with literal names and parsing it back
    // reproduces every field
    let m = sample_message();
    let bytes = m.prepare();
    let parsed = DNSPacket::parse_response(bytes).unwrap();
    assert_eq!(parsed, m);
}

#[test]
fn query_packet_round_trip() {
    let q = DNSPacket::create_query_packet(vec!["news.google.com", "a.b"], "MX").unwrap();
    assert_eq!(q.header.flags, 0x0100);
    assert_eq!(q.header.questions_count, 2);
    assert_eq!(q.header.answers_count, 0);
    assert_eq!(q.questions.len(), 2);
    assert_eq!(
        q.questions[0].query_name,
        vec![4, 110, 101, 119, 115, 6, 103, 111, 111, 103, 108, 101, 3, 99, 111, 109, 0]
    );
    assert_eq!(q.questions[0].query_type, 15);
    assert_eq!(q.questions[0].query_class, 1);
    assert!(q.resource_records.is_empty());
    let parsed = DNSPacket::parse_response(q.prepare()).unwrap();
    assert_eq!(parsed, q);
}

#[test]
fn query_packet_rejects_bad_domain() {
    let long_segment = "a".repeat(64);
    assert_eq!(
        DNSPacket::create_query_packet(vec!["ok.com", &long_segment], "A"),
        Err(DnsError::InvalidName)
    );
}

#[test]
fn parse_record_with_pointer_name() {
    // a message whose single answer names the question's name through a
    // pure pointer to offset 12; the record's name part spans exactly the
    // 2 pointer bytes
    let mut bytes: Vec<u8> = Vec::new();
    bytes.extend([0x12, 0x34, 0x81, 0x80, 0, 1, 0, 1, 0, 0, 0, 0]);
    let name: [u8; 12] = [6, 103, 111, 111, 103, 108, 101, 3, 99, 111, 109, 0];
    bytes.extend(name);
    bytes.extend([0, 1, 0, 1]);
    let record_start = bytes.len();
    bytes.extend([192, 12]);
    bytes.extend([0, 1, 0, 1, 0, 0, 1, 44, 0, 4, 142, 250, 203, 110]);
    let (used, rec) = DNSResourceRecord::parse_rr_from_response(&bytes, record_start).unwrap();
    // name (2 pointer bytes) + fixed fields (10) + rdata (4)
    assert_eq!(used, 16);
    assert_eq!(rec.query_name, name.to_vec());
    assert_eq!(rec.query_type, 1);
    assert_eq!(rec.query_class, 1);
    assert_eq!(rec.record_ttl, 300);
    assert_eq!(rec.rdata_length, 4);
    assert_eq!(rec.rdata, vec![142, 250, 203, 110]);
    let parsed = DNSPacket::parse_response(bytes).unwrap();
    assert_eq!(parsed.resource_records.len(), 1);
    assert_eq!(parsed.resource_records[0], rec);
}

#[test]
fn parse_record_negative_ttl() {
    // name "a", type 1, class 1, TTL -2, 1 data byte
    let bytes: Vec<u8> = vec![1, 97, 0, 0, 1, 0, 1, 255, 255, 255, 254, 0, 1, 9];
    let (used, rec) = DNSResourceRecord::parse_rr_from_response(&bytes, 0).unwrap();
    assert_eq!(used, 14);
    assert_eq!(rec.record_ttl, -2);
    let again = rec.prepare();
    assert_eq!(again, bytes);
}

#[test]
fn parse_record_truncated() {
    // name ends, but the 10 fixed bytes are not all there
    let short_fixed: Vec<u8> = vec![1, 97, 0, 0, 1, 0, 1];
    assert_eq!(
        DNSResourceRecord::parse_rr_from_response(&short_fixed, 0),
        Err(DnsError::TruncatedRecord)
    );
    // fixed fields there, but the declared data length overruns
    let short_data: Vec<u8> = vec![1, 97, 0, 0, 1, 0, 1, 0, 0, 0, 0, 0, 9, 1, 2];
    assert_eq!(
        DNSResourceRecord::parse_rr_from_response(&short_data, 0),
        Err(DnsError::TruncatedRecord)
    );
}

#[test]
fn counts_beyond_buffer_yield_truncation_not_panic() {
    // fewer than 12 bytes: no header
    assert_eq!(DNSPacket::parse_response(vec![1, 2, 3]), Err(DnsError::TruncatedHeader));
    // a header declaring one question with nothing after it
    let mut only_header: Vec<u8> = vec![0, 1, 1, 0, 0, 1, 0, 0, 0, 0, 0, 0];
    assert_eq!(
        DNSPacket::parse_response(only_header.clone()),
        Err(DnsError::TruncatedQuestion)
    );
    // a header declaring 99 questions over a buffer holding one
    only_header[5] = 99;
    only_header.extend([1, 97, 0, 0, 1, 0, 1]);
    assert_eq!(DNSPacket::parse_response(only_header), Err(DnsError::TruncatedQuestion));
    // a header declaring an answer where the buffer has ended: the record's
    // name decompressor reports the malformed name
    let header_with_answer: Vec<u8> = vec![0, 1, 1, 0, 0, 0, 0, 1, 0, 0, 0, 0];
    assert_eq!(
        DNSPacket::parse_response(header_with_answer),
        Err(DnsError::MalformedName)
    );
}
