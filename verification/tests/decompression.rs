use dns_codec::DnsError;
use dns_codec::dns_decompression;

#[test]
fn test_dns_decompression_0() {
    let no_decompression: Vec<u8> = [
        15, 97, 108, 116, 101, 114, 45, 115, 111, 108, 117, 116, 105, 111, 110, 115, 2, 100, 101,
        0,
    ]
    .to_vec();
    let decompressed = dns_decompression(&no_decompression, 0).unwrap().1;
    assert_eq!(no_decompression, decompressed);
}

#[test]
fn test_dns_decompression_1() {
    let simple_compression: Vec<u8> =
        [0, 0, 0, 0, 0, 3, 44, 45, 46, 0, 0, 0, 0, 0, 0, 3, 41, 42, 43, 0b1100_0000, 5].to_vec();
    let (query_name_end, decompressed) = dns_decompression(&simple_compression, 15).unwrap();
    assert_eq!(decompressed, [3, 41, 42, 43, 3, 44, 45, 46, 0].to_vec());
    assert_eq!(query_name_end, 20);
}

#[test]
fn test_dns_decompression_2() {
    let google_answer: Vec<u8> = [
        29, 221, 129, 128, 0, 1, 0, 1, 0, 0, 0, 0, 6, 103, 111, 111, 103, 108, 101, 3, 99, 111,
        109, 0, 0, 1, 0, 1, 192, 12, 0, 1, 0, 1, 0, 0, 1, 40, 0, 4, 142, 250, 203, 110, 0,
    ]
    .to_vec();
    let (query_name_end, decompressed) = dns_decompression(&google_answer, 28).unwrap();
    assert_eq!(decompressed, [6, 103, 111, 111, 103, 108, 101, 3, 99, 111, 109, 0].to_vec());
    assert_eq!(query_name_end, 29);
}

#[test]
fn test_dns_decompression_3() {
    let multiple_decompressions = [
        3, 41, 42, 43, 0, 0, 0, 0, 0, 0, 3, 44, 45, 46, 0b1100_0000, 0, 0, 0, 0, 0, 3, 47, 48, 49,
        0b1100_0000, 10, 0, 0, 0, 0, 0b1100_0000, 20,
    ]
    .to_vec();
    println!("{}", multiple_decompressions[20]);
    let (query_name_end, decompressed) = dns_decompression(&multiple_decompressions, 30).unwrap();
    assert_eq!(decompressed, [3, 47, 48, 49, 3, 44, 45, 46, 3, 41, 42, 43, 0].to_vec());
    assert_eq!(query_name_end, 31);
}

#[test]
fn decompression_rejects_self_pointer_cycle() {
    // a pointer whose target is its own position can never terminate
    let cyclic: Vec<u8> = vec![192, 0, 0];
    assert_eq!(dns_decompression(&cyclic, 0), Err(DnsError::PointerLoop));
}

#[test]
fn decompression_rejects_two_pointer_cycle() {
    let cyclic: Vec<u8> = vec![192, 2, 0, 0, 192, 0, 0, 0];
    // 4 -> 0 -> 2? position 0 points to 2 which is a terminator: fine.
    assert!(dns_decompression(&cyclic, 4).is_ok());
    // two pointers that point at each other never terminate
    let pingpong: Vec<u8> = vec![192, 2, 192, 0];
    assert_eq!(dns_decompression(&pingpong, 0), Err(DnsError::PointerLoop));
}

#[test]
fn decompression_rejects_out_of_range() {
    // start beyond the buffer
    let buf: Vec<u8> = vec![0];
    assert_eq!(dns_decompression(&buf, 5), Err(DnsError::MalformedName));
    // pointer to an offset past the end
    let past: Vec<u8> = vec![192, 99, 0];
    assert_eq!(dns_decompression(&past, 0), Err(DnsError::MalformedName));
    // label that overruns the buffer
    let overrun: Vec<u8> = vec![5, 97, 98];
    assert_eq!(dns_decompression(&overrun, 0), Err(DnsError::MalformedName));
    // reserved length prefix (top bits 01)
    let reserved: Vec<u8> = vec![0b0100_0001, 97, 0];
    assert_eq!(dns_decompression(&reserved, 0), Err(DnsError::MalformedName));
}
