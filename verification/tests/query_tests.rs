use dns_query::build_query;
use dns_query::build_query_with_id;
use dns_query::DnsHeader;
use dns_query::DnsQuestion;
use dns_query::DomainName;
use dns_query::EncodingError;
use dns_query::TYPE_A;

/// Tests encoding of "google.com"
#[test]
fn qname_encoding() {
    let correct_bytes = b"\x06google\x03com\x00";

    let google_domain = DomainName::new("google.com");
    let result_bytes = google_domain.encode_dns_name().unwrap();

    assert_eq!(result_bytes, correct_bytes);
}

#[test]
fn test_build_query() {
    let correct_bytes_str = "82980100000100000000000003777777076578616d706c6503636f6d0000010001";
    let query_bytes = build_query("www.example.com", TYPE_A).unwrap();

    let mut query_bytes_str = String::with_capacity(correct_bytes_str.len());
    for byte in query_bytes {
        query_bytes_str.push_str(&format!("{byte:02x}"));
    }

    // Skip first 2 bytes (random id)
    // 2 chars per byte as formatted above --> 4 chars to skip
    assert_eq!(
        query_bytes_str[4..],
        correct_bytes_str[4..],
        "Byte value mismatch"
    );
}

#[test]
fn build_query_with_fixed_id() {
    let q = build_query_with_id("www.example.com", TYPE_A, 0x8298).unwrap();
    let expected: &[u8] = &[
        0x82, 0x98, 0x01, 0x00, 0x00, 0x01, 0x00, 0x00, 0x00, 0x00, 0x00, 0x00, 0x03, b'w', b'w',
        b'w', 0x07, b'e', b'x', b'a', b'm', b'p', b'l', b'e', 0x03, b'c', b'o', b'm', 0x00, 0x00,
        0x01, 0x00, 0x01,
    ];
    assert_eq!(q, expected);
}

#[test]
fn query_ids_vary() {
    let mut distinct = std::collections::HashSet::new();
    for _ in 0..32 {
        let q = build_query("example.com", TYPE_A).unwrap();
        distinct.insert((q[0], q[1]));
    }
    assert!(distinct.len() > 1, "32 queries drew one identifier");
}

#[test]
fn query_length_formula() {
    // "www.example.com": 13 label bytes, 3 length bytes, 1 terminator
    let q = build_query("www.example.com", TYPE_A).unwrap();
    assert_eq!(q.len(), 12 + (13 + 3 + 1) + 4);
}

#[test]
fn header_serialization() {
    let h = DnsHeader {
        id: 0x1234,
        flags: 0x0100,
        num_questions: 1,
        num_answers: 0,
        num_authorities: 0,
        num_additionals: 0,
    };
    let expected: &[u8] = &[
        0x12, 0x34, 0x01, 0x00, 0x00, 0x01, 0x00, 0x00, 0x00, 0x00, 0x00, 0x00,
    ];
    assert_eq!(h.to_bytes(), expected);
}

#[test]
fn question_type_precedes_class() {
    let q = DnsQuestion {
        name: DomainName::new("ab.c"),
        class: 1,
        record_type: 5,
    };
    let expected: &[u8] = &[
        0x02, b'a', b'b', 0x01, b'c', 0x00, 0x00, 0x05, 0x00, 0x01,
    ];
    assert_eq!(q.to_bytes().unwrap(), expected);
}

#[test]
fn label_of_255_bytes_encodes() {
    let label = "a".repeat(255);
    let enc = DomainName::new(&label).encode_dns_name().unwrap();
    assert_eq!(enc.len(), 257);
    assert_eq!(enc[0], 0xFF);
    assert_eq!(enc[256], 0x00);
}

#[test]
fn label_of_256_bytes_rejected() {
    let label = "a".repeat(256);
    assert_eq!(
        DomainName::new(&label).encode_dns_name(),
        Err(EncodingError::LabelTooLong)
    );
}

#[test]
fn build_query_rejects_long_label() {
    let name = format!("{}.com", "a".repeat(256));
    assert_eq!(build_query(&name, TYPE_A), Err(EncodingError::LabelTooLong));
}

#[test]
fn repeated_delimiter_encodes_empty_label() {
    // "a..b" holds an empty middle label; it is encoded faithfully as
    // a zero length byte, so the encoding does not round-trip.
    let enc = DomainName::new("a..b").encode_dns_name().unwrap();
    let expected: &[u8] = &[0x01, b'a', 0x00, 0x01, b'b', 0x00];
    assert_eq!(enc, expected);
}

#[test]
fn empty_name_degenerates_to_empty_label() {
    let enc = DomainName::new("").encode_dns_name().unwrap();
    let expected: &[u8] = &[0x00, 0x00];
    assert_eq!(enc, expected);
}

#[test]
fn label_length_counts_bytes_not_chars() {
    // One two-byte character: the length byte holds 2.
    let enc = DomainName::new("\u{e9}.a").encode_dns_name().unwrap();
    let expected: &[u8] = &[0x02, 0xC3, 0xA9, 0x01, b'a', 0x00];
    assert_eq!(enc, expected);
}

#[test]
fn domain_name_from_string() {
    let d = DomainName::from(String::from("google.com"));
    assert_eq!(d.encode_dns_name().unwrap(), b"\x06google\x03com\x00");
}
