use dns_resolver::{
    build_query, build_query_with_id, DnsError, DnsHeader, DnsName, DnsPacket, DnsQuestion,
    IPv4, ParsedData, Reader, TYPE_A, TYPE_NS,
};

fn wire_name(name: &str) -> Vec<u8> {
    let mut out = Vec::new();
    for label in name.split('.') {
        out.push(label.len() as u8);
        out.extend_from_slice(label.as_bytes());
    }
    out.push(0);
    out
}

fn header_bytes(id: u16, qd: u16, an: u16, ns: u16, ar: u16) -> Vec<u8> {
    let mut out = Vec::new();
    for x in [id, 0x8000, qd, an, ns, ar] {
        out.extend_from_slice(&x.to_be_bytes());
    }
    out
}

fn record_bytes(owner: &[u8], rtype: u16, data: &[u8]) -> Vec<u8> {
    let mut out = owner.to_vec();
    out.extend_from_slice(&rtype.to_be_bytes());
    out.extend_from_slice(&1u16.to_be_bytes());
    out.extend_from_slice(&300u32.to_be_bytes());
    out.extend_from_slice(&(data.len() as u16).to_be_bytes());
    out.extend_from_slice(data);
    out
}

fn decode(bytes: &[u8]) -> Result<DnsPacket, DnsError> {
    let mut r = Reader::new(bytes, bytes.len());
    DnsPacket::decode(&mut r)
}

#[test]
fn query_round_trip() {
    let q = build_query_with_id(0x1234, "example.com", TYPE_A, 0).unwrap();
    let p = decode(&q).unwrap();
    assert_eq!(p.header.id, 0x1234);
    assert_eq!(p.header.flags, 0);
    assert_eq!(p.header.num_questions, 1);
    assert_eq!(p.header.num_answers, 0);
    assert_eq!(p.header.num_authorities, 0);
    assert_eq!(p.header.num_additionals, 0);
    assert_eq!(p.questions.len(), 1);
    assert_eq!(p.questions[0].name().to_text(), "example.com");
    assert_eq!(p.questions[0].qtype(), TYPE_A);
    assert_eq!(p.questions[0].qclass(), 1);
    assert!(p.answers.is_empty() && p.authorities.is_empty() && p.additionals.is_empty());
}

#[test]
fn query_round_trip_ns_type_and_flags() {
    let q = build_query_with_id(7, "a.b-c.d0", TYPE_NS, 0x0100).unwrap();
    let p = decode(&q).unwrap();
    assert_eq!(p.header.flags, 0x0100);
    assert_eq!(p.questions[0].name().to_text(), "a.b-c.d0");
    assert_eq!(p.questions[0].qtype(), TYPE_NS);
}

#[test]
fn query_exact_bytes() {
    let q = build_query_with_id(0xabcd, "ab.c", TYPE_A, 0).unwrap();
    assert_eq!(
        q,
        vec![
            0xab, 0xcd, 0, 0, 0, 1, 0, 0, 0, 0, 0, 0, 2, b'a', b'b', 1, b'c', 0, 0, 1, 0, 1
        ]
    );
}

#[test]
fn random_query_matches_fixed_id_query() {
    let q = build_query("example.com", TYPE_A, 0).unwrap();
    let id = u16::from_be_bytes([q[0], q[1]]);
    assert_eq!(q, build_query_with_id(id, "example.com", TYPE_A, 0).unwrap());
}

#[test]
fn header_encode_decode() {
    let h = DnsHeader::new(0x0102, 0x0304);
    let b = h.encode();
    assert_eq!(b, vec![1, 2, 3, 4, 0, 1, 0, 0, 0, 0, 0, 0]);
    let mut r = Reader::new(&b, b.len());
    assert_eq!(DnsHeader::decode(&mut r).unwrap(), h);
    assert_eq!(r.tell(), 12);
}

#[test]
fn header_random_id_has_one_question() {
    let h = DnsHeader::new_with_rand_id(0);
    assert_eq!(h.flags, 0);
    assert_eq!(h.num_questions, 1);
    assert_eq!(h.num_answers + h.num_authorities + h.num_additionals, 0);
}

#[test]
fn compression_pointer_repeats_name() {
    // question "example.com" at offset 12, answer owner is a pointer to it.
    let mut m = header_bytes(1, 1, 1, 0, 0);
    m.extend(wire_name("example.com"));
    m.extend_from_slice(&[0, 1, 0, 1]);
    m.extend(record_bytes(&[0xc0, 0x0c], TYPE_A, &[93, 184, 216, 34]));
    let p = decode(&m).unwrap();
    assert_eq!(p.questions[0].name().to_text(), "example.com");
    assert_eq!(p.answers[0].name().to_text(), "example.com");
    assert_eq!(p.answers[0].ttl(), 300);
}

#[test]
fn compression_pointer_after_labels() {
    // "www" then a pointer to "example.com".
    let mut m = header_bytes(1, 1, 1, 0, 0);
    m.extend(wire_name("example.com"));
    m.extend_from_slice(&[0, 1, 0, 1]);
    m.extend(record_bytes(&[3, b'w', b'w', b'w', 0xc0, 0x0c], TYPE_A, &[1, 2, 3, 4]));
    let p = decode(&m).unwrap();
    assert_eq!(p.answers[0].name().to_text(), "www.example.com");
}

#[test]
fn pointer_to_itself_is_corrupt() {
    let mut m = header_bytes(1, 1, 0, 0, 0);
    m.extend_from_slice(&[0xc0, 0x0c, 0, 1, 0, 1]);
    assert_eq!(decode(&m).unwrap_err(), DnsError::CorruptMessage);
}

#[test]
fn pointer_forward_is_corrupt() {
    let mut m = header_bytes(1, 1, 0, 0, 0);
    m.extend_from_slice(&[0xc0, 0x12, 0, 1, 0, 1, 1, b'a', 0]);
    assert_eq!(decode(&m).unwrap_err(), DnsError::CorruptMessage);
}

#[test]
fn reserved_label_length_is_corrupt() {
    let mut m = header_bytes(1, 1, 0, 0, 0);
    m.extend_from_slice(&[0x40, b'a', 0, 0, 1, 0, 1]);
    assert_eq!(decode(&m).unwrap_err(), DnsError::CorruptMessage);
}

#[test]
fn non_ascii_label_is_corrupt() {
    let mut m = header_bytes(1, 1, 0, 0, 0);
    m.extend_from_slice(&[1, 0xe9, 0, 0, 1, 0, 1]);
    assert_eq!(decode(&m).unwrap_err(), DnsError::CorruptMessage);
}

#[test]
fn label_of_63_bytes_round_trips() {
    let label = "a".repeat(63);
    let name = format!("{}.com", label);
    let q = build_query_with_id(1, &name, TYPE_A, 0).unwrap();
    assert_eq!(q[12], 63);
    let p = decode(&q).unwrap();
    assert_eq!(p.questions[0].name().to_text(), name);
}

#[test]
fn label_of_64_bytes_is_rejected() {
    let name = format!("{}.com", "a".repeat(64));
    assert_eq!(build_query_with_id(1, &name, TYPE_A, 0), Err(DnsError::LabelTooLong));
    let n = DnsName::new(name).unwrap();
    assert_eq!(n.encode(), Err(DnsError::LabelTooLong));
}

#[test]
fn empty_labels_are_rejected() {
    for name in ["", ".", "a..b", ".a", "a."] {
        assert_eq!(build_query_with_id(1, name, TYPE_A, 0), Err(DnsError::EmptyLabel), "{}", name);
    }
}

#[test]
fn first_bad_label_decides_the_error() {
    let long = "b".repeat(70);
    assert_eq!(
        build_query_with_id(1, &format!("a..{}", long), TYPE_A, 0),
        Err(DnsError::EmptyLabel)
    );
    assert_eq!(
        build_query_with_id(1, &format!("{}..a", long), TYPE_A, 0),
        Err(DnsError::LabelTooLong)
    );
}

#[test]
fn non_ascii_name_is_rejected() {
    assert_eq!(build_query_with_id(1, "exämple.com", TYPE_A, 0), Err(DnsError::NonAsciiName));
    assert_eq!(DnsName::new("é".to_string()).unwrap_err(), DnsError::NonAsciiName);
    assert_eq!(
        DnsQuestion::new_for_name("ü.de".to_string(), TYPE_A).unwrap_err(),
        DnsError::NonAsciiName
    );
}

#[test]
fn question_encode() {
    let q = DnsQuestion::new_for_name("x.y".to_string(), TYPE_NS).unwrap();
    assert_eq!(q.encode().unwrap(), vec![1, b'x', 1, b'y', 0, 0, 2, 0, 1]);
}

#[test]
fn truncated_query_is_corrupt() {
    let q = build_query_with_id(9, "example.com", TYPE_A, 0).unwrap();
    assert!(decode(&q).is_ok());
    assert_eq!(decode(&q[..q.len() - 1]).unwrap_err(), DnsError::CorruptMessage);
    let mut r = Reader::new(&q, q.len() - 1);
    assert_eq!(DnsPacket::decode(&mut r).unwrap_err(), DnsError::CorruptMessage);
}

#[test]
fn every_truncation_is_corrupt() {
    let q = build_query_with_id(9, "www.example.org", TYPE_A, 0).unwrap();
    for n in 0..q.len() {
        assert_eq!(decode(&q[..n]).unwrap_err(), DnsError::CorruptMessage, "{}", n);
    }
}

#[test]
fn missing_records_are_corrupt() {
    // header counts one answer, none follows
    let mut m = header_bytes(1, 1, 1, 0, 0);
    m.extend(wire_name("a.b"));
    m.extend_from_slice(&[0, 1, 0, 1]);
    assert_eq!(decode(&m).unwrap_err(), DnsError::CorruptMessage);
}

#[test]
fn record_data_past_end_is_corrupt() {
    let mut m = header_bytes(1, 0, 1, 0, 0);
    let mut rec = record_bytes(&wire_name("a"), TYPE_A, &[1, 2, 3, 4]);
    rec.truncate(rec.len() - 1);
    m.extend(rec);
    assert_eq!(decode(&m).unwrap_err(), DnsError::CorruptMessage);
}

#[test]
fn address_record_of_wrong_length_is_corrupt() {
    let mut m = header_bytes(1, 0, 1, 0, 0);
    m.extend(record_bytes(&wire_name("a"), TYPE_A, &[1, 2, 3, 4, 5]));
    assert_eq!(decode(&m).unwrap_err(), DnsError::CorruptMessage);
}

#[test]
fn record_kinds_are_parsed() {
    let mut m = header_bytes(1, 0, 3, 0, 0);
    m.extend(record_bytes(&wire_name("a"), TYPE_A, &[10, 0, 0, 1]));
    // NS data names "ns.a" with a pointer to the owner of the first record
    m.extend(record_bytes(&wire_name("a"), TYPE_NS, &[2, b'n', b's', 0xc0, 12]));
    m.extend(record_bytes(&wire_name("a"), 16, b"\x03txt"));
    let p = decode(&m).unwrap();
    assert_eq!(p.answers.len(), 3);
    match p.answers[0].parsed_data() {
        ParsedData::IpAddr(a) => assert_eq!(a.octets(), [10, 0, 0, 1]),
        other => panic!("{:?}", other),
    }
    match p.answers[1].parsed_data() {
        ParsedData::DomainName(n) => assert_eq!(n.to_text(), "ns.a"),
        other => panic!("{:?}", other),
    }
    assert!(matches!(p.answers[2].parsed_data(), ParsedData::Other));
    assert_eq!(p.answers[2].data(), b"\x03txt");
    assert_eq!(p.answers[2].rtype(), 16);
    assert_eq!(p.answers[2].rclass(), 1);
}

#[test]
fn packet_address_and_domain_lookups() {
    let mut m = header_bytes(1, 0, 1, 1, 1);
    m.extend(record_bytes(&wire_name("a"), TYPE_A, &[192, 0, 2, 1]));
    m.extend(record_bytes(&wire_name("a"), TYPE_NS, &wire_name("ns1.a")));
    m.extend(record_bytes(&wire_name("ns1.a"), TYPE_A, &[198, 51, 100, 7]));
    let p = decode(&m).unwrap();
    assert_eq!(p.parse_ip_address().unwrap(), "192.0.2.1");
    assert_eq!(p.parse_next_name_server_ip().unwrap(), "198.51.100.7");
    assert_eq!(p.parse_next_name_server_domain().unwrap(), "ns1.a");
}

#[test]
fn packet_lookups_fail_when_absent() {
    let p = decode(&header_bytes(1, 0, 0, 0, 0)).unwrap();
    assert_eq!(p.parse_ip_address().unwrap_err(), DnsError::Unresolvable);
    assert_eq!(p.parse_next_name_server_ip().unwrap_err(), DnsError::Unresolvable);
    assert_eq!(p.parse_next_name_server_domain().unwrap_err(), DnsError::Unresolvable);
}

#[test]
fn reader_bounds() {
    let buf = [1u8, 2, 3, 4, 5];
    let mut r = Reader::new(&buf, 3);
    assert_eq!(r.read(2).unwrap(), &[1, 2]);
    assert_eq!(r.tell(), 2);
    assert_eq!(r.read(2).unwrap_err(), DnsError::CorruptMessage);
    assert_eq!(r.tell(), 2);
    assert_eq!(r.read(1).unwrap(), &[3]);
    assert_eq!(r.read(0).unwrap_err(), DnsError::CorruptMessage);
    assert!(r.seek(4).is_err());
    assert!(r.seek(0).is_ok());
    assert_eq!(r.read(3).unwrap(), &[1, 2, 3]);
    // a usable length past the buffer is cut to the buffer
    let mut r = Reader::new(&buf, 100);
    assert_eq!(r.read(5).unwrap(), &buf);
}

#[test]
fn ipv4_text() {
    assert_eq!(IPv4::new(0, 0, 0, 0).to_text(), "0.0.0.0");
    assert_eq!(IPv4::new(255, 255, 255, 255).to_text(), "255.255.255.255");
    assert_eq!(IPv4::new(198, 41, 0, 4).to_text(), "198.41.0.4");
    assert_eq!(IPv4::new(10, 9, 100, 99).to_text(), "10.9.100.99");
}

#[test]
fn ipv4_parse() {
    assert_eq!("198.41.0.4".parse::<IPv4>().unwrap(), IPv4::new(198, 41, 0, 4));
    assert_eq!(IPv4::parse("001.+2.03.255").unwrap(), IPv4::new(1, 2, 3, 255));
    for bad in ["", "1.2.3", "1.2.3.4.5", "1.2.3.4.", "256.1.1.1.1"] {
        assert_eq!(IPv4::parse(bad), Err("incorrect length of IPv4 address"), "{}", bad);
    }
    for bad in ["256.1.1.1", "1..2.3", "a.b.c.d", "1.2.3.-4", "+.1.2.3", "1.2.3.4 ", "é.1.2.3"] {
        assert_eq!(IPv4::parse(bad), Err("Invalid octet"), "{}", bad);
    }
    assert_eq!("1.2.3".parse::<IPv4>(), Err("incorrect length of IPv4 address"));
}

#[test]
fn ipv4_from_bytes() {
    assert_eq!(IPv4::from_bytes(&[1, 2, 3, 4]), Some(IPv4::new(1, 2, 3, 4)));
    assert_eq!(IPv4::from_bytes(&[1, 2, 3]), None);
    assert_eq!(IPv4::from_bytes(&[1, 2, 3, 4, 5]), None);
}

#[test]
fn name_text_and_bytes() {
    let n = DnsName::new("Mixed.Case".to_string()).unwrap();
    assert_eq!(n.to_text(), "Mixed.Case");
    assert_eq!(n.as_bytes(), b"Mixed.Case");
    assert_eq!(n.encode().unwrap(), vec![5, b'M', b'i', b'x', b'e', b'd', 4, b'C', b'a', b's', b'e', 0]);
}
