use dns_resolver::{
    DnsError, DnsPacket, QueryResponse, Reader, Resolution, Step, MAX_HOPS, TYPE_A, TYPE_NS,
};

fn wire_name(name: &str) -> Vec<u8> {
    let mut out = Vec::new();
    for label in name.split('.') {
        out.push(label.len() as u8);
        out.extend_from_slice(label.as_bytes());
    }
    out.push(0);
    out
}

fn rr(owner: &str, rtype: u16, data: &[u8]) -> Vec<u8> {
    let mut out = wire_name(owner);
    out.extend_from_slice(&rtype.to_be_bytes());
    out.extend_from_slice(&1u16.to_be_bytes());
    out.extend_from_slice(&3600u32.to_be_bytes());
    out.extend_from_slice(&(data.len() as u16).to_be_bytes());
    out.extend_from_slice(data);
    out
}

fn a(owner: &str, ip: [u8; 4]) -> Vec<u8> {
    rr(owner, TYPE_A, &ip)
}

fn ns(owner: &str, server: &str) -> Vec<u8> {
    rr(owner, TYPE_NS, &wire_name(server))
}

fn reply(
    id: u16,
    qname: &str,
    qtype: u16,
    answers: &[Vec<u8>],
    authorities: &[Vec<u8>],
    additionals: &[Vec<u8>],
) -> Vec<u8> {
    let mut out = Vec::new();
    let counts = [
        id,
        0x8000,
        1,
        answers.len() as u16,
        authorities.len() as u16,
        additionals.len() as u16,
    ];
    for x in counts {
        out.extend_from_slice(&x.to_be_bytes());
    }
    out.extend(wire_name(qname));
    out.extend_from_slice(&qtype.to_be_bytes());
    out.extend_from_slice(&1u16.to_be_bytes());
    for r in answers.iter().chain(authorities).chain(additionals) {
        out.extend_from_slice(r);
    }
    out
}

fn packet(bytes: &[u8]) -> DnsPacket {
    let mut r = Reader::new(bytes, bytes.len());
    DnsPacket::decode(&mut r).unwrap()
}

fn expect_send(step: Step) -> (Resolution, String, Vec<u8>) {
    match step {
        Step::Send { next, server, query } => (next, server, query),
        Step::Resolved(s) => panic!("resolved early: {}", s),
        Step::Failed(e) => panic!("failed: {:?}", e),
    }
}

fn question_of(query: &[u8]) -> (u16, String, u16) {
    let p = packet(query);
    let q = &p.questions[0];
    (p.header.id, q.name().to_text(), q.qtype())
}

#[test]
fn answer_wins_over_additional() {
    let m = reply(
        1,
        "example.com",
        TYPE_A,
        &[a("example.com", [93, 184, 216, 34])],
        &[ns("example.com", "ns.example.com")],
        &[a("ns.example.com", [10, 0, 0, 1])],
    );
    match QueryResponse::from_packet(&packet(&m)).unwrap() {
        QueryResponse::Answer(ip) => assert_eq!(ip, "93.184.216.34"),
        other => panic!("{:?}", other),
    }
    let (st, _, _) = expect_send(Resolution::start("example.com", TYPE_A, 1));
    match st.on_reply(&m, m.len(), 2) {
        Step::Resolved(ip) => assert_eq!(ip, "93.184.216.34"),
        _ => panic!("expected an answer"),
    }
}

#[test]
fn glue_wins_over_authority() {
    let m = reply(
        1,
        "example.com",
        TYPE_A,
        &[],
        &[ns("com", "a.gtld-servers.net")],
        &[a("a.gtld-servers.net", [192, 5, 6, 30])],
    );
    match QueryResponse::from_packet(&packet(&m)).unwrap() {
        QueryResponse::Additional(ip) => assert_eq!(ip, "192.5.6.30"),
        other => panic!("{:?}", other),
    }
    let (st, _, _) = expect_send(Resolution::start("example.com", TYPE_A, 1));
    let (_, server, query) = expect_send(st.on_reply(&m, m.len(), 2));
    assert_eq!(server, "192.5.6.30");
    assert_eq!(question_of(&query), (2, "example.com".to_string(), TYPE_A));
}

#[test]
fn authority_only_gives_the_name_server() {
    let m = reply(1, "example.com", TYPE_A, &[], &[ns("example.com", "ns1.other.net")], &[]);
    match QueryResponse::from_packet(&packet(&m)).unwrap() {
        QueryResponse::Authority(name) => assert_eq!(name, "ns1.other.net"),
        other => panic!("{:?}", other),
    }
}

#[test]
fn non_address_answer_falls_through() {
    // an answer section holding only a name server record is no answer
    let m = reply(
        1,
        "example.com",
        TYPE_A,
        &[ns("example.com", "ns.example.com")],
        &[],
        &[a("ns.example.com", [10, 0, 0, 2])],
    );
    match QueryResponse::from_packet(&packet(&m)).unwrap() {
        QueryResponse::Additional(ip) => assert_eq!(ip, "10.0.0.2"),
        other => panic!("{:?}", other),
    }
}

#[test]
fn nothing_usable_is_unresolvable() {
    let m = reply(1, "example.com", TYPE_A, &[], &[], &[]);
    assert_eq!(QueryResponse::from_packet(&packet(&m)).unwrap_err(), DnsError::Unresolvable);
    let (st, _, _) = expect_send(Resolution::start("example.com", TYPE_A, 1));
    assert!(matches!(st.on_reply(&m, m.len(), 2), Step::Failed(DnsError::Unresolvable)));
}

#[test]
fn walk_from_root_to_answer() {
    let (st, server, query) = expect_send(Resolution::start("example.com", TYPE_A, 100));
    assert_eq!(server, "198.41.0.4");
    assert_eq!(question_of(&query), (100, "example.com".to_string(), TYPE_A));

    let root = reply(
        100,
        "example.com",
        TYPE_A,
        &[],
        &[ns("com", "a.gtld-servers.net")],
        &[a("a.gtld-servers.net", [192, 5, 6, 30])],
    );
    let (st, server, query) = expect_send(st.on_reply(&root, root.len(), 101));
    assert_eq!(server, "192.5.6.30");
    assert_eq!(question_of(&query).0, 101);

    let tld = reply(
        101,
        "example.com",
        TYPE_A,
        &[],
        &[ns("example.com", "a.iana-servers.net")],
        &[a("a.iana-servers.net", [199, 43, 135, 53])],
    );
    let (st, server, _) = expect_send(st.on_reply(&tld, tld.len(), 102));
    assert_eq!(server, "199.43.135.53");

    let auth = reply(102, "example.com", TYPE_A, &[a("example.com", [93, 184, 216, 34])], &[], &[]);
    match st.on_reply(&auth, auth.len(), 103) {
        Step::Resolved(ip) => {
            assert_eq!(ip, "93.184.216.34");
            let parts: Vec<&str> = ip.split('.').collect();
            assert_eq!(parts.len(), 4);
            assert!(parts.iter().all(|p| p.parse::<u8>().is_ok()));
        }
        _ => panic!("expected an answer"),
    }
}

#[test]
fn delegation_without_glue_resolves_name_server_first() {
    let (st, _, _) = expect_send(Resolution::start("example.com", TYPE_A, 1));
    let referral = reply(1, "example.com", TYPE_A, &[], &[ns("example.com", "ns.other.net")], &[]);
    let (st, server, query) = expect_send(st.on_reply(&referral, referral.len(), 2));
    assert_eq!(server, "198.41.0.4");
    assert_eq!(question_of(&query), (2, "ns.other.net".to_string(), TYPE_A));

    let ns_answer = reply(2, "ns.other.net", TYPE_A, &[a("ns.other.net", [10, 0, 0, 53])], &[], &[]);
    let (st, server, query) = expect_send(st.on_reply(&ns_answer, ns_answer.len(), 3));
    assert_eq!(server, "10.0.0.53");
    assert_eq!(question_of(&query), (3, "example.com".to_string(), TYPE_A));

    let answer = reply(3, "example.com", TYPE_A, &[a("example.com", [1, 2, 3, 4])], &[], &[]);
    match st.on_reply(&answer, answer.len(), 4) {
        Step::Resolved(ip) => assert_eq!(ip, "1.2.3.4"),
        _ => panic!("expected an answer"),
    }
}

#[test]
fn reply_with_other_id_is_rejected() {
    let (st, _, _) = expect_send(Resolution::start("example.com", TYPE_A, 1));
    let m = reply(2, "example.com", TYPE_A, &[a("example.com", [1, 2, 3, 4])], &[], &[]);
    assert!(matches!(st.on_reply(&m, m.len(), 3), Step::Failed(DnsError::ResponseMismatch)));
}

#[test]
fn reply_to_other_question_is_rejected() {
    let (st, _, _) = expect_send(Resolution::start("example.com", TYPE_A, 1));
    let m = reply(1, "example.org", TYPE_A, &[a("example.org", [1, 2, 3, 4])], &[], &[]);
    assert!(matches!(st.on_reply(&m, m.len(), 3), Step::Failed(DnsError::ResponseMismatch)));
    let (st, _, _) = expect_send(Resolution::start("example.com", TYPE_A, 1));
    let m = reply(1, "example.com", TYPE_NS, &[a("example.com", [1, 2, 3, 4])], &[], &[]);
    assert!(matches!(st.on_reply(&m, m.len(), 3), Step::Failed(DnsError::ResponseMismatch)));
}

#[test]
fn corrupt_reply_fails() {
    let (st, _, _) = expect_send(Resolution::start("example.com", TYPE_A, 1));
    let m = reply(1, "example.com", TYPE_A, &[a("example.com", [1, 2, 3, 4])], &[], &[]);
    assert!(matches!(st.on_reply(&m, m.len() - 1, 3), Step::Failed(DnsError::CorruptMessage)));
}

#[test]
fn reply_shorter_than_buffer_uses_given_length() {
    let (st, _, _) = expect_send(Resolution::start("example.com", TYPE_A, 1));
    let m = reply(1, "example.com", TYPE_A, &[a("example.com", [5, 6, 7, 8])], &[], &[]);
    let mut buf = [0u8; 512];
    buf[..m.len()].copy_from_slice(&m);
    match st.on_reply(&buf, m.len(), 2) {
        Step::Resolved(ip) => assert_eq!(ip, "5.6.7.8"),
        _ => panic!("expected an answer"),
    }
}

#[test]
fn endless_referrals_hit_the_hop_limit() {
    let (mut st, _, _) = expect_send(Resolution::start("example.com", TYPE_A, 0));
    let mut sent: u32 = 1;
    let mut id: u16 = 0;
    loop {
        let m = reply(id, "example.com", TYPE_A, &[], &[ns("com", "x.net")], &[a("x.net", [10, 0, 0, 9])]);
        id += 1;
        match st.on_reply(&m, m.len(), id) {
            Step::Send { next, .. } => {
                sent += 1;
                st = next;
            }
            Step::Failed(e) => {
                assert_eq!(e, DnsError::HopLimitExceeded);
                break;
            }
            Step::Resolved(_) => panic!("no answer was given"),
        }
    }
    assert_eq!(sent, MAX_HOPS);
}

#[test]
fn bad_names_fail_at_start() {
    assert!(matches!(Resolution::start("a..b", TYPE_A, 1), Step::Failed(DnsError::EmptyLabel)));
    assert!(matches!(Resolution::start("é.fr", TYPE_A, 1), Step::Failed(DnsError::NonAsciiName)));
    let long = format!("{}.com", "x".repeat(64));
    assert!(matches!(Resolution::start(&long, TYPE_A, 1), Step::Failed(DnsError::LabelTooLong)));
}
