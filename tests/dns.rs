use duwop::dns::{handle_datagram, lookup, DnsPacket, DnsQuestion, DnsRecord, QueryType, ResultCode};

fn packet_with_question(name: &str, query_type: QueryType) -> DnsPacket {
    let mut packet = DnsPacket::new();
    packet.header.id = 10;
    packet.questions.push(DnsQuestion::new(name.as_bytes().to_vec(), query_type));
    packet
}

fn a_answer(response: &DnsPacket) -> (Vec<u8>, [u8; 4], u32) {
    match &response.answers[0] {
        DnsRecord::A { domain, addr, ttl } => (domain.clone(), *addr, *ttl),
    }
}

#[test]
fn normal_dns_request() {
    let mut packet = packet_with_question("hello.test", QueryType::A);
    packet.header.recursion_desired = true;
    let response = lookup(&packet);
    assert_eq!(response.header.id, packet.header.id);
    assert_eq!(response.header.rescode, ResultCode::NOERROR);
    assert!(response.header.recursion_desired);
    assert!(response.header.response);
    assert_eq!(response.questions[0].name, b"hello.test".to_vec());
    assert_eq!(a_answer(&response), (b"hello.test".to_vec(), [127, 0, 0, 1], 0));
}

#[test]
fn subdomain_a_requests_are_supported() {
    let response = lookup(&packet_with_question("sub.domain.test", QueryType::A));
    assert_eq!(response.header.rescode, ResultCode::NOERROR);
    assert_eq!(response.answers.len(), 1);
    assert_eq!(a_answer(&response), (b"sub.domain.test".to_vec(), [127, 0, 0, 1], 0));
}

#[test]
fn upper_case_label_is_managed() {
    let response = lookup(&packet_with_question("Blog.TEST", QueryType::A));
    assert_eq!(response.header.rescode, ResultCode::NOERROR);
    assert_eq!(response.answers.len(), 1);
}

#[test]
fn soa_requests_return_no_error_and_zero_answers() {
    let response = lookup(&packet_with_question("test.test", QueryType::SOA));
    assert_eq!(response.header.rescode, ResultCode::NOERROR);
    assert_eq!(response.answers.len(), 0);
}

#[test]
fn ns_requests_return_no_error_and_zero_answers() {
    let response = lookup(&packet_with_question("test.test", QueryType::NS));
    assert_eq!(response.header.rescode, ResultCode::NOERROR);
    assert_eq!(response.answers.len(), 0);
}

#[test]
fn aaaa_requests_return_no_error_and_zero_answers() {
    let response = lookup(&packet_with_question("x.test", QueryType::AAAA));
    assert_eq!(response.header.rescode, ResultCode::NOERROR);
    assert_eq!(response.answers.len(), 0);
}

#[test]
fn unknown_types_fail() {
    let response = lookup(&packet_with_question("x.test", QueryType::UNKNOWN(99)));
    assert_eq!(response.header.rescode, ResultCode::SERVFAIL);
    assert_eq!(response.answers.len(), 0);
}

#[test]
fn packets_with_no_queries_are_not_implemented() {
    let mut packet = DnsPacket::new();
    packet.header.id = 1234;
    let response = lookup(&packet);
    assert_eq!(response.header.id, 1234);
    assert_eq!(response.header.rescode, ResultCode::NOTIMP);
}

#[test]
fn response_packets_are_not_supported() {
    let mut packet = packet_with_question("test.test", QueryType::A);
    packet.header.response = true;
    assert_eq!(lookup(&packet).header.rescode, ResultCode::NOTIMP);
}

#[test]
fn non_zero_opcode_are_not_supported() {
    let mut packet = packet_with_question("test.test", QueryType::A);
    packet.header.opcode = 1;
    assert_eq!(lookup(&packet).header.rescode, ResultCode::NOTIMP);
}

#[test]
fn does_not_accept_wrong_domain() {
    let response = lookup(&packet_with_question("example.com", QueryType::A));
    assert_eq!(response.header.rescode, ResultCode::SERVFAIL);
    assert_eq!(response.answers.len(), 0);
}

fn query_bytes(id: u16, name: &[&str], qtype: u16) -> Vec<u8> {
    let mut b = vec![(id >> 8) as u8, id as u8, 0x01, 0x00, 0, 1, 0, 0, 0, 0, 0, 0];
    for label in name {
        b.push(label.len() as u8);
        b.extend_from_slice(label.as_bytes());
    }
    b.push(0);
    b.extend_from_slice(&[(qtype >> 8) as u8, qtype as u8, 0, 1]);
    b
}

#[test]
fn datagram_a_query_gets_loopback_answer() {
    let query = query_bytes(0x1234, &["foo", "bar", "test"], 1);
    let reply = handle_datagram(&query).expect("a reply");
    let question: Vec<u8> = query[12..].to_vec();
    let mut expected = vec![0x12, 0x34, 0x81, 0x00, 0, 1, 0, 1, 0, 0, 0, 0];
    expected.extend_from_slice(&question);
    expected.extend_from_slice(&[0xC0, 0x0C, 0, 1, 0, 1, 0, 0, 0, 0, 0, 4, 127, 0, 0, 1]);
    assert_eq!(reply, expected);
}

#[test]
fn datagram_outside_label_fails() {
    let query = query_bytes(0x0042, &["example", "com"], 1);
    let reply = handle_datagram(&query).expect("a reply");
    assert_eq!(&reply[0..2], &[0x00, 0x42]);
    assert_eq!(reply[3] & 0x0F, 2);
    assert_eq!(&reply[6..8], &[0, 0]);
}

#[test]
fn datagram_parses_header_and_question() {
    let query = query_bytes(7, &["a", "test"], 28);
    let packet = DnsPacket::from_bytes(&query).expect("a packet");
    assert_eq!(packet.header.id, 7);
    assert!(packet.header.recursion_desired);
    assert!(!packet.header.response);
    assert_eq!(packet.questions.len(), 1);
    assert_eq!(packet.questions[0].name, b"a.test".to_vec());
    assert_eq!(packet.questions[0].qtype, QueryType::AAAA);
}

#[test]
fn truncated_datagrams_are_not_answered() {
    assert!(handle_datagram(&[1, 2, 3]).is_none());
    let mut query = query_bytes(7, &["a", "test"], 1);
    query.truncate(query.len() - 3);
    assert!(handle_datagram(&query).is_none());
}

#[test]
fn compressed_question_names_are_refused() {
    let mut query = vec![0, 9, 1, 0, 0, 1, 0, 0, 0, 0, 0, 0];
    query.extend_from_slice(&[0xC0, 0x00, 0, 1, 0, 1]);
    assert!(DnsPacket::from_bytes(&query).is_none());
}

#[test]
fn result_and_type_codes() {
    assert_eq!(ResultCode::NOTIMP.to_num(), 4);
    assert_eq!(ResultCode::from_num(2), ResultCode::SERVFAIL);
    assert_eq!(QueryType::from_num(15), QueryType::MX);
    assert_eq!(QueryType::from_num(99), QueryType::UNKNOWN(99));
    assert_eq!(QueryType::AAAA.to_num(), 28);
}
