use dns_relay::answer::{Data, Ipv4, ResourceRecord};
use dns_relay::error::DnsError;
use dns_relay::header::{Header, MessageType, OpCode, ResponseCode};
use dns_relay::message::{Class, DNSMessage, RawMessage, Type};
use dns_relay::question::Question;
use dns_relay::{create_forwarder, parse_and_reply};

fn question(name: &str) -> Question {
    Question {
        name: name.to_string(),
        qtype: Type::A,
        class: Class::IN,
    }
}

fn address_record(name: &str, ip: Ipv4) -> ResourceRecord {
    ResourceRecord {
        name: name.to_string(),
        atype: Type::A,
        class: Class::IN,
        ttl: 60,
        length: 4,
        data: Data::IP(ip),
    }
}

fn request_bytes(id: u16, names: &[&str]) -> Vec<u8> {
    let mut header = Header::default();
    header.id = id;
    header.qd_count = names.len() as u16;
    let message = DNSMessage {
        header,
        question: Some(names.iter().map(|n| question(n)).collect()),
        answer: None,
    };
    message.to_bytes()
}

#[test]
fn parse_and_reply_answers_each_question_locally() {
    let request = request_bytes(99, &["codecrafters.io", "nobody.example"]);
    let reply_bytes = parse_and_reply(&request).unwrap();
    let reply = DNSMessage::from_bytes(&reply_bytes).unwrap();
    assert_eq!(99, reply.header.id);
    assert_eq!(MessageType::Response, reply.header.message_type);
    assert_eq!(ResponseCode::NoError, reply.header.response_code);
    assert_eq!(2, reply.header.qd_count);
    assert_eq!(2, reply.header.an_count);
    let questions = reply.question.unwrap();
    assert_eq!("codecrafters.io", questions[0].name);
    assert_eq!("nobody.example", questions[1].name);
    let answers = reply.answer.unwrap();
    assert_eq!(Data::IP(Ipv4::new(8, 8, 8, 8)), answers[0].data);
    assert_eq!(Data::IP(Ipv4::new(8, 8, 8, 8)), answers[1].data);
    assert_eq!(60, answers[0].ttl);
}

#[test]
fn parse_and_reply_rejects_a_non_address_question() {
    let mut header = Header::default();
    header.qd_count = 1;
    let message = DNSMessage {
        header,
        question: Some(vec![Question {
            name: "codecrafters.io".to_string(),
            qtype: Type::MX,
            class: Class::IN,
        }]),
        answer: None,
    };
    let request = message.to_bytes();
    assert_eq!(
        DnsError::UnsupportedOperation,
        parse_and_reply(&request).unwrap_err()
    );
}

#[test]
fn parse_and_reply_rejects_garbage() {
    assert_eq!(DnsError::FormatError, parse_and_reply(&[1, 2, 3]).unwrap_err());
}

/// Reads the question of a single-question outbound query without decoding
/// the answer section, which the relay's reused header counts but never
/// carries.
fn outbound_question(bytes: &[u8]) -> (Header, Question) {
    let header_bytes: [u8; 12] = bytes[0..12].try_into().unwrap();
    let header = Header::from_bytes(header_bytes).unwrap();
    let mut raw = RawMessage::new(bytes);
    raw.current_pos = 12;
    let q = Question::from_bytes(&mut raw).unwrap();
    (header, q)
}

#[test]
fn forwarding_splits_questions_and_reassembles_answers() {
    let request = request_bytes(515, &["codecrafters.io", "another.codecrafters.io"]);
    let mut fw = create_forwarder(&request, 42u8).unwrap();
    assert_eq!(42, fw.destination);
    assert!(!fw.is_complete());

    // First upstream query carries the first question alone.
    let out1 = fw.forward().unwrap();
    let (h1, q1) = outbound_question(&out1);
    assert_eq!(1, h1.qd_count);
    assert_eq!(515, h1.id);
    assert_eq!("codecrafters.io", q1.name);

    // The upstream answers it.
    let mut upstream = DNSMessage {
        header: h1.build_reply(),
        question: Some(vec![question("codecrafters.io")]),
        answer: None,
    };
    upstream.header.an_count = 0;
    upstream.add_answer(address_record("codecrafters.io", Ipv4::new(8, 8, 8, 8)));
    assert_eq!(false, fw.add_answer(&upstream.to_bytes()).unwrap());
    assert!(!fw.is_complete());

    // Second upstream query carries the second question alone.
    let out2 = fw.forward().unwrap();
    let (h2, q2) = outbound_question(&out2);
    assert_eq!(1, h2.qd_count);
    assert_eq!("another.codecrafters.io", q2.name);

    let mut upstream2 = DNSMessage {
        header: h2.build_reply(),
        question: Some(vec![question("another.codecrafters.io")]),
        answer: None,
    };
    upstream2.header.an_count = 0;
    upstream2.add_answer(address_record("another.codecrafters.io", Ipv4::new(1, 1, 1, 1)));
    assert_eq!(true, fw.add_answer(&upstream2.to_bytes()).unwrap());
    assert!(fw.is_complete());

    // The final reply carries both questions in order and both answers.
    let reply_bytes = fw.build_reply();
    let reply = DNSMessage::from_bytes(&reply_bytes).unwrap();
    assert_eq!(515, reply.header.id);
    assert_eq!(MessageType::Response, reply.header.message_type);
    assert_eq!(2, reply.header.an_count);
    let questions = reply.question.unwrap();
    assert_eq!(2, questions.len());
    assert_eq!("codecrafters.io", questions[0].name);
    assert_eq!("another.codecrafters.io", questions[1].name);
    let answers = reply.answer.unwrap();
    assert_eq!(2, answers.len());
    assert_eq!(Data::IP(Ipv4::new(8, 8, 8, 8)), answers[0].data);
    assert_eq!(Data::IP(Ipv4::new(1, 1, 1, 1)), answers[1].data);
}

#[test]
fn upstream_reply_without_answers_completes_the_session() {
    let request = request_bytes(7, &["codecrafters.io"]);
    let mut fw = create_forwarder(&request, "client".to_string()).unwrap();
    let empty_reply = DNSMessage::default().to_bytes();
    assert_eq!(true, fw.add_answer(&empty_reply).unwrap());
}

#[test]
fn malformed_upstream_reply_is_reported() {
    let request = request_bytes(7, &["codecrafters.io"]);
    let mut fw = create_forwarder(&request, 0u8).unwrap();
    assert_eq!(DnsError::FormatError, fw.add_answer(&[0, 1, 2]).unwrap_err());
}

#[test]
fn forwarder_reuses_the_reserved_op_code_in_its_reply() {
    let mut header = Header::default();
    header.op_code = OpCode::Reserved;
    header.qd_count = 1;
    let message = DNSMessage {
        header,
        question: Some(vec![question("codecrafters.io")]),
        answer: None,
    };
    let mut fw = create_forwarder(&message.to_bytes(), 0u8).unwrap();
    let (h1, _) = outbound_question(&fw.forward().unwrap());
    let mut upstream = DNSMessage {
        header: h1.build_reply(),
        question: Some(vec![question("codecrafters.io")]),
        answer: None,
    };
    upstream.header.an_count = 0;
    upstream.add_answer(address_record("codecrafters.io", Ipv4::new(8, 8, 8, 8)));
    assert_eq!(true, fw.add_answer(&upstream.to_bytes()).unwrap());
    let reply = DNSMessage::from_bytes(&fw.build_reply()).unwrap();
    assert_eq!(ResponseCode::NotImplemented, reply.header.response_code);
}
