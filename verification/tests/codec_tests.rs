use dns_relay::answer::{Data, Ipv4, ResourceRecord};
use dns_relay::error::DnsError;
use dns_relay::header::{Header, MessageType, OpCode, ResponseCode};
use dns_relay::message::{parse_labels, Class, DNSMessage, RawMessage, Type};
use dns_relay::question::Question;

#[test]
fn uncompressed_label_sequence_decodes_to_dotted_name() {
    let mut bytes: Vec<u8> = vec![12];
    bytes.extend_from_slice("codecrafters".as_bytes());
    bytes.push(2);
    bytes.extend_from_slice("io".as_bytes());
    bytes.push(0);
    let mut raw = RawMessage::new(&bytes);
    let name = parse_labels(&mut raw).unwrap();
    assert_eq!("codecrafters.io", name);
    assert_eq!(bytes.len(), raw.current_pos);
}

#[test]
fn five_chained_pointers_decode() {
    let bytes: Vec<u8> = vec![
        0xC0, 2, 0xC0, 4, 0xC0, 6, 0xC0, 8, 0xC0, 10, 1, b'x', 0,
    ];
    let mut raw = RawMessage::new(&bytes);
    let name = parse_labels(&mut raw).unwrap();
    assert_eq!("x", name);
    // Reading resumes right after the first pointer.
    assert_eq!(2, raw.current_pos);
}

#[test]
fn six_chained_pointers_fail_with_compression_loop_error() {
    let bytes: Vec<u8> = vec![
        0xC0, 2, 0xC0, 4, 0xC0, 6, 0xC0, 8, 0xC0, 10, 0xC0, 12, 1, b'x', 0,
    ];
    let mut raw = RawMessage::new(&bytes);
    assert_eq!(
        DnsError::CompressionLoopError,
        parse_labels(&mut raw).unwrap_err()
    );
}

#[test]
fn self_referential_pointer_fails_with_compression_loop_error() {
    let bytes: Vec<u8> = vec![0xC0, 0, 0];
    let mut raw = RawMessage::new(&bytes);
    assert_eq!(
        DnsError::CompressionLoopError,
        parse_labels(&mut raw).unwrap_err()
    );
}

#[test]
fn label_that_is_not_text_is_rejected() {
    let bytes: Vec<u8> = vec![2, 0xFF, 0xFE, 0];
    let mut raw = RawMessage::new(&bytes);
    assert_eq!(DnsError::FormatError, parse_labels(&mut raw).unwrap_err());
}

#[test]
fn name_running_off_the_buffer_is_rejected() {
    let bytes: Vec<u8> = vec![5, b'a', b'b'];
    let mut raw = RawMessage::new(&bytes);
    assert_eq!(DnsError::FormatError, parse_labels(&mut raw).unwrap_err());
}

#[test]
fn whole_message_round_trips_through_bytes() {
    let message = DNSMessage {
        header: Header {
            id: 515,
            message_type: MessageType::Query,
            op_code: OpCode::Query,
            auth_answer: false,
            truncation: false,
            recursion_desired: true,
            recursion_available: false,
            z: 0,
            response_code: ResponseCode::NoError,
            qd_count: 1,
            an_count: 1,
            ns_count: 0,
            ar_count: 0,
        },
        question: Some(vec![Question {
            name: "codecrafters.io".to_string(),
            qtype: Type::A,
            class: Class::IN,
        }]),
        answer: Some(vec![ResourceRecord {
            name: "codecrafters.io".to_string(),
            atype: Type::A,
            class: Class::IN,
            ttl: 60,
            length: 4,
            data: Data::IP(Ipv4::new(76, 76, 21, 21)),
        }]),
    };
    let bytes = message.to_bytes();
    let back = DNSMessage::from_bytes(&bytes).unwrap();
    assert_eq!(message, back);
}

#[test]
fn header_only_message_round_trips_through_bytes() {
    let mut message = DNSMessage::default();
    message.header.id = 7;
    message.header.ar_count = 3;
    let bytes = message.to_bytes();
    assert_eq!(12, bytes.len());
    let back = DNSMessage::from_bytes(&bytes).unwrap();
    assert_eq!(message, back);
}
