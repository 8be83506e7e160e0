use dns_relay::message::{Class, RawMessage, Type};
use dns_relay::question::Question;

#[test]
fn question_test_from_bytes_uncompressed() {
    let mut bytes: Vec<u8> = vec![12];
    bytes.extend_from_slice("codecrafters".as_bytes());
    bytes.push(2);
    bytes.extend_from_slice("io".as_bytes());
    // Null terminated label
    bytes.push(0);
    let typ: u16 = 5;
    bytes.extend_from_slice(&typ.to_be_bytes());
    let class: u16 = 3;
    bytes.extend_from_slice(&class.to_be_bytes());

    let mut raw = RawMessage::new(&bytes);
    let q = Question::from_bytes(&mut raw).unwrap();
    assert_eq!("codecrafters.io".to_string(), q.name);
    assert_eq!(Type::CName, q.qtype);
    assert_eq!(Class::CH, q.class);
}

#[test]
fn question_test_from_bytes_with_compression() {
    let mut bytes: Vec<u8> = vec![12];
    // Another question in the message
    bytes.extend_from_slice("codecrafters".as_bytes());
    bytes.push(2);
    bytes.extend_from_slice("io".as_bytes());
    // Null terminated label
    bytes.push(0);
    let typ: u16 = 5;
    bytes.extend_from_slice(&typ.to_be_bytes());
    let class: u16 = 3;
    bytes.extend_from_slice(&class.to_be_bytes());

    // the question being parsed
    bytes.push(7);
    bytes.extend_from_slice("another".as_bytes());
    // Pointer byte
    bytes.push(0b11000000);
    // Offsite to the beginning of the slice
    bytes.push(0);
    let cname: u16 = 5;
    bytes.extend_from_slice(&cname.to_be_bytes());
    let ch: u16 = 3;
    bytes.extend_from_slice(&ch.to_be_bytes());

    let mut raw = RawMessage::new(&bytes);
    // Start of the question being parsed
    raw.current_pos = 21;
    let q = Question::from_bytes(&mut raw).unwrap();
    assert_eq!("another.codecrafters.io".to_string(), q.name);
    assert_eq!(Type::CName, q.qtype);
    assert_eq!(Class::CH, q.class);
}

#[test]
fn test_question_to_bytes() {
    let question = Question {
        name: "codecrafters.io".to_string(),
        ..Default::default()
    };

    let bytes = question.to_bytes();
    let len = bytes[0];
    assert_eq!(12, len);
    let len_hex = format!("{:#02x}", len);
    assert_eq!("0xc", len_hex);
    let next_index = (len + 1) as usize;
    let label = String::from_utf8_lossy(&bytes[1..next_index]);
    assert_eq!("codecrafters", label);

    let len = bytes[next_index];
    assert_eq!(2, len);
    let len_hex = format!("{:#02x}", len);
    assert_eq!("0x2", len_hex);
    let curr_index = next_index + 1;
    let next_index = (curr_index as u8 + len) as usize;
    let label = String::from_utf8_lossy(&bytes[curr_index..next_index]);
    assert_eq!("io", label);

    // null termination
    assert_eq!(0, bytes[next_index]);
    let array: [u8; 2] = [bytes[next_index + 1], bytes[next_index + 2]];
    assert_eq!(1, u16::from_be_bytes(array));
    let array: [u8; 2] = [bytes[next_index + 3], bytes[next_index + 4]];
    assert_eq!(1, u16::from_be_bytes(array));
}

#[test]
fn question_with_unknown_type_is_rejected() {
    let mut bytes: Vec<u8> = vec![1, b'x', 0];
    let typ: u16 = 17;
    bytes.extend_from_slice(&typ.to_be_bytes());
    let class: u16 = 1;
    bytes.extend_from_slice(&class.to_be_bytes());
    let mut raw = RawMessage::new(&bytes);
    assert_eq!(
        dns_relay::error::DnsError::FormatError,
        Question::from_bytes(&mut raw).unwrap_err()
    );
}

#[test]
fn question_with_unknown_class_is_rejected() {
    let mut bytes: Vec<u8> = vec![1, b'x', 0];
    let typ: u16 = 1;
    bytes.extend_from_slice(&typ.to_be_bytes());
    let class: u16 = 0;
    bytes.extend_from_slice(&class.to_be_bytes());
    let mut raw = RawMessage::new(&bytes);
    assert_eq!(
        dns_relay::error::DnsError::FormatError,
        Question::from_bytes(&mut raw).unwrap_err()
    );
}

#[test]
fn empty_name_encodes_as_an_empty_label() {
    let question = Question::default();
    assert_eq!(vec![0, 0, 0, 1, 0, 1], question.to_bytes());
}

#[test]
fn question_round_trips_through_bytes() {
    let question = Question {
        name: "some.long.example.name".to_string(),
        qtype: Type::Txt,
        class: Class::HS,
    };
    let bytes = question.to_bytes();
    let mut raw = RawMessage::new(&bytes);
    let back = Question::from_bytes(&mut raw).unwrap();
    assert_eq!(question, back);
    assert_eq!(bytes.len(), raw.current_pos);
}
