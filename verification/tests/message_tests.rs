use dns_relay::answer::{Data, Ipv4};
use dns_relay::message::{pointer, DNSMessage};

/// A 512-octet datagram whose leading bytes are the given ones and whose
/// tail is zero padding.
fn padded_datagram(prefix: &[u8]) -> [u8; 512] {
    let mut request = [0u8; 512];
    request[..prefix.len()].copy_from_slice(prefix);
    request
}

#[test]
fn test_pointer() {
    let b1 = 0b11000000;
    let b2 = 0b00001100;

    let p = pointer(b1, b2);
    assert!(p.is_some());
    assert_eq!(12, p.unwrap());

    let b1 = 0b00000000;
    let b2 = 0b00001100;

    let p = pointer(b1, b2);
    assert!(p.is_none());
}

#[test]
fn message_test_from_bytes_uncompressed() {
    let request = padded_datagram(&[
        118, 24, 1, 0, 0, 1, 0, 0, 0, 0, 0, 0, 12, 99, 111, 100, 101, 99, 114, 97, 102, 116, 101, 114, 115, 2, 105, 111, 0, 0, 1, 0, 1,
    ]);
    let message = DNSMessage::from_bytes(&request).unwrap();
    assert!(message.question.is_some());
    let question = message.question.unwrap();
    assert_eq!(1, question.len());
    assert_eq!("codecrafters.io", question[0].name);
}

#[test]
fn test_from_bytes_compressed() {
    let request = padded_datagram(&[
        219, 56, 1, 0, 0, 2, 0, 0, 0, 0, 0, 0, 3, 97, 98, 99, 17, 108, 111, 110, 103, 97, 115, 115, 100, 111, 109, 97, 105, 110, 110, 97, 109, 101, 3, 99, 111, 109, 0, 0, 1, 0, 1, 3, 100, 101, 102, 192, 16, 0, 1, 0, 1,
    ]);
    let message = DNSMessage::from_bytes(&request).unwrap();
    assert!(message.question.is_some());
    let question = message.question.unwrap();
    assert_eq!(2, question.len());
    assert_eq!("abc.longassdomainname.com", question[0].name);
    assert_eq!("def.longassdomainname.com", question[1].name);
}

#[test]
fn test_from_bytes_with_answer() {
    let request = padded_datagram(&[
        219, 180, 129, 0, 0, 1, 0, 1, 0, 0, 0, 0, 12, 99, 111, 100, 101, 99, 114, 97, 102, 116, 101, 114, 115, 2, 105, 111, 0, 0, 1, 0, 1, 12, 99, 111, 100, 101, 99, 114, 97, 102, 116, 101, 114, 115, 2, 105, 111, 0, 0, 1, 0, 1, 0, 0, 14, 16, 0, 4, 76, 76, 21, 21,
    ]);
    let message = DNSMessage::from_bytes(&request).unwrap();
    assert!(message.answer.is_some());
    let answer = message.answer.unwrap();
    assert_eq!(1, answer.len());
    assert_eq!("codecrafters.io", answer[0].name);
    assert_eq!(Data::IP(Ipv4::new(76, 76, 21, 21)), answer[0].data);
}

#[test]
fn message_too_short_for_a_header_is_rejected() {
    let buf = [0u8; 11];
    assert_eq!(
        dns_relay::error::DnsError::FormatError,
        DNSMessage::from_bytes(&buf).unwrap_err()
    );
}
