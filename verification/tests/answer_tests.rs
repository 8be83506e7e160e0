use dns_relay::answer::{Data, Ipv4, ResourceRecord};
use dns_relay::error::DnsError;
use dns_relay::message::{Class, RawMessage, Type};

#[test]
fn test_answer_by_type() {
    let expected_answer = ResourceRecord {
        name: "codecrafters.io".to_string(),
        atype: Type::A,
        class: Class::IN,
        ttl: 60,
        length: 4,
        data: Data::IP(Ipv4::new(8, 8, 8, 8)),
    };
    let answer = ResourceRecord::answer_by_type(Type::A, "codecrafters.io").unwrap();
    assert_eq!(expected_answer, answer);
}

#[test]
fn test_rr_to_bytes() {
    let answer = ResourceRecord {
        name: "codecrafters.io".to_string(),
        atype: Type::A,
        class: Class::IN,
        ttl: 60,
        length: 4,
        data: Data::IP(Ipv4::new(8, 8, 8, 8)),
    };

    let bytes = answer.to_bytes();
    let len = bytes[0];
    assert_eq!(12, len);
    let len_hex = format!("{:#02x}", len);
    assert_eq!("0xc", len_hex);
    let next_index = (len + 1) as usize;
    let label = String::from_utf8_lossy(&bytes[1..next_index]);
    assert_eq!("codecrafters", label);

    let len = bytes[next_index];
    assert_eq!(2, len);
    let len_hex = format!("{:#02x}", len);
    assert_eq!("0x2", len_hex);
    let curr_index = next_index + 1;
    let next_index = (curr_index as u8 + len) as usize;
    let label = String::from_utf8_lossy(&bytes[curr_index..next_index]);
    assert_eq!("io", label);

    // null termination
    assert_eq!(0, bytes[next_index]);

    let array: [u8; 2] = [bytes[next_index + 1], bytes[next_index + 2]];
    assert_eq!(1, u16::from_be_bytes(array));
    let array: [u8; 2] = [bytes[next_index + 3], bytes[next_index + 4]];
    assert_eq!(1, u16::from_be_bytes(array));
    let array: [u8; 4] = [
        bytes[next_index + 5],
        bytes[next_index + 6],
        bytes[next_index + 7],
        bytes[next_index + 8],
    ];
    assert_eq!(60, u32::from_be_bytes(array));
    let array: [u8; 2] = [bytes[next_index + 9], bytes[next_index + 10]];
    assert_eq!(4, u16::from_be_bytes(array));
    assert_eq!(&[8, 8, 8, 8], &bytes[next_index + 11..]);
}

#[test]
fn answer_test_from_bytes_uncompressed() {
    let mut bytes: Vec<u8> = vec![12];
    bytes.extend_from_slice("codecrafters".as_bytes());
    bytes.push(2);
    bytes.extend_from_slice("io".as_bytes());
    // Null terminated label
    bytes.push(0);
    let typ: u16 = 1;
    bytes.extend_from_slice(&typ.to_be_bytes());
    let class: u16 = 1;
    bytes.extend_from_slice(&class.to_be_bytes());
    let ttl: u32 = 60;
    bytes.extend_from_slice(&ttl.to_be_bytes());
    let length: u16 = 4;
    bytes.extend_from_slice(&length.to_be_bytes());
    let data = [8, 8, 8, 8];
    bytes.extend_from_slice(&data);

    let mut raw = RawMessage::new(&bytes);
    let rr = ResourceRecord::from_bytes(&mut raw).unwrap();
    assert_eq!("codecrafters.io".to_string(), rr.name);
    assert_eq!(Type::A, rr.atype);
    assert_eq!(Class::IN, rr.class);
    assert_eq!(ttl, rr.ttl);
    match rr.data {
        Data::Unmapped => panic!("data was not mapped"),
        Data::IP(ip) => assert_eq!(data, ip.octets()),
    }
}

#[test]
fn answer_test_from_bytes_with_compression() {
    let mut bytes: Vec<u8> = vec![12];
    // Another question in the message
    bytes.extend_from_slice("codecrafters".as_bytes());
    bytes.push(2);
    bytes.extend_from_slice("io".as_bytes());
    // Null terminated label
    bytes.push(0);
    let typ: u16 = 1;
    bytes.extend_from_slice(&typ.to_be_bytes());
    let ch: u16 = 1;
    bytes.extend_from_slice(&ch.to_be_bytes());

    // the question being parsed
    bytes.push(7);
    bytes.extend_from_slice("another".as_bytes());
    // Pointer byte
    bytes.push(0b11000000);
    // Offsite to the beginning of the slice
    bytes.push(0);
    let typ: u16 = 1;
    bytes.extend_from_slice(&typ.to_be_bytes());
    let class: u16 = 1;
    bytes.extend_from_slice(&class.to_be_bytes());
    let ttl: u32 = 60;
    bytes.extend_from_slice(&ttl.to_be_bytes());
    let length: u16 = 4;
    bytes.extend_from_slice(&length.to_be_bytes());
    let data = [1, 1, 1, 1];
    bytes.extend_from_slice(&data);

    let mut raw = RawMessage::new(&bytes);
    // Start of the question being parsed
    raw.current_pos = 21;
    let rr = ResourceRecord::from_bytes(&mut raw).unwrap();
    assert_eq!("another.codecrafters.io".to_string(), rr.name);
    assert_eq!(Type::A, rr.atype);
    assert_eq!(Class::IN, rr.class);
    assert_eq!(ttl, rr.ttl);
    match rr.data {
        Data::Unmapped => panic!("data was not mapped"),
        Data::IP(ip) => assert_eq!(data, ip.octets()),
    }
}

#[test]
fn answer_by_type_uses_the_table_and_the_fallback() {
    let mapped = ResourceRecord::answer_by_type(Type::A, "another.codecrafters.io").unwrap();
    assert_eq!(Class::IN, mapped.class);
    assert_eq!(60, mapped.ttl);
    assert_eq!(4, mapped.length);
    assert_eq!(Data::IP(Ipv4::new(1, 1, 1, 1)), mapped.data);

    let fallback = ResourceRecord::answer_by_type(Type::A, "nobody.example").unwrap();
    assert_eq!(Data::IP(Ipv4::new(8, 8, 8, 8)), fallback.data);
}

#[test]
fn answer_by_type_rejects_other_types() {
    assert_eq!(
        DnsError::UnsupportedOperation,
        ResourceRecord::answer_by_type(Type::MX, "codecrafters.io").unwrap_err()
    );
}

#[test]
fn address_record_with_wrong_data_length_is_rejected() {
    let mut bytes: Vec<u8> = vec![1, b'x', 0];
    let typ: u16 = 1;
    bytes.extend_from_slice(&typ.to_be_bytes());
    let class: u16 = 1;
    bytes.extend_from_slice(&class.to_be_bytes());
    let ttl: u32 = 60;
    bytes.extend_from_slice(&ttl.to_be_bytes());
    let length: u16 = 2;
    bytes.extend_from_slice(&length.to_be_bytes());
    bytes.extend_from_slice(&[9, 9]);
    let mut raw = RawMessage::new(&bytes);
    assert_eq!(
        DnsError::FormatError,
        ResourceRecord::from_bytes(&mut raw).unwrap_err()
    );
}

#[test]
fn skipped_record_round_trips_with_empty_data() {
    let rr = ResourceRecord {
        name: "a.b".to_string(),
        atype: Type::Txt,
        class: Class::IN,
        ttl: 1,
        length: 0,
        data: Data::Unmapped,
    };
    let bytes = rr.to_bytes();
    let mut raw = RawMessage::new(&bytes);
    let back = ResourceRecord::from_bytes(&mut raw).unwrap();
    assert_eq!(rr, back);
    assert_eq!(bytes.len(), raw.current_pos);
}
