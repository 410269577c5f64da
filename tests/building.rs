use byteorder::{ByteOrder, NetworkEndian};
use dns_codec::{DnsParser, DnsQueryBuilder, ErrorKind, QuestionClass, QuestionType};

fn labels(parts: &[&str]) -> Vec<Vec<u8>> {
    parts.iter().map(|p| p.as_bytes().to_vec()).collect()
}

#[test]
fn test_build_query_packet() {
    let mut query_builder = DnsQueryBuilder::new();
    let res = query_builder
        .recursion(true)
        .request_address("dev.google.com")
        .unwrap()
        .request_address("google.com")
        .unwrap()
        .request_address("admin.google.com")
        .unwrap()
        .build_query()
        .unwrap();
    let mut parser = DnsParser::new();
    let packet = parser.parse_packet(&res[..]).unwrap();
    assert_eq!(packet.header.question_count, 3);
    assert!(packet.header.recursion_desired);
    let names: Vec<&Vec<Vec<u8>>> = packet.questions.iter().map(|q| q.domain_name.labels()).collect();
    assert_eq!(names, vec![&labels(&["dev", "google", "com"]), &labels(&["admin", "google", "com"]), &labels(&["google", "com"])]);
}

#[test]
fn test_set_bit_position() {
    let mut query_builder = DnsQueryBuilder::new();
    query_builder.set_bit_position(2, 2, 0b10);
    {
        let data = &query_builder.packet_data()[..];
        let packed_data = NetworkEndian::read_u16(&data[2..4]);
        assert_eq!(packed_data, 0b0010000000000000);
    }
    query_builder.set_bit_position(2, 3, 0b101);
    let data = &query_builder.packet_data()[..];
    let packed_data = NetworkEndian::read_u16(&data[2..4]);
    assert_eq!(packed_data, 0b0010100000000000);
}

#[test]
fn test_set_recursion_desired() {
    let mut query_builder = DnsQueryBuilder::new();
    query_builder.write_id(Some(0)).unwrap().recursion(true);
    {
        let packet_data = &query_builder.packet_data()[..];
        let id = NetworkEndian::read_u16(&packet_data[0..2]);
        assert_eq!(id, 0);
        let read_bits = NetworkEndian::read_u16(&packet_data[2..4]);
        // 7th bit only should be set
        assert_eq!(read_bits, 0b0000000100000000);
    }
    query_builder.recursion(false);
    let packet_data = &query_builder.packet_data()[..];
    let id = NetworkEndian::read_u16(&packet_data[0..2]);
    assert_eq!(id, 0);
    let read_bits = NetworkEndian::read_u16(&packet_data[2..4]);
    // No bits should be set
    assert_eq!(read_bits, 0b0000000000000000);
}

#[test]
fn write_id_puts_the_id_first_in_network_order() {
    let mut b = DnsQueryBuilder::new();
    b.write_id(Some(0xbeef)).unwrap();
    assert_eq!(&b.packet_data()[0..2], &[0xbe, 0xef]);
    let out = b.build_query().unwrap();
    assert_eq!(&out[0..12], &[0xbe, 0xef, 0, 0, 0, 0, 0, 0, 0, 0, 0, 0]);
}

#[test]
fn absent_id_does_not_depend_on_the_previous_one() {
    let mut b = DnsQueryBuilder::new();
    b.write_id(Some(0xbeef)).unwrap();
    b.write_id(None).unwrap();
    assert_eq!(&b.packet_data()[0..2], &[0, 0]);
    b.write_id_or(Some(0x1234), 0x4321);
    assert_eq!(&b.packet_data()[0..2], &[0x12, 0x34]);
    b.write_id_or(None, 0x4321).recursion(true);
    assert_eq!(&b.packet_data()[0..4], &[0x43, 0x21, 0x01, 0x00]);
}

#[test]
fn reserved_bits_are_written_as_zero() {
    let mut b = DnsQueryBuilder::new();
    b.set_bit_position(9, 3, 0b111);
    b.set_bit_position(7, 1, 1);
    assert_eq!(&b.packet_data()[2..4], &[0x01, 0x70]);
    b.request_address("example.com").unwrap();
    let out = b.build_query().unwrap();
    assert_eq!(&out[2..4], &[0x01, 0x00]);
}

#[test]
fn suffix_is_written_once_and_pointed_to() {
    let mut b = DnsQueryBuilder::new();
    b.request_address("x.a.b.c").unwrap().request_address("a.b.c").unwrap();
    let out = b.build_query().unwrap();
    // header: id 0, flags 0, one count of two questions
    assert_eq!(&out[0..12], &[0, 0, 0, 0, 0, 2, 0, 0, 0, 0, 0, 0]);
    // the longer name first, in full; the shorter one as a pointer to its label "a"
    let expected: Vec<u8> = vec![
        1, b'x', 1, b'a', 1, b'b', 1, b'c', 0, 0, 1, 0, 1, 0xc0, 14, 0, 1, 0, 1,
    ];
    assert_eq!(&out[12..12 + expected.len()], &expected[..]);
    assert!(out[12 + expected.len()..].iter().all(|b| *b == 0));
    let literal = out.windows(7).filter(|w| *w == [1, b'a', 1, b'b', 1, b'c', 0]).count();
    assert_eq!(literal, 1);
}

#[test]
fn shared_suffix_after_distinct_labels_uses_labels_then_pointer() {
    let mut b = DnsQueryBuilder::new();
    b.request_address("www.example.org").unwrap().request_address("mail.example.org").unwrap();
    let out = b.build_query().unwrap();
    let expected: Vec<u8> = vec![
        3, b'w', b'w', b'w', 7, b'e', b'x', b'a', b'm', b'p', b'l', b'e', 3, b'o', b'r', b'g', 0, 0, 1, 0, 1,
        4, b'm', b'a', b'i', b'l', 0xc0, 16, 0, 1, 0, 1,
    ];
    assert_eq!(&out[12..12 + expected.len()], &expected[..]);
}

#[test]
fn round_trip_recovers_every_question() {
    let mut b = DnsQueryBuilder::new();
    b.write_id(Some(77)).unwrap();
    b.request_address("a.example.com").unwrap();
    b.request_address("example.com").unwrap();
    b.request_address("deep.a.example.com").unwrap();
    b.request_address("other.net").unwrap();
    let out = b.build_query().unwrap();
    let packet = DnsParser::new().parse_packet(&out).unwrap();
    assert_eq!(packet.header.id, 77);
    assert_eq!(packet.header.question_count, 4);
    assert_eq!(packet.header.answer_count, 0);
    let names: Vec<Vec<Vec<u8>>> = packet.questions.iter().map(|q| q.domain_name.labels().clone()).collect();
    assert_eq!(
        names,
        vec![
            labels(&["deep", "a", "example", "com"]),
            labels(&["a", "example", "com"]),
            labels(&["example", "com"]),
            labels(&["other", "net"]),
        ]
    );
    for q in &packet.questions {
        assert_eq!(q.question_type, QuestionType::Address);
        assert_eq!(q.question_class, QuestionClass::Internet);
    }
}

#[test]
fn label_of_sixty_four_bytes_is_too_long() {
    let mut b = DnsQueryBuilder::new();
    let long = "a".repeat(64);
    let err = b.request_address(&long).unwrap_err();
    assert_eq!(err.kind(), ErrorKind::LabelTooLong);
    assert!(b.packet_data().iter().all(|x| *x == 0));
    let out = b.build_query().unwrap();
    assert!(out.iter().all(|x| *x == 0));
    let ok = "a".repeat(63);
    let mut b = DnsQueryBuilder::new();
    assert!(b.request_address(&ok).is_ok());
}

#[test]
fn empty_labels_are_rejected() {
    let mut b = DnsQueryBuilder::new();
    assert_eq!(b.request_address("").unwrap_err().kind(), ErrorKind::EmptyLabel);
    assert_eq!(b.request_address("a..b").unwrap_err().kind(), ErrorKind::EmptyLabel);
    assert_eq!(b.request_address("a.b.").unwrap_err().kind(), ErrorKind::EmptyLabel);
}

#[test]
fn non_printable_labels_are_rejected() {
    let mut b = DnsQueryBuilder::new();
    assert_eq!(b.request_address("a\u{1}b.com").unwrap_err().kind(), ErrorKind::InvalidLabel);
    assert_eq!(b.request_address("caf\u{e9}.com").unwrap_err().kind(), ErrorKind::InvalidLabel);
}

#[test]
fn names_over_255_octets_are_rejected() {
    let mut b = DnsQueryBuilder::new();
    // four labels of 63 bytes take 4 * 64 + 1 = 257 octets
    let label = "b".repeat(63);
    let name = vec![label.clone(), label.clone(), label.clone(), label].join(".");
    assert_eq!(b.request_address(&name).unwrap_err().kind(), ErrorKind::NameTooLong);
    // 3 * 64 + 62 + 1 = 255 octets fit
    let name = vec!["c".repeat(63), "c".repeat(63), "c".repeat(63), "c".repeat(61)].join(".");
    assert!(b.request_address(&name).is_ok());
}

#[test]
fn message_over_512_bytes_is_refused_whole() {
    let mut b = DnsQueryBuilder::new();
    for i in 0..3 {
        let name = format!("{}{}.{}", "x".repeat(60), i, "y".repeat(60 + i));
        b.request_address(&name).unwrap();
    }
    // three distinct names of two labels: 3 * (63 + 62 + 1 + 4) = 390 bytes, fits
    assert!(b.request_address("z".repeat(63).as_str()).is_ok());
    let mut c = DnsQueryBuilder::new();
    for i in 0..4 {
        let name = format!("{}{}.{}", "x".repeat(60), i, "y".repeat(60 + i));
        c.request_address(&name).unwrap();
    }
    let err = c.build_query().unwrap_err();
    assert_eq!(err.kind(), ErrorKind::PacketTooLarge);
    assert!(c.packet_data().iter().all(|x| *x == 0));
}
