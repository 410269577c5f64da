use dns_codec::{
    DnsParser, ErrorKind, Header, OperationCode, PacketType, PreviousNames, QuestionClass, QuestionType,
    RawPacket, ResourcePayload, ResponseCode,
};

fn header(id: u16, flags: u16, qd: u16, an: u16, ns: u16, ar: u16) -> Vec<u8> {
    let mut v = Vec::new();
    for w in [id, flags, qd, an, ns, ar] {
        v.push((w >> 8) as u8);
        v.push((w & 0xff) as u8);
    }
    v
}

fn google_question() -> Vec<u8> {
    let mut v = vec![6];
    v.extend_from_slice(b"google");
    v.push(3);
    v.extend_from_slice(b"com");
    v.push(0);
    v.extend_from_slice(&[0, 1, 0, 1]);
    v
}

fn labels(parts: &[&str]) -> Vec<Vec<u8>> {
    parts.iter().map(|p| p.as_bytes().to_vec()).collect()
}

#[test]
fn response_header_flags_decode() {
    // QR=1, opcode 0, AA=0, TC=0, RD=0, RA=1, Z=0, RCODE=3
    let buf = header(0x0000, 0b1000_0000_1000_0011, 0, 0, 0, 0);
    let h = Header::read_header(&buf).unwrap();
    assert_eq!(h.packet_type, PacketType::Response);
    assert_eq!(h.operation_code, OperationCode::StandardQuery);
    assert!(h.recursion_available);
    assert!(!h.recursion_desired);
    assert!(!h.authorative);
    assert!(!h.truncated);
    assert_eq!(h.response_code, ResponseCode::NXDOMAIN);
    assert_eq!(h.id, 0);
}

#[test]
fn header_fields_read_in_network_order() {
    let buf = header(0x1234, 0x0100, 1, 2, 3, 0x0405);
    let mut parser = DnsParser::new();
    let h = parser.read_header(&buf).unwrap();
    assert_eq!(h.id, 0x1234);
    assert!(h.recursion_desired);
    assert_eq!(h.packet_type, PacketType::Query);
    assert_eq!(h.question_count, 1);
    assert_eq!(h.answer_count, 2);
    assert_eq!(h.authority_count, 3);
    assert_eq!(h.additional_count, 0x0405);
}

#[test]
fn short_header_is_truncated() {
    let buf = [0u8; 11];
    assert_eq!(Header::read_header(&buf).unwrap_err().kind(), ErrorKind::ReadTruncated);
    let mut parser = DnsParser::new();
    assert_eq!(parser.parse_packet(&buf).unwrap_err().kind(), ErrorKind::ReadTruncated);
}

#[test]
fn question_name_and_type_decode() {
    let mut buf = header(7, 0x0100, 1, 0, 0, 0);
    buf.extend_from_slice(&google_question());
    let mut parser = DnsParser::new();
    let packet = parser.parse_packet(&buf).unwrap();
    assert_eq!(packet.header.question_count, 1);
    assert_eq!(packet.questions.len(), 1);
    let q = &packet.questions[0];
    assert_eq!(q.domain_name.labels(), &labels(&["google", "com"]));
    assert_eq!(q.question_type, QuestionType::Address);
    assert_eq!(q.question_class, QuestionClass::Internet);
}

#[test]
fn question_type_decodes_whatever_the_case_of_the_name() {
    let mut buf = header(7, 0, 1, 0, 0, 0);
    buf.push(6);
    buf.extend_from_slice(b"GoOgLE");
    buf.push(3);
    buf.extend_from_slice(b"cOM");
    buf.push(0);
    buf.extend_from_slice(&[0, 15, 0, 1]);
    let mut parser = DnsParser::new();
    let packet = parser.parse_packet(&buf).unwrap();
    let q = &packet.questions[0];
    assert_eq!(q.domain_name.labels(), &labels(&["GoOgLE", "cOM"]));
    assert_eq!(q.question_type, QuestionType::MailExchange);
    assert_eq!(q.question_class, QuestionClass::Internet);
}

#[test]
fn test_read_domain_name() {
    let mut buf = header(1, 0, 1, 0, 0, 0);
    buf.extend_from_slice(&google_question());
    let mut parser = DnsParser::new();
    parser.seek(12);
    let mut names = PreviousNames::new();
    let n = parser.read_domain_name(&buf, &mut names).unwrap();
    assert_eq!(n.labels(), &labels(&["google", "com"]));
    assert_eq!(names.get(12).unwrap().labels(), &labels(&["google", "com"]));
    let q = parser.read_question(&buf, &mut names);
    assert_eq!(q.unwrap_err().kind(), ErrorKind::ReadTruncated);
}

fn response_with_answer(rtype: u16, rdlength: u16, rdata: &[u8]) -> Vec<u8> {
    let mut buf = header(0xabcd, 0x8180, 1, 1, 0, 0);
    buf.extend_from_slice(&google_question());
    // name: pointer to offset 12
    buf.extend_from_slice(&[0xc0, 12]);
    buf.extend_from_slice(&[(rtype >> 8) as u8, rtype as u8, 0, 1]);
    buf.extend_from_slice(&[0x01, 0x02, 0x03, 0x04]);
    buf.extend_from_slice(&[(rdlength >> 8) as u8, rdlength as u8]);
    buf.extend_from_slice(rdata);
    buf
}

#[test]
fn answer_with_compressed_name_decodes() {
    let buf = response_with_answer(1, 4, &[142, 250, 72, 14]);
    let mut parser = DnsParser::new();
    let packet = parser.parse_packet(&buf).unwrap();
    assert_eq!(packet.answers.len(), 1);
    let a = &packet.answers[0];
    assert_eq!(a.resource_name.labels(), &labels(&["google", "com"]));
    assert_eq!(a.time_to_live, 0x01020304);
    assert_eq!(a.payload, ResourcePayload::Address([142, 250, 72, 14]));
    assert!(packet.authority.is_empty());
    assert!(packet.additional.is_empty());
}

#[test]
fn test_read_pointer_domain_name() {
    let buf = response_with_answer(1, 4, &[1, 2, 3, 4]);
    let mut parser = DnsParser::new();
    let domain_labels = parser.read_domain_name_pointer(&buf, 12).unwrap();
    assert_eq!(domain_labels, labels(&["google", "com"]));
}

#[test]
fn other_record_types_are_unsupported() {
    let buf = response_with_answer(5, 4, &[1, 2, 3, 4]);
    let mut parser = DnsParser::new();
    assert_eq!(parser.parse_packet(&buf).unwrap_err().kind(), ErrorKind::UnsupportedRecord);
    let buf = response_with_answer(1, 6, &[1, 2, 3, 4, 5, 6]);
    assert_eq!(parser.parse_packet(&buf).unwrap_err().kind(), ErrorKind::UnsupportedRecord);
}

#[test]
fn missing_address_bytes_are_truncated() {
    let buf = response_with_answer(1, 4, &[1, 2]);
    let mut parser = DnsParser::new();
    assert_eq!(parser.parse_packet(&buf).unwrap_err().kind(), ErrorKind::ReadTruncated);
}

#[test]
fn more_records_counted_than_present_is_truncated() {
    let mut buf = header(1, 0, 2, 0, 0, 0);
    buf.extend_from_slice(&google_question());
    let mut parser = DnsParser::new();
    assert_eq!(parser.parse_packet(&buf).unwrap_err().kind(), ErrorKind::ReadTruncated);
}

#[test]
fn pointer_to_itself_or_forward_is_invalid() {
    let mut buf = header(1, 0, 1, 0, 0, 0);
    buf.extend_from_slice(&[0xc0, 12, 0, 1, 0, 1]);
    let mut parser = DnsParser::new();
    assert_eq!(parser.parse_packet(&buf).unwrap_err().kind(), ErrorKind::InvalidPointer);
    let mut buf = header(1, 0, 1, 0, 0, 0);
    buf.extend_from_slice(&[0xc0, 14, 0, 1, 0, 1, 0]);
    assert_eq!(parser.parse_packet(&buf).unwrap_err().kind(), ErrorKind::InvalidPointer);
}

#[test]
fn pointer_cycle_is_invalid() {
    // offset 12: label "a" then a pointer back to 12
    let mut buf = header(1, 0, 1, 0, 0, 0);
    buf.extend_from_slice(&[1, b'a', 0xc0, 12, 0, 1, 0, 1]);
    let mut parser = DnsParser::new();
    assert_eq!(parser.parse_packet(&buf).unwrap_err().kind(), ErrorKind::InvalidPointer);
}

#[test]
fn bad_label_bytes_are_invalid() {
    let mut buf = header(1, 0, 1, 0, 0, 0);
    buf.extend_from_slice(&[2, b'a', 0x01, 0, 0, 1, 0, 1]);
    let mut parser = DnsParser::new();
    assert_eq!(parser.parse_packet(&buf).unwrap_err().kind(), ErrorKind::InvalidLabel);
    let mut buf = header(1, 0, 1, 0, 0, 0);
    buf.extend_from_slice(&[0x40, 0, 0, 1, 0, 1]);
    assert_eq!(parser.parse_packet(&buf).unwrap_err().kind(), ErrorKind::InvalidLabel);
}

#[test]
fn unassigned_codes_decode_to_unknown() {
    // opcode 9, rcode 7
    let buf = header(1, 0b0100_1000_0000_0111, 0, 0, 0, 0);
    let h = Header::read_header(&buf).unwrap();
    assert_eq!(h.operation_code, OperationCode::Unknown);
    assert_eq!(h.response_code, ResponseCode::UNKNOWN);
}

#[test]
fn written_header_reads_back() {
    let mut h = Header::new();
    h.id = 0x0102;
    h.packet_type = PacketType::Response;
    h.recursion_available = true;
    h.response_code = ResponseCode::NXDOMAIN;
    h.question_count = 1;
    h.additional_count = 0x0304;
    let mut raw = RawPacket::new();
    raw.write_header(&h).unwrap();
    assert_eq!(&raw.bytes()[0..12], &[0x01, 0x02, 0x80, 0x83, 0, 1, 0, 0, 0, 0, 0x03, 0x04]);
    assert!(raw.bytes()[12..].iter().all(|b| *b == 0));
    assert_eq!(Header::read_header(&raw.bytes()[..]).unwrap(), h);
}

#[test]
fn header_with_unknown_kind_is_not_written() {
    let mut h = Header::new();
    h.operation_code = OperationCode::Unknown;
    let mut raw = RawPacket::new();
    assert_eq!(raw.write_header(&h).unwrap_err().kind(), ErrorKind::UnencodableKind);
    assert!(raw.bytes().iter().all(|b| *b == 0));
    let mut h = Header::new();
    h.response_code = ResponseCode::UNKNOWN;
    assert_eq!(raw.write_header(&h).unwrap_err().kind(), ErrorKind::UnencodableKind);
}

#[test]
fn pointer_offset_outside_the_buffer_is_invalid() {
    let mut buf = header(1, 0, 1, 0, 0, 0);
    buf.extend_from_slice(&google_question());
    let mut parser = DnsParser::new();
    let len = buf.len() as u16;
    assert_eq!(parser.read_domain_name_pointer(&buf, len).unwrap_err().kind(), ErrorKind::InvalidPointer);
    assert_eq!(parser.read_domain_name_pointer(&buf, 0x3fff).unwrap_err().kind(), ErrorKind::InvalidPointer);
}
