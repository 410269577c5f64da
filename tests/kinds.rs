use dns_codec::{
    ErrorKind, OperationCode, PacketType, QuestionClass, QuestionType, ResourceClass, ResourceType,
    ResponseCode,
};

#[test]
fn decoding_is_total() {
    assert_eq!(OperationCode::from(2u8), OperationCode::ServerStatus);
    assert_eq!(OperationCode::from(9u8), OperationCode::Unknown);
    assert_eq!(ResponseCode::from(3u8), ResponseCode::NXDOMAIN);
    assert_eq!(ResponseCode::from(6u8), ResponseCode::UNKNOWN);
    assert_eq!(PacketType::from(1u8), PacketType::Response);
    assert_eq!(PacketType::from(2u8), PacketType::Unknown);
    assert_eq!(QuestionType::from(255u16), QuestionType::All);
    assert_eq!(QuestionType::from(17u16), QuestionType::Unknown);
    assert_eq!(QuestionClass::from(255u16), QuestionClass::Any);
    assert_eq!(QuestionClass::from(5u16), QuestionClass::Unknown);
    assert_eq!(ResourceClass::from(4u16), ResourceClass::Hesiod);
    assert_eq!(ResourceClass::from(255u16), ResourceClass::Unknown);
    assert_eq!(ResourceType::from(16u16), ResourceType::TextStrings);
    assert_eq!(ResourceType::from(252u16), ResourceType::Unknown);
}

#[test]
fn encoding_gives_wire_values() {
    assert_eq!(QuestionType::Address.to_wire().unwrap(), 1);
    assert_eq!(QuestionType::MailBox.to_wire().unwrap(), 7);
    assert_eq!(QuestionType::MailGroup.to_wire().unwrap(), 8);
    assert_eq!(QuestionType::TransferZone.to_wire().unwrap(), 252);
    assert_eq!(QuestionClass::Any.to_wire().unwrap(), 255);
    assert_eq!(ResourceType::MailExchange.to_wire().unwrap(), 15);
    assert_eq!(ResourceClass::Chaos.to_wire().unwrap(), 3);
    assert_eq!(OperationCode::InverseQuery.to_wire().unwrap(), 1);
    assert_eq!(ResponseCode::REFUSED.to_wire().unwrap(), 5);
    assert_eq!(PacketType::Response.to_wire().unwrap(), 1);
}

#[test]
fn unknown_kinds_cannot_be_encoded() {
    assert_eq!(QuestionType::Unknown.to_wire().unwrap_err().kind(), ErrorKind::UnencodableKind);
    assert_eq!(QuestionClass::Unknown.to_wire().unwrap_err().kind(), ErrorKind::UnencodableKind);
    assert_eq!(ResourceType::Unknown.to_wire().unwrap_err().kind(), ErrorKind::UnencodableKind);
    assert_eq!(ResourceClass::Unknown.to_wire().unwrap_err().kind(), ErrorKind::UnencodableKind);
    assert_eq!(OperationCode::Unknown.to_wire().unwrap_err().kind(), ErrorKind::UnencodableKind);
    assert_eq!(ResponseCode::UNKNOWN.to_wire().unwrap_err().kind(), ErrorKind::UnencodableKind);
    assert_eq!(PacketType::Unknown.to_wire().unwrap_err().kind(), ErrorKind::UnencodableKind);
}

#[test]
fn every_question_type_survives_encode_then_decode() {
    for v in 0u16..300 {
        let t = QuestionType::from(v);
        match t.to_wire() {
            Ok(w) => assert_eq!(w, v),
            Err(_) => assert_eq!(t, QuestionType::Unknown),
        }
    }
}
