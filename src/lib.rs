//! Encoding and decoding of DNS messages in the RFC 1035 wire format, with
//! name compression on encode and bounded pointer resolution on decode.

mod bits;
mod builder;
mod error;
mod kinds;
mod message;
mod name;
mod parser;
mod round_trip;
mod wire;

pub use bits::{
    extract, field_mask, get_bit_position, lemma_extract_pack, lemma_pack_into_empty_field, pack,
    set_bit_position,
};
pub use builder::{
    address_tail, encode_name, encode_questions, header_bytes, header_encodable, insert_pos, label_error,
    lemma_long_label_rejected, lemma_reserved_cleared, longest_first, name_error, padded, pointer_bytes, query_bytes, split_from,
    split_labels, DnsQueryBuilder,
};
pub use error::{Error, ErrorKind};
pub use kinds::{
    OperationCode, PacketType, QuestionClass, QuestionType, ResourceClass, ResourceType, ResponseCode,
};
pub use message::{
    DnsPacket, Header, PacketView, PreviousNames, Question, QuestionView, RawPacket, Resource,
    ResourcePayload, ResourceView,
};
pub use name::{
    best_match, entries_view, is_label_byte, label_bytes, labels_view, suffix_match, suitable_pointer,
    target_of, DomainName, DomainNameBuilder, DomainNamePointer, EntryView,
};
pub use parser::{
    all_label_bytes, domain_name_at, header_of, lemma_forward_pointer_rejected, name_at, packet_of,
    question_at, questions_at, resource_at, resources_at, resume, DnsParser,
};
pub use round_trip::{
    by_descending_label_count, entries_in, lemma_longest_first_order, lemma_longest_first_permutes,
    lemma_round_trip, valid_labels, valid_question, with_label_count,
};
