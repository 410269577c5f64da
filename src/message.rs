//! The parts of a message: header, questions and resource records.
use crate::kinds::{OperationCode, PacketType, QuestionClass, QuestionType, ResponseCode};
use crate::name::DomainName;
use std::collections::HashMap;
use vstd::prelude::*;

verus! {

broadcast use vstd::std_specs::hash::group_hash_axioms;

/// A zeroed buffer of the size of a message.
#[derive(Debug)]
pub struct RawPacket {
    data: [u8; 512],
}

impl RawPacket {
    /// A buffer of 512 zero bytes.
    pub fn new() -> (r: RawPacket)
        ensures
            r.data()@ == Seq::new(512, |_i: int| 0u8),
    {
        RawPacket { data: [0u8; 512] }
    }

    pub closed spec fn data(&self) -> [u8; 512] {
        self.data
    }

    /// A copy of the bytes of the buffer.
    pub(crate) fn bytes_copy(&self) -> (r: [u8; 512])
        ensures
            r == self.data(),
    {
        self.data
    }

    /// Replaces the bytes of the buffer.
    pub(crate) fn set_bytes(&mut self, data: [u8; 512])
        ensures
            final(self).data() == data,
    {
        self.data = data;
    }

    /// The bytes of the buffer.
    pub fn bytes(&self) -> (r: &[u8; 512])
        ensures
            *r == self.data(),
    {
        &self.data
    }
}

/// The fixed part at the start of every message.
#[derive(Clone, Copy, Debug, PartialEq, Eq, Structural)]
pub struct Header {
    pub id: u16,
    pub packet_type: PacketType,
    pub operation_code: OperationCode,
    pub authorative: bool,
    pub truncated: bool,
    pub recursion_desired: bool,
    pub recursion_available: bool,
    pub response_code: ResponseCode,
    pub question_count: u16,
    pub answer_count: u16,
    pub authority_count: u16,
    pub additional_count: u16,
}

impl Header {
    /// A header of a standard query with id 0, no flags and no records.
    pub fn new() -> (r: Header)
        ensures
            r == (Header {
                id: 0,
                packet_type: PacketType::Query,
                operation_code: OperationCode::StandardQuery,
                authorative: false,
                truncated: false,
                recursion_desired: false,
                recursion_available: false,
                response_code: ResponseCode::NOERROR,
                question_count: 0,
                answer_count: 0,
                authority_count: 0,
                additional_count: 0,
            }),
    {
        Header {
            id: 0,
            recursion_available: false,
            recursion_desired: false,
            authorative: false,
            operation_code: OperationCode::StandardQuery,
            packet_type: PacketType::Query,
            response_code: ResponseCode::NOERROR,
            question_count: 0,
            answer_count: 0,
            authority_count: 0,
            additional_count: 0,
            truncated: false,
        }
    }
}

/// A question: a name, and the type and class of record asked for.
#[derive(Clone, Debug, PartialEq, Eq)]
pub struct Question {
    pub domain_name: DomainName,
    pub question_class: QuestionClass,
    pub question_type: QuestionType,
}

/// A question as its name's labels, its type and its class.
pub type QuestionView = (Seq<Seq<u8>>, QuestionType, QuestionClass);

impl View for Question {
    type V = QuestionView;

    open spec fn view(&self) -> QuestionView {
        (self.domain_name@, self.question_type, self.question_class)
    }
}

/// The data of a resource record.
#[derive(Clone, Copy, Debug, PartialEq, Eq)]
pub enum ResourcePayload {
    /// An Internet host address.
    Address([u8; 4]),
}

/// A resource record: a name, how long it may be cached, and its data.
#[derive(Clone, Debug, PartialEq, Eq)]
pub struct Resource {
    pub resource_name: DomainName,
    pub time_to_live: u32,
    pub payload: ResourcePayload,
}

/// A resource record as its name's labels, its time to live and its address bytes.
pub type ResourceView = (Seq<Seq<u8>>, u32, Seq<u8>);

impl View for Resource {
    type V = ResourceView;

    open spec fn view(&self) -> ResourceView {
        match self.payload {
            ResourcePayload::Address(a) => (self.resource_name@, self.time_to_live, a@),
        }
    }
}

/// A decoded message.
#[derive(Debug)]
pub struct DnsPacket {
    pub header: Header,
    pub questions: Vec<Question>,
    pub answers: Vec<Resource>,
    pub authority: Vec<Resource>,
    pub additional: Vec<Resource>,
}

/// A message as its header and the views of its four sections.
pub type PacketView = (Header, Seq<QuestionView>, Seq<ResourceView>, Seq<ResourceView>, Seq<ResourceView>);

impl View for DnsPacket {
    type V = PacketView;

    open spec fn view(&self) -> PacketView {
        (
            self.header,
            self.questions@.map_values(|q: Question| q@),
            self.answers@.map_values(|r: Resource| r@),
            self.authority@.map_values(|r: Resource| r@),
            self.additional@.map_values(|r: Resource| r@),
        )
    }
}

impl DnsPacket {
    /// The message made of these parts.
    pub fn new(
        header: Header,
        questions: Vec<Question>,
        answers: Vec<Resource>,
        authority: Vec<Resource>,
        additional: Vec<Resource>,
    ) -> (r: DnsPacket)
        ensures
            r.header == header,
            r.questions@ == questions@,
            r.answers@ == answers@,
            r.authority@ == authority@,
            r.additional@ == additional@,
    {
        DnsPacket { header, questions, answers, authority, additional }
    }
}

/// The names met while decoding a message, by the offset at which each starts.
#[derive(Debug)]
pub struct PreviousNames {
    domain_names: HashMap<u16, DomainName>,
}

impl View for PreviousNames {
    type V = Map<u16, Seq<Seq<u8>>>;

    closed spec fn view(&self) -> Map<u16, Seq<Seq<u8>>> {
        self.domain_names@.map_values(|d: DomainName| d@)
    }
}

impl PreviousNames {
    /// An empty record.
    pub fn new() -> (r: PreviousNames)
        ensures
            r@ == Map::<u16, Seq<Seq<u8>>>::empty(),
    {
        let r = PreviousNames { domain_names: HashMap::new() };
        assert(r@ =~= Map::<u16, Seq<Seq<u8>>>::empty());
        r
    }

    /// Records `domain_name` as starting at `position`.
    pub fn add_label(&mut self, domain_name: DomainName, position: u16)
        ensures
            final(self)@ == old(self)@.insert(position, domain_name@),
    {
        self.domain_names.insert(position, domain_name);
        assert(self@ =~= old(self)@.insert(position, domain_name@));
    }

    /// The name recorded as starting at `position`, if any.
    pub fn get(&self, position: u16) -> (r: Option<&DomainName>)
        ensures
            match r {
                Some(d) => self@.contains_key(position) && d@ == self@[position],
                None => !self@.contains_key(position),
            },
    {
        self.domain_names.get(&position)
    }
}

} // verus!
