//! Tables between wire integers and the kinds they stand for. Decoding is
//! total: a value with no kind decodes to the unknown kind, which in turn has
//! no wire value.
use crate::error::{Error, ErrorKind};
use vstd::prelude::*;

verus! {
/// The kind of message: a query or a response.
#[derive(Clone, Copy, Debug, PartialEq, Eq, Structural)]
pub enum PacketType {
    /// A query.
    Query,
    /// A response.
    Response,
    /// A value with no kind of its own.
    Unknown,
}

impl PacketType {
    /// The kind that the wire value `value` stands for.
    pub open spec fn from_wire_spec(value: u8) -> PacketType {
        if value == 0 {
            PacketType::Query
        } else if value == 1 {
            PacketType::Response
        } else {
            PacketType::Unknown
        }
    }

    /// The wire value of this kind; an unknown kind has none.
    pub fn to_wire(&self) -> (r: Result<u16, Error>)
        ensures
            match r {
                Ok(v) => *self != PacketType::Unknown && v <= u8::MAX && Self::from_wire_spec(v as u8) == *self,
                Err(e) => *self == PacketType::Unknown && e.kind == ErrorKind::UnencodableKind,
            },
    {
        match self {
            PacketType::Query => Ok(0),
            PacketType::Response => Ok(1),
            PacketType::Unknown => Err(Error::new(ErrorKind::UnencodableKind)),
        }
    }
}

impl From<u8> for PacketType {
    fn from(value: u8) -> (r: PacketType) {
        match value {
            0 => PacketType::Query,
            1 => PacketType::Response,
            _ => PacketType::Unknown,
        }
    }
}

impl vstd::std_specs::convert::FromSpecImpl<u8> for PacketType {
    open spec fn obeys_from_spec() -> bool {
        true
    }

    open spec fn from_spec(v: u8) -> PacketType {
        PacketType::from_wire_spec(v)
    }
}

/// The kind of query that a message carries.
#[derive(Clone, Copy, Debug, PartialEq, Eq, Structural)]
pub enum OperationCode {
    /// A standard query.
    StandardQuery,
    /// An inverse query.
    InverseQuery,
    /// A server status request.
    ServerStatus,
    /// A value with no kind of its own.
    Unknown,
}

impl OperationCode {
    /// The kind that the wire value `value` stands for.
    pub open spec fn from_wire_spec(value: u8) -> OperationCode {
        if value == 0 {
            OperationCode::StandardQuery
        } else if value == 1 {
            OperationCode::InverseQuery
        } else if value == 2 {
            OperationCode::ServerStatus
        } else {
            OperationCode::Unknown
        }
    }

    /// The wire value of this kind; an unknown kind has none.
    pub fn to_wire(&self) -> (r: Result<u16, Error>)
        ensures
            match r {
                Ok(v) => *self != OperationCode::Unknown && v <= u8::MAX && Self::from_wire_spec(v as u8) == *self,
                Err(e) => *self == OperationCode::Unknown && e.kind == ErrorKind::UnencodableKind,
            },
    {
        match self {
            OperationCode::StandardQuery => Ok(0),
            OperationCode::InverseQuery => Ok(1),
            OperationCode::ServerStatus => Ok(2),
            OperationCode::Unknown => Err(Error::new(ErrorKind::UnencodableKind)),
        }
    }
}

impl From<u8> for OperationCode {
    fn from(value: u8) -> (r: OperationCode) {
        match value {
            0 => OperationCode::StandardQuery,
            1 => OperationCode::InverseQuery,
            2 => OperationCode::ServerStatus,
            _ => OperationCode::Unknown,
        }
    }
}

impl vstd::std_specs::convert::FromSpecImpl<u8> for OperationCode {
    open spec fn obeys_from_spec() -> bool {
        true
    }

    open spec fn from_spec(v: u8) -> OperationCode {
        OperationCode::from_wire_spec(v)
    }
}

/// The status of a response.
#[derive(Clone, Copy, Debug, PartialEq, Eq, Structural)]
pub enum ResponseCode {
    /// No error.
    NOERROR,
    /// The server could not interpret the query.
    FORMERR,
    /// The server failed.
    SERVFAIL,
    /// The queried name does not exist.
    NXDOMAIN,
    /// The server does not support the query.
    NOTIMP,
    /// The server refused the query.
    REFUSED,
    /// A value with no kind of its own.
    UNKNOWN,
}

impl ResponseCode {
    /// The kind that the wire value `value` stands for.
    pub open spec fn from_wire_spec(value: u8) -> ResponseCode {
        if value == 0 {
            ResponseCode::NOERROR
        } else if value == 1 {
            ResponseCode::FORMERR
        } else if value == 2 {
            ResponseCode::SERVFAIL
        } else if value == 3 {
            ResponseCode::NXDOMAIN
        } else if value == 4 {
            ResponseCode::NOTIMP
        } else if value == 5 {
            ResponseCode::REFUSED
        } else {
            ResponseCode::UNKNOWN
        }
    }

    /// The wire value of this kind; an unknown kind has none.
    pub fn to_wire(&self) -> (r: Result<u16, Error>)
        ensures
            match r {
                Ok(v) => *self != ResponseCode::UNKNOWN && v <= u8::MAX && Self::from_wire_spec(v as u8) == *self,
                Err(e) => *self == ResponseCode::UNKNOWN && e.kind == ErrorKind::UnencodableKind,
            },
    {
        match self {
            ResponseCode::NOERROR => Ok(0),
            ResponseCode::FORMERR => Ok(1),
            ResponseCode::SERVFAIL => Ok(2),
            ResponseCode::NXDOMAIN => Ok(3),
            ResponseCode::NOTIMP => Ok(4),
            ResponseCode::REFUSED => Ok(5),
            ResponseCode::UNKNOWN => Err(Error::new(ErrorKind::UnencodableKind)),
        }
    }
}

impl From<u8> for ResponseCode {
    fn from(value: u8) -> (r: ResponseCode) {
        match value {
            0 => ResponseCode::NOERROR,
            1 => ResponseCode::FORMERR,
            2 => ResponseCode::SERVFAIL,
            3 => ResponseCode::NXDOMAIN,
            4 => ResponseCode::NOTIMP,
            5 => ResponseCode::REFUSED,
            _ => ResponseCode::UNKNOWN,
        }
    }
}

impl vstd::std_specs::convert::FromSpecImpl<u8> for ResponseCode {
    open spec fn obeys_from_spec() -> bool {
        true
    }

    open spec fn from_spec(v: u8) -> ResponseCode {
        ResponseCode::from_wire_spec(v)
    }
}

/// The type of record that a question asks for.
#[derive(Clone, Copy, Debug, PartialEq, Eq, Structural)]
pub enum QuestionType {
    /// A host address.
    Address,
    /// An authoritative name server.
    NameServer,
    /// A mail destination (obsolete).
    MailDestination,
    /// A mail forwarder (obsolete).
    MailForwarder,
    /// The canonical name for an alias.
    CanonicalName,
    /// The start of a zone of authority.
    StartAuthority,
    /// A mailbox domain name (experimental).
    MailBox,
    /// A mail group member (experimental).
    MailGroup,
    /// A mail rename domain name (experimental).
    MailRename,
    /// A null record (experimental).
    Null,
    /// A well known service description.
    WellKnownService,
    /// A domain name pointer.
    DomainName,
    /// Host information.
    HostInformation,
    /// Mailbox or mail list information.
    MailboxInformation,
    /// Mail exchange.
    MailExchange,
    /// Text strings.
    TextStrings,
    /// A transfer of an entire zone.
    TransferZone,
    /// Mailbox-related records.
    MailboxRelated,
    /// Mail agent records (obsolete).
    MailAgent,
    /// All records.
    All,
    /// A value with no kind of its own.
    Unknown,
}

impl QuestionType {
    /// The kind that the wire value `value` stands for.
    pub open spec fn from_wire_spec(value: u16) -> QuestionType {
        if value == 1 {
            QuestionType::Address
        } else if value == 2 {
            QuestionType::NameServer
        } else if value == 3 {
            QuestionType::MailDestination
        } else if value == 4 {
            QuestionType::MailForwarder
        } else if value == 5 {
            QuestionType::CanonicalName
        } else if value == 6 {
            QuestionType::StartAuthority
        } else if value == 7 {
            QuestionType::MailBox
        } else if value == 8 {
            QuestionType::MailGroup
        } else if value == 9 {
            QuestionType::MailRename
        } else if value == 10 {
            QuestionType::Null
        } else if value == 11 {
            QuestionType::WellKnownService
        } else if value == 12 {
            QuestionType::DomainName
        } else if value == 13 {
            QuestionType::HostInformation
        } else if value == 14 {
            QuestionType::MailboxInformation
        } else if value == 15 {
            QuestionType::MailExchange
        } else if value == 16 {
            QuestionType::TextStrings
        } else if value == 252 {
            QuestionType::TransferZone
        } else if value == 253 {
            QuestionType::MailboxRelated
        } else if value == 254 {
            QuestionType::MailAgent
        } else if value == 255 {
            QuestionType::All
        } else {
            QuestionType::Unknown
        }
    }

    /// The wire value of this kind; an unknown kind has none.
    pub fn to_wire(&self) -> (r: Result<u16, Error>)
        ensures
            match r {
                Ok(v) => *self != QuestionType::Unknown && v <= u16::MAX && Self::from_wire_spec(v as u16) == *self,
                Err(e) => *self == QuestionType::Unknown && e.kind == ErrorKind::UnencodableKind,
            },
    {
        match self {
            QuestionType::Address => Ok(1),
            QuestionType::NameServer => Ok(2),
            QuestionType::MailDestination => Ok(3),
            QuestionType::MailForwarder => Ok(4),
            QuestionType::CanonicalName => Ok(5),
            QuestionType::StartAuthority => Ok(6),
            QuestionType::MailBox => Ok(7),
            QuestionType::MailGroup => Ok(8),
            QuestionType::MailRename => Ok(9),
            QuestionType::Null => Ok(10),
            QuestionType::WellKnownService => Ok(11),
            QuestionType::DomainName => Ok(12),
            QuestionType::HostInformation => Ok(13),
            QuestionType::MailboxInformation => Ok(14),
            QuestionType::MailExchange => Ok(15),
            QuestionType::TextStrings => Ok(16),
            QuestionType::TransferZone => Ok(252),
            QuestionType::MailboxRelated => Ok(253),
            QuestionType::MailAgent => Ok(254),
            QuestionType::All => Ok(255),
            QuestionType::Unknown => Err(Error::new(ErrorKind::UnencodableKind)),
        }
    }
}

impl From<u16> for QuestionType {
    fn from(value: u16) -> (r: QuestionType) {
        match value {
            1 => QuestionType::Address,
            2 => QuestionType::NameServer,
            3 => QuestionType::MailDestination,
            4 => QuestionType::MailForwarder,
            5 => QuestionType::CanonicalName,
            6 => QuestionType::StartAuthority,
            7 => QuestionType::MailBox,
            8 => QuestionType::MailGroup,
            9 => QuestionType::MailRename,
            10 => QuestionType::Null,
            11 => QuestionType::WellKnownService,
            12 => QuestionType::DomainName,
            13 => QuestionType::HostInformation,
            14 => QuestionType::MailboxInformation,
            15 => QuestionType::MailExchange,
            16 => QuestionType::TextStrings,
            252 => QuestionType::TransferZone,
            253 => QuestionType::MailboxRelated,
            254 => QuestionType::MailAgent,
            255 => QuestionType::All,
            _ => QuestionType::Unknown,
        }
    }
}

impl vstd::std_specs::convert::FromSpecImpl<u16> for QuestionType {
    open spec fn obeys_from_spec() -> bool {
        true
    }

    open spec fn from_spec(v: u16) -> QuestionType {
        QuestionType::from_wire_spec(v)
    }
}

/// The class of record that a question asks for.
#[derive(Clone, Copy, Debug, PartialEq, Eq, Structural)]
pub enum QuestionClass {
    /// The Internet.
    Internet,
    /// The CSNET class (obsolete).
    CSNet,
    /// The CHAOS class.
    Chaos,
    /// Hesiod.
    Hesiod,
    /// Any class.
    Any,
    /// A value with no kind of its own.
    Unknown,
}

impl QuestionClass {
    /// The kind that the wire value `value` stands for.
    pub open spec fn from_wire_spec(value: u16) -> QuestionClass {
        if value == 1 {
            QuestionClass::Internet
        } else if value == 2 {
            QuestionClass::CSNet
        } else if value == 3 {
            QuestionClass::Chaos
        } else if value == 4 {
            QuestionClass::Hesiod
        } else if value == 255 {
            QuestionClass::Any
        } else {
            QuestionClass::Unknown
        }
    }

    /// The wire value of this kind; an unknown kind has none.
    pub fn to_wire(&self) -> (r: Result<u16, Error>)
        ensures
            match r {
                Ok(v) => *self != QuestionClass::Unknown && v <= u16::MAX && Self::from_wire_spec(v as u16) == *self,
                Err(e) => *self == QuestionClass::Unknown && e.kind == ErrorKind::UnencodableKind,
            },
    {
        match self {
            QuestionClass::Internet => Ok(1),
            QuestionClass::CSNet => Ok(2),
            QuestionClass::Chaos => Ok(3),
            QuestionClass::Hesiod => Ok(4),
            QuestionClass::Any => Ok(255),
            QuestionClass::Unknown => Err(Error::new(ErrorKind::UnencodableKind)),
        }
    }
}

impl From<u16> for QuestionClass {
    fn from(value: u16) -> (r: QuestionClass) {
        match value {
            1 => QuestionClass::Internet,
            2 => QuestionClass::CSNet,
            3 => QuestionClass::Chaos,
            4 => QuestionClass::Hesiod,
            255 => QuestionClass::Any,
            _ => QuestionClass::Unknown,
        }
    }
}

impl vstd::std_specs::convert::FromSpecImpl<u16> for QuestionClass {
    open spec fn obeys_from_spec() -> bool {
        true
    }

    open spec fn from_spec(v: u16) -> QuestionClass {
        QuestionClass::from_wire_spec(v)
    }
}

/// The class of a resource record.
#[derive(Clone, Copy, Debug, PartialEq, Eq, Structural)]
pub enum ResourceClass {
    /// The Internet.
    Internet,
    /// The CSNET class (obsolete).
    CSNet,
    /// The CHAOS class.
    Chaos,
    /// Hesiod.
    Hesiod,
    /// A value with no kind of its own.
    Unknown,
}

impl ResourceClass {
    /// The kind that the wire value `value` stands for.
    pub open spec fn from_wire_spec(value: u16) -> ResourceClass {
        if value == 1 {
            ResourceClass::Internet
        } else if value == 2 {
            ResourceClass::CSNet
        } else if value == 3 {
            ResourceClass::Chaos
        } else if value == 4 {
            ResourceClass::Hesiod
        } else {
            ResourceClass::Unknown
        }
    }

    /// The wire value of this kind; an unknown kind has none.
    pub fn to_wire(&self) -> (r: Result<u16, Error>)
        ensures
            match r {
                Ok(v) => *self != ResourceClass::Unknown && v <= u16::MAX && Self::from_wire_spec(v as u16) == *self,
                Err(e) => *self == ResourceClass::Unknown && e.kind == ErrorKind::UnencodableKind,
            },
    {
        match self {
            ResourceClass::Internet => Ok(1),
            ResourceClass::CSNet => Ok(2),
            ResourceClass::Chaos => Ok(3),
            ResourceClass::Hesiod => Ok(4),
            ResourceClass::Unknown => Err(Error::new(ErrorKind::UnencodableKind)),
        }
    }
}

impl From<u16> for ResourceClass {
    fn from(value: u16) -> (r: ResourceClass) {
        match value {
            1 => ResourceClass::Internet,
            2 => ResourceClass::CSNet,
            3 => ResourceClass::Chaos,
            4 => ResourceClass::Hesiod,
            _ => ResourceClass::Unknown,
        }
    }
}

impl vstd::std_specs::convert::FromSpecImpl<u16> for ResourceClass {
    open spec fn obeys_from_spec() -> bool {
        true
    }

    open spec fn from_spec(v: u16) -> ResourceClass {
        ResourceClass::from_wire_spec(v)
    }
}

/// The type of a resource record.
#[derive(Clone, Copy, Debug, PartialEq, Eq, Structural)]
pub enum ResourceType {
    /// A host address.
    Address,
    /// An authoritative name server.
    NameServer,
    /// A mail destination (obsolete).
    MailDestination,
    /// A mail forwarder (obsolete).
    MailForwarder,
    /// The canonical name for an alias.
    CanonicalName,
    /// The start of a zone of authority.
    StartAuthority,
    /// A mailbox domain name (experimental).
    MailBox,
    /// A mail group member (experimental).
    MailGroup,
    /// A mail rename domain name (experimental).
    MailRename,
    /// A null record (experimental).
    Null,
    /// A well known service description.
    WellKnownService,
    /// A domain name pointer.
    DomainName,
    /// Host information.
    HostInformation,
    /// Mailbox or mail list information.
    MailboxInformation,
    /// Mail exchange.
    MailExchange,
    /// Text strings.
    TextStrings,
    /// A value with no kind of its own.
    Unknown,
}

impl ResourceType {
    /// The kind that the wire value `value` stands for.
    pub open spec fn from_wire_spec(value: u16) -> ResourceType {
        if value == 1 {
            ResourceType::Address
        } else if value == 2 {
            ResourceType::NameServer
        } else if value == 3 {
            ResourceType::MailDestination
        } else if value == 4 {
            ResourceType::MailForwarder
        } else if value == 5 {
            ResourceType::CanonicalName
        } else if value == 6 {
            ResourceType::StartAuthority
        } else if value == 7 {
            ResourceType::MailBox
        } else if value == 8 {
            ResourceType::MailGroup
        } else if value == 9 {
            ResourceType::MailRename
        } else if value == 10 {
            ResourceType::Null
        } else if value == 11 {
            ResourceType::WellKnownService
        } else if value == 12 {
            ResourceType::DomainName
        } else if value == 13 {
            ResourceType::HostInformation
        } else if value == 14 {
            ResourceType::MailboxInformation
        } else if value == 15 {
            ResourceType::MailExchange
        } else if value == 16 {
            ResourceType::TextStrings
        } else {
            ResourceType::Unknown
        }
    }

    /// The wire value of this kind; an unknown kind has none.
    pub fn to_wire(&self) -> (r: Result<u16, Error>)
        ensures
            match r {
                Ok(v) => *self != ResourceType::Unknown && v <= u16::MAX && Self::from_wire_spec(v as u16) == *self,
                Err(e) => *self == ResourceType::Unknown && e.kind == ErrorKind::UnencodableKind,
            },
    {
        match self {
            ResourceType::Address => Ok(1),
            ResourceType::NameServer => Ok(2),
            ResourceType::MailDestination => Ok(3),
            ResourceType::MailForwarder => Ok(4),
            ResourceType::CanonicalName => Ok(5),
            ResourceType::StartAuthority => Ok(6),
            ResourceType::MailBox => Ok(7),
            ResourceType::MailGroup => Ok(8),
            ResourceType::MailRename => Ok(9),
            ResourceType::Null => Ok(10),
            ResourceType::WellKnownService => Ok(11),
            ResourceType::DomainName => Ok(12),
            ResourceType::HostInformation => Ok(13),
            ResourceType::MailboxInformation => Ok(14),
            ResourceType::MailExchange => Ok(15),
            ResourceType::TextStrings => Ok(16),
            ResourceType::Unknown => Err(Error::new(ErrorKind::UnencodableKind)),
        }
    }
}

impl From<u16> for ResourceType {
    fn from(value: u16) -> (r: ResourceType) {
        match value {
            1 => ResourceType::Address,
            2 => ResourceType::NameServer,
            3 => ResourceType::MailDestination,
            4 => ResourceType::MailForwarder,
            5 => ResourceType::CanonicalName,
            6 => ResourceType::StartAuthority,
            7 => ResourceType::MailBox,
            8 => ResourceType::MailGroup,
            9 => ResourceType::MailRename,
            10 => ResourceType::Null,
            11 => ResourceType::WellKnownService,
            12 => ResourceType::DomainName,
            13 => ResourceType::HostInformation,
            14 => ResourceType::MailboxInformation,
            15 => ResourceType::MailExchange,
            16 => ResourceType::TextStrings,
            _ => ResourceType::Unknown,
        }
    }
}

impl vstd::std_specs::convert::FromSpecImpl<u16> for ResourceType {
    open spec fn obeys_from_spec() -> bool {
        true
    }

    open spec fn from_spec(v: u16) -> ResourceType {
        ResourceType::from_wire_spec(v)
    }
}

} // verus!
