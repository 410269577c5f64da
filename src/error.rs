use vstd::prelude::*;

verus! {

/// The ways in which decoding or encoding a message can fail.
#[derive(Clone, Copy, Debug, PartialEq, Eq, Structural)]
pub enum ErrorKind {
    /// The buffer ended in the middle of a field.
    ReadTruncated,
    /// A label holds a byte that is not printable ASCII, or its length byte is malformed.
    InvalidLabel,
    /// A compression pointer points forward, at itself, outside the buffer, or into a cycle.
    InvalidPointer,
    /// A resource record whose class and type have no payload decoder.
    UnsupportedRecord,
    /// A name to be encoded has an empty label.
    EmptyLabel,
    /// A name to be encoded is longer than 255 octets on the wire.
    NameTooLong,
    /// A label to be encoded is longer than 63 bytes.
    LabelTooLong,
    /// The encoded message would not fit in 512 bytes.
    PacketTooLarge,
    /// An `Unknown` kind has no wire value and cannot be encoded.
    UnencodableKind,
}

/// An error returned by the codec.
#[derive(Clone, Copy, Debug, PartialEq, Eq, Structural)]
pub struct Error {
    pub kind: ErrorKind,
}

impl Error {
    pub fn new(kind: ErrorKind) -> (r: Error)
        ensures
            r.kind == kind,
    {
        Error { kind }
    }

    /// The kind of this error.
    pub fn kind(&self) -> (r: ErrorKind)
        ensures
            r == self.kind,
    {
        self.kind
    }
}

} // verus!
