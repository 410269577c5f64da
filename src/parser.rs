//! Decoding of a message from its bytes.
use crate::bits::{extract, get_bit_position, pack, set_bit_position};
use crate::error::{Error, ErrorKind};
use crate::kinds::{
    OperationCode, PacketType, QuestionClass, QuestionType, ResourceClass, ResourceType, ResponseCode,
};
use crate::message::{
    DnsPacket, Header, PacketView, PreviousNames, Question, QuestionView, Resource, ResourcePayload,
    ResourceView,
};
use crate::name::{is_label_byte, labels_view, DomainName};
use crate::wire::{be16, be32, read_u16_at, read_u32_at};
use vstd::prelude::*;

verus! {

/// Whether every byte of `s` may stand in a label.
pub open spec fn all_label_bytes(s: Seq<u8>) -> bool {
    forall|i: int| 0 <= i < s.len() ==> is_label_byte(#[trigger] s[i])
}

/// The name that starts at `pos` of `buf`, and the offset just after it in
/// the run of bytes that holds `pos` (after its terminating zero, or after
/// the first pointer). `fuel` bounds the number of pointers followed. A
/// pointer must refer to an offset before its own; a length byte whose top
/// bits are neither `00` nor `11` is malformed.
pub open spec fn name_at(buf: Seq<u8>, pos: int, fuel: nat) -> Result<(Seq<Seq<u8>>, int), ErrorKind>
    decreases fuel, buf.len() - pos,
{
    if pos < 0 || pos >= buf.len() {
        Err(ErrorKind::ReadTruncated)
    } else {
        let b = buf[pos];
        if b >= 0xc0 {
            if pos + 1 >= buf.len() {
                Err(ErrorKind::ReadTruncated)
            } else {
                let target = (b - 0xc0) * 256 + buf[pos + 1];
                if target >= pos || fuel == 0 {
                    Err(ErrorKind::InvalidPointer)
                } else {
                    match name_at(buf, target, (fuel - 1) as nat) {
                        Ok((labels, _)) => Ok((labels, pos + 2)),
                        Err(e) => Err(e),
                    }
                }
            }
        } else if b == 0 {
            Ok((Seq::empty(), pos + 1))
        } else if b >= 0x40 {
            Err(ErrorKind::InvalidLabel)
        } else if pos + 1 + b > buf.len() {
            Err(ErrorKind::ReadTruncated)
        } else {
            let label = buf.subrange(pos + 1, pos + 1 + b);
            if !all_label_bytes(label) {
                Err(ErrorKind::InvalidLabel)
            } else {
                match name_at(buf, pos + 1 + b, fuel) {
                    Ok((labels, end)) => Ok((seq![label] + labels, end)),
                    Err(e) => Err(e),
                }
            }
        }
    }
}

/// The name at `pos`, following at most as many pointers as the buffer has bytes.
pub open spec fn domain_name_at(buf: Seq<u8>, pos: int) -> Result<(Seq<Seq<u8>>, int), ErrorKind> {
    name_at(buf, pos, buf.len())
}

/// The header held by the first twelve bytes of `buf`.
pub open spec fn header_of(buf: Seq<u8>) -> Header {
    let flags = be16(buf[2], buf[3]);
    Header {
        id: be16(buf[0], buf[1]),
        packet_type: PacketType::from_wire_spec(extract(flags, 0, 1) as u8),
        operation_code: OperationCode::from_wire_spec(extract(flags, 1, 4) as u8),
        authorative: extract(flags, 5, 1) == 1,
        truncated: extract(flags, 6, 1) == 1,
        recursion_desired: extract(flags, 7, 1) == 1,
        recursion_available: extract(flags, 8, 1) == 1,
        response_code: ResponseCode::from_wire_spec(extract(flags, 12, 4) as u8),
        question_count: be16(buf[4], buf[5]),
        answer_count: be16(buf[6], buf[7]),
        authority_count: be16(buf[8], buf[9]),
        additional_count: be16(buf[10], buf[11]),
    }
}

/// The question at `pos`, and the offset after it.
pub open spec fn question_at(buf: Seq<u8>, pos: int) -> Result<(QuestionView, int), ErrorKind> {
    match domain_name_at(buf, pos) {
        Err(e) => Err(e),
        Ok((labels, end)) => if end + 4 > buf.len() {
            Err(ErrorKind::ReadTruncated)
        } else {
            Ok(
                (
                    (
                        labels,
                        QuestionType::from_wire_spec(be16(buf[end], buf[end + 1])),
                        QuestionClass::from_wire_spec(be16(buf[end + 2], buf[end + 3])),
                    ),
                    end + 4,
                ),
            )
        },
    }
}

/// The resource record at `pos`, and the offset after it. Only an Internet
/// address record with four bytes of data can be decoded.
pub open spec fn resource_at(buf: Seq<u8>, pos: int) -> Result<(ResourceView, int), ErrorKind> {
    match domain_name_at(buf, pos) {
        Err(e) => Err(e),
        Ok((labels, end)) => if end + 10 > buf.len() {
            Err(ErrorKind::ReadTruncated)
        } else {
            let rtype = ResourceType::from_wire_spec(be16(buf[end], buf[end + 1]));
            let rclass = ResourceClass::from_wire_spec(be16(buf[end + 2], buf[end + 3]));
            let ttl = be32(buf[end + 4], buf[end + 5], buf[end + 6], buf[end + 7]);
            let rdlength = be16(buf[end + 8], buf[end + 9]);
            let data = end + 10;
            if rclass != ResourceClass::Internet || rtype != ResourceType::Address || rdlength != 4 {
                Err(ErrorKind::UnsupportedRecord)
            } else if data + 4 > buf.len() {
                Err(ErrorKind::ReadTruncated)
            } else {
                Ok(((labels, ttl, buf.subrange(data, data + 4)), data + 4))
            }
        },
    }
}

/// `n` questions one after the other from `pos`, and the offset after the last.
pub open spec fn questions_at(buf: Seq<u8>, pos: int, n: nat) -> Result<(Seq<QuestionView>, int), ErrorKind>
    decreases n,
{
    if n == 0 {
        Ok((Seq::empty(), pos))
    } else {
        match questions_at(buf, pos, (n - 1) as nat) {
            Err(e) => Err(e),
            Ok((qs, p)) => match question_at(buf, p) {
                Err(e) => Err(e),
                Ok((q, end)) => Ok((qs.push(q), end)),
            },
        }
    }
}

/// `n` resource records one after the other from `pos`, and the offset after the last.
pub open spec fn resources_at(buf: Seq<u8>, pos: int, n: nat) -> Result<(Seq<ResourceView>, int), ErrorKind>
    decreases n,
{
    if n == 0 {
        Ok((Seq::empty(), pos))
    } else {
        match resources_at(buf, pos, (n - 1) as nat) {
            Err(e) => Err(e),
            Ok((rs, p)) => match resource_at(buf, p) {
                Err(e) => Err(e),
                Ok((r, end)) => Ok((rs.push(r), end)),
            },
        }
    }
}

/// The message that `buf` holds, and the offset after its last record: the
/// header, then as many questions, answers, authority and additional
/// records as the header counts.
pub open spec fn packet_of(buf: Seq<u8>) -> Result<(PacketView, int), ErrorKind> {
    if buf.len() < 12 {
        Err(ErrorKind::ReadTruncated)
    } else {
        let h = header_of(buf);
        match questions_at(buf, 12, h.question_count as nat) {
            Err(e) => Err(e),
            Ok((qs, at_answers)) => match resources_at(buf, at_answers, h.answer_count as nat) {
                Err(e) => Err(e),
                Ok((ans, at_authority)) => match resources_at(buf, at_authority, h.authority_count as nat) {
                    Err(e) => Err(e),
                    Ok((auth, at_additional)) => match resources_at(buf, at_additional, h.additional_count as nat) {
                        Err(e) => Err(e),
                        Ok((add, end)) => Ok(((h, qs, ans, auth, add), end)),
                    },
                },
            },
        }
    }
}

/// A pointer that refers to its own offset or to a later one is rejected,
/// whatever the fuel.
pub proof fn lemma_forward_pointer_rejected(buf: Seq<u8>, pos: int, fuel: nat)
    requires
        0 <= pos,
        pos + 1 < buf.len(),
        buf[pos] >= 0xc0,
        (buf[pos] - 0xc0) * 256 + buf[pos + 1] >= pos,
    ensures
        name_at(buf, pos, fuel) == Err::<(Seq<Seq<u8>>, int), ErrorKind>(ErrorKind::InvalidPointer),
{
}

/// The result of a name read that has consumed the labels `acc` and, where
/// it has followed a pointer, ends at `end`, given the result of the rest.
pub open spec fn resume(
    acc: Seq<Seq<u8>>,
    end: Option<int>,
    rest: Result<(Seq<Seq<u8>>, int), ErrorKind>,
) -> Result<(Seq<Seq<u8>>, int), ErrorKind> {
    match rest {
        Ok((labels, e)) => Ok((
            acc + labels,
            match end {
                Some(x) => x,
                None => e,
            },
        )),
        Err(x) => Err(x),
    }
}

/// A copy of `len` bytes of `buf` from `from`, if all of them may stand in a label.
fn read_label(buf: &[u8], from: usize, len: usize) -> (r: Option<Vec<u8>>)
    requires
        from + len <= buf@.len(),
    ensures
        match r {
            Some(l) => l@ == buf@.subrange(from as int, from + len) && all_label_bytes(l@),
            None => !all_label_bytes(buf@.subrange(from as int, from + len)),
        },
{
    assert(buf@.len() == buf.len());
    let mut label: Vec<u8> = Vec::new();
    let mut i: usize = 0;
    while i < len
        invariant
            from + len <= buf@.len(),
            buf@.len() <= usize::MAX,
            i <= len,
            label@ == buf@.subrange(from as int, from + i),
            all_label_bytes(label@),
        decreases len - i,
    {
        let b = buf[from + i];
        if b < 0x20 || b > 0x7e {
            assert(!is_label_byte(buf@.subrange(from as int, from + len)[i as int]));
            return None;
        }
        label.push(b);
        assert(label@ =~= buf@.subrange(from as int, from + i + 1));
        i += 1;
    }
    Some(label)
}

/// Decodes the name at `start`, following pointers; returns its labels and
/// the offset after it.
fn decode_name(buf: &[u8], start: usize) -> (r: Result<(Vec<Vec<u8>>, usize), Error>)
    ensures
        match r {
            Ok((labels, end)) => domain_name_at(buf@, start as int) == Ok::<(Seq<Seq<u8>>, int), ErrorKind>(
                (labels_view(labels@), end as int),
            ),
            Err(e) => domain_name_at(buf@, start as int) == Err::<(Seq<Seq<u8>>, int), ErrorKind>(e.kind),
        },
{
    let mut labels: Vec<Vec<u8>> = Vec::new();
    let mut pos: usize = start;
    let mut fuel: usize = buf.len();
    let mut end: Option<usize> = None;
    loop
        invariant
            domain_name_at(buf@, start as int) == resume(
                labels_view(labels@),
                match end {
                    Some(x) => Some(x as int),
                    None => None,
                },
                name_at(buf@, pos as int, fuel as nat),
            ),
        decreases fuel, buf@.len() - pos,
    {
        if pos >= buf.len() {
            return Err(Error::new(ErrorKind::ReadTruncated));
        }
        let b = buf[pos];
        if b >= 0xc0 {
            if pos + 1 >= buf.len() {
                return Err(Error::new(ErrorKind::ReadTruncated));
            }
            let target: usize = (b - 0xc0) as usize * 256 + buf[pos + 1] as usize;
            if target >= pos || fuel == 0 {
                return Err(Error::new(ErrorKind::InvalidPointer));
            }
            if end.is_none() {
                end = Some(pos + 2);
            }
            pos = target;
            fuel = fuel - 1;
        } else if b == 0 {
            let e = match end {
                Some(x) => x,
                None => pos + 1,
            };
            assert(labels_view(labels@) + Seq::<Seq<u8>>::empty() =~= labels_view(labels@));
            return Ok((labels, e));
        } else if b >= 0x40 {
            return Err(Error::new(ErrorKind::InvalidLabel));
        } else {
            let len = b as usize;
            if len > buf.len() - pos - 1 {
                return Err(Error::new(ErrorKind::ReadTruncated));
            }
            match read_label(buf, pos + 1, len) {
                None => {
                    return Err(Error::new(ErrorKind::InvalidLabel));
                },
                Some(label) => {
                    let ghost before = labels@;
                    let ghost lv = label@;
                    labels.push(label);
                    assert(labels_view(labels@) =~= labels_view(before).push(lv));
                    assert(labels_view(before) + (seq![lv] + Seq::<Seq<u8>>::empty())
                        =~= labels_view(before).push(lv));
                    proof {
                        let rest = name_at(buf@, pos + 1 + len, fuel as nat);
                        if let Ok((ls, _)) = rest {
                            assert(labels_view(before) + (seq![lv] + ls) =~= labels_view(
                                before,
                            ).push(lv) + ls);
                        }
                    }
                    pos = pos + 1 + len;
                },
            }
        }
    }
}


/// Once a record fails to decode, reading more records fails the same way.
proof fn lemma_questions_err_stays(buf: Seq<u8>, pos: int, k: nat, m: nat)
    requires
        k <= m,
        questions_at(buf, pos, k) is Err,
    ensures
        questions_at(buf, pos, m) == questions_at(buf, pos, k),
    decreases m,
{
    if m > k {
        lemma_questions_err_stays(buf, pos, k, (m - 1) as nat);
    }
}

proof fn lemma_resources_err_stays(buf: Seq<u8>, pos: int, k: nat, m: nat)
    requires
        k <= m,
        resources_at(buf, pos, k) is Err,
    ensures
        resources_at(buf, pos, m) == resources_at(buf, pos, k),
    decreases m,
{
    if m > k {
        lemma_resources_err_stays(buf, pos, k, (m - 1) as nat);
    }
}

impl Header {
    /// Decodes the header from the first twelve bytes of `packet_data`.
    pub fn read_header(packet_data: &[u8]) -> (r: Result<Header, Error>)
        ensures
            match r {
                Ok(h) => packet_data@.len() >= 12 && h == header_of(packet_data@),
                Err(e) => packet_data@.len() < 12 && e.kind == ErrorKind::ReadTruncated,
            },
    {
        if packet_data.len() < 12 {
            return Err(Error::new(ErrorKind::ReadTruncated));
        }
        let id = read_u16_at(packet_data, 0);
        let flags = read_u16_at(packet_data, 2);
        let packet_type = PacketType::from(get_bit_position(0, 1, &flags) as u8);
        let operation_code = OperationCode::from(get_bit_position(1, 4, &flags) as u8);
        let authorative = get_bit_position(5, 1, &flags) == 1;
        let truncated = get_bit_position(6, 1, &flags) == 1;
        let recursion_desired = get_bit_position(7, 1, &flags) == 1;
        let recursion_available = get_bit_position(8, 1, &flags) == 1;
        let response_code = ResponseCode::from(get_bit_position(12, 4, &flags) as u8);
        let question_count = read_u16_at(packet_data, 4);
        let answer_count = read_u16_at(packet_data, 6);
        let authority_count = read_u16_at(packet_data, 8);
        let additional_count = read_u16_at(packet_data, 10);
        Ok(Header {
            id,
            packet_type,
            operation_code,
            authorative,
            truncated,
            recursion_desired,
            recursion_available,
            response_code,
            question_count,
            answer_count,
            authority_count,
            additional_count,
        })
    }
}

/// Reads messages from a buffer, keeping the offset of the next unread byte.
#[derive(Debug)]
pub struct DnsParser {
    position: usize,
}

impl DnsParser {
    /// A parser at the start of a buffer.
    pub fn new() -> (r: DnsParser)
        ensures
            r.position() == 0,
    {
        DnsParser { position: 0 }
    }

    pub closed spec fn position(&self) -> usize {
        self.position
    }

    /// Moves the parser to `position`.
    pub fn seek(&mut self, position: usize)
        ensures
            final(self).position() == position,
    {
        self.position = position;
    }

    /// Decodes the header, and moves the parser after it.
    pub fn read_header(&mut self, packet_data: &[u8]) -> (r: Result<Header, Error>)
        ensures
            match r {
                Ok(h) => packet_data@.len() >= 12 && h == header_of(packet_data@) && final(self).position() == 12,
                Err(e) => packet_data@.len() < 12 && e.kind == ErrorKind::ReadTruncated
                    && final(self).position() == old(self).position(),
            },
    {
        let r = Header::read_header(packet_data);
        if r.is_ok() {
            self.position = 12;
        }
        r
    }

    /// Decodes the name that a pointer to `pointer` refers to, without moving
    /// the parser. An offset outside the buffer is an invalid pointer.
    pub fn read_domain_name_pointer(&mut self, packet_data: &[u8], pointer: u16) -> (r: Result<Vec<Vec<u8>>, Error>)
        ensures
            final(self).position() == old(self).position(),
            pointer >= packet_data@.len() ==> r is Err && r->Err_0.kind == ErrorKind::InvalidPointer,
            pointer < packet_data@.len() ==> match r {
                Ok(labels) => domain_name_at(packet_data@, pointer as int) is Ok
                    && labels_view(labels@) == domain_name_at(packet_data@, pointer as int)->Ok_0.0,
                Err(e) => domain_name_at(packet_data@, pointer as int) == Err::<(Seq<Seq<u8>>, int), ErrorKind>(e.kind),
            },
    {
        if pointer as usize >= packet_data.len() {
            return Err(Error::new(ErrorKind::InvalidPointer));
        }
        match decode_name(packet_data, pointer as usize) {
            Ok((labels, _)) => Ok(labels),
            Err(e) => Err(e),
        }
    }

    /// Decodes the name at the parser's offset and moves the parser after
    /// it; the name is recorded in `domain_labels` under that offset.
    pub fn read_domain_name(&mut self, packet_data: &[u8], domain_labels: &mut PreviousNames) -> (r: Result<
        DomainName,
        Error,
    >)
        ensures
            match r {
                Ok(name) => domain_name_at(packet_data@, old(self).position() as int) == Ok::<(Seq<Seq<u8>>, int), ErrorKind>(
                    (name@, final(self).position() as int),
                ) && final(domain_labels)@ == (if old(self).position() <= 0xffff {
                    old(domain_labels)@.insert(old(self).position() as u16, name@)
                } else {
                    old(domain_labels)@
                }),
                Err(e) => domain_name_at(packet_data@, old(self).position() as int) == Err::<(Seq<Seq<u8>>, int), ErrorKind>(e.kind)
                    && final(self).position() == old(self).position()
                    && final(domain_labels)@ == old(domain_labels)@,
            },
    {
        let start = self.position;
        match decode_name(packet_data, start) {
            Ok((labels, end)) => {
                let name = DomainName::new(labels);
                if start <= 0xffff {
                    domain_labels.add_label(name.duplicate(), start as u16);
                }
                self.position = end;
                Ok(name)
            },
            Err(e) => Err(e),
        }
    }

    /// Decodes the question at the parser's offset and moves the parser after it.
    pub fn read_question(&mut self, packet_data: &[u8], domain_labels: &mut PreviousNames) -> (r: Result<
        Question,
        Error,
    >)
        ensures
            match r {
                Ok(q) => question_at(packet_data@, old(self).position() as int) == Ok::<(QuestionView, int), ErrorKind>(
                    (q@, final(self).position() as int),
                ),
                Err(e) => question_at(packet_data@, old(self).position() as int) == Err::<(QuestionView, int), ErrorKind>(e.kind),
            },
    {
        let domain_name = match self.read_domain_name(packet_data, domain_labels) {
            Ok(n) => n,
            Err(e) => return Err(e),
        };
        let p = self.position;
        if p > packet_data.len() || packet_data.len() - p < 4 {
            return Err(Error::new(ErrorKind::ReadTruncated));
        }
        let question_type = QuestionType::from(read_u16_at(packet_data, p));
        let question_class = QuestionClass::from(read_u16_at(packet_data, p + 2));
        self.position = p + 4;
        Ok(Question { domain_name, question_class, question_type })
    }

    /// Decodes the resource record at the parser's offset and moves the
    /// parser after it.
    pub fn read_answer(&mut self, packet_data: &[u8], domain_labels: &mut PreviousNames) -> (r: Result<
        Resource,
        Error,
    >)
        ensures
            match r {
                Ok(res) => resource_at(packet_data@, old(self).position() as int) == Ok::<(ResourceView, int), ErrorKind>(
                    (res@, final(self).position() as int),
                ),
                Err(e) => resource_at(packet_data@, old(self).position() as int) == Err::<(ResourceView, int), ErrorKind>(e.kind),
            },
    {
        let resource_name = match self.read_domain_name(packet_data, domain_labels) {
            Ok(n) => n,
            Err(e) => return Err(e),
        };
        let p = self.position;
        if p > packet_data.len() || packet_data.len() - p < 10 {
            return Err(Error::new(ErrorKind::ReadTruncated));
        }
        let rtype = ResourceType::from(read_u16_at(packet_data, p));
        let rclass = ResourceClass::from(read_u16_at(packet_data, p + 2));
        let time_to_live = read_u32_at(packet_data, p + 4);
        let rdlength = read_u16_at(packet_data, p + 8);
        if rclass != ResourceClass::Internet || rtype != ResourceType::Address || rdlength != 4 {
            return Err(Error::new(ErrorKind::UnsupportedRecord));
        }
        let data = p + 10;
        if packet_data.len() - data < 4 {
            return Err(Error::new(ErrorKind::ReadTruncated));
        }
        let address = [packet_data[data], packet_data[data + 1], packet_data[data + 2], packet_data[data + 3]];
        assert(address@ =~= packet_data@.subrange(data as int, data + 4));
        self.position = data + 4;
        Ok(Resource { resource_name, time_to_live, payload: ResourcePayload::Address(address) })
    }

    /// Decodes `count` questions from the parser's offset.
    fn read_questions(&mut self, packet_data: &[u8], count: u16, names: &mut PreviousNames) -> (r: Result<
        Vec<Question>,
        Error,
    >)
        ensures
            match r {
                Ok(qs) => questions_at(packet_data@, old(self).position() as int, count as nat) == Ok::<(Seq<QuestionView>, int), ErrorKind>(
                    (qs@.map_values(|q: Question| q@), final(self).position() as int),
                ),
                Err(e) => questions_at(packet_data@, old(self).position() as int, count as nat) == Err::<(Seq<QuestionView>, int), ErrorKind>(e.kind),
            },
    {
        let ghost start = self.position as int;
        let mut questions: Vec<Question> = Vec::new();
        let mut i: u16 = 0;
        assert(questions@.map_values(|q: Question| q@) =~= Seq::<QuestionView>::empty());
        while i < count
            invariant
                i <= count,
                start == old(self).position() as int,
                questions_at(packet_data@, start, i as nat) == Ok::<(Seq<QuestionView>, int), ErrorKind>(
                    (questions@.map_values(|q: Question| q@), self.position as int),
                ),
            decreases count - i,
        {
            let ghost before = questions@;
            let ghost p = self.position as int;
            match self.read_question(packet_data, names) {
                Ok(q) => {
                    questions.push(q);
                    assert(questions@.map_values(|q: Question| q@) =~= before.map_values(|q: Question| q@).push(q@));
                },
                Err(e) => {
                    assert(questions_at(packet_data@, start, (i + 1) as nat) == Err::<(Seq<QuestionView>, int), ErrorKind>(e.kind));
                    proof {
                        lemma_questions_err_stays(packet_data@, start, (i + 1) as nat, count as nat);
                    }
                    return Err(e);
                },
            }
            i += 1;
        }
        Ok(questions)
    }

    /// Decodes `count` resource records from the parser's offset.
    fn read_resources(&mut self, packet_data: &[u8], count: u16, names: &mut PreviousNames) -> (r: Result<
        Vec<Resource>,
        Error,
    >)
        ensures
            match r {
                Ok(rs) => resources_at(packet_data@, old(self).position() as int, count as nat) == Ok::<(Seq<ResourceView>, int), ErrorKind>(
                    (rs@.map_values(|r: Resource| r@), final(self).position() as int),
                ),
                Err(e) => resources_at(packet_data@, old(self).position() as int, count as nat) == Err::<(Seq<ResourceView>, int), ErrorKind>(e.kind),
            },
    {
        let ghost start = self.position as int;
        let mut resources: Vec<Resource> = Vec::new();
        let mut i: u16 = 0;
        assert(resources@.map_values(|r: Resource| r@) =~= Seq::<ResourceView>::empty());
        while i < count
            invariant
                i <= count,
                start == old(self).position() as int,
                resources_at(packet_data@, start, i as nat) == Ok::<(Seq<ResourceView>, int), ErrorKind>(
                    (resources@.map_values(|r: Resource| r@), self.position as int),
                ),
            decreases count - i,
        {
            let ghost before = resources@;
            let ghost p = self.position as int;
            match self.read_answer(packet_data, names) {
                Ok(res) => {
                    resources.push(res);
                    assert(resources@.map_values(|r: Resource| r@) =~= before.map_values(|r: Resource| r@).push(res@));
                },
                Err(e) => {
                    assert(resources_at(packet_data@, start, (i + 1) as nat) == Err::<(Seq<ResourceView>, int), ErrorKind>(e.kind));
                    proof {
                        lemma_resources_err_stays(packet_data@, start, (i + 1) as nat, count as nat);
                    }
                    return Err(e);
                },
            }
            i += 1;
        }
        Ok(resources)
    }

    /// Decodes a whole message: the header, then as many questions, answers,
    /// authority and additional records as it counts. Nothing is returned
    /// but the error where any part fails to decode.
    pub fn parse_packet(&mut self, packet_data: &[u8]) -> (r: Result<DnsPacket, Error>)
        ensures
            match r {
                Ok(p) => packet_of(packet_data@) == Ok::<(PacketView, int), ErrorKind>((p@, final(self).position() as int)),
                Err(e) => packet_of(packet_data@) == Err::<(PacketView, int), ErrorKind>(e.kind),
            },
    {
        let header = match self.read_header(packet_data) {
            Ok(h) => h,
            Err(e) => return Err(e),
        };
        let mut names = PreviousNames::new();
        let questions = match self.read_questions(packet_data, header.question_count, &mut names) {
            Ok(v) => v,
            Err(e) => return Err(e),
        };
        let answers = match self.read_resources(packet_data, header.answer_count, &mut names) {
            Ok(v) => v,
            Err(e) => return Err(e),
        };
        let authority = match self.read_resources(packet_data, header.authority_count, &mut names) {
            Ok(v) => v,
            Err(e) => return Err(e),
        };
        let additional = match self.read_resources(packet_data, header.additional_count, &mut names) {
            Ok(v) => v,
            Err(e) => return Err(e),
        };
        Ok(DnsPacket::new(header, questions, answers, authority, additional))
    }

    /// Reads the bit field of `bit_length` bits at `position` of `source`.
    pub fn get_bit_position(position: u8, bit_length: u8, source: &u16) -> (r: u16)
        requires
            position + bit_length <= 16,
        ensures
            r == extract(*source, position as u16, bit_length as u16),
    {
        get_bit_position(position, bit_length, source)
    }

    /// Replaces the bit field of `bit_length` bits at `position` of `data` by
    /// the low `bit_length` bits of `bits_to_set`.
    pub fn set_bit_position(position: u8, bit_length: u8, data: &mut u16, bits_to_set: u16)
        requires
            position + bit_length <= 16,
        ensures
            *final(data) == pack(*old(data), position as u16, bit_length as u16, bits_to_set),
    {
        set_bit_position(position, bit_length, data, bits_to_set)
    }
}

} // verus!
