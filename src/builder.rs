//! Building a query message: header flags, questions, and their encoding
//! with name compression.
use crate::bits::{extract, field_mask, lemma_pack_into_empty_field, pack, set_bit_position};
use crate::error::{Error, ErrorKind};
use crate::kinds::{OperationCode, PacketType, QuestionClass, QuestionType, ResponseCode};
use crate::message::{Header, Question, QuestionView, RawPacket};
use crate::name::{
    entries_view, is_label_byte, label_bytes, labels_view, suitable_pointer, DomainName, DomainNameBuilder,
    DomainNamePointer, EntryView,
};
use crate::parser::{all_label_bytes, header_of};
use crate::wire::{be16, read_u16_at, write_u16_at};
use vstd::prelude::*;
use vstd::string::*;

verus! {

/// The labels of `s` between the dots, left to right, after the bytes `cur`
/// of the label in progress.
pub open spec fn split_from(s: Seq<u8>, cur: Seq<u8>) -> Seq<Seq<u8>>
    decreases s.len(),
{
    if s.len() == 0 {
        seq![cur]
    } else if s[0] == 0x2e {
        seq![cur] + split_from(s.drop_first(), Seq::empty())
    } else {
        split_from(s.drop_first(), cur.push(s[0]))
    }
}

/// The labels of a dotted name, left to right: `a.b` gives `a` and `b`, and
/// the empty name gives one empty label.
pub open spec fn split_labels(s: Seq<u8>) -> Seq<Seq<u8>> {
    split_from(s, Seq::empty())
}

/// What is wrong with a label, if anything.
pub open spec fn label_error(label: Seq<u8>) -> Option<ErrorKind> {
    if label.len() == 0 {
        Some(ErrorKind::EmptyLabel)
    } else if label.len() > 63 {
        Some(ErrorKind::LabelTooLong)
    } else if !all_label_bytes(label) {
        Some(ErrorKind::InvalidLabel)
    } else {
        None
    }
}

/// The first fault of a name, taking its labels left to right: a fault of
/// the label itself, or the name growing past 255 octets on the wire with
/// that label (its length bytes and the final zero included).
pub open spec fn name_error(labels: Seq<Seq<u8>>) -> Option<ErrorKind>
    decreases labels.len(),
{
    if labels.len() == 0 {
        None
    } else {
        match name_error(labels.drop_last()) {
            Some(e) => Some(e),
            None => match label_error(labels.last()) {
                Some(e) => Some(e),
                None => if label_bytes(labels).len() + 1 > 255 {
                    Some(ErrorKind::NameTooLong)
                } else {
                    None
                },
            },
        }
    }
}

proof fn lemma_name_error_stays(labels: Seq<Seq<u8>>, k: int)
    requires
        0 <= k <= labels.len(),
        name_error(labels.take(k)) is Some,
    ensures
        name_error(labels) == name_error(labels.take(k)),
    decreases labels.len() - k,
{
    if k < labels.len() {
        assert(labels.take(k + 1).drop_last() =~= labels.take(k));
        lemma_name_error_stays(labels, k + 1);
    } else {
        assert(labels.take(k) =~= labels);
    }
}

/// A name without faults has no empty label and fits in 255 octets.
proof fn lemma_name_valid(labels: Seq<Seq<u8>>)
    requires
        name_error(labels) is None,
    ensures
        labels.len() > 0 ==> label_bytes(labels).len() + 1 <= 255,
        forall|i: int| 0 <= i < labels.len() ==> label_error(#[trigger] labels[i]) is None,
    decreases labels.len(),
{
    if labels.len() > 0 {
        lemma_name_valid(labels.drop_last());
        assert forall|i: int| 0 <= i < labels.len() implies label_error(#[trigger] labels[i]) is None by {
            if i < labels.len() - 1 {
                assert(labels.drop_last()[i] == labels[i]);
            }
        }
    }
}

/// Where a question with `n` labels goes in a run ordered by descending label
/// count: after every question with at least as many labels.
pub open spec fn insert_pos(sorted: Seq<QuestionView>, n: nat) -> int
    decreases sorted.len(),
{
    if sorted.len() == 0 {
        0
    } else if sorted[0].0.len() < n {
        0
    } else {
        1 + insert_pos(sorted.drop_first(), n)
    }
}

/// The questions in the order in which they are written: by descending label
/// count, and in the order in which they were added where counts are equal.
pub open spec fn longest_first(qs: Seq<QuestionView>) -> Seq<QuestionView>
    decreases qs.len(),
{
    if qs.len() == 0 {
        Seq::empty()
    } else {
        let s = longest_first(qs.drop_last());
        s.insert(insert_pos(s, qs.last().0.len()), qs.last())
    }
}

/// The two bytes of a compression pointer to `target`.
pub open spec fn pointer_bytes(target: nat) -> Seq<u8> {
    seq![(0xc0 + target / 256) as u8, (target % 256) as u8]
}

/// How `name` is written at offset `pos` after the names in `entries`, and
/// the entries afterwards: in full, and then it is an entry itself; or as
/// the labels that no entry shares, then a pointer.
pub open spec fn encode_name(name: Seq<Seq<u8>>, entries: Seq<EntryView>, pos: nat) -> (Seq<u8>, Seq<EntryView>) {
    match suitable_pointer(name, entries) {
        None => (label_bytes(name) + seq![0u8], entries.push((name, pos))),
        Some((lead, target)) => (label_bytes(lead) + pointer_bytes(target), entries),
    }
}

/// The type and class of an address question on the wire.
pub open spec fn address_tail() -> Seq<u8> {
    seq![0u8, 1u8, 0u8, 1u8]
}

/// The bytes of address questions written one after the other from offset
/// `start`, and the names that were written in full, with their offsets.
pub open spec fn encode_questions(qs: Seq<QuestionView>, start: nat) -> (Seq<u8>, Seq<EntryView>)
    decreases qs.len(),
{
    if qs.len() == 0 {
        (Seq::empty(), Seq::empty())
    } else {
        let (bytes, entries) = encode_questions(qs.drop_last(), start);
        let (nb, ne) = encode_name(qs.last().0, entries, start + bytes.len());
        (bytes + nb + address_tail(), ne)
    }
}

/// The twelve header bytes of a query with this id, these flags and
/// `count` questions.
pub open spec fn header_bytes(id: u16, flags: u16, count: nat) -> Seq<u8> {
    seq![
        (id / 256) as u8,
        (id % 256) as u8,
        (flags / 256) as u8,
        (flags % 256) as u8,
        (count / 256) as u8,
        (count % 256) as u8,
        0u8,
        0u8,
        0u8,
        0u8,
        0u8,
        0u8,
    ]
}

/// The bytes of a query: the header, with the reserved bits of the flags
/// cleared, then its questions, longest first, with names compressed.
pub open spec fn query_bytes(id: u16, flags: u16, qs: Seq<QuestionView>) -> Seq<u8> {
    header_bytes(id, pack(flags, 9, 3, 0), qs.len()) + encode_questions(longest_first(qs), 12).0
}

/// Clearing the reserved bits leaves them zero.
pub proof fn lemma_reserved_cleared(flags: u16)
    ensures
        extract(pack(flags, 9, 3, 0), 9, 3) == 0,
{
    let m3 = field_mask(3);
    assert(m3 == 7) by {
        assert(((1u16 << 3u16) - 1) as u16 == 7) by (bit_vector);
    }
    let f = pack(flags, 9, 3, 0);
    assert(f == ((flags & !((m3 << 4u16) as u16)) | (((0u16 & m3) << 4u16) as u16)) as u16);
    assert(((((flags & !((7u16 << 4u16) as u16)) | (((0u16 & 7u16) << 4u16) as u16)) as u16) >> 4u16) & 7u16
        == 0) by (bit_vector);
}

/// `s` followed by zeros up to 512 bytes.
pub open spec fn padded(s: Seq<u8>) -> Seq<u8> {
    s + Seq::new((512 - s.len()) as nat, |_i: int| 0u8)
}

proof fn lemma_longest_first_len(qs: Seq<QuestionView>)
    ensures
        longest_first(qs).len() == qs.len(),
    decreases qs.len(),
{
    if qs.len() > 0 {
        lemma_longest_first_len(qs.drop_last());
        lemma_insert_pos_range(longest_first(qs.drop_last()), qs.last().0.len());
    }
}

pub(crate) proof fn lemma_insert_pos_range(s: Seq<QuestionView>, n: nat)
    ensures
        0 <= insert_pos(s, n) <= s.len(),
    decreases s.len(),
{
    if s.len() > 0 {
        lemma_insert_pos_range(s.drop_first(), n);
    }
}

/// Every question takes at least its four bytes of type and class.
pub(crate) proof fn lemma_encode_len(qs: Seq<QuestionView>, start: nat)
    ensures
        encode_questions(qs, start).0.len() >= 4 * qs.len(),
    decreases qs.len(),
{
    if qs.len() > 0 {
        lemma_encode_len(qs.drop_last(), start);
    }
}

/// Encoding more questions never gives fewer bytes.
proof fn lemma_encode_prefix_len(qs: Seq<QuestionView>, start: nat, k: int)
    requires
        0 <= k <= qs.len(),
    ensures
        encode_questions(qs.take(k), start).0.len() <= encode_questions(qs, start).0.len(),
    decreases qs.len() - k,
{
    if k < qs.len() {
        lemma_encode_prefix_len(qs, start, k + 1);
        assert(qs.take(k + 1).drop_last() =~= qs.take(k));
    } else {
        assert(qs.take(k) =~= qs);
    }
}

/// Writes `b` after the bytes `w` already written.
fn put_byte(out: &mut [u8; 512], pos: usize, b: u8, Ghost(w): Ghost<Seq<u8>>)
    requires
        old(out)@ == padded(w),
        w.len() == pos,
        pos < 512,
    ensures
        final(out)@ == padded(w.push(b)),
{
    out[pos] = b;
    assert(out@ =~= padded(w.push(b)));
}

/// Writes the wire form of `labels` after the bytes `w` already written, and
/// returns the offset after it.
fn put_labels(out: &mut [u8; 512], pos: usize, labels: &Vec<Vec<u8>>, Ghost(w): Ghost<Seq<u8>>) -> (r: usize)
    requires
        old(out)@ == padded(w),
        w.len() == pos,
        pos + label_bytes(labels_view(labels@)).len() <= 512,
    ensures
        final(out)@ == padded(w + label_bytes(labels_view(labels@))),
        r == pos + label_bytes(labels_view(labels@)).len(),
{
    let ghost lv = labels_view(labels@);
    let mut p = pos;
    let mut i: usize = 0;
    assert(lv.take(0) =~= Seq::<Seq<u8>>::empty());
    assert(w + label_bytes(lv.take(0)) =~= w);
    while i < labels.len()
        invariant
            lv == labels_view(labels@),
            i <= labels@.len(),
            pos + label_bytes(lv).len() <= 512,
            out@ == padded(w + label_bytes(lv.take(i as int))),
            p == pos + label_bytes(lv.take(i as int)).len(),
            w.len() == pos,
        decreases labels.len() - i,
    {
        let label = &labels[i];
        proof {
            crate::name::lemma_label_bytes_push(lv.take(i as int), lv[i as int]);
            assert(lv.take(i as int).push(lv[i as int]) =~= lv.take(i + 1));
            crate::name::lemma_label_bytes_take(lv, i + 1);
        }
        let ghost base = w + label_bytes(lv.take(i as int));
        put_byte(out, p, label.len() as u8, Ghost(base));
        p = p + 1;
        let mut k: usize = 0;
        while k < label.len()
            invariant
                p == pos + label_bytes(lv.take(i as int)).len() + 1 + k,
                k <= label@.len(),
                label@ == lv[i as int],
                pos + label_bytes(lv.take(i + 1)).len() <= 512,
                label_bytes(lv.take(i + 1)) == label_bytes(lv.take(i as int)) + seq![label@.len() as u8] + label@,
                out@ == padded(base.push(label.len() as u8) + label@.take(k as int)),
                base.len() == pos + label_bytes(lv.take(i as int)).len(),
            decreases label.len() - k,
        {
            let ghost cur = base.push(label.len() as u8) + label@.take(k as int);
            put_byte(out, p, label[k], Ghost(cur));
            assert(cur.push(label@[k as int]) =~= base.push(label.len() as u8) + label@.take(k + 1));
            p = p + 1;
            k += 1;
        }
        assert(label@.take(k as int) =~= label@);
        assert(base.push(label.len() as u8) + label@ =~= w + label_bytes(lv.take(i + 1)));
        i += 1;
    }
    assert(lv.take(i as int) =~= lv);
    p
}

/// The length of the wire form of `labels`.
fn labels_len(labels: &Vec<Vec<u8>>) -> (r: usize)
    requires
        label_bytes(labels_view(labels@)).len() <= usize::MAX,
    ensures
        r == label_bytes(labels_view(labels@)).len(),
{
    let ghost lv = labels_view(labels@);
    let mut total: usize = 0;
    let mut i: usize = 0;
    assert(lv.take(0) =~= Seq::<Seq<u8>>::empty());
    while i < labels.len()
        invariant
            lv == labels_view(labels@),
            i <= labels@.len(),
            label_bytes(lv).len() <= usize::MAX,
            total == label_bytes(lv.take(i as int)).len(),
        decreases labels.len() - i,
    {
        proof {
            crate::name::lemma_label_bytes_push(lv.take(i as int), lv[i as int]);
            assert(lv.take(i as int).push(lv[i as int]) =~= lv.take(i + 1));
            crate::name::lemma_label_bytes_take(lv, i + 1);
        }
        total = total + 1 + labels[i].len();
        i += 1;
    }
    assert(lv.take(i as int) =~= lv);
    total
}

/// Offsets recorded for names written in full end inside the message.
pub open spec fn entries_in_message(entries: Seq<EntryView>) -> bool {
    forall|i: int| 0 <= i < entries.len() ==> #[trigger] entries[i].1 + label_bytes(entries[i].0).len() < 512
}

proof fn lemma_pointer_in_message(name: Seq<Seq<u8>>, entries: Seq<EntryView>)
    requires
        entries_in_message(entries),
        suitable_pointer(name, entries) is Some,
    ensures
        suitable_pointer(name, entries)->Some_0.1 < 512,
        label_bytes(suitable_pointer(name, entries)->Some_0.0).len() <= label_bytes(name).len(),
{
    let (c, i) = crate::name::best_match(name, entries);
    crate::name::lemma_best_match_range(name, entries);
    crate::name::lemma_suffix_match_bound(name, entries[i].0);
    crate::name::lemma_label_bytes_take(entries[i].0, entries[i].0.len() - c);
    crate::name::lemma_label_bytes_take(name, name.len() - c);
}

/// Writes an address question for `name` after the bytes `written`,
/// compressing the name against `entries` and recording it there where it is
/// written in full; returns the offset after the question, or `None` where
/// it would not fit in the message.
fn put_question(
    out: &mut [u8; 512],
    pos: usize,
    name: &DomainName,
    entries: &mut Vec<DomainNameBuilder>,
    Ghost(written): Ghost<Seq<u8>>,
) -> (r: Option<usize>)
    requires
        old(out)@ == padded(written),
        written.len() == pos,
        pos <= 512,
        entries_in_message(entries_view(old(entries)@)),
        forall|k: int| 0 <= k < old(entries)@.len() ==> #[trigger] old(entries)@[k].wf(),
        name_error(name@) is None,
        name@.len() > 0,
    ensures
        match r {
            Some(p) => {
                let step = encode_name(name@, entries_view(old(entries)@), pos as nat);
                &&& p == pos + step.0.len() + 4
                &&& p <= 512
                &&& final(out)@ == padded(written + step.0 + address_tail())
                &&& entries_view(final(entries)@) == step.1
                &&& entries_in_message(entries_view(final(entries)@))
                &&& forall|k: int| 0 <= k < final(entries)@.len() ==> #[trigger] final(entries)@[k].wf()
            },
            None => pos + encode_name(name@, entries_view(old(entries)@), pos as nat).0.len() + 4 > 512,
        },
{
    let ghost ev = entries_view(entries@);
    let ghost step = encode_name(name@, ev, pos as nat);
    proof {
        lemma_name_valid(name@);
    }
    let mut p: usize;
    match name.has_suitable_pointer(entries.as_slice()) {
        None => {
            let len = labels_len(name.labels());
            if len + 5 > 512 - pos {
                return None;
            }
            p = put_labels(out, pos, name.labels(), Ghost(written));
            put_byte(out, p, 0, Ghost(written + label_bytes(name@)));
            let entry = DomainNameBuilder::new(name, pos);
            entries.push(entry);
            assert(entries_view(entries@) =~= ev.push((name@, pos as nat)));
            assert((written + label_bytes(name@)).push(0u8) =~= written + step.0);
            p = p + 1;
        },
        Some(DomainNamePointer::Pointer(t)) => {
            proof {
                lemma_pointer_in_message(name@, ev);
            }
            if 6 > 512 - pos {
                return None;
            }
            assert(label_bytes(Seq::<Seq<u8>>::empty()) =~= Seq::<u8>::empty());
            put_byte(out, pos, (0xc0 + t / 256) as u8, Ghost(written));
            put_byte(out, pos + 1, (t % 256) as u8, Ghost(written.push((0xc0 + t / 256) as u8)));
            assert(written.push((0xc0 + t / 256) as u8).push((t % 256) as u8) =~= written + step.0);
            p = pos + 2;
        },
        Some(DomainNamePointer::LabelsThenPointer(lead, t)) => {
            proof {
                lemma_pointer_in_message(name@, ev);
            }
            let len = labels_len(&lead);
            if len + 6 > 512 - pos {
                return None;
            }
            p = put_labels(out, pos, &lead, Ghost(written));
            let ghost w2 = written + label_bytes(labels_view(lead@));
            put_byte(out, p, (0xc0 + t / 256) as u8, Ghost(w2));
            put_byte(out, p + 1, (t % 256) as u8, Ghost(w2.push((0xc0 + t / 256) as u8)));
            assert(w2.push((0xc0 + t / 256) as u8).push((t % 256) as u8) =~= written + step.0);
            p = p + 2;
        },
    }
    let ghost w3 = written + step.0;
    put_byte(out, p, 0, Ghost(w3));
    put_byte(out, p + 1, 1, Ghost(w3.push(0u8)));
    put_byte(out, p + 2, 0, Ghost(w3.push(0u8).push(1u8)));
    put_byte(out, p + 3, 1, Ghost(w3.push(0u8).push(1u8).push(0u8)));
    assert(w3.push(0u8).push(1u8).push(0u8).push(1u8) =~= w3 + address_tail());
    Some(p + 4)
}

/// Whether every kind in the header has a wire value.
pub open spec fn header_encodable(h: Header) -> bool {
    &&& h.packet_type != PacketType::Unknown
    &&& h.operation_code != OperationCode::Unknown
    &&& h.response_code != ResponseCode::UNKNOWN
}

proof fn lemma_flags_word(qr: u16, op: u16, aa: u16, tc: u16, rd: u16, ra: u16, rc: u16, flags: u16)
    requires
        qr < 2,
        op < 16,
        aa < 2,
        tc < 2,
        rd < 2,
        ra < 2,
        rc < 16,
        flags == pack(pack(pack(pack(pack(pack(pack(0, 0, 1, qr), 1, 4, op), 5, 1, aa), 6, 1, tc), 7, 1, rd), 8, 1, ra), 12, 4, rc),
    ensures
        extract(flags, 0, 1) == qr,
        extract(flags, 1, 4) == op,
        extract(flags, 5, 1) == aa,
        extract(flags, 6, 1) == tc,
        extract(flags, 7, 1) == rd,
        extract(flags, 8, 1) == ra,
        extract(flags, 9, 3) == 0,
        extract(flags, 12, 4) == rc,
{
    let m1 = field_mask(1);
    let m3 = field_mask(3);
    let m4 = field_mask(4);
    assert(m1 == 1) by {
        assert(((1u16 << 1u16) - 1) as u16 == 1) by (bit_vector);
    }
    assert(m3 == 7) by {
        assert(((1u16 << 3u16) - 1) as u16 == 7) by (bit_vector);
    }
    assert(m4 == 15) by {
        assert(((1u16 << 4u16) - 1) as u16 == 15) by (bit_vector);
    }
    assert(qr & 1 == qr && op & 15 == op && aa & 1 == aa && tc & 1 == tc && rd & 1 == rd && ra & 1 == ra
        && rc & 15 == rc) by (bit_vector)
        requires
            qr < 2,
            op < 16,
            aa < 2,
            tc < 2,
            rd < 2,
            ra < 2,
            rc < 16,
    ;
    let w1 = (qr << 15u16) as u16;
    let w2 = (w1 | ((op << 11u16) as u16)) as u16;
    let w3 = (w2 | ((aa << 10u16) as u16)) as u16;
    let w4 = (w3 | ((tc << 9u16) as u16)) as u16;
    let w5 = (w4 | ((rd << 8u16) as u16)) as u16;
    let w6 = (w5 | ((ra << 7u16) as u16)) as u16;
    let w7 = (w6 | rc) as u16;
    assert(0u16 & ((1u16 << 15u16) as u16) == 0 && w1 & ((15u16 << 11u16) as u16) == 0 && w2 & ((1u16
        << 10u16) as u16) == 0 && w3 & ((1u16 << 9u16) as u16) == 0 && w4 & ((1u16 << 8u16) as u16) == 0
        && w5 & ((1u16 << 7u16) as u16) == 0 && w6 & ((15u16 << 0u16) as u16) == 0 && (rc << 0u16) as u16
        == rc) by (bit_vector)
        requires
            qr < 2,
            op < 16,
            aa < 2,
            tc < 2,
            rd < 2,
            ra < 2,
            rc < 16,
            w1 == (qr << 15u16) as u16,
            w2 == (w1 | ((op << 11u16) as u16)) as u16,
            w3 == (w2 | ((aa << 10u16) as u16)) as u16,
            w4 == (w3 | ((tc << 9u16) as u16)) as u16,
            w5 == (w4 | ((rd << 8u16) as u16)) as u16,
            w6 == (w5 | ((ra << 7u16) as u16)) as u16,
    ;
    assert(0u16 | ((qr << 15u16) as u16) == w1) by (bit_vector)
        requires
            w1 == (qr << 15u16) as u16,
    ;
    lemma_pack_into_empty_field(0, 0, 1, qr);
    lemma_pack_into_empty_field(w1, 1, 4, op);
    lemma_pack_into_empty_field(w2, 5, 1, aa);
    lemma_pack_into_empty_field(w3, 6, 1, tc);
    lemma_pack_into_empty_field(w4, 7, 1, rd);
    lemma_pack_into_empty_field(w5, 8, 1, ra);
    lemma_pack_into_empty_field(w6, 12, 4, rc);
    assert(flags == w7);
    assert((w7 >> 15u16) & 1 == qr && (w7 >> 11u16) & 15 == op && (w7 >> 10u16) & 1 == aa && (w7 >> 9u16)
        & 1 == tc && (w7 >> 8u16) & 1 == rd && (w7 >> 7u16) & 1 == ra && (w7 >> 4u16) & 7 == 0 && (w7
        >> 0u16) & 15 == rc) by (bit_vector)
        requires
            qr < 2,
            op < 16,
            aa < 2,
            tc < 2,
            rd < 2,
            ra < 2,
            rc < 16,
            w7 == (((((((qr << 15u16) as u16 | (op << 11u16) as u16) as u16 | (aa << 10u16) as u16) as u16
                | (tc << 9u16) as u16) as u16 | (rd << 8u16) as u16) as u16 | (ra << 7u16) as u16) as u16
                | rc) as u16,
    ;
}

impl RawPacket {
    /// Writes `header` into the first twelve bytes of the buffer, its flags
    /// packed field by field. Fails, writing nothing, where a kind in it is
    /// unknown. The reserved bits are written as zero.
    pub fn write_header(&mut self, header: &Header) -> (r: Result<(), Error>)
        ensures
            match r {
                Ok(()) => {
                    &&& header_encodable(*header)
                    &&& header_of(final(self).data()@) == *header
                    &&& extract(be16(final(self).data()@[2], final(self).data()@[3]), 9, 3) == 0
                    &&& final(self).data()@.subrange(12, 512) == old(self).data()@.subrange(12, 512)
                },
                Err(e) => {
                    &&& !header_encodable(*header)
                    &&& e.kind == ErrorKind::UnencodableKind
                    &&& *final(self) == *old(self)
                },
            },
    {
        let qr = match header.packet_type.to_wire() {
            Ok(v) => v,
            Err(e) => return Err(e),
        };
        let op = match header.operation_code.to_wire() {
            Ok(v) => v,
            Err(e) => return Err(e),
        };
        let rc = match header.response_code.to_wire() {
            Ok(v) => v,
            Err(e) => return Err(e),
        };
        let aa: u16 = if header.authorative { 1 } else { 0 };
        let tc: u16 = if header.truncated { 1 } else { 0 };
        let rd: u16 = if header.recursion_desired { 1 } else { 0 };
        let ra: u16 = if header.recursion_available { 1 } else { 0 };
        let mut flags: u16 = 0;
        set_bit_position(0, 1, &mut flags, qr);
        set_bit_position(1, 4, &mut flags, op);
        set_bit_position(5, 1, &mut flags, aa);
        set_bit_position(6, 1, &mut flags, tc);
        set_bit_position(7, 1, &mut flags, rd);
        set_bit_position(8, 1, &mut flags, ra);
        set_bit_position(12, 4, &mut flags, rc);
        proof {
            lemma_flags_word(qr, op, aa, tc, rd, ra, rc, flags);
        }
        let mut data = self.bytes_copy();
        write_u16_at(&mut data, 0, header.id);
        write_u16_at(&mut data, 2, flags);
        write_u16_at(&mut data, 4, header.question_count);
        write_u16_at(&mut data, 6, header.answer_count);
        write_u16_at(&mut data, 8, header.authority_count);
        write_u16_at(&mut data, 10, header.additional_count);
        let ghost d = data@;
        assert(be16(d[0], d[1]) == header.id);
        assert(be16(d[2], d[3]) == flags);
        assert(be16(d[4], d[5]) == header.question_count);
        assert(be16(d[6], d[7]) == header.answer_count);
        assert(be16(d[8], d[9]) == header.authority_count);
        assert(be16(d[10], d[11]) == header.additional_count);
        self.set_bytes(data);
        assert(d.subrange(12, 512) =~= old(self).data()@.subrange(12, 512));
        Ok(())
    }
}

/// Splits a dotted name into its labels.
fn split_name(s: &[u8]) -> (r: Vec<Vec<u8>>)
    ensures
        labels_view(r@) == split_labels(s@),
        r@.len() > 0,
{
    let mut labels: Vec<Vec<u8>> = Vec::new();
    let mut cur: Vec<u8> = Vec::new();
    let mut i: usize = 0;
    assert(s@.skip(0) =~= s@);
    assert(labels_view(labels@) + split_from(s@.skip(0), cur@) =~= split_labels(s@));
    while i < s.len()
        invariant
            i <= s@.len(),
            split_labels(s@) == labels_view(labels@) + split_from(s@.skip(i as int), cur@),
        decreases s.len() - i,
    {
        let ghost rest = s@.skip(i as int);
        assert(rest[0] == s@[i as int]);
        assert(rest.drop_first() =~= s@.skip(i + 1));
        let ghost before = labels@;
        if s[i] == 0x2e {
            let ghost cv = cur@;
            labels.push(cur);
            cur = Vec::new();
            assert(labels_view(labels@) =~= labels_view(before).push(cv));
            assert(labels_view(before) + (seq![cv] + split_from(s@.skip(i + 1), Seq::empty()))
                =~= labels_view(labels@) + split_from(s@.skip(i + 1), cur@));
        } else {
            cur.push(s[i]);
        }
        i += 1;
    }
    assert(s@.skip(i as int) =~= Seq::<u8>::empty());
    let ghost before = labels@;
    let ghost cv = cur@;
    labels.push(cur);
    assert(labels_view(labels@) =~= labels_view(before).push(cv));
    assert(labels_view(before) + seq![cv] =~= labels_view(labels@));
    labels
}

/// Whether every byte of a label may stand in a label.
fn label_is_printable(l: &Vec<u8>) -> (r: bool)
    ensures
        r == all_label_bytes(l@),
{
    let mut i: usize = 0;
    while i < l.len()
        invariant
            i <= l@.len(),
            forall|j: int| 0 <= j < i ==> is_label_byte(#[trigger] l@[j]),
        decreases l.len() - i,
    {
        if l[i] < 0x20 || l[i] > 0x7e {
            assert(!is_label_byte(l@[i as int]));
            return false;
        }
        i += 1;
    }
    true
}

/// The first fault of a name, as `name_error` gives it.
fn check_name(labels: &Vec<Vec<u8>>) -> (r: Option<Error>)
    ensures
        match r {
            Some(e) => name_error(labels_view(labels@)) == Some(e.kind),
            None => name_error(labels_view(labels@)) is None,
        },
{
    let ghost lv = labels_view(labels@);
    let mut total: usize = 1;
    let mut i: usize = 0;
    assert(lv.take(0) =~= Seq::<Seq<u8>>::empty());
    while i < labels.len()
        invariant
            lv == labels_view(labels@),
            i <= labels@.len(),
            name_error(lv.take(i as int)) is None,
            total == label_bytes(lv.take(i as int)).len() + 1,
            total <= 255,
        decreases labels.len() - i,
    {
        let len = labels[i].len();
        let ghost upto = lv.take(i + 1);
        assert(upto.drop_last() =~= lv.take(i as int));
        assert(upto.last() == labels@[i as int]@);
        let fault = if len == 0 {
            Some(ErrorKind::EmptyLabel)
        } else if len > 63 {
            Some(ErrorKind::LabelTooLong)
        } else if !label_is_printable(&labels[i]) {
            Some(ErrorKind::InvalidLabel)
        } else {
            proof {
                crate::name::lemma_label_bytes_push(lv.take(i as int), lv[i as int]);
                assert(lv.take(i as int).push(lv[i as int]) =~= upto);
            }
            total = total + len + 1;
            if total > 255 {
                Some(ErrorKind::NameTooLong)
            } else {
                None
            }
        };
        if let Some(kind) = fault {
            proof {
                lemma_name_error_stays(lv, i + 1);
            }
            return Some(Error::new(kind));
        }
        i += 1;
    }
    assert(lv.take(i as int) =~= lv);
    None
}

/// A label longer than 63 bytes is rejected as too long, where the labels
/// before it have no fault.
pub proof fn lemma_long_label_rejected(labels: Seq<Seq<u8>>, i: int)
    requires
        0 <= i < labels.len(),
        labels[i].len() > 63,
        name_error(labels.take(i)) is None,
    ensures
        name_error(labels) == Some(ErrorKind::LabelTooLong),
{
    let upto = labels.take(i + 1);
    assert(upto.drop_last() =~= labels.take(i));
    assert(upto.last() == labels[i]);
    lemma_name_error_stays(labels, i + 1);
}

/// Builds a query message.
#[derive(Debug)]
pub struct DnsQueryBuilder {
    packet_data: [u8; 512],
    current_questions: Vec<Question>,
    built: bool,
}

impl DnsQueryBuilder {
    /// Only the id and the flags are set before the message is built, and every
    /// question asks for the address of a name without faults.
    pub closed spec fn wf(&self) -> bool {
        &&& forall|k: int| 4 <= k < 512 ==> #[trigger] self.packet_data@[k] == 0
        &&& forall|i: int|
            0 <= i < self.current_questions@.len() ==> {
                let q = #[trigger] self.current_questions@[i];
                &&& q.question_type == QuestionType::Address
                &&& q.question_class == QuestionClass::Internet
                &&& name_error(q.domain_name@) is None
                &&& q.domain_name@.len() > 0
            }
    }

    /// The message id.
    pub closed spec fn id(&self) -> u16 {
        be16(self.packet_data@[0], self.packet_data@[1])
    }

    /// The word of header flags.
    pub closed spec fn flags(&self) -> u16 {
        be16(self.packet_data@[2], self.packet_data@[3])
    }

    /// The questions added so far, in the order in which they were added.
    pub closed spec fn questions(&self) -> Seq<QuestionView> {
        self.current_questions@.map_values(|q: Question| q@)
    }

    /// Whether the message has been built.
    pub closed spec fn is_built(&self) -> bool {
        self.built
    }

    /// Every question of a well-formed builder is an address question for a
    /// name without faults.
    pub proof fn lemma_questions_valid(&self)
        requires
            self.wf(),
        ensures
            forall|i: int| 0 <= i < self.questions().len() ==> crate::round_trip::valid_question(
                #[trigger] self.questions()[i],
            ),
    {
        assert forall|i: int| 0 <= i < self.questions().len() implies crate::round_trip::valid_question(
            #[trigger] self.questions()[i],
        ) by {
            assert(self.questions()[i] == self.current_questions@[i]@);
        }
    }

    /// The bytes of the header as set so far: the id, the flags, then zeros.
    pub fn packet_data(&self) -> (r: &[u8; 512])
        requires
            self.wf(),
        ensures
            be16(r@[0], r@[1]) == self.id(),
            be16(r@[2], r@[3]) == self.flags(),
            forall|k: int| 4 <= k < 512 ==> r@[k] == 0,
    {
        &self.packet_data
    }

    /// A builder with id 0, no flags and no questions.
    pub fn new() -> (r: DnsQueryBuilder)
        ensures
            r.wf(),
            r.id() == 0,
            r.flags() == 0,
            r.questions() == Seq::<QuestionView>::empty(),
            !r.is_built(),
    {
        let r = DnsQueryBuilder { packet_data: [0u8; 512], current_questions: Vec::new(), built: false };
        assert(r.questions() =~= Seq::<QuestionView>::empty());
        r
    }

    /// Sets the message id to `id`, or to `fallback` where it is `None`: the
    /// id does not depend on what was set before, and a caller that assigns
    /// ids (at random, or in sequence) hands its choice in as `fallback`.
    pub fn write_id_or(&mut self, id: Option<u16>, fallback: u16) -> (r: &mut Self)
        requires
            old(self).wf(),
            !old(self).is_built(),
        ensures
            (*r).wf(),
            (*r).id() == match id {
                Some(v) => v,
                None => fallback,
            },
            (*r).flags() == old(self).flags(),
            (*r).questions() == old(self).questions(),
            !(*r).is_built(),
            *final(self) == *final(r),
    {
        let v = match id {
            Some(v) => v,
            None => fallback,
        };
        write_u16_at(&mut self.packet_data, 0, v);
        self
    }

    /// Sets the message id to `id`, or to 0 where it is `None`.
    pub fn write_id(&mut self, id: Option<u16>) -> (r: Result<&mut Self, Error>)
        requires
            old(self).wf(),
            !old(self).is_built(),
        ensures
            r is Ok,
            (*r->Ok_0).wf(),
            (*r->Ok_0).id() == match id {
                Some(v) => v,
                None => 0,
            },
            (*r->Ok_0).flags() == old(self).flags(),
            (*r->Ok_0).questions() == old(self).questions(),
            !(*r->Ok_0).is_built(),
            *final(self) == *final(r->Ok_0),
    {
        Ok(self.write_id_or(id, 0))
    }

    /// Sets or clears the recursion-desired flag.
    pub fn recursion(&mut self, recursion_desired: bool) -> (r: &mut Self)
        requires
            old(self).wf(),
            !old(self).is_built(),
        ensures
            (*r).wf(),
            (*r).id() == old(self).id(),
            (*r).flags() == pack(old(self).flags(), 7, 1, if recursion_desired {
                1
            } else {
                0
            }),
            (*r).questions() == old(self).questions(),
            !(*r).is_built(),
            *final(self) == *final(r),
    {
        if recursion_desired {
            self.set_bit_position(7, 1, 1);
        } else {
            self.set_bit_position(7, 1, 0);
        }
        self
    }

    /// Adds a question that asks for the address of the dotted name
    /// `domain_name`, after checking each of its labels left to right; a
    /// faulty name leaves the builder as it was.
    pub fn request_address(&mut self, domain_name: &str) -> (r: Result<&mut Self, Error>)
        requires
            old(self).wf(),
            !old(self).is_built(),
        ensures
            match r {
                Ok(b) => {
                    &&& name_error(split_labels(domain_name.spec_bytes())) is None
                    &&& (*b).wf()
                    &&& (*b).id() == old(self).id()
                    &&& (*b).flags() == old(self).flags()
                    &&& (*b).questions() == old(self).questions().push(
                        (split_labels(domain_name.spec_bytes()), QuestionType::Address, QuestionClass::Internet),
                    )
                    &&& !(*b).is_built()
                    &&& *final(self) == *final(b)
                },
                Err(e) => name_error(split_labels(domain_name.spec_bytes())) == Some(e.kind)
                    && *final(self) == *old(self),
            },
    {
        let labels = split_name(domain_name.as_bytes());
        if let Some(e) = check_name(&labels) {
            return Err(e);
        }
        let ghost before = self.current_questions@;
        let question = Question {
            domain_name: DomainName::new(labels),
            question_class: QuestionClass::Internet,
            question_type: QuestionType::Address,
        };
        self.current_questions.push(question);
        assert(self.questions() =~= old(self).questions().push(question@));
        Ok(self)
    }

    /// The indices of the questions in the order in which they are written.
    fn processing_order(&self) -> (r: Vec<usize>)
        ensures
            r@.len() == self.questions().len(),
            forall|k: int| 0 <= k < r@.len() ==> #[trigger] r@[k] < self.questions().len(),
            r@.map_values(|k: usize| self.questions()[k as int]) == longest_first(self.questions()),
    {
        let ghost qs = self.questions();
        let mut order: Vec<usize> = Vec::new();
        let mut i: usize = 0;
        assert(qs.take(0) =~= Seq::<QuestionView>::empty());
        assert(order@.map_values(|k: usize| qs[k as int]) =~= Seq::<QuestionView>::empty());
        while i < self.current_questions.len()
            invariant
                qs == self.questions(),
                qs.len() == self.current_questions@.len(),
                i <= qs.len(),
                order@.len() == i,
                forall|k: int| 0 <= k < order@.len() ==> #[trigger] order@[k] < i,
                order@.map_values(|k: usize| qs[k as int]) == longest_first(qs.take(i as int)),
            decreases self.current_questions.len() - i,
        {
            let n = self.current_questions[i].domain_name.len();
            let ghost sorted = order@.map_values(|k: usize| qs[k as int]);
            assert(qs[i as int].0.len() == n);
            let mut j: usize = 0;
            assert(sorted.skip(0) =~= sorted);
            while j < order.len() && self.current_questions[order[j]].domain_name.len() >= n
                invariant
                    qs == self.questions(),
                    qs.len() == self.current_questions@.len(),
                    sorted == order@.map_values(|k: usize| qs[k as int]),
                    forall|k: int| 0 <= k < order@.len() ==> #[trigger] order@[k] < i,
                    i < qs.len(),
                    j <= order@.len(),
                    insert_pos(sorted, n as nat) == j + insert_pos(sorted.skip(j as int), n as nat),
                decreases order.len() - j,
            {
                assert(sorted.skip(j as int)[0] == sorted[j as int]);
                assert(sorted.skip(j as int).drop_first() =~= sorted.skip(j + 1));
                j += 1;
            }
            proof {
                if j < order.len() {
                    assert(sorted.skip(j as int)[0] == sorted[j as int]);
                } else {
                    assert(sorted.skip(j as int) =~= Seq::<QuestionView>::empty());
                }
                assert(qs.take(i + 1).drop_last() =~= qs.take(i as int));
                assert(qs.take(i + 1).last() == qs[i as int]);
            }
            let ghost before = order@;
            order.insert(j, i);
            assert(order@.map_values(|k: usize| qs[k as int]) =~= sorted.insert(j as int, qs[i as int]));
            i += 1;
        }
        assert(qs.take(i as int) =~= qs);
        order
    }

    /// Writes the message: the header with the question count, then each
    /// question, longest name first, with its name compressed against the
    /// names already written. Fails, leaving the builder as it was, where
    /// the message would not fit in 512 bytes.
    pub fn build_query(&mut self) -> (r: Result<[u8; 512], Error>)
        requires
            old(self).wf(),
            !old(self).is_built(),
        ensures
            match r {
                Ok(buf) => {
                    &&& query_bytes(old(self).id(), old(self).flags(), old(self).questions()).len() <= 512
                    &&& buf@ == padded(query_bytes(old(self).id(), old(self).flags(), old(self).questions()))
                    &&& extract(be16(buf@[2], buf@[3]), 9, 3) == 0
                    &&& final(self).wf()
                    &&& final(self).is_built()
                    &&& final(self).id() == old(self).id()
                    &&& final(self).flags() == old(self).flags()
                    &&& final(self).questions() == old(self).questions()
                },
                Err(e) => {
                    &&& e.kind == ErrorKind::PacketTooLarge
                    &&& query_bytes(old(self).id(), old(self).flags(), old(self).questions()).len() > 512
                    &&& *final(self) == *old(self)
                },
            },
    {
        let ghost qs = self.questions();
        let ghost ordered = longest_first(qs);
        let ghost header = header_bytes(self.id(), pack(self.flags(), 9, 3, 0), qs.len());
        proof {
            lemma_longest_first_len(qs);
            lemma_encode_len(ordered, 12);
        }
        let n = self.current_questions.len();
        if n > 125 {
            return Err(Error::new(ErrorKind::PacketTooLarge));
        }
        let mut out: [u8; 512] = self.packet_data;
        let mut flags = read_u16_at(self.packet_data.as_slice(), 2);
        set_bit_position(9, 3, &mut flags, 0);
        write_u16_at(&mut out, 2, flags);
        write_u16_at(&mut out, 4, n as u16);
        proof {
            lemma_reserved_cleared(self.flags());
        }
        assert(out@ =~= padded(header));
        let order = self.processing_order();
        let mut entries: Vec<DomainNameBuilder> = Vec::new();
        let mut pos: usize = 12;
        let mut j: usize = 0;
        assert(ordered.take(0) =~= Seq::<QuestionView>::empty());
        assert(header + encode_questions(ordered.take(0), 12).0 =~= header);
        assert(entries_view(entries@) =~= Seq::<EntryView>::empty());
        while j < order.len()
            invariant
                self.wf(),
                qs == self.questions(),
                *self == *old(self),
                ordered == longest_first(qs),
                ordered.len() == qs.len(),
                qs.len() == n,
                header == header_bytes(self.id(), pack(self.flags(), 9, 3, 0), qs.len()),
                order@.len() == qs.len(),
                forall|k: int| 0 <= k < order@.len() ==> #[trigger] order@[k] < qs.len(),
                order@.map_values(|k: usize| qs[k as int]) == ordered,
                j <= order@.len(),
                pos == 12 + encode_questions(ordered.take(j as int), 12).0.len(),
                pos <= 512,
                out@ == padded(header + encode_questions(ordered.take(j as int), 12).0),
                entries_view(entries@) == encode_questions(ordered.take(j as int), 12).1,
                entries_in_message(entries_view(entries@)),
                forall|k: int| 0 <= k < entries@.len() ==> #[trigger] entries@[k].wf(),
            decreases order.len() - j,
        {
            let ghost done = ordered.take(j as int);
            let ghost written = header + encode_questions(done, 12).0;
            assert(ordered.take(j + 1).drop_last() =~= done);
            let q = &self.current_questions[order[j]];
            assert(ordered[j as int] == qs[order@[j as int] as int]);
            assert(ordered.take(j + 1).last() == q@);
            proof {
                lemma_encode_prefix_len(ordered, 12, j + 1);
            }
            match put_question(&mut out, pos, &q.domain_name, &mut entries, Ghost(written)) {
                Some(p) => {
                    assert(written + encode_name(
                        q@.0,
                        encode_questions(done, 12).1,
                        (12 + encode_questions(done, 12).0.len()) as nat,
                    ).0 + address_tail() =~= header + encode_questions(ordered.take(j + 1), 12).0);
                    pos = p;
                },
                None => {
                    return Err(Error::new(ErrorKind::PacketTooLarge));
                },
            }
            j += 1;
        }
        assert(ordered.take(j as int) =~= ordered);
        self.built = true;
        Ok(out)
    }

    /// Replaces the `bit_length`-bit field at `position` of the header flags
    /// by the low `bit_length` bits of `bits_to_set`.
    pub fn set_bit_position(&mut self, position: u8, bit_length: u8, bits_to_set: u16)
        requires
            old(self).wf(),
            position + bit_length <= 16,
        ensures
            final(self).wf(),
            final(self).id() == old(self).id(),
            final(self).flags() == pack(old(self).flags(), position as u16, bit_length as u16, bits_to_set),
            final(self).questions() == old(self).questions(),
            final(self).is_built() == old(self).is_built(),
    {
        let mut flags = read_u16_at(self.packet_data.as_slice(), 2);
        set_bit_position(position, bit_length, &mut flags, bits_to_set);
        write_u16_at(&mut self.packet_data, 2, flags);
    }
}

} // verus!
