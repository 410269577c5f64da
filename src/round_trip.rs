//! Decoding a query that this library built gives back what was put in.
use crate::builder::{
    address_tail, encode_name, encode_questions, header_bytes, insert_pos, label_error, longest_first,
    name_error, padded, pointer_bytes, query_bytes,
};
use crate::kinds::{QuestionClass, QuestionType};
use crate::message::QuestionView;
use crate::name::{
    best_match, label_bytes, lemma_best_match_range, lemma_label_bytes_take, lemma_suffix_match_bound,
    suffix_match, suitable_pointer, EntryView,
};
use crate::parser::{header_of, name_at, packet_of, question_at, questions_at};
use crate::wire::be16;
use vstd::prelude::*;

verus! {

/// Every label has no fault of its own.
pub open spec fn valid_labels(labels: Seq<Seq<u8>>) -> bool {
    forall|i: int| 0 <= i < labels.len() ==> label_error(#[trigger] labels[i]) is None
}

/// A question that the builder accepts: an address question for a name
/// without faults and with at least one label.
pub open spec fn valid_question(q: QuestionView) -> bool {
    &&& q.1 == QuestionType::Address
    &&& q.2 == QuestionClass::Internet
    &&& name_error(q.0) is None
    &&& q.0.len() > 0
}

proof fn lemma_name_error_labels(labels: Seq<Seq<u8>>)
    requires
        name_error(labels) is None,
    ensures
        valid_labels(labels),
    decreases labels.len(),
{
    if labels.len() > 0 {
        lemma_name_error_labels(labels.drop_last());
        assert forall|i: int| 0 <= i < labels.len() implies label_error(#[trigger] labels[i]) is None by {
            if i < labels.len() - 1 {
                assert(labels.drop_last()[i] == labels[i]);
            }
        }
    }
}

/// Labels written in full and ended by a zero byte decode to themselves,
/// whatever the fuel.
proof fn lemma_literal_name(buf: Seq<u8>, p: int, labels: Seq<Seq<u8>>, fuel: nat)
    requires
        0 <= p,
        p + label_bytes(labels).len() + 1 <= buf.len(),
        buf.subrange(p, p + label_bytes(labels).len() + 1) == label_bytes(labels) + seq![0u8],
        valid_labels(labels),
    ensures
        name_at(buf, p, fuel) == Ok::<(Seq<Seq<u8>>, int), crate::error::ErrorKind>(
            (labels, p + label_bytes(labels).len() + 1),
        ),
    decreases labels.len(),
{
    let lb = label_bytes(labels);
    let s = buf.subrange(p, p + lb.len() + 1);
    assert(buf[p] == s[0]);
    if labels.len() == 0 {
        assert(labels =~= Seq::<Seq<u8>>::empty());
    } else {
        let l = labels[0];
        let rest = labels.drop_first();
        assert(label_error(labels[0]) is None);
        let next = p + 1 + l.len();
        assert(lb == seq![l.len() as u8] + l + label_bytes(rest));
        assert(buf.subrange(p + 1, next) =~= l) by {
            assert forall|j: int| 0 <= j < l.len() implies buf.subrange(p + 1, next)[j] == l[j] by {
                assert(buf.subrange(p + 1, next)[j] == s[1 + j]);
                assert((label_bytes(labels) + seq![0u8])[1 + j] == l[j]);
            }
        }
        assert(buf.subrange(next, next + label_bytes(rest).len() + 1) =~= label_bytes(rest) + seq![0u8]) by {
            assert forall|j: int| 0 <= j < label_bytes(rest).len() + 1 implies buf.subrange(
                next,
                next + label_bytes(rest).len() + 1,
            )[j] == (label_bytes(rest) + seq![0u8])[j] by {
                assert(buf.subrange(next, next + label_bytes(rest).len() + 1)[j] == s[1 + l.len() + j]);
            }
        }
        assert forall|i: int| 0 <= i < rest.len() implies label_error(#[trigger] rest[i]) is None by {
            assert(rest[i] == labels[i + 1]);
        }
        lemma_literal_name(buf, next, rest, fuel);
        assert(seq![l] + rest =~= labels);
    }
}

/// Labels written in full and followed by a pointer to an earlier name decode
/// to those labels and then that name.
proof fn lemma_pointer_name(buf: Seq<u8>, p: int, lead: Seq<Seq<u8>>, t: int, fuel: nat, tail: Seq<Seq<u8>>)
    requires
        0 <= p,
        0 <= t < 512,
        t < p + label_bytes(lead).len(),
        p + label_bytes(lead).len() + 2 <= buf.len(),
        buf.subrange(p, p + label_bytes(lead).len() + 2) == label_bytes(lead) + pointer_bytes(t as nat),
        fuel >= 1,
        name_at(buf, t, (fuel - 1) as nat) is Ok,
        name_at(buf, t, (fuel - 1) as nat)->Ok_0.0 == tail,
        valid_labels(lead),
    ensures
        name_at(buf, p, fuel) == Ok::<(Seq<Seq<u8>>, int), crate::error::ErrorKind>(
            (lead + tail, p + label_bytes(lead).len() + 2),
        ),
    decreases lead.len(),
{
    let lb = label_bytes(lead);
    let s = buf.subrange(p, p + lb.len() + 2);
    assert(buf[p] == s[0]);
    if lead.len() == 0 {
        assert(lead + tail =~= tail);
        assert(buf[p + 1] == s[1]);
        assert(lb.len() == 0);
        assert(buf[p] == (0xc0 + t / 256) as u8);
        assert(buf[p + 1] == (t % 256) as u8);
        assert((buf[p] - 0xc0) * 256 + buf[p + 1] == t);
    } else {
        let l = lead[0];
        let rest = lead.drop_first();
        assert(label_error(lead[0]) is None);
        let next = p + 1 + l.len();
        assert(lb == seq![l.len() as u8] + l + label_bytes(rest));
        assert(buf.subrange(p + 1, next) =~= l) by {
            assert forall|j: int| 0 <= j < l.len() implies buf.subrange(p + 1, next)[j] == l[j] by {
                assert(buf.subrange(p + 1, next)[j] == s[1 + j]);
                assert((label_bytes(lead) + pointer_bytes(t as nat))[1 + j] == l[j]);
            }
        }
        assert(buf.subrange(next, next + label_bytes(rest).len() + 2) =~= label_bytes(rest) + pointer_bytes(
            t as nat,
        )) by {
            assert forall|j: int| 0 <= j < label_bytes(rest).len() + 2 implies #[trigger] buf.subrange(
                next,
                next + label_bytes(rest).len() + 2,
            )[j] == (label_bytes(rest) + pointer_bytes(t as nat))[j] by {
                assert(buf.subrange(next, next + label_bytes(rest).len() + 2)[j] == s[1 + l.len() + j]);
            }
        }
        assert forall|i: int| 0 <= i < rest.len() implies label_error(#[trigger] rest[i]) is None by {
            assert(rest[i] == lead[i + 1]);
        }
        lemma_pointer_name(buf, next, rest, t, fuel, tail);
        assert(seq![l] + (rest + tail) =~= lead + tail);
    }
}

/// The labels matched at the end of two names are the same labels.
proof fn lemma_suffix_match_skip(a: Seq<Seq<u8>>, b: Seq<Seq<u8>>)
    ensures
        suffix_match(a, b) <= a.len(),
        suffix_match(a, b) <= b.len(),
        a.skip(a.len() - suffix_match(a, b)) == b.skip(b.len() - suffix_match(a, b)),
    decreases a.len(),
{
    lemma_suffix_match_bound(a, b);
    let c = suffix_match(a, b);
    if c == 0 {
        assert(a.skip(a.len() as int) =~= b.skip(b.len() as int));
    } else {
        lemma_suffix_match_skip(a.drop_last(), b.drop_last());
        let a1 = a.drop_last();
        let b1 = b.drop_last();
        assert(a.skip(a.len() - c) =~= a1.skip(a1.len() - (c - 1)).push(a.last()));
        assert(b.skip(b.len() - c) =~= b1.skip(b1.len() - (c - 1)).push(b.last()));
    }
}

/// The bytes of the first `k` questions are the start of the bytes of all.
proof fn lemma_encode_prefix(qs: Seq<QuestionView>, start: nat, k: int)
    requires
        0 <= k <= qs.len(),
    ensures
        encode_questions(qs.take(k), start).0.len() <= encode_questions(qs, start).0.len(),
        encode_questions(qs, start).0.subrange(0, encode_questions(qs.take(k), start).0.len() as int)
            == encode_questions(qs.take(k), start).0,
    decreases qs.len() - k,
{
    if k < qs.len() {
        lemma_encode_prefix(qs, start, k + 1);
        let t1 = qs.take(k + 1);
        assert(t1.drop_last() =~= qs.take(k));
        let e0 = encode_questions(qs.take(k), start).0;
        let e1 = encode_questions(t1, start).0;
        let e = encode_questions(qs, start).0;
        assert(e.subrange(0, e0.len() as int) =~= e1.subrange(0, e0.len() as int));
        assert(e1.subrange(0, e0.len() as int) =~= e0);
    } else {
        assert(qs.take(k) =~= qs);
        assert(encode_questions(qs, start).0.subrange(0, encode_questions(qs, start).0.len() as int)
            =~= encode_questions(qs, start).0);
    }
}

proof fn lemma_longest_first_valid(qs: Seq<QuestionView>)
    requires
        forall|i: int| 0 <= i < qs.len() ==> valid_question(#[trigger] qs[i]),
    ensures
        forall|i: int| 0 <= i < longest_first(qs).len() ==> valid_question(#[trigger] longest_first(qs)[i]),
        longest_first(qs).len() == qs.len(),
    decreases qs.len(),
{
    if qs.len() > 0 {
        let s = longest_first(qs.drop_last());
        assert forall|i: int| 0 <= i < qs.drop_last().len() implies valid_question(
            #[trigger] qs.drop_last()[i],
        ) by {
            assert(qs.drop_last()[i] == qs[i]);
        }
        lemma_longest_first_valid(qs.drop_last());
        let pos = insert_pos(s, qs.last().0.len());
        crate::builder::lemma_insert_pos_range(s, qs.last().0.len());
        assert forall|i: int| 0 <= i < longest_first(qs).len() implies valid_question(
            #[trigger] longest_first(qs)[i],
        ) by {
            if i < pos {
                assert(longest_first(qs)[i] == s[i]);
            } else if i > pos {
                assert(longest_first(qs)[i] == s[i - 1]);
            }
        }
    }
}

/// Each name written in full ends before `end`, lies in `buf` as its labels
/// and a zero byte, and has valid labels.
pub open spec fn entries_in(buf: Seq<u8>, entries: Seq<EntryView>, end: int) -> bool {
    forall|i: int|
        0 <= i < entries.len() ==> {
            let e = #[trigger] entries[i];
            &&& e.1 + label_bytes(e.0).len() + 1 <= end
            &&& buf.subrange(e.1 as int, (e.1 + label_bytes(e.0).len() + 1) as int) == label_bytes(e.0) + seq![0u8]
            &&& valid_labels(e.0)
        }
}

/// A name written by the encoder at `p`, after the names in `entries`,
/// decodes to itself; the names written in full afterwards still lie in the
/// buffer.
proof fn lemma_name_decodes(buf: Seq<u8>, name: Seq<Seq<u8>>, entries: Seq<EntryView>, p: int)
    requires
        buf.len() == 512,
        0 <= p,
        p + encode_name(name, entries, p as nat).0.len() <= 512,
        buf.subrange(p, p + encode_name(name, entries, p as nat).0.len()) == encode_name(
            name,
            entries,
            p as nat,
        ).0,
        entries_in(buf, entries, p),
        name_error(name) is None,
    ensures
        name_at(buf, p, 512) == Ok::<(Seq<Seq<u8>>, int), crate::error::ErrorKind>(
            (name, p + encode_name(name, entries, p as nat).0.len()),
        ),
        entries_in(
            buf,
            encode_name(name, entries, p as nat).1,
            p + encode_name(name, entries, p as nat).0.len(),
        ),
{
    let (nb, ne) = encode_name(name, entries, p as nat);
    let end: int = p + nb.len();
    lemma_name_error_labels(name);
    match suitable_pointer(name, entries) {
        None => {
            lemma_literal_name(buf, p, name, 512);
            assert forall|i: int| 0 <= i < ne.len() implies {
                let e = #[trigger] ne[i];
                &&& e.1 + label_bytes(e.0).len() + 1 <= end
                &&& buf.subrange(e.1 as int, (e.1 + label_bytes(e.0).len() + 1) as int) == label_bytes(e.0)
                    + seq![0u8]
                &&& valid_labels(e.0)
            } by {
                if i < entries.len() {
                    assert(ne[i] == entries[i]);
                }
            }
        },
        Some((lead, t)) => {
            let (c, i) = best_match(name, entries);
            lemma_best_match_range(name, entries);
            let e = entries[i];
            lemma_suffix_match_skip(name, e.0);
            assert(e.1 + label_bytes(e.0).len() + 1 <= p);
            let split: int = e.0.len() - c;
            lemma_label_bytes_take(e.0, split);
            lemma_label_bytes_take(name, name.len() - c);
            let tail = e.0.skip(split);
            let t: int = t as int;
            assert(t == e.1 + label_bytes(e.0.take(split)).len());
            let whole = buf.subrange(e.1 as int, (e.1 + label_bytes(e.0).len() + 1) as int);
            assert(buf.subrange(t, t + label_bytes(tail).len() + 1) =~= label_bytes(tail) + seq![0u8]) by {
                assert forall|j: int| 0 <= j < label_bytes(tail).len() + 1 implies #[trigger] buf.subrange(
                    t,
                    t + label_bytes(tail).len() + 1,
                )[j] == (label_bytes(tail) + seq![0u8])[j] by {
                    assert(buf.subrange(t, t + label_bytes(tail).len() + 1)[j] == whole[label_bytes(
                        e.0.take(split),
                    ).len() + j]);
                }
            }
            assert forall|x: int| 0 <= x < tail.len() implies label_error(#[trigger] tail[x]) is None by {
                assert(tail[x] == e.0[split + x]);
            }
            lemma_literal_name(buf, t, tail, 511);
            assert forall|x: int| 0 <= x < lead.len() implies label_error(#[trigger] lead[x]) is None by {
                assert(lead[x] == name[x]);
            }
            lemma_pointer_name(buf, p, lead, t, 512, tail);
            assert(lead + tail =~= name);
        },
    }
}

/// The bytes of the `k`-th question written lie in the buffer after those
/// of the questions before it.
proof fn lemma_question_bytes(buf: Seq<u8>, ordered: Seq<QuestionView>, k: int)
    requires
        buf.len() == 512,
        12 + encode_questions(ordered, 12).0.len() <= 512,
        buf.subrange(12, 12 + encode_questions(ordered, 12).0.len() as int) == encode_questions(ordered, 12).0,
        0 < k <= ordered.len(),
    ensures
        ({
            let (b0, e0) = encode_questions(ordered.take(k - 1), 12);
            let p: int = 12 + b0.len() as int;
            let nb = encode_name(ordered[k - 1].0, e0, p as nat).0;
            &&& p + nb.len() + 4 <= 512
            &&& buf.subrange(p, p + nb.len()) == nb
            &&& buf.subrange(p + nb.len(), p + nb.len() + 4) == address_tail()
            &&& encode_questions(ordered.take(k), 12) == (b0 + nb + address_tail(), encode_name(
                ordered[k - 1].0,
                e0,
                p as nat,
            ).1)
        }),
{
    let prev = ordered.take(k - 1);
    let cur = ordered.take(k);
    assert(cur.drop_last() =~= prev);
    assert(cur.last() == ordered[k - 1]);
    let (b0, e0) = encode_questions(prev, 12);
    let p: int = 12 + b0.len() as int;
    let nb = encode_name(ordered[k - 1].0, e0, p as nat).0;
    let b1 = encode_questions(cur, 12).0;
    let full = encode_questions(ordered, 12).0;
    lemma_encode_prefix(ordered, 12, k);
    let stored = buf.subrange(12, 12 + full.len() as int);
    assert(buf.subrange(p, p + nb.len() + 4) =~= nb + address_tail()) by {
        assert forall|j: int| 0 <= j < nb.len() + 4 implies #[trigger] buf.subrange(p, p + nb.len() + 4)[j]
            == (nb + address_tail())[j] by {
            assert(buf[p + j] == stored[p - 12 + j]);
            assert(full[p - 12 + j] == full.subrange(0, b1.len() as int)[p - 12 + j]);
            assert(b1[b0.len() + j] == (nb + address_tail())[j]);
        }
    }
    assert(buf.subrange(p, p + nb.len()) =~= buf.subrange(p, p + nb.len() + 4).subrange(0, nb.len() as int));
    assert(buf.subrange(p + nb.len(), p + nb.len() + 4) =~= buf.subrange(p, p + nb.len() + 4).subrange(
        nb.len() as int,
        nb.len() + 4 as int,
    ));
    assert((nb + address_tail()).subrange(0, nb.len() as int) =~= nb);
    assert((nb + address_tail()).subrange(nb.len() as int, nb.len() + 4 as int) =~= address_tail());
}

/// A question written by the encoder at `p` decodes to itself.
proof fn lemma_question_decodes(buf: Seq<u8>, q: QuestionView, entries: Seq<EntryView>, p: int)
    requires
        buf.len() == 512,
        0 <= p,
        valid_question(q),
        entries_in(buf, entries, p),
        p + encode_name(q.0, entries, p as nat).0.len() + 4 <= 512,
        buf.subrange(p, p + encode_name(q.0, entries, p as nat).0.len()) == encode_name(q.0, entries, p as nat).0,
        buf.subrange(
            p + encode_name(q.0, entries, p as nat).0.len(),
            p + encode_name(q.0, entries, p as nat).0.len() + 4,
        ) == address_tail(),
    ensures
        question_at(buf, p) == Ok::<(QuestionView, int), crate::error::ErrorKind>(
            (q, p + encode_name(q.0, entries, p as nat).0.len() + 4),
        ),
        entries_in(
            buf,
            encode_name(q.0, entries, p as nat).1,
            p + encode_name(q.0, entries, p as nat).0.len() + 4,
        ),
{
    let nb = encode_name(q.0, entries, p as nat).0;
    let end: int = p + nb.len();
    lemma_name_decodes(buf, q.0, entries, p);
    let tail = buf.subrange(end, end + 4);
    assert(buf[end] == tail[0] && buf[end + 1] == tail[1] && buf[end + 2] == tail[2] && buf[end + 3]
        == tail[3]);
    assert(be16(0, 1) == 1);
    let ne = encode_name(q.0, entries, p as nat).1;
    assert forall|i: int| 0 <= i < ne.len() implies {
        let e = #[trigger] ne[i];
        &&& e.1 + label_bytes(e.0).len() + 1 <= end + 4
        &&& buf.subrange(e.1 as int, (e.1 + label_bytes(e.0).len() + 1) as int) == label_bytes(e.0) + seq![0u8]
        &&& valid_labels(e.0)
    } by {
        assert(entries_in(buf, ne, end));
    }
}

/// The first `k` questions written into a buffer decode in order, and the
/// names written in full among them lie in the buffer.
proof fn lemma_questions_decode(buf: Seq<u8>, ordered: Seq<QuestionView>, k: int)
    requires
        buf.len() == 512,
        forall|i: int| 0 <= i < ordered.len() ==> valid_question(#[trigger] ordered[i]),
        12 + encode_questions(ordered, 12).0.len() <= 512,
        buf.subrange(12, 12 + encode_questions(ordered, 12).0.len() as int) == encode_questions(ordered, 12).0,
        0 <= k <= ordered.len(),
    ensures
        ({
            let (bytes, entries) = encode_questions(ordered.take(k), 12);
            &&& questions_at(buf, 12, k as nat) == Ok::<(Seq<QuestionView>, int), crate::error::ErrorKind>(
                (ordered.take(k), 12 + bytes.len() as int),
            )
            &&& entries_in(buf, entries, 12 + bytes.len() as int)
        }),
    decreases k,
{
    if k == 0 {
        assert(ordered.take(0) =~= Seq::<QuestionView>::empty());
    } else {
        lemma_questions_decode(buf, ordered, k - 1);
        lemma_question_bytes(buf, ordered, k);
        let prev = ordered.take(k - 1);
        let cur = ordered.take(k);
        let q = ordered[k - 1];
        let (b0, e0) = encode_questions(prev, 12);
        let p: int = 12 + b0.len() as int;
        lemma_question_decodes(buf, q, e0, p);
        assert(cur.drop_last() =~= prev);
        assert(prev.push(q) =~= cur);
    }
}

/// Whether the questions come by non-increasing label count.
pub open spec fn by_descending_label_count(s: Seq<QuestionView>) -> bool {
    forall|i: int, j: int| 0 <= i < j < s.len() ==> #[trigger] s[i].0.len() >= #[trigger] s[j].0.len()
}

/// The questions of `s` whose names have `n` labels, in their order in `s`.
pub open spec fn with_label_count(s: Seq<QuestionView>, n: nat) -> Seq<QuestionView>
    decreases s.len(),
{
    if s.len() == 0 {
        Seq::empty()
    } else {
        let r = with_label_count(s.drop_last(), n);
        if s.last().0.len() == n {
            r.push(s.last())
        } else {
            r
        }
    }
}

proof fn lemma_with_label_count_concat(a: Seq<QuestionView>, b: Seq<QuestionView>, n: nat)
    ensures
        with_label_count(a + b, n) == with_label_count(a, n) + with_label_count(b, n),
    decreases b.len(),
{
    if b.len() == 0 {
        assert(a + b =~= a);
        assert(with_label_count(a, n) + with_label_count(b, n) =~= with_label_count(a, n));
    } else {
        lemma_with_label_count_concat(a, b.drop_last(), n);
        assert((a + b).drop_last() =~= a + b.drop_last());
        assert((a + b).last() == b.last());
        if b.last().0.len() == n {
            assert(with_label_count(a, n) + with_label_count(b.drop_last(), n).push(b.last()) =~= (
            with_label_count(a, n) + with_label_count(b.drop_last(), n)).push(b.last()));
        }
    }
}

proof fn lemma_with_label_count_none(s: Seq<QuestionView>, n: nat)
    requires
        forall|i: int| 0 <= i < s.len() ==> #[trigger] s[i].0.len() != n,
    ensures
        with_label_count(s, n) == Seq::<QuestionView>::empty(),
    decreases s.len(),
{
    if s.len() > 0 {
        assert forall|i: int| 0 <= i < s.drop_last().len() implies #[trigger] s.drop_last()[i].0.len() != n by {
            assert(s.drop_last()[i] == s[i]);
        }
        lemma_with_label_count_none(s.drop_last(), n);
    }
}

/// In a run by non-increasing label count, the questions before the insert
/// position have at least `n` labels and those after it fewer.
proof fn lemma_insert_pos_splits(s: Seq<QuestionView>, n: nat)
    requires
        by_descending_label_count(s),
    ensures
        forall|i: int| 0 <= i < insert_pos(s, n) ==> #[trigger] s[i].0.len() >= n,
        forall|i: int| insert_pos(s, n) <= i < s.len() ==> #[trigger] s[i].0.len() < n,
    decreases s.len(),
{
    crate::builder::lemma_insert_pos_range(s, n);
    if s.len() > 0 && s[0].0.len() >= n {
        let t = s.drop_first();
        assert(by_descending_label_count(t)) by {
            assert forall|i: int, j: int| 0 <= i < j < t.len() implies #[trigger] t[i].0.len()
                >= #[trigger] t[j].0.len() by {
                assert(t[i] == s[i + 1] && t[j] == s[j + 1]);
            }
        }
        lemma_insert_pos_splits(t, n);
        assert forall|i: int| 0 <= i < insert_pos(s, n) implies #[trigger] s[i].0.len() >= n by {
            if i > 0 {
                assert(s[i] == t[i - 1]);
            }
        }
        assert forall|i: int| insert_pos(s, n) <= i < s.len() implies #[trigger] s[i].0.len() < n by {
            assert(s[i] == t[i - 1]);
        }
    } else if s.len() > 0 {
        assert forall|i: int| insert_pos(s, n) <= i < s.len() implies #[trigger] s[i].0.len() < n by {
            if i > 0 {
                assert(s[0].0.len() >= s[i].0.len());
            }
        }
    }
}

/// The questions are written longest name first, and questions whose names
/// have the same number of labels are written in the order in which they
/// were added.
pub proof fn lemma_longest_first_order(qs: Seq<QuestionView>)
    ensures
        by_descending_label_count(longest_first(qs)),
        forall|n: nat| #[trigger] with_label_count(longest_first(qs), n) == with_label_count(qs, n),
    decreases qs.len(),
{
    if qs.len() == 0 {
        assert(qs =~= Seq::<QuestionView>::empty());
    } else {
        let rest = qs.drop_last();
        let x = qs.last();
        let s = longest_first(rest);
        let k = x.0.len();
        let pos = insert_pos(s, k);
        lemma_longest_first_order(rest);
        lemma_insert_pos_splits(s, k);
        crate::builder::lemma_insert_pos_range(s, k);
        let out = s.insert(pos, x);
        assert(longest_first(qs) == out);
        assert forall|i: int, j: int| 0 <= i < j < out.len() implies #[trigger] out[i].0.len()
            >= #[trigger] out[j].0.len() by {
            if j < pos {
                assert(out[i] == s[i] && out[j] == s[j]);
            } else if j == pos {
                assert(out[i] == s[i] && out[j] == x);
            } else if i < pos {
                assert(out[i] == s[i] && out[j] == s[j - 1]);
            } else if i == pos {
                assert(out[i] == x && out[j] == s[j - 1]);
            } else {
                assert(out[i] == s[i - 1] && out[j] == s[j - 1]);
            }
        }
        let before = s.take(pos);
        let after = s.skip(pos);
        assert(out =~= before + seq![x] + after);
        assert(s =~= before + after);
        assert(qs =~= rest.push(x));
        assert forall|n: nat| #[trigger] with_label_count(out, n) == with_label_count(qs, n) by {
            lemma_with_label_count_concat(before + seq![x], after, n);
            lemma_with_label_count_concat(before, seq![x], n);
            lemma_with_label_count_concat(before, after, n);
            let one = seq![x];
            assert(one.drop_last() =~= Seq::<QuestionView>::empty());
            assert(with_label_count(one.drop_last(), n) == Seq::<QuestionView>::empty());
            assert(one.last() == x);
            assert(with_label_count(rest, n) == with_label_count(s, n));
            if n == k {
                assert forall|i: int| 0 <= i < after.len() implies #[trigger] after[i].0.len() != n by {
                    assert(after[i] == s[pos + i]);
                }
                lemma_with_label_count_none(after, n);
                assert(with_label_count(seq![x], n) =~= seq![x]);
                assert(with_label_count(out, n) =~= with_label_count(before, n).push(x));
                assert(with_label_count(s, n) =~= with_label_count(before, n));
            } else {
                assert(with_label_count(seq![x], n) =~= Seq::<QuestionView>::empty());
                assert(with_label_count(out, n) =~= with_label_count(s, n));
            }
        }
    }
}

/// The questions are written in an order that holds each of them exactly once.
pub proof fn lemma_longest_first_permutes(qs: Seq<QuestionView>)
    ensures
        longest_first(qs).to_multiset() == qs.to_multiset(),
    decreases qs.len(),
{
    if qs.len() == 0 {
        assert(qs =~= Seq::<QuestionView>::empty());
    } else {
        let s = longest_first(qs.drop_last());
        let i = insert_pos(s, qs.last().0.len());
        lemma_longest_first_permutes(qs.drop_last());
        crate::builder::lemma_insert_pos_range(s, qs.last().0.len());
        assert(longest_first(qs) == s.insert(i, qs.last()));
        vstd::seq_lib::to_multiset_insert(s, i, qs.last());
        vstd::seq_lib::to_multiset_build(qs.drop_last(), qs.last());
        assert(qs.drop_last().push(qs.last()) =~= qs);
        assert(longest_first(qs).to_multiset() == s.to_multiset().insert(qs.last()));
        assert(qs.to_multiset() =~= qs.drop_last().to_multiset().insert(qs.last()));
    }
}

/// Decoding a query built from valid address questions gives back its id
/// and flags, a question count equal to the number of questions, no other
/// records, and every question with its name, type and class: each question
/// added, once, in the order in which they were written (longest name first).
pub proof fn lemma_round_trip(id: u16, flags: u16, qs: Seq<QuestionView>)
    requires
        forall|i: int| 0 <= i < qs.len() ==> valid_question(#[trigger] qs[i]),
        query_bytes(id, flags, qs).len() <= 512,
    ensures
        packet_of(padded(query_bytes(id, flags, qs))) is Ok,
        ({
            let view = packet_of(padded(query_bytes(id, flags, qs)))->Ok_0.0;
            &&& view.0 == header_of(padded(query_bytes(id, flags, qs)))
            &&& view.0.id == id
            &&& view.0.question_count == qs.len()
            &&& view.0.answer_count == 0
            &&& view.0.authority_count == 0
            &&& view.0.additional_count == 0
            &&& view.1 == longest_first(qs)
            &&& view.1.to_multiset() == qs.to_multiset()
            &&& view.2.len() == 0
            &&& view.3.len() == 0
            &&& view.4.len() == 0
        }),
{
    let buf = padded(query_bytes(id, flags, qs));
    let ordered = longest_first(qs);
    lemma_longest_first_valid(qs);
    crate::builder::lemma_encode_len(ordered, 12);
    let n = qs.len();
    let hdr = header_bytes(id, flags, n);
    assert(buf[0] == hdr[0] && buf[1] == hdr[1] && buf[4] == hdr[4] && buf[5] == hdr[5]);
    assert(buf[6] == 0 && buf[7] == 0 && buf[8] == 0 && buf[9] == 0 && buf[10] == 0 && buf[11] == 0);
    assert(n < 0x10000);
    assert(be16(buf[0], buf[1]) == id);
    assert(be16(buf[4], buf[5]) == n);
    let h = header_of(buf);
    let full = encode_questions(ordered, 12).0;
    assert(buf.subrange(12, 12 + full.len() as int) =~= full);
    lemma_questions_decode(buf, ordered, n as int);
    lemma_longest_first_permutes(qs);
    assert(ordered.take(n as int) =~= ordered);
    assert(buf.len() == 512);
}

} // verus!
