//! Domain names as sequences of labels, and the matcher that finds, among the
//! names already written to a message, the one that shares the longest suffix
//! with a name about to be written.
use vstd::prelude::*;

verus! {

/// The labels of a name, each as its bytes.
pub open spec fn labels_view(labels: Seq<Vec<u8>>) -> Seq<Seq<u8>> {
    labels.map_values(|l: Vec<u8>| l@)
}

/// The wire form of a run of labels: each label preceded by its length byte.
pub open spec fn label_bytes(labels: Seq<Seq<u8>>) -> Seq<u8>
    decreases labels.len(),
{
    if labels.len() == 0 {
        seq![]
    } else {
        seq![labels[0].len() as u8] + labels[0] + label_bytes(labels.drop_first())
    }
}

/// The wire form of a run of labels is the wire forms of its parts, one after the other.
pub proof fn lemma_label_bytes_concat(a: Seq<Seq<u8>>, b: Seq<Seq<u8>>)
    ensures
        label_bytes(a + b) == label_bytes(a) + label_bytes(b),
    decreases a.len(),
{
    if a.len() == 0 {
        assert(a + b =~= b);
        assert(label_bytes(a) + label_bytes(b) =~= label_bytes(b));
    } else {
        assert((a + b).drop_first() =~= a.drop_first() + b);
        lemma_label_bytes_concat(a.drop_first(), b);
        assert(label_bytes(a + b) =~= label_bytes(a) + label_bytes(b));
    }
}

pub proof fn lemma_label_bytes_push(a: Seq<Seq<u8>>, l: Seq<u8>)
    ensures
        label_bytes(a.push(l)) == label_bytes(a) + seq![l.len() as u8] + l,
{
    lemma_label_bytes_concat(a, seq![l]);
    assert(a + seq![l] =~= a.push(l));
    let one = seq![l];
    assert(one.drop_first() =~= Seq::<Seq<u8>>::empty());
    assert(one[0] == l);
    assert(label_bytes(one.drop_first()) =~= Seq::<u8>::empty());
    assert(label_bytes(one) =~= seq![l.len() as u8] + l);
    assert(label_bytes(a) + (seq![l.len() as u8] + l) =~= label_bytes(a) + seq![l.len() as u8] + l);
}

/// A prefix of a run of labels has a wire form no longer than the whole run.
pub proof fn lemma_label_bytes_take(a: Seq<Seq<u8>>, k: int)
    requires
        0 <= k <= a.len(),
    ensures
        label_bytes(a.take(k)).len() <= label_bytes(a).len(),
        label_bytes(a) == label_bytes(a.take(k)) + label_bytes(a.skip(k)),
{
    assert(a =~= a.take(k) + a.skip(k));
    lemma_label_bytes_concat(a.take(k), a.skip(k));
}

/// How many labels at the end of `a` equal those at the end of `b`, counted
/// from the last label backward.
pub open spec fn suffix_match(a: Seq<Seq<u8>>, b: Seq<Seq<u8>>) -> nat
    decreases a.len(),
{
    if a.len() == 0 || b.len() == 0 || a.last() != b.last() {
        0
    } else {
        1 + suffix_match(a.drop_last(), b.drop_last())
    }
}

pub proof fn lemma_suffix_match_bound(a: Seq<Seq<u8>>, b: Seq<Seq<u8>>)
    ensures
        suffix_match(a, b) <= a.len(),
        suffix_match(a, b) <= b.len(),
    decreases a.len(),
{
    if a.len() > 0 && b.len() > 0 && a.last() == b.last() {
        lemma_suffix_match_bound(a.drop_last(), b.drop_last());
    }
}

/// A name already written: its labels and the offset at which it starts.
pub type EntryView = (Seq<Seq<u8>>, nat);

/// The number of labels matched by the best entry, and that entry's index
/// (-1 where none matches). The best entry matches the most labels; of those
/// that match equally many, the earliest wins.
pub open spec fn best_match(name: Seq<Seq<u8>>, entries: Seq<EntryView>) -> (nat, int)
    decreases entries.len(),
{
    if entries.len() == 0 {
        (0, -1)
    } else {
        let prev = best_match(name, entries.drop_last());
        let c = suffix_match(name, entries.last().0);
        if c > prev.0 {
            (c, entries.len() - 1)
        } else {
            prev
        }
    }
}

/// The offset of the first of the last `count` labels of an entry.
pub open spec fn target_of(entry: EntryView, count: nat) -> nat {
    entry.1 + label_bytes(entry.0.take(entry.0.len() - count)).len()
}

/// How `name` is written given the entries already in the message: `None`
/// where no entry shares a suffix with it; else the leading labels to write
/// literally and the offset that the pointer after them refers to.
pub open spec fn suitable_pointer(name: Seq<Seq<u8>>, entries: Seq<EntryView>) -> Option<(Seq<Seq<u8>>, nat)> {
    let (c, i) = best_match(name, entries);
    if c == 0 {
        None
    } else {
        Some((name.take(name.len() - c), target_of(entries[i], c)))
    }
}

pub proof fn lemma_best_match_range(name: Seq<Seq<u8>>, entries: Seq<EntryView>)
    ensures
        best_match(name, entries).0 == 0 <==> best_match(name, entries).1 == -1,
        best_match(name, entries).0 > 0 ==> 0 <= best_match(name, entries).1 < entries.len()
            && best_match(name, entries).0 == suffix_match(name, entries[best_match(name, entries).1].0),
    decreases entries.len(),
{
    if entries.len() > 0 {
        lemma_best_match_range(name, entries.drop_last());
    }
}

/// Whether a byte may stand in a label: printable ASCII.
pub open spec fn is_label_byte(b: u8) -> bool {
    0x20 <= b && b <= 0x7e
}

/// A domain name: its labels, the first label leftmost.
#[derive(Clone, Debug, PartialEq, Eq)]
pub struct DomainName {
    labels: Vec<Vec<u8>>,
}

impl View for DomainName {
    type V = Seq<Seq<u8>>;

    closed spec fn view(&self) -> Seq<Seq<u8>> {
        labels_view(self.labels@)
    }
}

/// Whether two labels hold the same bytes.
fn same_label(a: &Vec<u8>, b: &Vec<u8>) -> (r: bool)
    ensures
        r == (a@ == b@),
{
    if a.len() != b.len() {
        return false;
    }
    let mut i: usize = 0;
    while i < a.len()
        invariant
            a.len() == b.len(),
            i <= a.len(),
            a@.take(i as int) == b@.take(i as int),
        decreases a.len() - i,
    {
        if a[i] != b[i] {
            assert(a@[i as int] != b@[i as int]);
            return false;
        }
        assert(a@.take(i + 1) =~= a@.take(i as int).push(a@[i as int]));
        assert(b@.take(i + 1) =~= b@.take(i as int).push(b@[i as int]));
        i += 1;
    }
    assert(a@ =~= a@.take(i as int));
    assert(b@ =~= b@.take(i as int));
    true
}

/// A copy of a label.
pub(crate) fn copy_label(a: &Vec<u8>) -> (r: Vec<u8>)
    ensures
        r@ == a@,
{
    let mut r: Vec<u8> = Vec::new();
    let mut i: usize = 0;
    while i < a.len()
        invariant
            i <= a.len(),
            r@ == a@.take(i as int),
        decreases a.len() - i,
    {
        r.push(a[i]);
        assert(a@.take(i + 1) =~= a@.take(i as int).push(a@[i as int]));
        i += 1;
    }
    assert(a@ =~= a@.take(i as int));
    r
}

/// A copy of the first `n` labels of a sequence of labels.
pub(crate) fn copy_labels(labels: &Vec<Vec<u8>>, n: usize) -> (r: Vec<Vec<u8>>)
    requires
        n <= labels.len(),
    ensures
        labels_view(r@) == labels_view(labels@).take(n as int),
{
    let mut r: Vec<Vec<u8>> = Vec::new();
    let mut i: usize = 0;
    while i < n
        invariant
            i <= n <= labels.len(),
            r@.len() == i,
            labels_view(r@) =~= labels_view(labels@).take(i as int),
        decreases n - i,
    {
        let l = copy_label(&labels[i]);
        let ghost before = r@;
        r.push(l);
        assert(r@ == before.push(l));
        assert(labels_view(r@)[i as int] == labels_view(labels@)[i as int]);
        assert forall|j: int| 0 <= j < i implies labels_view(r@)[j] == labels_view(before)[j] by {
            assert(r@[j] == before[j]);
        }
        assert(labels_view(r@) =~= labels_view(labels@).take(i + 1));
        i += 1;
    }
    r
}

impl DomainName {
    /// The name made of `labels`.
    pub fn new(labels: Vec<Vec<u8>>) -> (r: DomainName)
        ensures
            r@ == labels_view(labels@),
    {
        DomainName { labels }
    }

    /// The number of labels.
    pub fn len(&self) -> (r: usize)
        ensures
            r == self@.len(),
    {
        self.labels.len()
    }

    /// The labels, the first leftmost.
    pub fn labels(&self) -> (r: &Vec<Vec<u8>>)
        ensures
            labels_view(r@) == self@,
    {
        &self.labels
    }

    /// A copy of this name.
    pub(crate) fn duplicate(&self) -> (r: DomainName)
        ensures
            r@ == self@,
    {
        let labels = copy_labels(&self.labels, self.labels.len());
        assert(labels_view(self.labels@).take(self.labels@.len() as int) =~= labels_view(self.labels@));
        DomainName { labels }
    }

    /// How this name can be written after the names in `list_of_names`: by
    /// a pointer to the entry that shares the longest suffix with it (the
    /// earliest on a tie), after the labels that it does not share; or `None`
    /// where no entry shares its last label.
    pub fn has_suitable_pointer(&self, list_of_names: &[DomainNameBuilder]) -> (r: Option<DomainNamePointer>)
        requires
            forall|i: int| 0 <= i < list_of_names@.len() ==> #[trigger] list_of_names@[i].wf(),
        ensures
            match r {
                None => suitable_pointer(self@, entries_view(list_of_names@)) is None,
                Some(p) => suitable_pointer(self@, entries_view(list_of_names@)) == Some(p@)
                    && (p is Pointer <==> p@.0.len() == 0),
            },
    {
        let ghost name = self@;
        let ghost entries = entries_view(list_of_names@);
        let mut best_count: usize = 0;
        let mut best_index: usize = 0;
        let mut i: usize = 0;
        while i < list_of_names.len()
            invariant
                i <= list_of_names@.len(),
                name == self@,
                entries == entries_view(list_of_names@),
                entries.len() == list_of_names@.len(),
                best_count <= self@.len(),
                best_match(name, entries.take(i as int)) == (best_count as nat, if best_count == 0 {
                    -1
                } else {
                    best_index as int
                }),
            decreases list_of_names.len() - i,
        {
            let entry = &list_of_names[i];
            let c = entry.count_suffix_match(self);
            assert(entries.take(i + 1).drop_last() =~= entries.take(i as int));
            assert(entries.take(i + 1).last() == entries[i as int]);
            if c > best_count {
                best_count = c;
                best_index = i;
            }
            i += 1;
        }
        assert(entries.take(i as int) =~= entries);
        if best_count == 0 {
            return None;
        }
        proof {
            lemma_best_match_range(name, entries);
        }
        let entry = &list_of_names[best_index];
        assert(entries[best_index as int] == entry@);
        assert(list_of_names@[best_index as int].wf());
        proof {
            lemma_suffix_match_bound(name, entry@.0);
        }
        let k = entry.labels.len() - best_count;
        proof {
            lemma_label_bytes_take(entry@.0, k as int);
        }
        let target = entry.offset + entry.offsets[k];
        if best_count == self.labels.len() {
            assert(name.take(0) =~= Seq::<Seq<u8>>::empty());
            Some(DomainNamePointer::Pointer(target))
        } else {
            let leading = copy_labels(&self.labels, self.labels.len() - best_count);
            Some(DomainNamePointer::LabelsThenPointer(leading, target))
        }
    }
}

/// The views of a run of entries.
pub open spec fn entries_view(list: Seq<DomainNameBuilder>) -> Seq<EntryView> {
    list.map_values(|e: DomainNameBuilder| e@)
}

/// How a name is written when it shares a suffix with a name written before.
#[derive(Debug, PartialEq, Clone)]
pub enum DomainNamePointer {
    /// The whole name is a pointer to this offset.
    Pointer(usize),
    /// These labels, then a pointer to this offset.
    LabelsThenPointer(Vec<Vec<u8>>, usize),
}

impl View for DomainNamePointer {
    type V = (Seq<Seq<u8>>, nat);

    open spec fn view(&self) -> (Seq<Seq<u8>>, nat) {
        match self {
            DomainNamePointer::Pointer(p) => (Seq::empty(), *p as nat),
            DomainNamePointer::LabelsThenPointer(labels, p) => (labels_view(labels@), *p as nat),
        }
    }
}

/// A name written in full to a message, with the offset at which it starts
/// and the offset of each of its labels from that start.
#[derive(Debug)]
pub struct DomainNameBuilder {
    labels: Vec<Vec<u8>>,
    offsets: Vec<usize>,
    offset: usize,
}

impl View for DomainNameBuilder {
    type V = EntryView;

    closed spec fn view(&self) -> EntryView {
        (labels_view(self.labels@), self.offset as nat)
    }
}

impl DomainNameBuilder {
    /// The label offsets agree with the labels, and every offset fits in a `usize`.
    pub closed spec fn wf(&self) -> bool {
        &&& self.offsets@.len() == self.labels@.len()
        &&& forall|k: int|
            0 <= k < self.offsets@.len() ==> #[trigger] self.offsets@[k] == label_bytes(
                labels_view(self.labels@).take(k),
            ).len()
        &&& self.offset + label_bytes(labels_view(self.labels@)).len() <= usize::MAX
    }

    /// The entry for `original_name` written at `position`.
    pub fn new(original_name: &DomainName, position: usize) -> (r: DomainNameBuilder)
        requires
            position + label_bytes(original_name@).len() <= usize::MAX,
        ensures
            r.wf(),
            r@ == (original_name@, position as nat),
    {
        let labels = original_name.duplicate().labels;
        let ghost lv = labels_view(labels@);
        let mut offsets: Vec<usize> = Vec::new();
        let mut total: usize = 0;
        let mut i: usize = 0;
        while i < labels.len()
            invariant
                lv == labels_view(labels@),
                lv == original_name@,
                position + label_bytes(lv).len() <= usize::MAX,
                i <= labels.len(),
                offsets@.len() == i,
                total == label_bytes(lv.take(i as int)).len(),
                forall|k: int| 0 <= k < i ==> #[trigger] offsets@[k] == label_bytes(lv.take(k)).len(),
            decreases labels.len() - i,
        {
            offsets.push(total);
            proof {
                lemma_label_bytes_push(lv.take(i as int), lv[i as int]);
                assert(lv.take(i as int).push(lv[i as int]) =~= lv.take(i + 1));
                lemma_label_bytes_take(lv, i + 1);
            }
            total = total + 1 + labels[i].len();
            i += 1;
        }
        DomainNameBuilder { labels, offsets, offset: position }
    }

    /// The labels of the entry, the first leftmost.
    pub fn labels(&self) -> (r: &Vec<Vec<u8>>)
        ensures
            labels_view(r@) == self@.0,
    {
        &self.labels
    }

    /// The offset at which the entry starts.
    pub fn position(&self) -> (r: usize)
        ensures
            r == self@.1,
    {
        self.offset
    }

    /// How many labels at the end of `name` equal those at the end of this entry.
    fn count_suffix_match(&self, name: &DomainName) -> (r: usize)
        ensures
            r == suffix_match(name@, self@.0),
            r <= name@.len(),
    {
        let a = &name.labels;
        let b = &self.labels;
        let ghost av = labels_view(a@);
        let ghost bv = labels_view(b@);
        let mut k: usize = 0;
        assert(av.take(a.len() as int) =~= av);
        assert(bv.take(b.len() as int) =~= bv);
        while k < a.len() && k < b.len() && same_label(&a[a.len() - 1 - k], &b[b.len() - 1 - k])
            invariant
                av == labels_view(a@),
                bv == labels_view(b@),
                av == name@,
                bv == self@.0,
                k <= a.len(),
                k <= b.len(),
                suffix_match(av, bv) == k + suffix_match(
                    av.take(a.len() - k),
                    bv.take(b.len() - k),
                ),
            decreases a.len() - k,
        {
            let ghost ta = av.take(a.len() - k);
            let ghost tb = bv.take(b.len() - k);
            assert(ta.drop_last() =~= av.take(a.len() - k - 1));
            assert(tb.drop_last() =~= bv.take(b.len() - k - 1));
            k += 1;
        }
        proof {
            let ta = av.take(a.len() - k);
            let tb = bv.take(b.len() - k);
            if k < a.len() && k < b.len() {
                assert(ta.last() != tb.last());
            }
            lemma_suffix_match_bound(av, bv);
        }
        k
    }
}

} // verus!
