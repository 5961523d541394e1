//! Demultiplexing read pairs: each pair whose second read yields a cell
//! barcode is written out under a barcode-prefixed name and counted.

use vstd::prelude::*;
use vstd::multiset::Multiset;
use crate::key_index::KeyIndex;
use crate::scheme::AtrandiBarcodes;
use crate::scheme::BARCODE_REGION_LEN;
use crate::text::decimal;
use crate::text::fastq_text;
use crate::text::push_bytes;
use crate::text::push_decimal;
use crate::text::write_fastq;
use vstd::slice::slice_subrange;
use vstd::slice::slice_to_vec;

verus! {

/// Read-pair counts per cell label, kept in order of first appearance.
pub struct BarcodeHistogram {
    index: KeyIndex,
    counts: Vec<u64>,
    total: u64,
    seen: Ghost<Multiset<Seq<u8>>>,
}

impl View for BarcodeHistogram {
    type V = Multiset<Seq<u8>>;

    /// Each label as many times as it was counted.
    closed spec fn view(&self) -> Multiset<Seq<u8>> {
        self.seen@
    }
}

impl BarcodeHistogram {
    /// The counted labels, in order of first appearance.
    pub closed spec fn labels(&self) -> Seq<Seq<u8>> {
        self.index@
    }

    pub closed spec fn wf(&self) -> bool {
        &&& self.index.wf()
        &&& self.counts@.len() == self.index@.len()
        &&& forall|i: int| 0 <= i < self.counts@.len() ==> #[trigger] self.counts@[i] == self.seen@.count(self.index@[i])
        &&& forall|i: int| 0 <= i < self.counts@.len() ==> #[trigger] self.counts@[i] <= self.total
        &&& forall|i: int| 0 <= i < self.counts@.len() ==> #[trigger] self.counts@[i] > 0
        &&& forall|l: Seq<u8>| #[trigger] self.seen@.count(l) > 0 ==> self.index@.contains(l)
        &&& self.total == self.seen@.len()
    }

    /// The labels are distinct and are exactly those counted at least once.
    pub proof fn lemma_labels(&self)
        requires
            self.wf(),
        ensures
            forall|i: int, j: int| 0 <= i < self.labels().len() && 0 <= j < self.labels().len() && i != j
                ==> self.labels()[i] != self.labels()[j],
            forall|l: Seq<u8>| self.labels().contains(l) <==> self@.count(l) > 0,
    {
        self.index.lemma_distinct();
        assert forall|l: Seq<u8>| self.labels().contains(l) implies self@.count(l) > 0 by {
            let i = choose|i: int| 0 <= i < self.index@.len() && self.index@[i] == l;
            assert(self.counts@[i] == self.seen@.count(l));
        }
    }

    pub fn new() -> (h: BarcodeHistogram)
        ensures
            h.wf(),
            h@ == Multiset::<Seq<u8>>::empty(),
    {
        BarcodeHistogram { index: KeyIndex::new(), counts: Vec::new(), total: 0, seen: Ghost(Multiset::empty()) }
    }

    /// Number of read pairs counted.
    pub fn total(&self) -> (n: u64)
        requires
            self.wf(),
        ensures
            n == self@.len(),
    {
        self.total
    }

    /// Number of read pairs counted under `label`.
    pub fn count(&self, label: &[u8]) -> (n: u64)
        requires
            self.wf(),
        ensures
            n == self@.count(label@),
    {
        match self.index.find(label) {
            Some(i) => self.counts[i],
            None => 0,
        }
    }

    /// Counts one more read pair under `label`.
    pub fn add(&mut self, label: &[u8])
        requires
            old(self).wf(),
            old(self)@.len() < u64::MAX,
        ensures
            final(self).wf(),
            final(self)@ == old(self)@.insert(label@),
            final(self).labels() == if old(self)@.count(label@) > 0 {
                old(self).labels()
            } else {
                old(self).labels().push(label@)
            },
    {
        proof {
            self.index.lemma_distinct();
            if self.index@.contains(label@) {
                let i = choose|i: int| 0 <= i < self.index@.len() && self.index@[i] == label@;
                assert(self.counts@[i] == self.seen@.count(label@));
            }
        }
        let ghost old_counts = self.counts@;
        let ghost old_seen = self.seen@;
        let ghost old_index = self.index@;
        let i = self.index.intern(label);
        if i < self.counts.len() {
            let c = self.counts[i];
            self.counts.set(i, c + 1);
        } else {
            self.counts.push(1);
        }
        self.total = self.total + 1;
        self.seen = Ghost(self.seen@.insert(label@));
        proof {
            self.index.lemma_distinct();
            assert forall|j: int| 0 <= j < self.counts@.len() implies #[trigger] self.counts@[j] == self.seen@.count(self.index@[j]) by {
                if j != i {
                    assert(self.index@[j] != label@);
                    assert(self.counts@[j] == old_counts[j]);
                }
            }
            assert forall|j: int| 0 <= j < self.counts@.len() implies #[trigger] self.counts@[j] <= self.total by {
                if j != i {
                    assert(self.counts@[j] == old_counts[j]);
                }
            }
            assert forall|j: int| 0 <= j < self.counts@.len() implies #[trigger] self.counts@[j] > 0 by {
                if j != i {
                    assert(self.counts@[j] == old_counts[j]);
                }
            }
            assert forall|l: Seq<u8>| #[trigger] self.seen@.count(l) > 0 implies self.index@.contains(l) by {
                if l == label@ {
                    assert(self.index@[i as int] == label@);
                } else {
                    assert(old_seen.count(l) > 0);
                    assert(old_index.contains(l));
                    let k = choose|k: int| 0 <= k < old_index.len() && old_index[k] == l;
                    assert(self.index@[k] == l);
                }
            }
        }
    }

    /// The histogram as a table: a `barcode<TAB>count` header line, then one
    /// line per label in order of first appearance.
    pub fn to_table(&self) -> (t: Vec<u8>)
        requires
            self.wf(),
        ensures
            t@ == histogram_header() + histogram_body(self.labels(), self@),
    {
        let mut t: Vec<u8> = Vec::new();
        let header: [u8; 14] = [98u8, 97u8, 114u8, 99u8, 111u8, 100u8, 101u8, 9u8, 99u8, 111u8, 117u8, 110u8, 116u8, 10u8];
        assert(header@ == histogram_header());
        push_bytes(&mut t, header.as_slice());
        let n = self.index.len();
        let mut i: usize = 0;
        while i < n
            invariant
                self.wf(),
                n == self.labels().len(),
                i <= n,
                t@ == histogram_header() + histogram_body(self.labels().subrange(0, i as int), self@),
            decreases n - i,
        {
            let ghost before = t@;
            push_bytes(&mut t, self.index.key(i).as_slice());
            t.push(9u8);
            push_decimal(&mut t, self.counts[i]);
            t.push(10u8);
            proof {
                let ls = self.labels().subrange(0, i + 1);
                assert(ls.drop_last() =~= self.labels().subrange(0, i as int));
                assert(t@ =~= before + histogram_line(ls.last(), self@.count(ls.last())));
            }
            i = i + 1;
        }
        assert(self.labels().subrange(0, n as int) =~= self.labels());
        t
    }
}

/// `barcode<TAB>count` and a newline.
pub open spec fn histogram_header() -> Seq<u8> {
    seq![98u8, 97u8, 114u8, 99u8, 111u8, 100u8, 101u8, 9u8, 99u8, 111u8, 117u8, 110u8, 116u8, 10u8]
}

pub open spec fn histogram_line(label: Seq<u8>, count: nat) -> Seq<u8> {
    label + seq![9u8] + decimal(count) + seq![10u8]
}

/// One line per label with its count in `m`.
pub open spec fn histogram_body(labels: Seq<Seq<u8>>, m: Multiset<Seq<u8>>) -> Seq<u8>
    decreases labels.len(),
{
    if labels.len() == 0 {
        seq![]
    } else {
        histogram_body(labels.drop_last(), m) + histogram_line(labels.last(), m.count(labels.last()))
    }
}


/// One FASTQ record: its identifier, bases and qualities.
pub struct FastqRecord {
    pub id: Vec<u8>,
    pub seq: Vec<u8>,
    pub qual: Vec<u8>,
}

/// A read name carrying its cell: the label, `_`, then the read's identifier.
pub open spec fn tagged_name(label: Seq<u8>, id: Seq<u8>) -> Seq<u8> {
    label + seq![95u8] + id
}

/// What is left of the second read once its barcode region is cut off
/// (nothing, when it is shorter than that region).
pub open spec fn trimmed(s: Seq<u8>) -> Seq<u8> {
    if s.len() < BARCODE_REGION_LEN {
        seq![]
    } else {
        s.subrange(BARCODE_REGION_LEN as int, s.len() as int)
    }
}

/// The histogram after one more read pair whose second read is `read`.
pub open spec fn tally_step(s: AtrandiBarcodes, h: Multiset<Seq<u8>>, read: Seq<u8>) -> Multiset<Seq<u8>> {
    match s.label_spec(read) {
        Some(l) => h.insert(l),
        None => h,
    }
}

/// The histogram of read pairs whose second reads are `reads`, in order.
pub open spec fn tally(s: AtrandiBarcodes, reads: Seq<Seq<u8>>) -> Multiset<Seq<u8>>
    decreases reads.len(),
{
    if reads.len() == 0 {
        Multiset::empty()
    } else {
        tally_step(s, tally(s, reads.drop_last()), reads.last())
    }
}

fn tail_from_barcode_region(s: &[u8]) -> (t: &[u8])
    ensures
        t@ == trimmed(s@),
{
    let n = s.len();
    if n < BARCODE_REGION_LEN {
        let t = slice_subrange(s, n, n);
        assert(t@ =~= trimmed(s@));
        t
    } else {
        slice_subrange(s, BARCODE_REGION_LEN, n)
    }
}

/// Handles one read pair. When the second read yields a cell barcode, the
/// pair is counted under the cell's label and both reads are appended to the
/// outputs, renamed `<label>_<id>`, the second without its barcode region;
/// otherwise nothing changes. Returns whether the pair was kept.
pub fn demultiplex_pair(
    scheme: &AtrandiBarcodes,
    hist: &mut BarcodeHistogram,
    r1: &FastqRecord,
    r2: &FastqRecord,
    out1: &mut Vec<u8>,
    out2: &mut Vec<u8>,
) -> (kept: bool)
    requires
        scheme.wf(),
        old(hist).wf(),
        old(hist)@.len() < u64::MAX,
    ensures
        kept == scheme.label_spec(r2.seq@) is Some,
        final(hist).wf(),
        final(hist)@ == tally_step(*scheme, old(hist)@, r2.seq@),
        match scheme.label_spec(r2.seq@) {
            Some(l) => {
                &&& final(out1)@ == old(out1)@ + fastq_text(tagged_name(l, r1.id@), r1.seq@, r1.qual@)
                &&& final(out2)@ == old(out2)@ + fastq_text(tagged_name(l, r2.id@), trimmed(r2.seq@), trimmed(r2.qual@))
            },
            None => final(out1)@ == old(out1)@ && final(out2)@ == old(out2)@,
        },
{
    let cb = match scheme.get_correct_bc_from_read(r2.seq.as_slice()) {
        Some(cb) => cb,
        None => return false,
    };
    let label = cb.label();
    hist.add(label.as_slice());
    let mut name1 = slice_to_vec(label.as_slice());
    name1.push(95u8);
    push_bytes(&mut name1, r1.id.as_slice());
    assert(name1@ =~= tagged_name(label@, r1.id@));
    write_fastq(out1, name1.as_slice(), r1.seq.as_slice(), r1.qual.as_slice());
    let mut name2 = slice_to_vec(label.as_slice());
    name2.push(95u8);
    push_bytes(&mut name2, r2.id.as_slice());
    assert(name2@ =~= tagged_name(label@, r2.id@));
    write_fastq(out2, name2.as_slice(), tail_from_barcode_region(r2.seq.as_slice()), tail_from_barcode_region(r2.qual.as_slice()));
    true
}

/// What went wrong in a demultiplexing run.
#[derive(Debug, Clone, Copy, PartialEq, Eq, Structural)]
pub enum DemuxError {
    /// One input ended while the other still had reads.
    Desynchronized,
    /// Input arrived after both inputs had ended.
    Finalized,
    /// The histogram cannot count another read pair.
    TooManyPairs,
}

/// What one step of a demultiplexing run did.
#[derive(Debug, Clone, Copy, PartialEq, Eq, Structural)]
pub enum PairOutcome {
    /// The pair yielded a cell barcode and was written out.
    Kept,
    /// The pair yielded no cell barcode and was dropped.
    Dropped,
    /// Both inputs ended: the run is finalized.
    Finished,
}

/// A demultiplexing run: processing read pairs until both inputs end, then
/// finalized, with the histogram of the kept pairs.
pub struct Demultiplexer {
    scheme: AtrandiBarcodes,
    histogram: BarcodeHistogram,
    finalized: bool,
}

impl Demultiplexer {
    pub closed spec fn scheme(&self) -> AtrandiBarcodes {
        self.scheme
    }

    /// The histogram of the pairs kept so far.
    pub closed spec fn counts(&self) -> Multiset<Seq<u8>> {
        self.histogram@
    }

    pub closed spec fn is_finalized(&self) -> bool {
        self.finalized
    }

    pub closed spec fn wf(&self) -> bool {
        self.scheme.wf() && self.histogram.wf()
    }

    /// A run that has processed nothing yet.
    pub fn new(scheme: AtrandiBarcodes) -> (d: Demultiplexer)
        requires
            scheme.wf(),
        ensures
            d.wf(),
            d.scheme() == scheme,
            d.counts() == Multiset::<Seq<u8>>::empty(),
            !d.is_finalized(),
    {
        Demultiplexer { scheme, histogram: BarcodeHistogram::new(), finalized: false }
    }

    /// The histogram of the pairs kept so far.
    pub fn histogram(&self) -> (h: &BarcodeHistogram)
        requires
            self.wf(),
        ensures
            h.wf(),
            h@ == self.counts(),
    {
        &self.histogram
    }

    /// Takes the next record of each input (`None` once an input has ended).
    /// A pair is demultiplexed as `demultiplex_pair` does; two ended inputs
    /// finalize the run; one ended input, or input after finalizing, is an
    /// error that changes nothing.
    pub fn step(
        &mut self,
        r1: Option<&FastqRecord>,
        r2: Option<&FastqRecord>,
        out1: &mut Vec<u8>,
        out2: &mut Vec<u8>,
    ) -> (r: Result<PairOutcome, DemuxError>)
        requires
            old(self).wf(),
        ensures
            final(self).wf(),
            final(self).scheme() == old(self).scheme(),
            old(self).is_finalized() ==> r == Err::<PairOutcome, DemuxError>(DemuxError::Finalized),
            r is Err ==> final(self).counts() == old(self).counts() && final(self).is_finalized() == old(self).is_finalized()
                && final(out1)@ == old(out1)@ && final(out2)@ == old(out2)@,
            !old(self).is_finalized() ==> match (r1, r2) {
                (None, None) => r == Ok::<PairOutcome, DemuxError>(PairOutcome::Finished) && final(self).is_finalized()
                    && final(self).counts() == old(self).counts() && final(out1)@ == old(out1)@ && final(out2)@ == old(out2)@,
                (Some(a), Some(b)) => if old(self).counts().len() == u64::MAX {
                    r == Err::<PairOutcome, DemuxError>(DemuxError::TooManyPairs)
                } else {
                    &&& !final(self).is_finalized()
                    &&& final(self).counts() == tally_step(old(self).scheme(), old(self).counts(), b.seq@)
                    &&& match old(self).scheme().label_spec(b.seq@) {
                        Some(l) => {
                            &&& r == Ok::<PairOutcome, DemuxError>(PairOutcome::Kept)
                            &&& final(out1)@ == old(out1)@ + fastq_text(tagged_name(l, a.id@), a.seq@, a.qual@)
                            &&& final(out2)@ == old(out2)@ + fastq_text(tagged_name(l, b.id@), trimmed(b.seq@), trimmed(b.qual@))
                        },
                        None => r == Ok::<PairOutcome, DemuxError>(PairOutcome::Dropped)
                            && final(out1)@ == old(out1)@ && final(out2)@ == old(out2)@,
                    }
                },
                _ => r == Err::<PairOutcome, DemuxError>(DemuxError::Desynchronized),
            },
    {
        if self.finalized {
            return Err(DemuxError::Finalized);
        }
        match (r1, r2) {
            (None, None) => {
                self.finalized = true;
                Ok(PairOutcome::Finished)
            },
            (Some(a), Some(b)) => {
                if self.histogram.total() == u64::MAX {
                    return Err(DemuxError::TooManyPairs);
                }
                if demultiplex_pair(&self.scheme, &mut self.histogram, a, b, out1, out2) {
                    Ok(PairOutcome::Kept)
                } else {
                    Ok(PairOutcome::Dropped)
                }
            },
            _ => Err(DemuxError::Desynchronized),
        }
    }
}

/// The second reads' sequences.
pub open spec fn seqs_of(reads: Seq<FastqRecord>) -> Seq<Seq<u8>> {
    reads.map_values(|r: FastqRecord| r.seq@)
}

/// The two output texts of a run over the pairs `(r1s[i], r2s[i])`.
pub open spec fn run_texts(s: AtrandiBarcodes, r1s: Seq<FastqRecord>, r2s: Seq<FastqRecord>) -> (Seq<u8>, Seq<u8>)
    decreases r1s.len(),
{
    if r1s.len() == 0 || r2s.len() == 0 {
        (seq![], seq![])
    } else {
        let (t1, t2) = run_texts(s, r1s.drop_last(), r2s.drop_last());
        let (a, b) = (r1s.last(), r2s.last());
        match s.label_spec(b.seq@) {
            Some(l) => (
                t1 + fastq_text(tagged_name(l, a.id@), a.seq@, a.qual@),
                t2 + fastq_text(tagged_name(l, b.id@), trimmed(b.seq@), trimmed(b.qual@)),
            ),
            None => (t1, t2),
        }
    }
}

/// The outputs of a whole run.
pub struct DemuxOutput {
    pub r1: Vec<u8>,
    pub r2: Vec<u8>,
    pub histogram: BarcodeHistogram,
}

/// Demultiplexes the read pairs `(r1s[i], r2s[i])` in order, as a run of
/// `Demultiplexer::step` does; fails when the two inputs differ in length.
pub fn demultiplex_pairs(scheme: &AtrandiBarcodes, r1s: &Vec<FastqRecord>, r2s: &Vec<FastqRecord>) -> (r: Result<DemuxOutput, DemuxError>)
    requires
        scheme.wf(),
    ensures
        r is Err <==> r1s@.len() != r2s@.len(),
        r is Err ==> r == Err::<DemuxOutput, DemuxError>(DemuxError::Desynchronized),
        r matches Ok(o) ==> {
            &&& o.histogram.wf()
            &&& o.histogram@ == tally(*scheme, seqs_of(r2s@))
            &&& forall|l: Seq<u8>| o.histogram.labels().contains(l) <==> o.histogram@.count(l) > 0
            &&& (o.r1@, o.r2@) == run_texts(*scheme, r1s@, r2s@)
        },
{
    if r1s.len() != r2s.len() {
        return Err(DemuxError::Desynchronized);
    }
    let n = r1s.len();
    let mut histogram = BarcodeHistogram::new();
    let mut out1: Vec<u8> = Vec::new();
    let mut out2: Vec<u8> = Vec::new();
    let mut i: usize = 0;
    while i < n
        invariant
            scheme.wf(),
            n == r1s@.len(),
            n == r2s@.len(),
            i <= n,
            histogram.wf(),
            histogram@.len() <= i,
            histogram@ == tally(*scheme, seqs_of(r2s@).subrange(0, i as int)),
            (out1@, out2@) == run_texts(*scheme, r1s@.subrange(0, i as int), r2s@.subrange(0, i as int)),
        decreases n - i,
    {
        let ghost before = histogram@;
        demultiplex_pair(scheme, &mut histogram, &r1s[i], &r2s[i], &mut out1, &mut out2);
        proof {
            let sq = seqs_of(r2s@);
            assert(sq.subrange(0, i + 1).drop_last() =~= sq.subrange(0, i as int));
            assert(r1s@.subrange(0, i + 1).drop_last() =~= r1s@.subrange(0, i as int));
            assert(r2s@.subrange(0, i + 1).drop_last() =~= r2s@.subrange(0, i as int));
            assert(histogram@.len() <= before.len() + 1);
        }
        i = i + 1;
    }
    proof {
        assert(seqs_of(r2s@).subrange(0, n as int) =~= seqs_of(r2s@));
        assert(r1s@.subrange(0, n as int) =~= r1s@);
        assert(r2s@.subrange(0, n as int) =~= r2s@);
        histogram.lemma_labels();
    }
    Ok(DemuxOutput { r1: out1, r2: out2, histogram })
}

/// Each label's count is the number of read pairs that corrected to it, and
/// the counts add up to the number of pairs that corrected at all.
pub proof fn law_histogram_counts(s: AtrandiBarcodes, reads: Seq<Seq<u8>>, l: Seq<u8>)
    ensures
        tally(s, reads).count(l) == reads.filter(|r: Seq<u8>| s.label_spec(r) == Some(l)).len(),
        tally(s, reads).len() == reads.filter(|r: Seq<u8>| s.label_spec(r) is Some).len(),
    decreases reads.len(),
{
    reveal(Seq::filter);
    let p_label = |r: Seq<u8>| s.label_spec(r) == Some(l);
    let p_some = |r: Seq<u8>| s.label_spec(r) is Some;
    if reads.len() > 0 {
        law_histogram_counts(s, reads.drop_last(), l);
        assert(reads.filter(p_label) == if p_label(reads.last()) {
            reads.drop_last().filter(p_label).push(reads.last())
        } else {
            reads.drop_last().filter(p_label)
        });
        assert(reads.filter(p_some) == if p_some(reads.last()) {
            reads.drop_last().filter(p_some).push(reads.last())
        } else {
            reads.drop_last().filter(p_some)
        });
    } else {
        assert(reads.filter(p_label).len() == 0);
        assert(reads.filter(p_some).len() == 0);
    }
}

} // verus!
