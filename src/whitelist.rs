//! One round's whitelist and its Hamming-similarity correction.

use vstd::prelude::*;
use crate::key_index::KeyIndex;

verus! {

/// Lowest similarity a candidate that matches no entry exactly must reach.
pub const ROUND_MIN_SCORE: i32 = 6;

/// Number of positions below `a.len()` at which `a` and `b` hold the same byte.
pub open spec fn similarity(a: Seq<u8>, b: Seq<u8>) -> nat
    decreases a.len(),
{
    if a.len() == 0 {
        0
    } else {
        similarity(a.drop_last(), b) + if a.last() == b[a.len() - 1] {
            1nat
        } else {
            0nat
        }
    }
}

pub proof fn lemma_similarity_bound(a: Seq<u8>, b: Seq<u8>)
    ensures
        similarity(a, b) <= a.len(),
    decreases a.len(),
{
    if a.len() > 0 {
        lemma_similarity_bound(a.drop_last(), b);
    }
}

/// Two sequences of one length agree everywhere exactly when their similarity is that length.
pub proof fn lemma_similarity_full(a: Seq<u8>, b: Seq<u8>)
    requires
        a.len() == b.len(),
    ensures
        similarity(a, b) == a.len() <==> a == b,
    decreases a.len(),
{
    if a.len() > 0 {
        let (a0, b0) = (a.drop_last(), b.drop_last());
        assert forall|i: int| 0 <= i < a0.len() implies b0[i] == b[i] by {}
        lemma_similarity_same_prefix(a0, b0, b);
        lemma_similarity_full(a0, b0);
        lemma_similarity_bound(a0, b);
        if a == b {
            assert(a0 == b0);
        }
        if similarity(a, b) == a.len() {
            assert(a0 =~= b0);
            assert(a =~= b0.push(b.last()));
            assert(b =~= b0.push(b.last()));
        }
    } else {
        assert(a =~= b);
    }
}

/// Only the first `a.len()` positions of the second argument count.
proof fn lemma_similarity_same_prefix(a: Seq<u8>, b: Seq<u8>, c: Seq<u8>)
    requires
        a.len() <= b.len(),
        a.len() <= c.len(),
        forall|i: int| 0 <= i < a.len() ==> b[i] == c[i],
    ensures
        similarity(a, b) == similarity(a, c),
    decreases a.len(),
{
    if a.len() > 0 {
        lemma_similarity_same_prefix(a.drop_last(), b, c);
    }
}

/// Count the positions of `a` at which `b` holds the same byte.
pub fn num_similar_elements(a: &[u8], b: &[u8]) -> (count: i32)
    requires
        a@.len() <= b@.len(),
        a@.len() <= i32::MAX,
    ensures
        count == similarity(a@, b@),
        0 <= count <= a@.len(),
        (count == a@.len()) <==> a@ == b@.subrange(0, a@.len() as int),
{
    let mut count: i32 = 0;
    let mut i: usize = 0;
    while i < a.len()
        invariant
            i <= a@.len(),
            a@.len() <= b@.len(),
            a@.len() <= i32::MAX,
            0 <= count <= i,
            count == similarity(a@.subrange(0, i as int), b@),
        decreases a@.len() - i,
    {
        if a[i] == b[i] {
            count = count + 1;
        }
        i = i + 1;
        assert(a@.subrange(0, i as int).drop_last() =~= a@.subrange(0, i - 1));
    }
    assert(a@.subrange(0, a@.len() as int) =~= a@);
    proof {
        let bp = b@.subrange(0, a@.len() as int);
        lemma_similarity_same_prefix(a@, b@, bp);
        lemma_similarity_full(a@, bp);
    }
    count
}


/// `k` is the first of the entries with the highest similarity to `c`.
pub open spec fn is_closest(entries: Seq<Seq<u8>>, c: Seq<u8>, k: int) -> bool {
    &&& 0 <= k < entries.len()
    &&& forall|j: int| 0 <= j < entries.len() ==> similarity(c, entries[j]) <= similarity(c, entries[k])
    &&& forall|j: int| 0 <= j < k ==> similarity(c, entries[j]) < similarity(c, entries[k])
}

/// The entry that a Hamming scan settles on: best score, earliest on ties.
pub open spec fn closest_index(entries: Seq<Seq<u8>>, c: Seq<u8>) -> int {
    choose|k: int| is_closest(entries, c, k)
}

/// The first position at which `entries` holds `c`.
pub open spec fn first_index_of(entries: Seq<Seq<u8>>, c: Seq<u8>) -> int {
    choose|k: int| 0 <= k < entries.len() && entries[k] == c && forall|j: int| 0 <= j < k ==> entries[j] != c
}

/// What correcting `c` against a round's entries gives: the entry's position and the score.
pub open spec fn correction(entries: Seq<Seq<u8>>, bc_length: nat, c: Seq<u8>) -> Option<(int, int)> {
    if c.len() == 0 {
        None
    } else if entries.contains(c) {
        Some((first_index_of(entries, c), bc_length as int))
    } else if c.len() == bc_length && entries.len() > 0 {
        let k = closest_index(entries, c);
        let s = similarity(c, entries[k]) as int;
        if s >= ROUND_MIN_SCORE {
            Some((k, s))
        } else {
            None
        }
    } else {
        None
    }
}

pub proof fn lemma_closest_unique(entries: Seq<Seq<u8>>, c: Seq<u8>, k: int)
    requires
        is_closest(entries, c, k),
    ensures
        closest_index(entries, c) == k,
{
    let k2 = closest_index(entries, c);
    assert(is_closest(entries, c, k2));
    if k2 < k {
        assert(similarity(c, entries[k2]) < similarity(c, entries[k]));
    } else if k < k2 {
        assert(similarity(c, entries[k]) < similarity(c, entries[k2]));
    }
}

proof fn lemma_first_index_exists(entries: Seq<Seq<u8>>, c: Seq<u8>)
    requires
        entries.contains(c),
    ensures
        exists|k: int| 0 <= k < entries.len() && entries[k] == c && forall|j: int| 0 <= j < k ==> entries[j] != c,
    decreases entries.len(),
{
    let init = entries.drop_last();
    if init.contains(c) {
        lemma_first_index_exists(init, c);
        let k = choose|k: int| 0 <= k < init.len() && init[k] == c && forall|j: int| 0 <= j < k ==> init[j] != c;
        assert(entries[k] == c);
        assert(forall|j: int| 0 <= j < k ==> entries[j] == init[j]);
    } else {
        let i = choose|i: int| 0 <= i < entries.len() && entries[i] == c;
        if i < entries.len() - 1 {
            assert(init[i] == c);
        }
        let k = entries.len() - 1;
        assert forall|j: int| 0 <= j < k implies entries[j] != c by {
            if entries[j] == c {
                assert(init[j] == c);
            }
        }
    }
}

/// `k` is the first position at which `entries` holds `c`.
pub open spec fn first_copy(entries: Seq<Seq<u8>>, c: Seq<u8>, k: int) -> bool {
    &&& 0 <= k < entries.len()
    &&& entries[k] == c
    &&& forall|j: int| 0 <= j < k ==> entries[j] != c
}

pub proof fn lemma_first_copy_is_first_index(entries: Seq<Seq<u8>>, c: Seq<u8>, k: int)
    requires
        first_copy(entries, c, k),
    ensures
        first_index_of(entries, c) == k,
{
    let k2 = first_index_of(entries, c);
    assert(first_copy(entries, c, k2));
    if k2 < k {
        assert(entries[k2] != c);
    } else if k < k2 {
        assert(entries[k] != c);
    }
}

/// One round's correction result: the position of the entry, the entry, and its score.
pub struct RoundMatch {
    pub index: usize,
    pub barcode: Vec<u8>,
    pub score: i32,
}

impl RoundMatch {
    /// This match is the entry at position `k` of `entries`, scored `s`.
    pub open spec fn is(&self, entries: Seq<Seq<u8>>, k: int, s: int) -> bool {
        &&& self.index == k
        &&& 0 <= k < entries.len()
        &&& self.barcode@ == entries[k]
        &&& self.score == s
    }
}

/// The valid barcodes of one combinatorial round, all of one length, with an
/// index of the distinct entries for exact lookup.
pub struct BarcodeWhitelist {
    list: Vec<Vec<u8>>,
    exact: KeyIndex,
    first: Vec<usize>,
    bc_length: usize,
}

impl BarcodeWhitelist {
    /// The entries, in the order they were given.
    pub closed spec fn entries(&self) -> Seq<Seq<u8>> {
        self.list@.map_values(|e: Vec<u8>| e@)
    }

    /// The common length of the entries.
    pub closed spec fn barcode_length(&self) -> nat {
        self.bc_length as nat
    }

    pub open spec fn wf(&self) -> bool {
        &&& self.barcode_length() <= i32::MAX
        &&& forall|k: int| 0 <= k < self.entries().len() ==> (#[trigger] self.entries()[k]).len() == self.barcode_length()
        &&& self.index_wf()
    }

    /// Each distinct entry is indexed with the position of its first copy.
    pub closed spec fn index_wf(&self) -> bool {
        &&& self.exact.wf()
        &&& self.first@.len() == self.exact@.len()
        &&& forall|id: int| 0 <= id < self.first@.len() ==> first_copy(self.entries(), self.exact@[id], #[trigger] self.first@[id] as int)
        &&& forall|k: int| 0 <= k < self.list@.len() ==> self.exact@.contains(#[trigger] self.list@[k]@)
    }

    /// What `correct_to_whitelist` gives for `c`.
    pub open spec fn correct_spec(&self, c: Seq<u8>) -> Option<(int, int)> {
        correction(self.entries(), self.barcode_length(), c)
    }

    /// Builds a whitelist; fails when an entry's length is not `bc_length`,
    /// or when `bc_length` is too large for a score.
    pub fn new(list: Vec<Vec<u8>>, bc_length: usize) -> (r: Option<BarcodeWhitelist>)
        ensures
            r is Some <==> bc_length <= i32::MAX && forall|k: int| 0 <= k < list@.len() ==> (#[trigger] list@[k])@.len() == bc_length,
            r matches Some(w) ==> w.wf() && w.barcode_length() == bc_length
                && w.entries() == list@.map_values(|e: Vec<u8>| e@),
    {
        if bc_length > i32::MAX as usize {
            return None;
        }
        let ghost entries = list@.map_values(|e: Vec<u8>| e@);
        let mut exact = KeyIndex::new();
        let mut first: Vec<usize> = Vec::new();
        let mut i: usize = 0;
        while i < list.len()
            invariant
                entries == list@.map_values(|e: Vec<u8>| e@),
                i <= list@.len(),
                forall|k: int| 0 <= k < i ==> (#[trigger] list@[k])@.len() == bc_length,
                exact.wf(),
                first@.len() == exact@.len(),
                forall|id: int| 0 <= id < first@.len() ==> (#[trigger] first@[id]) < i
                    && first_copy(entries, exact@[id], first@[id] as int),
                forall|k: int| 0 <= k < i ==> exact@.contains(#[trigger] list@[k]@),
            decreases list@.len() - i,
        {
            if list[i].len() != bc_length {
                return None;
            }
            let ghost old_exact = exact@;
            let ghost old_first = first@;
            let id = exact.intern(list[i].as_slice());
            if id == first.len() {
                first.push(i);
            }
            proof {
                assert(entries[i as int] == list@[i as int]@);
                assert forall|id2: int| 0 <= id2 < first@.len() implies (#[trigger] first@[id2]) < i + 1
                    && first_copy(entries, exact@[id2], first@[id2] as int) by {
                    if id2 < old_first.len() {
                        assert(first@[id2] == old_first[id2]);
                        assert(exact@[id2] == old_exact[id2]);
                    } else {
                        assert forall|j: int| 0 <= j < i implies entries[j] != exact@[id2] by {
                            assert(entries[j] == list@[j]@);
                            assert(old_exact.contains(list@[j]@));
                        }
                    }
                }
                assert forall|k: int| 0 <= k < i + 1 implies exact@.contains(#[trigger] list@[k]@) by {
                    if k < i {
                        let m = choose|m: int| 0 <= m < old_exact.len() && old_exact[m] == list@[k]@;
                        assert(exact@[m] == old_exact[m]);
                    } else {
                        assert(exact@[id as int] == list@[k]@);
                    }
                }
            }
            i = i + 1;
        }
        Some(BarcodeWhitelist { list, exact, first, bc_length })
    }

    /// Compares `bc_to_match` with every entry, one point per agreeing position,
    /// and keeps the first entry with the best score.
    pub fn closest_bc_basewise(&self, bc_to_match: &[u8]) -> (r: Option<RoundMatch>)
        requires
            self.wf(),
            bc_to_match@.len() <= self.barcode_length(),
        ensures
            r is Some <==> self.entries().len() > 0,
            r matches Some(m) ==> is_closest(self.entries(), bc_to_match@, m.index as int)
                && m.is(self.entries(), m.index as int, similarity(bc_to_match@, self.entries()[m.index as int]) as int),
    {
        if self.list.len() == 0 {
            return None;
        }
        let ghost entries = self.entries();
        let ghost c = bc_to_match@;
        assert(entries[0].len() == self.bc_length);
        let mut best: usize = 0;
        let mut best_score: i32 = num_similar_elements(bc_to_match, self.list[0].as_slice());
        let mut j: usize = 1;
        while j < self.list.len()
            invariant
                self.wf(),
                entries == self.entries(),
                c == bc_to_match@,
                c.len() <= self.barcode_length(),
                1 <= j <= entries.len(),
                best < j,
                best_score == similarity(c, entries[best as int]),
                forall|i: int| 0 <= i < j ==> similarity(c, entries[i]) <= best_score,
                forall|i: int| 0 <= i < best ==> similarity(c, entries[i]) < best_score,
            decreases entries.len() - j,
        {
            assert(entries[j as int].len() == self.bc_length);
            let score = num_similar_elements(bc_to_match, self.list[j].as_slice());
            if score > best_score {
                best_score = score;
                best = j;
            }
            j = j + 1;
        }
        Some(RoundMatch { index: best, barcode: self.list[best].clone(), score: best_score })
    }

    /// Corrects a candidate: an exact entry, found through the index, scores
    /// the full length; otherwise a candidate of the right length takes its
    /// closest entry if that scores at least `ROUND_MIN_SCORE`; anything else
    /// fails.
    pub fn correct_to_whitelist(&self, bc_to_match: &[u8]) -> (r: Option<RoundMatch>)
        requires
            self.wf(),
        ensures
            match self.correct_spec(bc_to_match@) {
                None => r is None,
                Some((k, s)) => r matches Some(m) && m.is(self.entries(), k, s),
            },
    {
        let ghost entries = self.entries();
        let ghost c = bc_to_match@;
        if bc_to_match.len() == 0 {
            return None;
        }
        match self.exact.find(bc_to_match) {
            Some(id) => {
                let k = self.first[id];
                proof {
                    assert(first_copy(entries, c, k as int));
                    lemma_first_copy_is_first_index(entries, c, k as int);
                }
                return Some(RoundMatch { index: k, barcode: self.list[k].clone(), score: self.bc_length as i32 });
            },
            None => {
                assert(!entries.contains(c)) by {
                    if entries.contains(c) {
                        let k = choose|k: int| 0 <= k < entries.len() && entries[k] == c;
                        assert(self.exact@.contains(self.list@[k]@));
                    }
                }
            },
        }
        if bc_to_match.len() != self.bc_length {
            return None;
        }
        let m = match self.closest_bc_basewise(bc_to_match) {
            None => return None,
            Some(m) => m,
        };
        proof {
            lemma_closest_unique(entries, c, m.index as int);
        }
        if m.score >= ROUND_MIN_SCORE {
            Some(m)
        } else {
            None
        }
    }

    /// Number of entries.
    pub fn len(&self) -> (n: usize)
        ensures
            n == self.entries().len(),
    {
        self.list.len()
    }

    /// The common length of the entries.
    pub fn bc_length(&self) -> (n: usize)
        ensures
            n == self.barcode_length(),
    {
        self.bc_length
    }
}

/// A barcode that the whitelist holds verbatim corrects to itself, with the full length as score.
pub proof fn law_whitelisted_barcode_corrects_to_itself(w: &BarcodeWhitelist, b: Seq<u8>)
    requires
        w.wf(),
        w.entries().contains(b),
        b.len() > 0,
    ensures
        w.correct_spec(b) matches Some((k, s)) && w.entries()[k] == b && s == w.barcode_length(),
{
    lemma_first_index_exists(w.entries(), b);
}

/// A candidate of another length than the whitelist's, and not in it, fails to correct.
pub proof fn law_wrong_length_fails(w: &BarcodeWhitelist, c: Seq<u8>)
    requires
        c.len() != w.barcode_length(),
        !w.entries().contains(c),
    ensures
        w.correct_spec(c) is None,
{
}

} // verus!
