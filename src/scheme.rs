//! The four-round combinatorial scheme: fixed-offset extraction of the round
//! windows from a read and their correction into one cell barcode.

use vstd::prelude::*;
use vstd::slice::slice_subrange;
use vstd::slice::slice_to_vec;
use crate::whitelist::BarcodeWhitelist;
use crate::whitelist::RoundMatch;
use crate::whitelist::law_whitelisted_barcode_corrects_to_itself;

verus! {

/// Number of combinatorial rounds.
pub const NUM_ROUNDS: usize = 4;

/// Length of one barcode window in the read.
pub const WINDOW_LEN: usize = 8;

/// Distance from the start of one window to the start of the next
/// (the window and the constant spacer after it).
pub const WINDOW_STRIDE: usize = 12;

/// Bases at the start of a read that hold the windows and spacers.
pub const BARCODE_REGION_LEN: usize = 44;

/// Lowest total of the four round scores that a cell barcode must reach:
/// one mismatch per round on average.
pub const CELL_MIN_SCORE: i64 = 28;

/// The window that round `r` corrects. Rounds are attached in reverse order
/// of their appearance in the read: round 0 is the last window.
pub open spec fn window(read: Seq<u8>, r: int) -> Seq<u8> {
    let start = (3 - r) * WINDOW_STRIDE;
    read.subrange(start, start + WINDOW_LEN)
}

/// Joins byte strings with `.` between consecutive ones.
pub open spec fn dot_join(parts: Seq<Seq<u8>>) -> Seq<u8>
    decreases parts.len(),
{
    if parts.len() == 0 {
        seq![]
    } else if parts.len() == 1 {
        parts[0]
    } else {
        dot_join(parts.drop_last()) + seq![46u8] + parts.last()
    }
}

fn window_at(bc_read: &[u8], start: usize) -> (w: Vec<u8>)
    requires
        start + WINDOW_LEN <= bc_read@.len(),
    ensures
        w@ == bc_read@.subrange(start as int, start + WINDOW_LEN),
{
    let n = bc_read.len();
    assert(start + WINDOW_LEN <= n);
    slice_to_vec(slice_subrange(bc_read, start, start + WINDOW_LEN))
}

/// Slices the four round windows out of a read, in round order
/// (the window at offset 36 first, the one at offset 0 last).
pub fn extract_bc_optimistic_atrandi(bc_read: &[u8]) -> (r: Option<(Vec<u8>, Vec<u8>, Vec<u8>, Vec<u8>)>)
    ensures
        r is Some <==> bc_read@.len() >= BARCODE_REGION_LEN,
        r matches Some((w0, w1, w2, w3)) ==> w0@ == window(bc_read@, 0) && w1@ == window(bc_read@, 1)
            && w2@ == window(bc_read@, 2) && w3@ == window(bc_read@, 3),
{
    if bc_read.len() < BARCODE_REGION_LEN {
        return None;
    }
    let w0 = window_at(bc_read, 3 * WINDOW_STRIDE);
    let w1 = window_at(bc_read, 2 * WINDOW_STRIDE);
    let w2 = window_at(bc_read, WINDOW_STRIDE);
    let w3 = window_at(bc_read, 0);
    Some((w0, w1, w2, w3))
}

/// A corrected cell barcode: one match per round, round 0 first.
pub struct CellBarcode {
    pub rounds: Vec<RoundMatch>,
}

impl CellBarcode {
    /// The corrected barcode of each round.
    pub open spec fn barcodes(&self) -> Seq<Seq<u8>> {
        self.rounds@.map_values(|m: RoundMatch| m.barcode@)
    }

    /// The cell's label: the round barcodes joined by `.`.
    pub fn label(&self) -> (l: Vec<u8>)
        ensures
            l@ == dot_join(self.barcodes()),
    {
        let mut l: Vec<u8> = Vec::new();
        let mut i: usize = 0;
        while i < self.rounds.len()
            invariant
                i <= self.rounds@.len(),
                l@ == dot_join(self.barcodes().subrange(0, i as int)),
            decreases self.rounds@.len() - i,
        {
            if i > 0 {
                l.push(46u8);
            }
            let mut part = self.rounds[i].barcode.clone();
            l.append(&mut part);
            i = i + 1;
            assert(self.barcodes().subrange(0, i as int).drop_last() =~= self.barcodes().subrange(0, i - 1));
        }
        assert(self.barcodes().subrange(0, self.rounds@.len() as int) =~= self.barcodes());
        l
    }
}


/// The four whitelists of the scheme, round 0 first.
pub struct AtrandiBarcodes {
    rounds: Vec<BarcodeWhitelist>,
}

impl AtrandiBarcodes {
    /// The whitelist of round `r`.
    pub closed spec fn round(&self, r: int) -> BarcodeWhitelist {
        self.rounds@[r]
    }

    pub closed spec fn num_rounds(&self) -> nat {
        self.rounds@.len()
    }

    pub open spec fn wf(&self) -> bool {
        &&& self.num_rounds() == NUM_ROUNDS
        &&& forall|r: int| 0 <= r < NUM_ROUNDS ==> (#[trigger] self.round(r)).wf()
    }

    /// What round `r` makes of its window of `read`.
    pub open spec fn round_spec(&self, read: Seq<u8>, r: int) -> Option<(int, int)> {
        self.round(r).correct_spec(window(read, r))
    }

    /// The per-round matches (entry position, score) of a read that yields a
    /// cell barcode: long enough, every round corrected, and a total score of
    /// at least `CELL_MIN_SCORE`.
    pub open spec fn cell_spec(&self, read: Seq<u8>) -> Option<Seq<(int, int)>> {
        if read.len() < BARCODE_REGION_LEN {
            None
        } else if self.round_spec(read, 0) is None || self.round_spec(read, 1) is None
            || self.round_spec(read, 2) is None || self.round_spec(read, 3) is None {
            None
        } else {
            let ms = seq![
                self.round_spec(read, 0).unwrap(),
                self.round_spec(read, 1).unwrap(),
                self.round_spec(read, 2).unwrap(),
                self.round_spec(read, 3).unwrap(),
            ];
            if ms[0].1 + ms[1].1 + ms[2].1 + ms[3].1 < CELL_MIN_SCORE {
                None
            } else {
                Some(ms)
            }
        }
    }

    /// The round barcodes that the matches `ms` name.
    pub open spec fn barcodes_of(&self, ms: Seq<(int, int)>) -> Seq<Seq<u8>> {
        Seq::new(NUM_ROUNDS as nat, |r: int| self.round(r).entries()[ms[r].0])
    }

    /// The label of the cell that `read` corrects to, if it corrects.
    pub open spec fn label_spec(&self, read: Seq<u8>) -> Option<Seq<u8>> {
        match self.cell_spec(read) {
            Some(ms) => Some(dot_join(self.barcodes_of(ms))),
            None => None,
        }
    }

    /// Builds the scheme from its whitelists, round 0 first; fails unless there are four.
    pub fn new(rounds: Vec<BarcodeWhitelist>) -> (r: Option<AtrandiBarcodes>)
        requires
            forall|i: int| 0 <= i < rounds@.len() ==> (#[trigger] rounds@[i]).wf(),
        ensures
            r is Some <==> rounds@.len() == NUM_ROUNDS,
            r matches Some(s) ==> s.wf() && forall|i: int| 0 <= i < NUM_ROUNDS ==> s.round(i) == rounds@[i],
    {
        if rounds.len() != NUM_ROUNDS {
            return None;
        }
        Some(AtrandiBarcodes { rounds })
    }

    /// The whitelist of round `r`.
    pub fn whitelist(&self, r: usize) -> (w: &BarcodeWhitelist)
        requires
            self.wf(),
            r < NUM_ROUNDS,
        ensures
            *w == self.round(r as int),
    {
        &self.rounds[r]
    }

    /// Extracts the four windows of a read and corrects each against its
    /// round's whitelist; fails when the read is too short, a round fails, or
    /// the total score is below `CELL_MIN_SCORE`.
    pub fn get_correct_bc_from_read(&self, bc_read: &[u8]) -> (r: Option<CellBarcode>)
        requires
            self.wf(),
        ensures
            match self.cell_spec(bc_read@) {
                None => r is None,
                Some(ms) => r matches Some(cb) && cb.rounds@.len() == NUM_ROUNDS
                    && (forall|i: int| 0 <= i < NUM_ROUNDS ==> (#[trigger] cb.rounds@[i]).is(self.round(i).entries(), ms[i].0, ms[i].1))
                    && cb.barcodes() == self.barcodes_of(ms),
            },
    {
        let (w0, w1, w2, w3) = match extract_bc_optimistic_atrandi(bc_read) {
            Some(ws) => ws,
            None => return None,
        };
        proof {
            assert(self.round(0).wf() && self.round(1).wf() && self.round(2).wf() && self.round(3).wf());
        }
        let m0 = match self.rounds[0].correct_to_whitelist(w0.as_slice()) {
            Some(m) => m,
            None => return None,
        };
        let m1 = match self.rounds[1].correct_to_whitelist(w1.as_slice()) {
            Some(m) => m,
            None => return None,
        };
        let m2 = match self.rounds[2].correct_to_whitelist(w2.as_slice()) {
            Some(m) => m,
            None => return None,
        };
        let m3 = match self.rounds[3].correct_to_whitelist(w3.as_slice()) {
            Some(m) => m,
            None => return None,
        };
        let total: i64 = m0.score as i64 + m1.score as i64 + m2.score as i64 + m3.score as i64;
        if total < CELL_MIN_SCORE {
            return None;
        }
        let mut rounds: Vec<RoundMatch> = Vec::new();
        rounds.push(m0);
        rounds.push(m1);
        rounds.push(m2);
        rounds.push(m3);
        let cb = CellBarcode { rounds };
        proof {
            let ms = self.cell_spec(bc_read@).unwrap();
            assert forall|i: int| 0 <= i < NUM_ROUNDS implies (#[trigger] cb.rounds@[i]).is(self.round(i).entries(), ms[i].0, ms[i].1) by {
                if i == 0 {} else if i == 1 {} else if i == 2 {} else {}
            }
            assert(cb.barcodes() =~= self.barcodes_of(ms));
        }
        Some(cb)
    }
}


/// A read shorter than the barcode region yields no cell barcode.
pub proof fn law_short_read_fails(s: &AtrandiBarcodes, read: Seq<u8>)
    requires
        read.len() < BARCODE_REGION_LEN,
    ensures
        s.cell_spec(read) is None,
{
}

/// The read that carries `bcs[3]`, a spacer, `bcs[2]`, a spacer, `bcs[1]`, a
/// spacer and `bcs[0]`, followed by `tail`.
pub open spec fn assembled_read(bcs: Seq<Seq<u8>>, spacers: Seq<Seq<u8>>, tail: Seq<u8>) -> Seq<u8> {
    bcs[3] + spacers[0] + bcs[2] + spacers[1] + bcs[1] + spacers[2] + bcs[0] + tail
}

proof fn lemma_assembled_windows(bcs: Seq<Seq<u8>>, spacers: Seq<Seq<u8>>, tail: Seq<u8>)
    requires
        bcs.len() == NUM_ROUNDS,
        spacers.len() == NUM_ROUNDS - 1,
        forall|r: int| 0 <= r < NUM_ROUNDS ==> (#[trigger] bcs[r]).len() == WINDOW_LEN,
        forall|i: int| 0 <= i < NUM_ROUNDS - 1 ==> (#[trigger] spacers[i]).len() == WINDOW_STRIDE - WINDOW_LEN,
    ensures
        assembled_read(bcs, spacers, tail).len() >= BARCODE_REGION_LEN,
        forall|r: int| 0 <= r < NUM_ROUNDS ==> window(assembled_read(bcs, spacers, tail), r) == bcs[r],
{
    let read = assembled_read(bcs, spacers, tail);
    assert(bcs[3].len() == 8 && bcs[2].len() == 8 && bcs[1].len() == 8 && bcs[0].len() == 8);
    assert(spacers[0].len() == 4 && spacers[1].len() == 4 && spacers[2].len() == 4);
    assert(window(read, 3) =~= bcs[3]);
    assert(window(read, 2) =~= bcs[2]);
    assert(window(read, 1) =~= bcs[1]);
    assert(window(read, 0) =~= bcs[0]);
}

proof fn lemma_round_of_entry(s: &AtrandiBarcodes, read: Seq<u8>, b: Seq<u8>, r: int)
    requires
        s.wf(),
        0 <= r < NUM_ROUNDS,
        b.len() == WINDOW_LEN,
        s.round(r).entries().contains(b),
        window(read, r) == b,
    ensures
        s.round_spec(read, r) matches Some((k, sc)) && s.round(r).entries()[k] == b && sc == WINDOW_LEN,
{
    let w = s.round(r);
    assert(w.wf());
    let j = choose|j: int| 0 <= j < w.entries().len() && w.entries()[j] == b;
    assert(w.entries()[j].len() == w.barcode_length());
    law_whitelisted_barcode_corrects_to_itself(&w, b);
}

/// A read assembled from one whitelist entry per round, at the round offsets
/// with spacers between, corrects to exactly those entries, round 0 first.
pub proof fn law_assembled_read_round_trips(
    s: &AtrandiBarcodes,
    bcs: Seq<Seq<u8>>,
    spacers: Seq<Seq<u8>>,
    tail: Seq<u8>,
)
    requires
        s.wf(),
        bcs.len() == NUM_ROUNDS,
        spacers.len() == NUM_ROUNDS - 1,
        forall|r: int| 0 <= r < NUM_ROUNDS ==> (#[trigger] bcs[r]).len() == WINDOW_LEN,
        forall|r: int| 0 <= r < NUM_ROUNDS ==> s.round(r).entries().contains(#[trigger] bcs[r]),
        forall|i: int| 0 <= i < NUM_ROUNDS - 1 ==> (#[trigger] spacers[i]).len() == WINDOW_STRIDE - WINDOW_LEN,
    ensures
        s.cell_spec(assembled_read(bcs, spacers, tail)) matches Some(ms) && s.barcodes_of(ms) == bcs,
        s.label_spec(assembled_read(bcs, spacers, tail)) == Some(dot_join(bcs)),
{
    let read = assembled_read(bcs, spacers, tail);
    lemma_assembled_windows(bcs, spacers, tail);
    lemma_round_of_entry(s, read, bcs[0], 0);
    lemma_round_of_entry(s, read, bcs[1], 1);
    lemma_round_of_entry(s, read, bcs[2], 2);
    lemma_round_of_entry(s, read, bcs[3], 3);
    let ms = s.cell_spec(read).unwrap();
    assert(s.barcodes_of(ms) =~= bcs);
}

} // verus!
