//! Aggregation of aligned reads into a sparse cell-by-feature count matrix.
//! A read's cell is the prefix of its name before the first `_`; its feature
//! is the reference it aligned to, or a final "unassigned" feature.

use vstd::prelude::*;
use vstd::slice::slice_subrange;
use vstd::slice::slice_to_vec;
use vstd::utf8::valid_utf8;
use bstr::ByteSlice;
use crate::key_index::KeyIndex;
use crate::text::decimal;
use crate::text::push_bytes;
use crate::text::push_decimal;

verus! {

/// The name of the feature that collects reads aligned to no reference.
pub open spec fn unassigned_name() -> Seq<u8> {
    seq![42u8]
}

/// The features of a count matrix: the reference names in header order,
/// then the unassigned feature.
pub struct FeatureTable {
    names: Vec<Vec<u8>>,
}

impl View for FeatureTable {
    type V = Seq<Seq<u8>>;

    closed spec fn view(&self) -> Seq<Seq<u8>> {
        self.names@.map_values(|n: Vec<u8>| n@)
    }
}

impl FeatureTable {
    /// The table of the given reference names, with the unassigned feature after them.
    pub fn new(reference_names: Vec<Vec<u8>>) -> (t: FeatureTable)
        ensures
            t@ == reference_names@.map_values(|n: Vec<u8>| n@).push(unassigned_name()),
    {
        let mut names = reference_names;
        let ghost refs = names@;
        let mut star: Vec<u8> = Vec::new();
        star.push(42u8);
        names.push(star);
        let t = FeatureTable { names };
        assert(t@ =~= refs.map_values(|n: Vec<u8>| n@).push(unassigned_name()));
        t
    }

    /// Number of features, the unassigned one included.
    pub fn len(&self) -> (n: usize)
        ensures
            n == self@.len(),
    {
        self.names.len()
    }

    /// The column of reads aligned to no reference: the last one.
    pub fn unassigned(&self) -> (i: usize)
        requires
            self@.len() > 0,
        ensures
            i == self@.len() - 1,
    {
        self.names.len() - 1
    }

    /// One feature name per line, in table order.
    pub fn feature_list(&self) -> (t: Vec<u8>)
        ensures
            t@ == lines(self@),
    {
        lines_of(&self.names)
    }
}

/// Each item followed by a newline.
pub open spec fn lines(items: Seq<Seq<u8>>) -> Seq<u8>
    decreases items.len(),
{
    if items.len() == 0 {
        seq![]
    } else {
        lines(items.drop_last()) + items.last() + seq![10u8]
    }
}

fn lines_of(items: &Vec<Vec<u8>>) -> (t: Vec<u8>)
    ensures
        t@ == lines(items@.map_values(|n: Vec<u8>| n@)),
{
    let ghost v = items@.map_values(|n: Vec<u8>| n@);
    let mut t: Vec<u8> = Vec::new();
    let mut i: usize = 0;
    while i < items.len()
        invariant
            v == items@.map_values(|n: Vec<u8>| n@),
            i <= v.len(),
            t@ == lines(v.subrange(0, i as int)),
        decreases v.len() - i,
    {
        let ghost before = t@;
        t.extend_from_slice(items[i].as_slice());
        t.push(10u8);
        assert(v.subrange(0, i + 1).drop_last() =~= v.subrange(0, i as int));
        assert(t@ =~= before + v[i as int] + seq![10u8]);
        i = i + 1;
    }
    assert(v.subrange(0, v.len() as int) =~= v);
    t
}

/// The text that bstr makes of a byte string, invalid UTF-8 replaced.
pub uninterp spec fn utf8_lossy(b: Seq<u8>) -> Seq<u8>;

/// Relies on bstr's `ByteSlice::to_str_lossy`: the bytes of the string it
/// returns, which are the input itself when that is valid UTF-8.
#[verifier::external_body]
fn lossy_text(b: &[u8]) -> (r: Vec<u8>)
    ensures
        r@ == utf8_lossy(b@),
        valid_utf8(b@) ==> r@ == b@,
{
    b.to_str_lossy().as_bytes().to_vec()
}

/// The cell barcode of a read name: what comes before its first `_`.
pub open spec fn name_barcode(name: Seq<u8>) -> Option<Seq<u8>>
    decreases name.len(),
{
    if name.len() == 0 {
        None
    } else if name[0] == 95 {
        Some(seq![])
    } else {
        match name_barcode(name.drop_first()) {
            Some(b) => Some(seq![name[0]] + b),
            None => None,
        }
    }
}

proof fn lemma_name_barcode(name: Seq<u8>, i: int)
    requires
        0 <= i <= name.len(),
        forall|j: int| 0 <= j < i ==> name[j] != 95,
    ensures
        i < name.len() && name[i] == 95 ==> name_barcode(name) == Some(name.subrange(0, i)),
        i == name.len() ==> name_barcode(name) is None,
    decreases i,
{
    if i > 0 {
        let rest = name.drop_first();
        lemma_name_barcode(rest, i - 1);
        if i < name.len() && name[i] == 95 {
            assert(seq![name[0]] + rest.subrange(0, i - 1) =~= name.subrange(0, i));
        }
    } else if name.len() > 0 {
        assert(name.subrange(0, 0) =~= seq![]);
    }
}

/// The part of a read name before its first `_`, if it has one.
pub fn barcode_of_name(name: &[u8]) -> (r: Option<Vec<u8>>)
    ensures
        match name_barcode(name@) {
            Some(b) => r matches Some(v) && v@ == b,
            None => r is None,
        },
{
    let mut i: usize = 0;
    while i < name.len()
        invariant
            i <= name@.len(),
            forall|j: int| 0 <= j < i ==> name@[j] != 95,
        decreases name@.len() - i,
    {
        if name[i] == 95u8 {
            proof {
                lemma_name_barcode(name@, i as int);
            }
            return Some(slice_to_vec(slice_subrange(name, 0, i)));
        }
        i = i + 1;
    }
    proof {
        lemma_name_barcode(name@, i as int);
    }
    None
}

/// The cell barcode of an aligned read's name, after the name is read as
/// text the way bstr does.
pub open spec fn record_barcode(name: Seq<u8>) -> Option<Seq<u8>> {
    name_barcode(utf8_lossy(name))
}


/// What a repeated (cell, feature) pair does to its entry.
#[derive(Debug, Clone, Copy, PartialEq, Eq, Structural)]
pub enum CountMode {
    /// The entry is set to 1 again: an entry records that the pair occurred.
    Overwrite,
    /// The entry is incremented, saturating at `i32::MAX`.
    Accumulate,
}

/// Why an aligned read could not be counted.
#[derive(Debug, Clone, Copy, PartialEq, Eq, Structural)]
pub enum CountError {
    /// The read name has no `_` to end a cell barcode.
    MissingBarcode,
    /// The read names a reference that the feature table does not hold.
    UnknownReference(usize),
}

/// The entry that a repeated pair leaves.
pub open spec fn bumped(mode: CountMode, c: i32) -> i32 {
    match mode {
        CountMode::Overwrite => 1,
        CountMode::Accumulate => if c < i32::MAX {
            (c + 1) as i32
        } else {
            c
        },
    }
}

/// A row's entries after one more read of feature `f`.
pub open spec fn cell_after(mode: CountMode, cell: Seq<(usize, i32)>, f: usize) -> Seq<(usize, i32)> {
    if exists|j: int| 0 <= j < cell.len() && (#[trigger] cell[j]).0 == f {
        let j = choose|j: int| 0 <= j < cell.len() && (#[trigger] cell[j]).0 == f;
        cell.update(j, (f, bumped(mode, cell[j].1)))
    } else {
        cell.push((f, 1i32))
    }
}

/// The row that holds barcode `b`.
pub open spec fn row_of(barcodes: Seq<Seq<u8>>, b: Seq<u8>) -> int {
    choose|r: int| 0 <= r < barcodes.len() && barcodes[r] == b
}

/// The feature column of a read: its reference, or the unassigned feature
/// (the last of `n_features`); `None` for a reference outside the table.
pub open spec fn record_feature(n_features: nat, reference: Option<usize>) -> Option<int> {
    match reference {
        None => Some(n_features - 1),
        Some(i) => if i < n_features - 1 {
            Some(i as int)
        } else {
            None
        },
    }
}

/// Counts per (cell, feature): one row per cell barcode in order of first
/// appearance, each row a list of (feature, count) entries in order of first
/// appearance.
pub struct SparseCountMatrix {
    rows: KeyIndex,
    cells: Vec<Vec<(usize, i32)>>,
    n_features: usize,
    mode: CountMode,
}

impl SparseCountMatrix {
    /// The row barcodes, in row order.
    pub closed spec fn barcodes(&self) -> Seq<Seq<u8>> {
        self.rows@
    }

    /// The entries of each row.
    pub closed spec fn cells(&self) -> Seq<Seq<(usize, i32)>> {
        self.cells@.map_values(|c: Vec<(usize, i32)>| c@)
    }

    /// Number of feature columns.
    pub closed spec fn num_features(&self) -> nat {
        self.n_features as nat
    }

    pub closed spec fn mode(&self) -> CountMode {
        self.mode
    }

    pub open spec fn wf(&self) -> bool {
        &&& self.num_features() >= 1
        &&& self.cells().len() == self.barcodes().len()
        &&& forall|i: int, j: int| 0 <= i < self.barcodes().len() && 0 <= j < self.barcodes().len() && i != j
            ==> self.barcodes()[i] != self.barcodes()[j]
        &&& forall|r: int, j: int| 0 <= r < self.cells().len() && 0 <= j < self.cells()[r].len()
            ==> (#[trigger] self.cells()[r][j]).0 < self.num_features() && self.cells()[r][j].1 >= 1
        &&& forall|r: int, j: int, k: int| 0 <= r < self.cells().len() && 0 <= j < k < self.cells()[r].len()
            ==> (#[trigger] self.cells()[r][j]).0 != (#[trigger] self.cells()[r][k]).0
        &&& self.inner_wf()
    }

    pub closed spec fn inner_wf(&self) -> bool {
        self.rows.wf()
    }

    /// `next` is this matrix after one more read of cell `b` and feature `f`.
    pub open spec fn adds(&self, next: &SparseCountMatrix, b: Seq<u8>, f: usize) -> bool {
        &&& next.num_features() == self.num_features()
        &&& next.mode() == self.mode()
        &&& if self.barcodes().contains(b) {
            let r = row_of(self.barcodes(), b);
            &&& next.barcodes() == self.barcodes()
            &&& next.cells() == self.cells().update(r, cell_after(self.mode(), self.cells()[r], f))
        } else {
            &&& next.barcodes() == self.barcodes().push(b)
            &&& next.cells() == self.cells().push(seq![(f, 1i32)])
        }
    }

    /// An empty matrix over the features of `features`.
    pub fn new(features: &FeatureTable, mode: CountMode) -> (m: SparseCountMatrix)
        requires
            features@.len() >= 1,
        ensures
            m.wf(),
            m.barcodes().len() == 0,
            m.num_features() == features@.len(),
            m.mode() == mode,
    {
        let m = SparseCountMatrix { rows: KeyIndex::new(), cells: Vec::new(), n_features: features.len(), mode };
        proof {
            m.rows.lemma_distinct();
        }
        m
    }

    /// Number of rows.
    pub fn num_rows(&self) -> (n: usize)
        ensures
            n == self.barcodes().len(),
    {
        self.rows.len()
    }

    /// Counts one read of cell `barcode` and feature `feature`.
    pub fn add(&mut self, barcode: &[u8], feature: usize)
        requires
            old(self).wf(),
            feature < old(self).num_features(),
        ensures
            final(self).wf(),
            old(self).adds(&*final(self), barcode@, feature),
    {
        let ghost old_cells = self.cells();
        let ghost old_rows = self.rows@;
        proof {
            self.rows.lemma_distinct();
        }
        let r = self.rows.intern(barcode);
        proof {
            self.rows.lemma_distinct();
            if old_rows.contains(barcode@) {
                assert(old_rows[row_of(old_rows, barcode@)] == barcode@);
            }
        }
        if r == self.cells.len() {
            let mut cell: Vec<(usize, i32)> = Vec::new();
            cell.push((feature, 1i32));
            self.cells.push(cell);
            proof {
                assert(self.cells() =~= old_cells.push(seq![(feature, 1i32)]));
            }
            return;
        }
        let n = self.cells[r].len();
        let mut j: usize = 0;
        while j < n
            invariant
                r < self.cells@.len(),
                n == self.cells@[r as int]@.len(),
                j <= n,
                forall|k: int| 0 <= k < j ==> self.cells@[r as int]@[k].0 != feature,
                self.cells() == old_cells,
            ensures
                j <= n,
                j < n ==> self.cells@[r as int]@[j as int].0 == feature,
                forall|k: int| 0 <= k < j ==> self.cells@[r as int]@[k].0 != feature,
            decreases n - j,
        {
            if self.cells[r][j].0 == feature {
                break;
            }
            j = j + 1;
        }
        let ghost cell = old_cells[r as int];
        if j < n {
            let c = self.cells[r][j].1;
            let v = match self.mode {
                CountMode::Overwrite => 1i32,
                CountMode::Accumulate => if c < i32::MAX {
                    c + 1
                } else {
                    c
                },
            };
            self.cells[r].set(j, (feature, v));
            proof {
                assert(cell[j as int].0 == feature);
                let jj = choose|jj: int| 0 <= jj < cell.len() && (#[trigger] cell[jj]).0 == feature;
                if jj != j {
                    if jj < j {
                    } else {
                        assert(cell[j as int].0 != cell[jj].0);
                    }
                }
                assert(self.cells() =~= old_cells.update(r as int, cell_after(self.mode, cell, feature)));
            }
        } else {
            self.cells[r].push((feature, 1i32));
            proof {
                assert(self.cells() =~= old_cells.update(r as int, cell_after(self.mode, cell, feature)));
            }
        }
    }

    /// Counts one aligned read from its name and the reference it aligned to.
    /// Fails, changing nothing, when the name has no `_` or the reference is
    /// outside the feature table.
    pub fn count_record(&mut self, name: &[u8], reference: Option<usize>) -> (r: Result<(), CountError>)
        requires
            old(self).wf(),
        ensures
            final(self).wf(),
            valid_utf8(name@) ==> record_barcode(name@) == name_barcode(name@),
            match record_barcode(name@) {
                None => r == Err::<(), CountError>(CountError::MissingBarcode) && *final(self) == *old(self),
                Some(b) => match record_feature(old(self).num_features(), reference) {
                    None => r == Err::<(), CountError>(CountError::UnknownReference(reference.unwrap()))
                        && *final(self) == *old(self),
                    Some(f) => r is Ok && old(self).adds(&*final(self), b, f as usize),
                },
            },
    {
        let text = lossy_text(name);
        let barcode = match barcode_of_name(text.as_slice()) {
            Some(b) => b,
            None => return Err(CountError::MissingBarcode),
        };
        let feature = match reference {
            None => self.n_features - 1,
            Some(i) => {
                if i >= self.n_features - 1 {
                    return Err(CountError::UnknownReference(i));
                }
                i
            },
        };
        self.add(barcode.as_slice(), feature);
        Ok(())
    }

    /// The coordinate table: a `cell<TAB>feature<TAB>count` header line, then
    /// one line per entry with its 1-based row and feature numbers, row by row.
    pub fn matrix_table(&self) -> (t: Vec<u8>)
        requires
            self.wf(),
        ensures
            t@ == matrix_header() + entry_lines(matrix_entries(self.cells())),
    {
        let ghost cells = self.cells();
        let header: [u8; 19] = [99u8, 101u8, 108u8, 108u8, 9u8, 102u8, 101u8, 97u8, 116u8, 117u8, 114u8, 101u8, 9u8, 99u8, 111u8, 117u8, 110u8, 116u8, 10u8];
        assert(header@ == matrix_header());
        let mut t: Vec<u8> = Vec::new();
        push_bytes(&mut t, header.as_slice());
        let nrows = self.cells.len();
        let mut r: usize = 0;
        while r < nrows
            invariant
                self.wf(),
                cells == self.cells(),
                nrows == cells.len(),
                r <= nrows,
                t@ == matrix_header() + entry_lines(matrix_entries(cells.subrange(0, r as int))),
            decreases nrows - r,
        {
            let row = &self.cells[r];
            let ghost cell = cells[r as int];
            let ghost done = matrix_entries(cells.subrange(0, r as int));
            assert(row@ == cell);
            let mut j: usize = 0;
            while j < row.len()
                invariant
                    self.wf(),
                    cells == self.cells(),
                    r < nrows,
                    nrows == cells.len(),
                    row@ == cell,
                    cell == cells[r as int],
                    done == matrix_entries(cells.subrange(0, r as int)),
                    j <= cell.len(),
                    t@ == matrix_header() + entry_lines(done + row_entries(r as int, cell.subrange(0, j as int))),
                decreases cell.len() - j,
            {
                let (f, c) = row[j];
                assert(cells[r as int][j as int].0 < self.num_features() && cells[r as int][j as int].1 >= 1);
                let ghost before = t@;
                push_decimal(&mut t, (r + 1) as u64);
                t.push(9u8);
                push_decimal(&mut t, (f + 1) as u64);
                t.push(9u8);
                push_decimal(&mut t, c as u64);
                t.push(10u8);
                proof {
                    let e = ((r + 1) as int, (f + 1) as int, c as int);
                    let prev = done + row_entries(r as int, cell.subrange(0, j as int));
                    assert(cell[j as int] == (f, c));
                    assert(row_entries(r as int, cell.subrange(0, j + 1)) =~= row_entries(r as int, cell.subrange(0, j as int)).push(e));
                    assert(done + row_entries(r as int, cell.subrange(0, j + 1)) =~= prev.push(e));
                    assert(prev.push(e).drop_last() =~= prev);
                    assert(entry_lines(prev.push(e)) == entry_lines(prev) + entry_line(e));
                    assert(t@ =~= before + entry_line(e));
                    assert(t@ =~= matrix_header() + entry_lines(prev.push(e)));
                }
                j = j + 1;
            }
            proof {
                assert(cell.subrange(0, cell.len() as int) =~= cell);
                assert(cells.subrange(0, r + 1).drop_last() =~= cells.subrange(0, r as int));
            }
            r = r + 1;
        }
        assert(cells.subrange(0, nrows as int) =~= cells);
        t
    }

    /// One row barcode per line, in row order.
    pub fn barcode_list(&self) -> (t: Vec<u8>)
        requires
            self.wf(),
        ensures
            t@ == lines(self.barcodes()),
    {
        let ghost v = self.barcodes();
        let mut t: Vec<u8> = Vec::new();
        let n = self.rows.len();
        let mut i: usize = 0;
        while i < n
            invariant
                v == self.barcodes(),
                n == v.len(),
                i <= n,
                t@ == lines(v.subrange(0, i as int)),
            decreases n - i,
        {
            let ghost before = t@;
            push_bytes(&mut t, self.rows.key(i).as_slice());
            t.push(10u8);
            assert(v.subrange(0, i + 1).drop_last() =~= v.subrange(0, i as int));
            assert(t@ =~= before + v[i as int] + seq![10u8]);
            i = i + 1;
        }
        assert(v.subrange(0, n as int) =~= v);
        t
    }
}

/// `cell<TAB>feature<TAB>count` and a newline.
pub open spec fn matrix_header() -> Seq<u8> {
    seq![99u8, 101u8, 108u8, 108u8, 9u8, 102u8, 101u8, 97u8, 116u8, 117u8, 114u8, 101u8, 9u8, 99u8, 111u8, 117u8, 110u8, 116u8, 10u8]
}

/// The entries of row `r` as (1-based row, 1-based feature, count).
pub open spec fn row_entries(r: int, cell: Seq<(usize, i32)>) -> Seq<(int, int, int)> {
    cell.map_values(|e: (usize, i32)| (r + 1, e.0 + 1, e.1 as int))
}

/// All entries of a matrix, row by row.
pub open spec fn matrix_entries(cells: Seq<Seq<(usize, i32)>>) -> Seq<(int, int, int)>
    decreases cells.len(),
{
    if cells.len() == 0 {
        seq![]
    } else {
        matrix_entries(cells.drop_last()) + row_entries(cells.len() - 1, cells.last())
    }
}

pub open spec fn entry_line(e: (int, int, int)) -> Seq<u8> {
    decimal(e.0 as nat) + seq![9u8] + decimal(e.1 as nat) + seq![9u8] + decimal(e.2 as nat) + seq![10u8]
}

pub open spec fn entry_lines(es: Seq<(int, int, int)>) -> Seq<u8>
    decreases es.len(),
{
    if es.len() == 0 {
        seq![]
    } else {
        entry_lines(es.drop_last()) + entry_line(es.last())
    }
}


/// Number of newline bytes in `s`.
pub open spec fn newline_count(s: Seq<u8>) -> nat
    decreases s.len(),
{
    if s.len() == 0 {
        0
    } else {
        newline_count(s.drop_last()) + if s.last() == 10 {
            1nat
        } else {
            0nat
        }
    }
}

proof fn lemma_newline_count_concat(a: Seq<u8>, b: Seq<u8>)
    ensures
        newline_count(a + b) == newline_count(a) + newline_count(b),
    decreases b.len(),
{
    if b.len() == 0 {
        assert(a + b =~= a);
    } else {
        lemma_newline_count_concat(a, b.drop_last());
        assert((a + b).drop_last() =~= a + b.drop_last());
    }
}

proof fn lemma_no_newline(s: Seq<u8>)
    requires
        !s.contains(10u8),
    ensures
        newline_count(s) == 0,
    decreases s.len(),
{
    if s.len() > 0 {
        assert(!s.drop_last().contains(10u8)) by {
            if s.drop_last().contains(10u8) {
                let i = choose|i: int| 0 <= i < s.drop_last().len() && s.drop_last()[i] == 10u8;
                assert(s[i] == 10u8);
            }
        }
        lemma_no_newline(s.drop_last());
        assert(s.last() != 10u8) by {
            if s.last() == 10u8 {
                assert(s[s.len() - 1] == 10u8);
            }
        }
    }
}

/// Items without newlines make exactly one line each.
pub proof fn lemma_lines_count(items: Seq<Seq<u8>>)
    requires
        forall|i: int| 0 <= i < items.len() ==> !(#[trigger] items[i]).contains(10u8),
    ensures
        newline_count(lines(items)) == items.len(),
    decreases items.len(),
{
    if items.len() > 0 {
        let init = items.drop_last();
        lemma_lines_count(init);
        lemma_newline_count_concat(lines(init), items.last());
        lemma_newline_count_concat(lines(init) + items.last(), seq![10u8]);
        assert(!items[items.len() - 1].contains(10u8));
        lemma_no_newline(items.last());
        let nl = seq![10u8];
        assert(nl.len() == 1 && nl.last() == 10u8);
        assert(nl.drop_last() =~= Seq::<u8>::empty());
        assert(newline_count(nl.drop_last()) == 0);
        assert(newline_count(nl) == 1);
        assert(lines(items) == lines(init) + items.last() + seq![10u8]);
    }
}

proof fn lemma_entries_in_range(cells: Seq<Seq<(usize, i32)>>, nf: nat)
    requires
        forall|r: int, j: int| 0 <= r < cells.len() && 0 <= j < cells[r].len() ==> (#[trigger] cells[r][j]).0 < nf,
    ensures
        forall|k: int| 0 <= k < matrix_entries(cells).len() ==> {
            let e = #[trigger] matrix_entries(cells)[k];
            1 <= e.0 <= cells.len() && 1 <= e.1 <= nf
        },
    decreases cells.len(),
{
    if cells.len() > 0 {
        let init = cells.drop_last();
        assert forall|r: int, j: int| 0 <= r < init.len() && 0 <= j < init[r].len() implies (#[trigger] init[r][j]).0 < nf by {
            assert(init[r] == cells[r]);
        }
        lemma_entries_in_range(init, nf);
        let a = matrix_entries(init);
        let b = row_entries(cells.len() - 1, cells.last());
        assert forall|k: int| 0 <= k < matrix_entries(cells).len() implies {
            let e = #[trigger] matrix_entries(cells)[k];
            1 <= e.0 <= cells.len() && 1 <= e.1 <= nf
        } by {
            if k < a.len() {
                assert(matrix_entries(cells)[k] == a[k]);
            } else {
                let j = k - a.len();
                assert(matrix_entries(cells)[k] == b[j]);
                assert(cells[cells.len() - 1][j].0 < nf);
            }
        }
    }
}

/// Every entry of the coordinate table has a row number from 1 to the number
/// of row barcodes and a feature number from 1 to the number of features.
pub proof fn law_count_table_indices(m: &SparseCountMatrix, features: &FeatureTable)
    requires
        m.wf(),
        m.num_features() == features@.len(),
    ensures
        forall|k: int| 0 <= k < matrix_entries(m.cells()).len() ==> {
            let e = #[trigger] matrix_entries(m.cells())[k];
            1 <= e.0 <= m.barcodes().len() && 1 <= e.1 <= features@.len()
        },
{
    let cells = m.cells();
    assert forall|r: int, j: int| 0 <= r < cells.len() && 0 <= j < cells[r].len() implies (#[trigger] cells[r][j]).0 < m.num_features() by {
        assert(m.cells()[r][j].0 < m.num_features());
    }
    lemma_entries_in_range(cells, m.num_features());
}

/// The barcode list has one line per row barcode, each barcode once, and the
/// feature list one line per feature, when no name holds a newline.
pub proof fn law_count_table_lines(m: &SparseCountMatrix, features: &FeatureTable)
    requires
        m.wf(),
        forall|i: int| 0 <= i < m.barcodes().len() ==> !(#[trigger] m.barcodes()[i]).contains(10u8),
        forall|i: int| 0 <= i < features@.len() ==> !(#[trigger] features@[i]).contains(10u8),
    ensures
        forall|i: int, j: int| 0 <= i < j < m.barcodes().len() ==> m.barcodes()[i] != m.barcodes()[j],
        newline_count(lines(m.barcodes())) == m.barcodes().len(),
        newline_count(lines(features@)) == features@.len(),
{
    lemma_lines_count(m.barcodes());
    lemma_lines_count(features@);
}

} // verus!
