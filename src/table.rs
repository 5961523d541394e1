//! The barcode reference table: one row per whitelist entry, with the round
//! position (1 to 4), a well label and the barcode, separated by tabs.

use vstd::prelude::*;
use vstd::slice::slice_to_vec;
use crate::scheme::AtrandiBarcodes;
use crate::scheme::NUM_ROUNDS;
use crate::whitelist::BarcodeWhitelist;

verus! {

#[verifier::external_type_specification]
#[verifier::external_body]
pub struct ExCsvError(csv::Error);

/// Why a barcode table was refused.
#[derive(Debug, Clone, Copy, PartialEq, Eq, Structural)]
pub enum BarcodeTableError {
    /// The text is not a well-formed tab-separated table.
    Unreadable,
    /// The record at this position (counted after the header line) has fewer
    /// than three fields, a round position outside 1 to 4, or a barcode whose
    /// length differs from the first record's.
    BadRow(usize),
}

/// The records that csv reads from a tab-separated text whose first line is
/// a header: the bytes of each field of each later line; `None` where csv
/// reports an error.
pub uninterp spec fn tsv_records(data: Seq<u8>) -> Option<Seq<Seq<Seq<u8>>>>;

pub open spec fn rows_view(rows: Seq<Vec<Vec<u8>>>) -> Seq<Seq<Seq<u8>>> {
    rows.map_values(|row: Vec<Vec<u8>>| row@.map_values(|f: Vec<u8>| f@))
}

/// Relies on csv's `Reader` with a tab delimiter and its other settings at
/// their defaults: it reads the records after the header line, or fails.
#[verifier::external_body]
fn read_tsv_records(data: &[u8]) -> (r: Result<Vec<Vec<Vec<u8>>>, csv::Error>)
    ensures
        match tsv_records(data@) {
            Some(rows) => r matches Ok(v) && rows_view(v@) == rows,
            None => r is Err,
        },
{
    let mut rdr = csv::ReaderBuilder::new().delimiter(b'\t').from_reader(data);
    rdr.records().map(|rec| rec.map(|rec| rec.iter().map(|f| f.as_bytes().to_vec()).collect())).collect()
}

pub open spec fn is_digit(b: u8) -> bool {
    48 <= b <= 57
}

/// The number that a string of decimal digits writes.
pub open spec fn digits_value(d: Seq<u8>) -> nat
    decreases d.len(),
{
    if d.len() == 0 {
        0
    } else {
        digits_value(d.drop_last()) * 10 + (d.last() - 48) as nat
    }
}

/// The digits of a number field, after an optional leading `+`.
pub open spec fn unsigned_digits(f: Seq<u8>) -> Seq<u8> {
    if f.len() > 0 && f[0] == 43 {
        f.drop_first()
    } else {
        f
    }
}

/// The 0-based round that a position field names: the field is an unsigned
/// decimal number from 1 to 4.
pub open spec fn round_of_position(f: Seq<u8>) -> Option<int> {
    let d = unsigned_digits(f);
    if d.len() > 0 && (forall|i: int| 0 <= i < d.len() ==> is_digit(#[trigger] d[i]))
        && 1 <= digits_value(d) <= NUM_ROUNDS {
        Some(digits_value(d) - 1)
    } else {
        None
    }
}

/// Reads a round position field (1 to 4) as a 0-based round.
pub fn round_of_position_field(f: &[u8]) -> (r: Option<usize>)
    ensures
        match round_of_position(f@) {
            Some(k) => r == Some(k as usize),
            None => r is None,
        },
{
    let n = f.len();
    let start: usize = if n > 0 && f[0] == 43u8 {
        1
    } else {
        0
    };
    let ghost d = unsigned_digits(f@);
    assert(d =~= f@.subrange(start as int, n as int));
    if start == n {
        return None;
    }
    // the value of the digits read so far, capped at 5
    let mut v: u64 = 0;
    let mut i: usize = start;
    while i < n
        invariant
            start <= i <= n,
            n == f@.len(),
            d == f@.subrange(start as int, n as int),
            d == unsigned_digits(f@),
            forall|k: int| 0 <= k < i - start ==> is_digit(#[trigger] d[k]),
            v <= 5,
            v == if digits_value(d.subrange(0, i - start)) < 5 {
                digits_value(d.subrange(0, i - start))
            } else {
                5
            },
        decreases n - i,
    {
        let b = f[i];
        if b < 48u8 || b > 57u8 {
            assert(d[i - start] == b);
            assert(!is_digit(d[i - start]));
            assert(!(forall|k: int| 0 <= k < d.len() ==> is_digit(#[trigger] d[k])));
            return None;
        }
        let ghost prev = digits_value(d.subrange(0, i - start));
        assert(d.subrange(0, i + 1 - start).drop_last() =~= d.subrange(0, i - start));
        assert(digits_value(d.subrange(0, i + 1 - start)) == prev * 10 + (b - 48) as nat);
        proof {
            if prev >= 5 {
                assert(prev * 10 >= 50) by (nonlinear_arith)
                    requires
                        prev >= 5,
                ;
            }
        }
        let nv: u64 = v * 10 + (b - 48u8) as u64;
        v = if nv > 5 {
            5
        } else {
            nv
        };
        i = i + 1;
    }
    assert(d.subrange(0, n - start) =~= d);
    if v >= 1 && v <= 4 {
        Some((v - 1) as usize)
    } else {
        None
    }
}


/// The barcode length of a table: that of its first record (0 when it has none).
pub open spec fn table_barcode_length(rows: Seq<Seq<Seq<u8>>>) -> nat {
    if rows.len() > 0 {
        rows[0][2].len()
    } else {
        0
    }
}

/// Record `i` has a position, a well and a barcode, names a round, and its
/// barcode has the first record's length.
pub open spec fn row_valid(rows: Seq<Seq<Seq<u8>>>, i: int) -> bool {
    &&& rows[i].len() >= 3
    &&& round_of_position(rows[i][0]) is Some
    &&& rows[i][2].len() == rows[0][2].len()
    &&& rows[i][2].len() <= i32::MAX
}

/// The barcodes of the records that name round `r`, in table order.
pub open spec fn round_entries(rows: Seq<Seq<Seq<u8>>>, r: int) -> Seq<Seq<u8>>
    decreases rows.len(),
{
    if rows.len() == 0 {
        seq![]
    } else {
        let prev = round_entries(rows.drop_last(), r);
        if round_of_position(rows.last()[0]) == Some(r) {
            prev.push(rows.last()[2])
        } else {
            prev
        }
    }
}

/// `r` is what a table with records `rows` gives: the scheme whose round `k`
/// holds the barcodes of the records naming it, or the first invalid record.
pub open spec fn table_result(rows: Seq<Seq<Seq<u8>>>, r: Result<AtrandiBarcodes, BarcodeTableError>) -> bool {
    if forall|i: int| 0 <= i < rows.len() ==> row_valid(rows, i) {
        r matches Ok(s) && s.wf() && forall|k: int| 0 <= k < NUM_ROUNDS ==>
            (#[trigger] s.round(k)).entries() == round_entries(rows, k)
                && s.round(k).barcode_length() == table_barcode_length(rows)
    } else {
        r matches Err(BarcodeTableError::BadRow(i)) && 0 <= i < rows.len() && !row_valid(rows, i as int)
            && forall|j: int| 0 <= j < i ==> row_valid(rows, j)
    }
}

pub open spec fn entries_view(l: Vec<Vec<u8>>) -> Seq<Seq<u8>> {
    l@.map_values(|e: Vec<u8>| e@)
}

/// Groups the records of a barcode table by round into the four whitelists.
pub fn barcodes_from_records(rows: &Vec<Vec<Vec<u8>>>) -> (r: Result<AtrandiBarcodes, BarcodeTableError>)
    ensures
        table_result(rows_view(rows@), r),
{
    let ghost rv = rows_view(rows@);
    let mut lists: Vec<Vec<Vec<u8>>> = vec![Vec::new(), Vec::new(), Vec::new(), Vec::new()];
    let mut bc_length: usize = 0;
    let mut i: usize = 0;
    while i < rows.len()
        invariant
            rv == rows_view(rows@),
            i <= rows@.len(),
            lists@.len() == NUM_ROUNDS,
            forall|k: int| 0 <= k < NUM_ROUNDS ==> entries_view(#[trigger] lists@[k]) == round_entries(rv.subrange(0, i as int), k),
            forall|k: int, j: int| 0 <= k < NUM_ROUNDS && 0 <= j < lists@[k]@.len() ==> (#[trigger] lists@[k]@[j])@.len() == bc_length,
            i > 0 ==> bc_length == rv[0][2].len(),
            i == 0 ==> bc_length == 0,
            bc_length <= i32::MAX,
            forall|j: int| 0 <= j < i ==> row_valid(rv, j),
        decreases rows@.len() - i,
    {
        let row = &rows[i];
        assert(rv[i as int] == row@.map_values(|f: Vec<u8>| f@));
        if row.len() < 3 {
            assert(!row_valid(rv, i as int));
            return Err(BarcodeTableError::BadRow(i));
        }
        assert(rv[i as int][0] == row@[0]@ && rv[i as int][2] == row@[2]@);
        let r = match round_of_position_field(row[0].as_slice()) {
            Some(r) => r,
            None => {
                assert(!row_valid(rv, i as int));
                return Err(BarcodeTableError::BadRow(i));
            },
        };
        let len = row[2].len();
        if i == 0 {
            if len > i32::MAX as usize {
                assert(!row_valid(rv, i as int));
                return Err(BarcodeTableError::BadRow(i));
            }
            bc_length = len;
        }
        if len != bc_length {
            assert(!row_valid(rv, i as int));
            return Err(BarcodeTableError::BadRow(i));
        }
        assert(row_valid(rv, i as int));
        let bc = slice_to_vec(row[2].as_slice());
        let ghost old_lists = lists@;
        lists[r].push(bc);
        proof {
            let pre = rv.subrange(0, i as int);
            let next = rv.subrange(0, i + 1);
            assert(next.drop_last() =~= pre);
            assert forall|k: int| 0 <= k < NUM_ROUNDS implies entries_view(#[trigger] lists@[k]) == round_entries(next, k) by {
                if k == r {
                    assert(entries_view(lists@[k]) =~= entries_view(old_lists[k]).push(bc@));
                } else {
                    assert(lists@[k] == old_lists[k]);
                }
            }
            assert forall|k: int, j: int| 0 <= k < NUM_ROUNDS && 0 <= j < lists@[k]@.len() implies (#[trigger] lists@[k]@[j])@.len() == bc_length by {
                if k == r && j == lists@[k]@.len() - 1 {
                } else {
                    assert(lists@[k]@[j] == old_lists[k]@[j]);
                }
            }
        }
        i = i + 1;
    }
    proof {
        assert(rv.subrange(0, rows@.len() as int) =~= rv);
    }
    let l0 = lists.remove(0);
    let l1 = lists.remove(0);
    let l2 = lists.remove(0);
    let l3 = lists.remove(0);
    let mut whitelists: Vec<BarcodeWhitelist> = Vec::new();
    match BarcodeWhitelist::new(l0, bc_length) {
        Some(w) => whitelists.push(w),
        None => return Err(BarcodeTableError::Unreadable),
    }
    match BarcodeWhitelist::new(l1, bc_length) {
        Some(w) => whitelists.push(w),
        None => return Err(BarcodeTableError::Unreadable),
    }
    match BarcodeWhitelist::new(l2, bc_length) {
        Some(w) => whitelists.push(w),
        None => return Err(BarcodeTableError::Unreadable),
    }
    match BarcodeWhitelist::new(l3, bc_length) {
        Some(w) => whitelists.push(w),
        None => return Err(BarcodeTableError::Unreadable),
    }
    match AtrandiBarcodes::new(whitelists) {
        Some(s) => {
            proof {
                assert(rows@.len() == 0 ==> bc_length == table_barcode_length(rv));
            }
            Ok(s)
        },
        None => Err(BarcodeTableError::Unreadable),
    }
}

/// Reads the barcode table from the text of the reference file: csv reads
/// the records after the header line, which are then grouped by round.
pub fn read_atrandi_barcodes(data: &[u8]) -> (r: Result<AtrandiBarcodes, BarcodeTableError>)
    ensures
        match tsv_records(data@) {
            None => r == Err::<AtrandiBarcodes, BarcodeTableError>(BarcodeTableError::Unreadable),
            Some(rows) => table_result(rows, r),
        },
{
    match read_tsv_records(data) {
        Err(_) => Err(BarcodeTableError::Unreadable),
        Ok(rows) => barcodes_from_records(&rows),
    }
}

} // verus!
