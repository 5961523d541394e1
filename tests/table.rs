use quick_bc::table::read_atrandi_barcodes;
use quick_bc::table::round_of_position_field;
use quick_bc::BarcodeTableError;

const TABLE: &str = "pos\twell\tbc\n\
1\tA1\tAAAAAAAA\n\
1\tA2\tCCCCCCCC\n\
2\tA1\tGGGGGGGG\n\
3\tA1\tACACACAC\n\
4\tA1\tAACCGGTT\n\
4\tA2\tTTGGCCAA\n";

#[test]
fn table_rows_are_grouped_by_round() {
    let s = read_atrandi_barcodes(TABLE.as_bytes()).unwrap();
    assert_eq!(s.whitelist(0).len(), 2);
    assert_eq!(s.whitelist(1).len(), 1);
    assert_eq!(s.whitelist(2).len(), 1);
    assert_eq!(s.whitelist(3).len(), 2);
    assert_eq!(s.whitelist(0).bc_length(), 8);
    let m = s.whitelist(3).correct_to_whitelist(b"TTGGCCAA").unwrap();
    assert_eq!(m.index, 1);
    let m = s.whitelist(0).correct_to_whitelist(b"CCCCCCCC").unwrap();
    assert_eq!(m.index, 1);
}

#[test]
fn header_line_is_not_an_entry() {
    let s = read_atrandi_barcodes(b"1\tA1\tAAAAAAAA\n1\tA2\tCCCCCCCC\n").unwrap();
    assert_eq!(s.whitelist(0).len(), 1);
    assert!(s.whitelist(0).correct_to_whitelist(b"AAAAAAAA").is_none());
}

#[test]
fn quoted_fields_are_unquoted() {
    let s = read_atrandi_barcodes(b"pos\twell\tbc\n1\tA1\t\"AAAAAAAA\"\n").unwrap();
    assert_eq!(s.whitelist(0).correct_to_whitelist(b"AAAAAAAA").unwrap().score, 8);
}

#[test]
fn round_position_out_of_range_is_refused() {
    let e = read_atrandi_barcodes(b"pos\twell\tbc\n1\tA1\tAAAAAAAA\n5\tA1\tCCCCCCCC\n").err().unwrap();
    assert_eq!(e, BarcodeTableError::BadRow(1));
    let e = read_atrandi_barcodes(b"pos\twell\tbc\n0\tA1\tAAAAAAAA\n").err().unwrap();
    assert_eq!(e, BarcodeTableError::BadRow(0));
    let e = read_atrandi_barcodes(b"pos\twell\tbc\nx\tA1\tAAAAAAAA\n").err().unwrap();
    assert_eq!(e, BarcodeTableError::BadRow(0));
}

#[test]
fn short_row_is_refused() {
    let e = read_atrandi_barcodes(b"pos\twell\n1\tA1\n").err().unwrap();
    assert_eq!(e, BarcodeTableError::BadRow(0));
}

#[test]
fn barcodes_of_another_length_are_refused() {
    let e = read_atrandi_barcodes(b"pos\twell\tbc\n1\tA1\tAAAAAAAA\n2\tA1\tCCCC\n").err().unwrap();
    assert_eq!(e, BarcodeTableError::BadRow(1));
}

#[test]
fn ragged_table_is_unreadable() {
    let e = read_atrandi_barcodes(b"pos\twell\tbc\n1\tA1\tAAAAAAAA\textra\n").err().unwrap();
    assert_eq!(e, BarcodeTableError::Unreadable);
}

#[test]
fn empty_table_gives_empty_rounds() {
    let s = read_atrandi_barcodes(b"pos\twell\tbc\n").unwrap();
    for r in 0..4 {
        assert_eq!(s.whitelist(r).len(), 0);
    }
}

#[test]
fn position_fields_parse_like_unsigned_numbers() {
    assert_eq!(round_of_position_field(b"1"), Some(0));
    assert_eq!(round_of_position_field(b"4"), Some(3));
    assert_eq!(round_of_position_field(b"+2"), Some(1));
    assert_eq!(round_of_position_field(b"003"), Some(2));
    assert_eq!(round_of_position_field(b"0"), None);
    assert_eq!(round_of_position_field(b"5"), None);
    assert_eq!(round_of_position_field(b"41"), None);
    assert_eq!(round_of_position_field(b"99999999999999999999999"), None);
    assert_eq!(round_of_position_field(b""), None);
    assert_eq!(round_of_position_field(b"+"), None);
    assert_eq!(round_of_position_field(b"-1"), None);
    assert_eq!(round_of_position_field(b" 1"), None);
}
