use quick_bc::counts::barcode_of_name;
use quick_bc::CountError;
use quick_bc::CountMode;
use quick_bc::FeatureTable;
use quick_bc::SparseCountMatrix;

fn features() -> FeatureTable {
    FeatureTable::new(vec![b"chr1".to_vec(), b"chr2".to_vec()])
}

#[test]
fn feature_table_ends_with_unassigned() {
    let t = features();
    assert_eq!(t.len(), 3);
    assert_eq!(t.unassigned(), 2);
    assert_eq!(t.feature_list(), b"chr1\nchr2\n*\n".to_vec());
    assert_eq!(FeatureTable::new(vec![]).feature_list(), b"*\n".to_vec());
}

#[test]
fn name_without_underscore_is_an_error() {
    let t = features();
    let mut m = SparseCountMatrix::new(&t, CountMode::Overwrite);
    assert_eq!(m.count_record(b"AAAA.CCCC.GGGG.TTTTread1", Some(0)), Err(CountError::MissingBarcode));
    assert_eq!(m.num_rows(), 0);
    assert_eq!(m.barcode_list(), Vec::<u8>::new());
}

#[test]
fn barcode_is_the_name_before_the_first_underscore() {
    assert_eq!(barcode_of_name(b"A.C_read_1"), Some(b"A.C".to_vec()));
    assert_eq!(barcode_of_name(b"_read"), Some(Vec::new()));
    assert_eq!(barcode_of_name(b"read"), None);
    assert_eq!(barcode_of_name(b""), None);
}

#[test]
fn invalid_utf8_in_a_name_is_replaced() {
    let t = features();
    let mut m = SparseCountMatrix::new(&t, CountMode::Overwrite);
    assert_eq!(m.count_record(b"AC\xffG_read", None), Ok(()));
    assert_eq!(m.barcode_list(), b"AC\xef\xbf\xbdG\n".to_vec());
}

#[test]
fn unknown_reference_is_an_error() {
    let t = features();
    let mut m = SparseCountMatrix::new(&t, CountMode::Overwrite);
    assert_eq!(m.count_record(b"A_r", Some(2)), Err(CountError::UnknownReference(2)));
    assert_eq!(m.count_record(b"A_r", Some(7)), Err(CountError::UnknownReference(7)));
    assert_eq!(m.num_rows(), 0);
}

#[test]
fn overwrite_mode_records_presence() {
    let t = features();
    let mut m = SparseCountMatrix::new(&t, CountMode::Overwrite);
    for (name, r) in [
        (&b"CELLA_r1"[..], Some(1)),
        (&b"CELLB_r2"[..], None),
        (&b"CELLA_r3"[..], Some(1)),
        (&b"CELLA_r4"[..], Some(0)),
        (&b"CELLA_r5"[..], None),
    ] {
        assert_eq!(m.count_record(name, r), Ok(()));
    }
    assert_eq!(m.num_rows(), 2);
    assert_eq!(m.barcode_list(), b"CELLA\nCELLB\n".to_vec());
    assert_eq!(
        m.matrix_table(),
        b"cell\tfeature\tcount\n1\t2\t1\n1\t1\t1\n1\t3\t1\n2\t3\t1\n".to_vec()
    );
}

#[test]
fn accumulate_mode_counts_reads() {
    let t = features();
    let mut m = SparseCountMatrix::new(&t, CountMode::Accumulate);
    for _ in 0..11 {
        assert_eq!(m.count_record(b"CELLA_r", Some(1)), Ok(()));
    }
    assert_eq!(m.count_record(b"CELLB_r", Some(0)), Ok(()));
    assert_eq!(m.matrix_table(), b"cell\tfeature\tcount\n1\t2\t11\n2\t1\t1\n".to_vec());
}

#[test]
fn empty_matrix_has_only_the_header() {
    let t = features();
    let m = SparseCountMatrix::new(&t, CountMode::Overwrite);
    assert_eq!(m.matrix_table(), b"cell\tfeature\tcount\n".to_vec());
}
