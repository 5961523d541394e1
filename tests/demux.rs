use quick_bc::demux::demultiplex_pair;
use quick_bc::demux::demultiplex_pairs;
use quick_bc::AtrandiBarcodes;
use quick_bc::BarcodeHistogram;
use quick_bc::BarcodeWhitelist;
use quick_bc::FastqRecord;
use quick_bc::{Demultiplexer, DemuxError, PairOutcome};

fn scheme() -> AtrandiBarcodes {
    let rounds = vec![
        BarcodeWhitelist::new(vec![b"AAAAAAAA".to_vec(), b"CCCCCCCC".to_vec()], 8).unwrap(),
        BarcodeWhitelist::new(vec![b"GGGGGGGG".to_vec(), b"TTTTTTTT".to_vec()], 8).unwrap(),
        BarcodeWhitelist::new(vec![b"ACACACAC".to_vec(), b"GTGTGTGT".to_vec()], 8).unwrap(),
        BarcodeWhitelist::new(vec![b"AACCGGTT".to_vec(), b"TTGGCCAA".to_vec()], 8).unwrap(),
    ];
    AtrandiBarcodes::new(rounds).unwrap()
}

fn r2(r0: &[u8], r1: &[u8], r2: &[u8], r3: &[u8], tail: &[u8]) -> FastqRecord {
    let mut seq = Vec::new();
    for part in [r3, b"AGGA", r2, b"ACTC", r1, b"AAGG", r0, tail] {
        seq.extend_from_slice(part);
    }
    let qual: Vec<u8> = (0..seq.len()).map(|i| b'!' + (i % 40) as u8).collect();
    FastqRecord { id: b"read2".to_vec(), seq, qual }
}

fn r1() -> FastqRecord {
    FastqRecord { id: b"read1".to_vec(), seq: b"NCAGTT".to_vec(), qual: b"#8B<CF".to_vec() }
}

#[test]
fn kept_pair_is_renamed_trimmed_and_counted() {
    let s = scheme();
    let mut h = BarcodeHistogram::new();
    let (mut o1, mut o2) = (Vec::new(), Vec::new());
    let second = r2(b"AAAAAAAC", b"GGGGGGGG", b"ACACACAC", b"AACCGGTT", b"TTAC");
    let kept = demultiplex_pair(&s, &mut h, &r1(), &second, &mut o1, &mut o2);
    assert!(kept);
    assert_eq!(o1, b"@AAAAAAAA.GGGGGGGG.ACACACAC.AACCGGTT_read1\nNCAGTT\n+\n#8B<CF\n".to_vec());
    let mut expected = b"@AAAAAAAA.GGGGGGGG.ACACACAC.AACCGGTT_read2\nTTAC\n+\n".to_vec();
    expected.extend_from_slice(&second.qual[44..]);
    expected.push(b'\n');
    assert_eq!(o2, expected);
    assert_eq!(h.count(b"AAAAAAAA.GGGGGGGG.ACACACAC.AACCGGTT"), 1);
    assert_eq!(h.total(), 1);
}

#[test]
fn read_of_exactly_the_barcode_region_leaves_empty_second_read() {
    let s = scheme();
    let mut h = BarcodeHistogram::new();
    let (mut o1, mut o2) = (Vec::new(), Vec::new());
    let second = r2(b"CCCCCCCC", b"TTTTTTTT", b"GTGTGTGT", b"TTGGCCAA", b"");
    assert!(demultiplex_pair(&s, &mut h, &r1(), &second, &mut o1, &mut o2));
    assert_eq!(o2, b"@CCCCCCCC.TTTTTTTT.GTGTGTGT.TTGGCCAA_read2\n\n+\n\n".to_vec());
}

#[test]
fn dropped_pair_changes_nothing() {
    let s = scheme();
    let mut h = BarcodeHistogram::new();
    let (mut o1, mut o2) = (b"x".to_vec(), b"y".to_vec());
    let second = r2(b"AAAAAAAA", b"GGGGGGGG", b"ACACACAC", b"AAAAAAAA", b"TT");
    assert!(!demultiplex_pair(&s, &mut h, &r1(), &second, &mut o1, &mut o2));
    let short = FastqRecord { id: b"r".to_vec(), seq: b"ACGT".to_vec(), qual: b"IIII".to_vec() };
    assert!(!demultiplex_pair(&s, &mut h, &r1(), &short, &mut o1, &mut o2));
    assert_eq!(o1, b"x".to_vec());
    assert_eq!(o2, b"y".to_vec());
    assert_eq!(h.total(), 0);
}

#[test]
fn histogram_counts_pairs_per_cell() {
    let s = scheme();
    let mut h = BarcodeHistogram::new();
    let reads = vec![
        r2(b"AAAAAAAA", b"GGGGGGGG", b"ACACACAC", b"AACCGGTT", b""),
        r2(b"CCCCCCCC", b"GGGGGGGG", b"ACACACAC", b"AACCGGTT", b""),
        r2(b"AAAAAAAA", b"GGGGGGGG", b"ACACACAC", b"AACCGGTT", b"A"),
        r2(b"AAAAAAAA", b"GGGGGGGG", b"ACACACAC", b"AAAAAAAA", b""),
        r2(b"AAAAAAAC", b"GGGGGGGG", b"ACACACAC", b"AACCGGTT", b""),
    ];
    let mut passed = 0;
    for r in &reads {
        let (mut o1, mut o2) = (Vec::new(), Vec::new());
        if demultiplex_pair(&s, &mut h, &r1(), r, &mut o1, &mut o2) {
            passed += 1;
        }
    }
    assert_eq!(passed, 4);
    assert_eq!(h.total(), 4);
    assert_eq!(h.count(b"AAAAAAAA.GGGGGGGG.ACACACAC.AACCGGTT"), 3);
    assert_eq!(h.count(b"CCCCCCCC.GGGGGGGG.ACACACAC.AACCGGTT"), 1);
    assert_eq!(h.count(b"AAAAAAAA.GGGGGGGG.ACACACAC.AAAAAAAA"), 0);
    assert_eq!(
        h.to_table(),
        b"barcode\tcount\nAAAAAAAA.GGGGGGGG.ACACACAC.AACCGGTT\t3\nCCCCCCCC.GGGGGGGG.ACACACAC.AACCGGTT\t1\n".to_vec()
    );
}

#[test]
fn empty_histogram_table_is_the_header() {
    let h = BarcodeHistogram::new();
    assert_eq!(h.to_table(), b"barcode\tcount\n".to_vec());
    let mut h = BarcodeHistogram::new();
    for _ in 0..12 {
        h.add(b"X");
    }
    assert_eq!(h.to_table(), b"barcode\tcount\nX\t12\n".to_vec());
}

#[test]
fn run_finishes_when_both_inputs_end() {
    let mut run = Demultiplexer::new(scheme());
    let (mut o1, mut o2) = (Vec::new(), Vec::new());
    let good = r2(b"AAAAAAAA", b"GGGGGGGG", b"ACACACAC", b"AACCGGTT", b"TT");
    let bad = r2(b"AAAAAAAA", b"GGGGGGGG", b"ACACACAC", b"AAAAAAAA", b"TT");
    let first = r1();
    assert_eq!(run.step(Some(&first), Some(&good), &mut o1, &mut o2), Ok(PairOutcome::Kept));
    assert_eq!(run.step(Some(&first), Some(&bad), &mut o1, &mut o2), Ok(PairOutcome::Dropped));
    assert_eq!(run.step(Some(&first), Some(&good), &mut o1, &mut o2), Ok(PairOutcome::Kept));
    assert_eq!(run.step(None, None, &mut o1, &mut o2), Ok(PairOutcome::Finished));
    assert_eq!(run.step(Some(&first), Some(&good), &mut o1, &mut o2), Err(DemuxError::Finalized));
    assert_eq!(run.histogram().total(), 2);
    assert_eq!(run.histogram().count(b"AAAAAAAA.GGGGGGGG.ACACACAC.AACCGGTT"), 2);
    assert_eq!(o1.iter().filter(|&&b| b == b'\n').count(), 8);
}

#[test]
fn run_with_unequal_inputs_is_desynchronized() {
    let mut run = Demultiplexer::new(scheme());
    let (mut o1, mut o2) = (Vec::new(), Vec::new());
    let good = r2(b"AAAAAAAA", b"GGGGGGGG", b"ACACACAC", b"AACCGGTT", b"TT");
    let first = r1();
    assert_eq!(run.step(Some(&first), None, &mut o1, &mut o2), Err(DemuxError::Desynchronized));
    assert_eq!(run.step(None, Some(&good), &mut o1, &mut o2), Err(DemuxError::Desynchronized));
    assert!(o1.is_empty() && o2.is_empty());
    assert_eq!(run.histogram().total(), 0);
}

#[test]
fn whole_run_counts_and_outputs() {
    let s = scheme();
    let r2s = vec![
        r2(b"AAAAAAAA", b"GGGGGGGG", b"ACACACAC", b"AACCGGTT", b"T"),
        r2(b"AAAAAAAA", b"GGGGGGGG", b"ACACACAC", b"AAAAAAAA", b"T"),
        r2(b"AAAAAAAC", b"GGGGGGGG", b"ACACACAC", b"AACCGGTT", b"G"),
        r2(b"CCCCCCCC", b"TTTTTTTT", b"GTGTGTGT", b"TTGGCCAA", b""),
    ];
    let r1s: Vec<FastqRecord> = (0..4).map(|_| r1()).collect();
    let out = demultiplex_pairs(&s, &r1s, &r2s).unwrap();
    assert_eq!(out.histogram.total(), 3);
    assert_eq!(out.histogram.count(b"AAAAAAAA.GGGGGGGG.ACACACAC.AACCGGTT"), 2);
    assert_eq!(out.histogram.count(b"CCCCCCCC.TTTTTTTT.GTGTGTGT.TTGGCCAA"), 1);
    assert_eq!(out.r1.iter().filter(|&&b| b == b'\n').count(), 12);
    assert!(out.r2.starts_with(b"@AAAAAAAA.GGGGGGGG.ACACACAC.AACCGGTT_read2\nT\n+\n"));
    let three: Vec<FastqRecord> = (0..3).map(|_| r1()).collect();
    assert_eq!(demultiplex_pairs(&s, &three, &r2s).err(), Some(DemuxError::Desynchronized));
}
