use quick_bc::whitelist::num_similar_elements;
use quick_bc::BarcodeWhitelist;

fn round0() -> BarcodeWhitelist {
    BarcodeWhitelist::new(vec![b"AAAAAAAA".to_vec(), b"CCCCCCCC".to_vec()], 8).unwrap()
}

#[test]
fn similar_elements_counts_agreeing_positions() {
    assert_eq!(num_similar_elements(b"ACGTACGT", b"ACGTACGT"), 8);
    assert_eq!(num_similar_elements(b"ACGTACGT", b"TGCATGCA"), 0);
    assert_eq!(num_similar_elements(b"ACGTACGT", b"ACGAACGA"), 6);
    assert_eq!(num_similar_elements(b"", b""), 0);
}

#[test]
fn one_mismatch_corrects_with_score_seven() {
    let m = round0().correct_to_whitelist(b"AAAAAAAC").unwrap();
    assert_eq!(m.barcode, b"AAAAAAAA".to_vec());
    assert_eq!(m.score, 7);
    assert_eq!(m.index, 0);
}

#[test]
fn exact_entry_corrects_to_itself_with_full_score() {
    let w = round0();
    for (i, b) in [b"AAAAAAAA", b"CCCCCCCC"].iter().enumerate() {
        let m = w.correct_to_whitelist(&b[..]).unwrap();
        assert_eq!(m.barcode, b.to_vec());
        assert_eq!(m.score, 8);
        assert_eq!(m.index, i);
    }
}

#[test]
fn wrong_length_candidate_fails() {
    let w = round0();
    assert!(w.correct_to_whitelist(b"AAAAAAA").is_none());
    assert!(w.correct_to_whitelist(b"AAAAAAAAA").is_none());
}

#[test]
fn empty_candidate_fails() {
    assert!(round0().correct_to_whitelist(b"").is_none());
}

#[test]
fn score_below_threshold_fails_and_six_passes() {
    let w = round0();
    assert!(w.correct_to_whitelist(b"AAAAACCG").is_none());
    let m = w.correct_to_whitelist(b"AAAAAACG").unwrap();
    assert_eq!(m.barcode, b"AAAAAAAA".to_vec());
    assert_eq!(m.score, 6);
}

#[test]
fn ties_go_to_the_earlier_entry() {
    let w = BarcodeWhitelist::new(vec![b"AAAATTTT".to_vec(), b"AAAAGGGG".to_vec(), b"CCCCCCCC".to_vec()], 8).unwrap();
    let m = w.closest_bc_basewise(b"AAAAAAAA").unwrap();
    assert_eq!(m.index, 0);
    assert_eq!(m.score, 4);
    let m = w.closest_bc_basewise(b"AAAAGGGT").unwrap();
    assert_eq!(m.index, 1);
    assert_eq!(m.barcode, b"AAAAGGGG".to_vec());
    assert_eq!(m.score, 7);
}

#[test]
fn empty_whitelist_finds_nothing() {
    let w = BarcodeWhitelist::new(vec![], 8).unwrap();
    assert_eq!(w.len(), 0);
    assert!(w.closest_bc_basewise(b"AAAAAAAA").is_none());
    assert!(w.correct_to_whitelist(b"AAAAAAAA").is_none());
}

#[test]
fn whitelist_refuses_entries_of_another_length() {
    assert!(BarcodeWhitelist::new(vec![b"AAAAAAAA".to_vec(), b"CCCC".to_vec()], 8).is_none());
    let w = BarcodeWhitelist::new(vec![b"ACGT".to_vec()], 4).unwrap();
    assert_eq!(w.bc_length(), 4);
    // an exact entry shorter than the threshold still corrects
    let m = w.correct_to_whitelist(b"ACGT").unwrap();
    assert_eq!(m.score, 4);
    assert!(w.correct_to_whitelist(b"ACGA").is_none());
}

#[test]
fn similar_elements_over_a_shorter_first_argument() {
    assert_eq!(num_similar_elements(b"ACG", b"ACGTT"), 3);
    assert_eq!(num_similar_elements(b"ACC", b"ACGTT"), 2);
    assert_eq!(num_similar_elements(b"", b"ACGT"), 0);
}

#[test]
fn shorter_candidate_is_scored_over_its_length() {
    let w = BarcodeWhitelist::new(vec![b"AAAATTTT".to_vec(), b"CCCCGGGG".to_vec()], 8).unwrap();
    let m = w.closest_bc_basewise(b"CCC").unwrap();
    assert_eq!(m.index, 1);
    assert_eq!(m.score, 3);
    // a shorter candidate is no correction
    assert!(w.correct_to_whitelist(b"CCCCGGG").is_none());
}

#[test]
fn duplicate_entries_correct_to_the_first_copy() {
    let w = BarcodeWhitelist::new(vec![b"GGGGGGGG".to_vec(), b"AAAAAAAA".to_vec(), b"AAAAAAAA".to_vec()], 8).unwrap();
    let m = w.correct_to_whitelist(b"AAAAAAAA").unwrap();
    assert_eq!(m.index, 1);
    assert_eq!(m.score, 8);
    let m = w.correct_to_whitelist(b"AAAAAAAT").unwrap();
    assert_eq!(m.index, 1);
    assert_eq!(m.score, 7);
}
