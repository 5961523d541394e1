use quick_bc::key_index::bytes_equal;
use quick_bc::key_index::KeyIndex;
use quick_bc::text::push_decimal;
use quick_bc::text::write_fastq;

#[test]
fn decimals() {
    for n in [0u64, 7, 10, 99, 12345, u64::MAX] {
        let mut out = b"x".to_vec();
        push_decimal(&mut out, n);
        assert_eq!(out, format!("x{}", n).into_bytes());
    }
}

#[test]
fn fastq_record_has_four_lines() {
    let mut out = Vec::new();
    write_fastq(&mut out, b"cell_read1", b"ACGT", b"IIII");
    assert_eq!(out, b"@cell_read1\nACGT\n+\nIIII\n".to_vec());
}

#[test]
fn key_index_numbers_keys_by_first_insertion() {
    let mut k = KeyIndex::new();
    assert_eq!(k.intern(b"AC"), 0);
    assert_eq!(k.intern(b"GT"), 1);
    assert_eq!(k.intern(b"AC"), 0);
    assert_eq!(k.intern(b""), 2);
    assert_eq!(k.len(), 3);
    assert_eq!(k.find(b"GT"), Some(1));
    assert_eq!(k.find(b"G"), None);
    assert_eq!(k.key(2), &Vec::<u8>::new());
    for i in 0..2000u32 {
        let key = format!("key{}", i).into_bytes();
        assert_eq!(k.intern(&key), 3 + i as usize);
    }
    assert_eq!(k.find(b"key1999"), Some(2002));
    assert!(bytes_equal(b"abc", b"abc"));
    assert!(!bytes_equal(b"abc", b"abd"));
    assert!(!bytes_equal(b"abc", b"ab"));
}
