//! Byte-level text output: decimal numbers and FASTQ records.

use vstd::prelude::*;

verus! {

pub open spec fn ascii_digit(d: nat) -> u8 {
    (48 + d) as u8
}

/// The decimal digits of `n`, without leading zeros.
pub open spec fn decimal(n: nat) -> Seq<u8>
    decreases n,
{
    if n < 10 {
        seq![ascii_digit(n)]
    } else {
        decimal(n / 10).push(ascii_digit(n % 10))
    }
}

/// Appends the decimal digits of `n`.
pub fn push_decimal(out: &mut Vec<u8>, n: u64)
    ensures
        final(out)@ == old(out)@ + decimal(n as nat),
    decreases n,
{
    if n >= 10 {
        push_decimal(out, n / 10);
    }
    out.push(48u8 + (n % 10) as u8);
    proof {
        if n >= 10 {
            assert(final(out)@ =~= old(out)@ + decimal(n as nat));
        } else {
            assert(final(out)@ =~= old(out)@ + decimal(n as nat));
        }
    }
}

/// Appends a byte string.
pub fn push_bytes(out: &mut Vec<u8>, b: &[u8])
    ensures
        final(out)@ == old(out)@ + b@,
{
    out.extend_from_slice(b);
}

/// The four lines of a FASTQ record.
pub open spec fn fastq_text(name: Seq<u8>, seq: Seq<u8>, qual: Seq<u8>) -> Seq<u8> {
    seq![64u8] + name + seq![10u8] + seq + seq![10u8, 43u8, 10u8] + qual + seq![10u8]
}

/// Appends a FASTQ record: `@name`, the sequence, `+`, the qualities.
pub fn write_fastq(out: &mut Vec<u8>, readname: &[u8], seq: &[u8], qual: &[u8])
    ensures
        final(out)@ == old(out)@ + fastq_text(readname@, seq@, qual@),
{
    let ghost start = out@;
    out.push(64u8);
    push_bytes(out, readname);
    out.push(10u8);
    push_bytes(out, seq);
    let sep: [u8; 3] = [10u8, 43u8, 10u8];
    assert(sep@ == seq![10u8, 43u8, 10u8]);
    push_bytes(out, sep.as_slice());
    push_bytes(out, qual);
    out.push(10u8);
    assert(out@ =~= start + fastq_text(readname@, seq@, qual@));
}

} // verus!
