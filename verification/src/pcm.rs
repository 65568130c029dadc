//! Signed 16-bit little-endian PCM: bytes to samples and back.

use vstd::prelude::*;

verus! {

/// The sample that the byte pair `lo`, `hi` encodes, low byte first, in
/// two's complement.
pub open spec fn sample_from_le(lo: u8, hi: u8) -> i16 {
    let raw = lo as int + 256 * (hi as int);
    if raw < 32768 {
        raw as i16
    } else {
        (raw - 65536) as i16
    }
}

/// The low byte of the encoding of `s`.
pub open spec fn sample_lo(s: i16) -> u8 {
    ((s as int) % 256) as u8
}

/// The high byte of the encoding of `s`.
pub open spec fn sample_hi(s: i16) -> u8 {
    (((s as int) / 256) % 256) as u8
}

/// The samples that `bytes` encode: one per complete pair of bytes, in
/// order. A last byte without a partner encodes nothing.
pub open spec fn decoded(bytes: Seq<u8>) -> Seq<i16> {
    Seq::new(bytes.len() / 2, |k: int| sample_from_le(bytes[2 * k], bytes[2 * k + 1]))
}

/// The bytes that encode `samples`: two per sample, low byte first.
pub open spec fn encoded(samples: Seq<i16>) -> Seq<u8> {
    Seq::new(
        2 * samples.len(),
        |j: int|
            if j % 2 == 0 {
                sample_lo(samples[j / 2])
            } else {
                sample_hi(samples[j / 2])
            },
    )
}

/// Decodes one pair of bytes.
pub fn decode_sample(lo: u8, hi: u8) -> (s: i16)
    ensures
        s == sample_from_le(lo, hi),
{
    let raw: u16 = lo as u16 + 256 * (hi as u16);
    if raw < 32768 {
        raw as i16
    } else {
        (raw as i32 - 65536) as i16
    }
}

/// Encodes one sample as its two bytes, low byte first.
pub fn encode_sample(s: i16) -> (pair: (u8, u8))
    ensures
        pair.0 == sample_lo(s),
        pair.1 == sample_hi(s),
        sample_from_le(pair.0, pair.1) == s,
{
    let raw: u16 = if s >= 0 {
        s as u16
    } else {
        (s as i32 + 65536) as u16
    };
    let lo: u8 = (raw % 256) as u8;
    let hi: u8 = (raw / 256) as u8;
    (lo, hi)
}

/// Decodes a payload into samples. Never fails: a trailing odd byte is
/// dropped.
pub fn decode_samples(bytes: &[u8]) -> (samples: Vec<i16>)
    ensures
        samples@ == decoded(bytes@),
{
    let n: usize = bytes.len() / 2;
    let mut samples: Vec<i16> = Vec::with_capacity(n);
    let mut k: usize = 0;
    while k < n
        invariant
            n == bytes@.len() / 2,
            bytes@.len() <= usize::MAX,
            k <= n,
            samples@.len() == k,
            forall|j: int|
                0 <= j < k ==> samples@[j] == sample_from_le(
                    #[trigger] bytes@[2 * j],
                    bytes@[2 * j + 1],
                ),
        decreases n - k,
    {
        let s: i16 = decode_sample(bytes[2 * k], bytes[2 * k + 1]);
        samples.push(s);
        k += 1;
    }
    samples
}

/// Encodes samples as bytes, in order.
pub fn encode_samples(samples: &[i16]) -> (bytes: Vec<u8>)
    ensures
        bytes@ == encoded(samples@),
{
    let n: usize = samples.len();
    let mut bytes: Vec<u8> = Vec::new();
    let mut k: usize = 0;
    while k < n
        invariant
            n == samples@.len(),
            k <= n,
            bytes@.len() == 2 * k,
            forall|j: int| 0 <= j < 2 * k ==> #[trigger] bytes@[j] == encoded(samples@)[j],
        decreases n - k,
    {
        let pair: (u8, u8) = encode_sample(samples[k]);
        bytes.push(pair.0);
        bytes.push(pair.1);
        k += 1;
    }
    bytes
}

/// Encoding and then decoding gives the samples back.
pub proof fn lemma_decode_encode(samples: Seq<i16>)
    ensures
        decoded(encoded(samples)) == samples,
{
    let bytes = encoded(samples);
    assert forall|k: int| 0 <= k < samples.len() implies decoded(bytes)[k] == samples[k] by {
        lemma_sample_roundtrip(samples[k]);
    }
    assert(decoded(bytes) =~= samples);
}

/// The two bytes of a sample decode to that sample.
pub proof fn lemma_sample_roundtrip(s: i16)
    ensures
        sample_from_le(sample_lo(s), sample_hi(s)) == s,
{
}

/// Decoding yields one sample per complete byte pair, so an odd last
/// byte changes nothing.
pub proof fn lemma_decode_ignores_odd_byte(bytes: Seq<u8>, last: u8)
    requires
        bytes.len() % 2 == 0,
    ensures
        decoded(bytes.push(last)) == decoded(bytes),
{
    assert(decoded(bytes.push(last)) =~= decoded(bytes));
}

} // verus!
