//! The header of the archive file: canonical 44-byte RIFF/WAVE, PCM.

use crate::config::{BITS_PER_SAMPLE, CHANNELS, SAMPLE_RATE};
use vstd::prelude::*;

verus! {

/// Bytes in the header.
pub const HEADER_LEN: usize = 44;

/// The format tag of linear PCM.
pub const FORMAT_PCM: u16 = 1;

/// Bytes in the format chunk's body.
pub const FORMAT_CHUNK_LEN: u32 = 16;

/// The largest payload length that a header can announce: the length of
/// the whole file after its first eight bytes must fit in 32 bits.
pub const MAX_DATA_LEN: u32 = 0xffff_ffdb;

/// `v` as two bytes, low byte first.
pub open spec fn le16(v: u16) -> Seq<u8> {
    seq![(v % 256) as u8, (v / 256) as u8]
}

/// `v` as four bytes, low byte first.
pub open spec fn le32(v: u32) -> Seq<u8> {
    seq![
        (v % 256) as u8,
        ((v / 256) % 256) as u8,
        ((v / 65536) % 256) as u8,
        (v / 16777216) as u8,
    ]
}

/// The ASCII bytes of `RIFF`.
pub open spec fn tag_riff() -> Seq<u8> {
    seq![0x52u8, 0x49u8, 0x46u8, 0x46u8]
}

/// The ASCII bytes of `WAVEfmt `, the last of them a space.
pub open spec fn tag_wave_fmt() -> Seq<u8> {
    seq![0x57u8, 0x41u8, 0x56u8, 0x45u8, 0x66u8, 0x6du8, 0x74u8, 0x20u8]
}

/// The ASCII bytes of `data`.
pub open spec fn tag_data() -> Seq<u8> {
    seq![0x64u8, 0x61u8, 0x74u8, 0x61u8]
}

/// Bytes in one sample frame across all channels.
pub open spec fn block_align() -> u16 {
    (CHANNELS * (BITS_PER_SAMPLE / 8)) as u16
}

/// Bytes of audio per second.
pub open spec fn byte_rate() -> u32 {
    (SAMPLE_RATE * block_align()) as u32
}

/// The header that announces `data_len` bytes of payload.
pub open spec fn wav_header(data_len: u32) -> Seq<u8> {
    tag_riff() + le32((data_len + HEADER_LEN - 8) as u32) + tag_wave_fmt() + le32(FORMAT_CHUNK_LEN)
        + le16(FORMAT_PCM) + le16(CHANNELS) + le32(SAMPLE_RATE) + le32(byte_rate()) + le16(
        block_align(),
    ) + le16(BITS_PER_SAMPLE) + tag_data() + le32(data_len)
}

/// Appends `v` as two bytes, low byte first.
fn put_le16(writer: &mut Vec<u8>, v: u16)
    ensures
        final(writer)@ == old(writer)@ + le16(v),
{
    writer.push((v % 256) as u8);
    writer.push((v / 256) as u8);
    proof {
        assert(writer@ =~= old(writer)@ + le16(v));
    }
}

/// Appends `v` as four bytes, low byte first.
fn put_le32(writer: &mut Vec<u8>, v: u32)
    ensures
        final(writer)@ == old(writer)@ + le32(v),
{
    writer.push((v % 256) as u8);
    writer.push(((v / 256) % 256) as u8);
    writer.push(((v / 65536) % 256) as u8);
    writer.push((v / 16777216) as u8);
    proof {
        assert(writer@ =~= old(writer)@ + le32(v));
    }
}

/// Appends four bytes in the order given.
fn put_tag(writer: &mut Vec<u8>, a: u8, b: u8, c: u8, d: u8)
    ensures
        final(writer)@ == old(writer)@ + seq![a, b, c, d],
{
    writer.push(a);
    writer.push(b);
    writer.push(c);
    writer.push(d);
    proof {
        assert(writer@ =~= old(writer)@ + seq![a, b, c, d]);
    }
}

/// Appends to `writer` the header that announces `data_len` bytes of
/// payload: 44 bytes, whatever `data_len` is.
pub fn write_wav_header(writer: &mut Vec<u8>, data_len: u32)
    requires
        data_len <= MAX_DATA_LEN,
    ensures
        final(writer)@ == old(writer)@ + wav_header(data_len),
        final(writer)@.len() == old(writer)@.len() + HEADER_LEN,
{
    let block_align: u16 = CHANNELS * (BITS_PER_SAMPLE / 8);
    let byte_rate: u32 = SAMPLE_RATE * (block_align as u32);
    put_tag(writer, 0x52, 0x49, 0x46, 0x46);
    put_le32(writer, data_len + 36);
    put_tag(writer, 0x57, 0x41, 0x56, 0x45);
    put_tag(writer, 0x66, 0x6d, 0x74, 0x20);
    put_le32(writer, FORMAT_CHUNK_LEN);
    put_le16(writer, FORMAT_PCM);
    put_le16(writer, CHANNELS);
    put_le32(writer, SAMPLE_RATE);
    put_le32(writer, byte_rate);
    put_le16(writer, block_align);
    put_le16(writer, BITS_PER_SAMPLE);
    put_tag(writer, 0x64, 0x61, 0x74, 0x61);
    put_le32(writer, data_len);
    proof {
        assert(tag_wave_fmt() =~= seq![0x57u8, 0x41u8, 0x56u8, 0x45u8] + seq![
            0x66u8,
            0x6du8,
            0x74u8,
            0x20u8,
        ]);
        assert(writer@ =~= old(writer)@ + wav_header(data_len));
    }
}

/// The header that a recording starts with: it announces a payload of
/// zero bytes, and nothing corrects it later.
pub fn placeholder_header() -> (header: Vec<u8>)
    ensures
        header@ == wav_header(0),
        header@.len() == HEADER_LEN,
{
    let mut header: Vec<u8> = Vec::with_capacity(HEADER_LEN);
    write_wav_header(&mut header, 0);
    proof {
        assert(header@ =~= wav_header(0));
    }
    header
}

} // verus!
