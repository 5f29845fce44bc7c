//! The byte layout of a stream: header, tokens and footer.
use vstd::prelude::*;

verus! {

/// Why a byte stream could not be decoded.
#[derive(PartialEq, Eq, Structural, Debug, Clone, Copy)]
pub enum FormatError {
    /// The stream is shorter than the 12-byte header.
    Truncated,
    /// The first four bytes are not the magic tag `fmif`.
    BadMagic,
    /// A cache reference names a slot that no literal has filled yet.
    UnresolvedCacheRef,
}

/// The kind of a token, given by the top two bits of its first byte.
#[derive(PartialEq, Eq, Structural, Debug, Clone, Copy)]
pub enum Tag {
    /// `00`: one byte naming a cache slot.
    CacheRef,
    /// `01`: one byte holding a difference in `[-32, 31]`, biased by 32.
    Delta,
    /// `10`: two bytes holding a 14-bit repeat count.
    Run,
    /// `11`: two bytes, the second one the brightness itself.
    Literal,
}

/// Number of bytes in the header.
pub const HEADER_LEN: usize = 12;

/// Number of bytes in the footer.
pub const FOOTER_LEN: usize = 8;

/// The four magic bytes `"fmif"`.
pub open spec fn magic() -> Seq<u8> {
    seq![0x66u8, 0x6du8, 0x69u8, 0x66u8]
}

/// The big-endian bytes of `x`.
pub open spec fn be_bytes(x: u32) -> Seq<u8> {
    seq![
        ((x >> 24u32) & 0xffu32) as u8,
        ((x >> 16u32) & 0xffu32) as u8,
        ((x >> 8u32) & 0xffu32) as u8,
        (x & 0xffu32) as u8,
    ]
}

/// The integer whose big-endian bytes are `b0 b1 b2 b3`.
pub open spec fn be_value(b0: u8, b1: u8, b2: u8, b3: u8) -> u32 {
    ((b0 as u32) << 24u32) | ((b1 as u32) << 16u32) | ((b2 as u32) << 8u32) | (b3 as u32)
}

/// The header of an image of `width` by `height` pixels.
pub open spec fn header_bytes(width: u32, height: u32) -> Seq<u8> {
    magic() + be_bytes(width) + be_bytes(height)
}

/// What the header at the start of `s` says: the dimensions, or why it is rejected.
pub open spec fn header_of(s: Seq<u8>) -> Result<(u32, u32), FormatError> {
    if s.len() < 12 {
        Err(FormatError::Truncated)
    } else if s.subrange(0, 4) != magic() {
        Err(FormatError::BadMagic)
    } else {
        Ok((be_value(s[4], s[5], s[6], s[7]), be_value(s[8], s[9], s[10], s[11])))
    }
}

/// The end-of-stream sentinel: seven zero bytes and a one.
pub open spec fn footer_bytes() -> Seq<u8> {
    seq![0u8, 0u8, 0u8, 0u8, 0u8, 0u8, 0u8, 1u8]
}

/// The cache slot of a brightness: its top six bits.
pub open spec fn slot_of(brightness: u8) -> int {
    brightness as int / 4
}

/// A cache reference token naming slot `index`.
pub open spec fn index_token(index: usize) -> Seq<u8> {
    seq![(index as u8) & 0x3fu8]
}

/// A literal token for `brightness`.
pub open spec fn gray_token(brightness: u8) -> Seq<u8> {
    seq![0xffu8, brightness]
}

/// A run token repeating the previous value `run` times.
pub open spec fn run_token(run: u16) -> Seq<u8> {
    seq![((run >> 8u16) as u8) | 0x80u8, run as u8]
}

/// The tag that the top two bits of `b` select.
pub open spec fn tag_of(b: u8) -> Tag {
    if b < 64 {
        Tag::CacheRef
    } else if b < 128 {
        Tag::Delta
    } else if b < 192 {
        Tag::Run
    } else {
        Tag::Literal
    }
}

/// The repeat count held by a run token with bytes `b0 b1`.
pub open spec fn run_length_of(b0: u8, b1: u8) -> int {
    (b0 as int % 64) * 256 + b1 as int
}

/// The cache slot of `brightness`, its top six bits.
pub fn pos_hash(brightness: u8) -> (r: usize)
    ensures
        r as int == slot_of(brightness),
        r < 64,
{
    let hash_index = brightness >> 2u8;
    assert(brightness >> 2u8 == brightness / 4) by (bit_vector);
    hash_index as usize
}

/// Appends a cache reference token naming slot `index` (its low six bits).
pub fn fmi_op_index(data_stream: &mut Vec<u8>, index: usize)
    ensures
        final(data_stream)@ == old(data_stream)@ + index_token(index),
{
    data_stream.push(index as u8 & 0x3f);
    assert(final(data_stream)@ =~= old(data_stream)@ + index_token(index));
}

/// Appends a delta token, whose single byte is `diff_byte`.
pub fn fmi_op_difference(data_stream: &mut Vec<u8>, diff_byte: u8)
    ensures
        final(data_stream)@ == old(data_stream)@.push(diff_byte),
{
    data_stream.push(diff_byte);
}

/// Appends a literal token for `brightness`.
pub fn fmi_op_gray(data_stream: &mut Vec<u8>, brightness: u8)
    ensures
        final(data_stream)@ == old(data_stream)@ + gray_token(brightness),
{
    data_stream.push(0xFF);
    data_stream.push(brightness);
    assert(final(data_stream)@ =~= old(data_stream)@ + gray_token(brightness));
}

/// Appends a run token for a repeat count of `run`.
pub fn fmi_op_run(data_stream: &mut Vec<u8>, run: u16)
    ensures
        final(data_stream)@ == old(data_stream)@ + run_token(run),
{
    let left_byte = ((run >> 8u16) as u8) | 0b10000000u8;
    let right_byte = run as u8;
    data_stream.push(left_byte);
    data_stream.push(right_byte);
    assert(final(data_stream)@ =~= old(data_stream)@ + run_token(run));
}

fn push_be_u32(data_stream: &mut Vec<u8>, x: u32)
    ensures
        final(data_stream)@ == old(data_stream)@ + be_bytes(x),
{
    data_stream.push(((x >> 24u32) & 0xff) as u8);
    data_stream.push(((x >> 16u32) & 0xff) as u8);
    data_stream.push(((x >> 8u32) & 0xff) as u8);
    data_stream.push((x & 0xff) as u8);
    assert(final(data_stream)@ =~= old(data_stream)@ + be_bytes(x));
}

/// Appends the header of an image of `width` by `height` pixels.
pub fn write_fmi_header(data_stream: &mut Vec<u8>, width: u32, height: u32)
    ensures
        final(data_stream)@ == old(data_stream)@ + header_bytes(width, height),
{
    data_stream.push(0x66);
    data_stream.push(0x6d);
    data_stream.push(0x69);
    data_stream.push(0x66);
    assert(data_stream@ =~= old(data_stream)@ + magic());
    push_be_u32(data_stream, width);
    push_be_u32(data_stream, height);
    assert(final(data_stream)@ =~= old(data_stream)@ + header_bytes(width, height));
}

/// Appends the footer that ends every stream.
pub fn write_footer(data_stream: &mut Vec<u8>)
    ensures
        final(data_stream)@ == old(data_stream)@ + footer_bytes(),
{
    let mut k: usize = 0;
    while k < 7
        invariant
            k <= 7,
            data_stream@ == old(data_stream)@ + Seq::new(k as nat, |j: int| 0u8),
        decreases 7 - k,
    {
        data_stream.push(0x00);
        k = k + 1;
        assert(data_stream@ =~= old(data_stream)@ + Seq::new(k as nat, |j: int| 0u8));
    }
    data_stream.push(0x01);
    assert(final(data_stream)@ =~= old(data_stream)@ + footer_bytes());
}

/// Reads the dimensions from the header at the start of `bytes`.
pub fn read_header(bytes: &[u8]) -> (r: Result<(u32, u32), FormatError>)
    ensures
        r == header_of(bytes@),
{
    if bytes.len() < HEADER_LEN {
        return Err(FormatError::Truncated);
    }
    if !(bytes[0] == 0x66 && bytes[1] == 0x6d && bytes[2] == 0x69 && bytes[3] == 0x66) {
        assert(bytes@.subrange(0, 4)[0] == bytes@[0]);
        assert(bytes@.subrange(0, 4)[1] == bytes@[1]);
        assert(bytes@.subrange(0, 4)[2] == bytes@[2]);
        assert(bytes@.subrange(0, 4)[3] == bytes@[3]);
        return Err(FormatError::BadMagic);
    }
    assert(bytes@.subrange(0, 4) =~= magic());
    let width = ((bytes[4] as u32) << 24u32) | ((bytes[5] as u32) << 16u32) | ((bytes[6] as u32)
        << 8u32) | (bytes[7] as u32);
    let height = ((bytes[8] as u32) << 24u32) | ((bytes[9] as u32) << 16u32) | ((bytes[10] as u32)
        << 8u32) | (bytes[11] as u32);
    Ok((width, height))
}

/// The tag of a token whose first byte is `b`.
pub fn tag_of_byte(b: u8) -> (r: Tag)
    ensures
        r == tag_of(b),
{
    let bits = b >> 6u8;
    assert(bits == b / 64) by (bit_vector)
        requires
            bits == b >> 6u8,
    ;
    if bits == 0 {
        Tag::CacheRef
    } else if bits == 1 {
        Tag::Delta
    } else if bits == 2 {
        Tag::Run
    } else {
        Tag::Literal
    }
}

} // verus!
