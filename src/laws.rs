//! What holds across the encoder and the decoder.
use vstd::prelude::*;
use crate::cache::empty_cache;
use crate::decode::{apply_delta, dec_step, dec_tokens, decoded, token_len};
use crate::encode::{
    delta_bias, enc_advance, enc_step, enc_tokens, encoded, lemma_run_from_bounds, run_at, run_from,
    MAX_RUN,
};
use crate::format::{
    FormatError,
    be_bytes, be_value, footer_bytes, gray_token, header_bytes, header_of, index_token, magic,
    run_length_of, run_token, slot_of, tag_of, Tag,
};

verus! {

proof fn lemma_be_value(x: u32)
    ensures
        be_value(be_bytes(x)[0], be_bytes(x)[1], be_bytes(x)[2], be_bytes(x)[3]) == x,
{
    assert((((((x >> 24u32) & 0xffu32) as u8) as u32) << 24u32) | (((((x >> 16u32) & 0xffu32)
        as u8) as u32) << 16u32) | (((((x >> 8u32) & 0xffu32) as u8) as u32) << 8u32) | (((x
        & 0xffu32) as u8) as u32) == x) by (bit_vector);
}

/// Any stream that starts with the header of `width` by `height` reads back
/// those dimensions.
pub proof fn lemma_header_prefix(s: Seq<u8>, width: u32, height: u32)
    requires
        s.len() >= 12,
        s.subrange(0, 12) == header_bytes(width, height),
    ensures
        header_of(s) == Ok::<(u32, u32), FormatError>((width, height)),
{
    let hb = header_bytes(width, height);
    assert forall|j: int| 0 <= j < 12 implies s[j] == hb[j] by {
        assert(s.subrange(0, 12)[j] == s[j]);
    }
    assert(s.subrange(0, 4) =~= magic());
    lemma_be_value(width);
    lemma_be_value(height);
}

/// Reading the header that was written for `width` and `height` gives back
/// exactly `width` and `height`.
pub proof fn lemma_header_round_trip(width: u32, height: u32)
    ensures
        header_of(header_bytes(width, height)) == Ok::<(u32, u32), FormatError>((width, height)),
{
    let hb = header_bytes(width, height);
    assert(hb.subrange(0, 12) =~= hb);
    lemma_header_prefix(hb, width, height);
}

proof fn lemma_run_token(x: u16)
    requires
        x <= 1023,
    ensures
        128 <= run_token(x)[0] < 192,
        run_length_of(run_token(x)[0], run_token(x)[1]) == x,
{
    let b0 = ((x >> 8u16) as u8) | 0x80u8;
    let b1 = x as u8;
    assert(128 <= b0 && b0 < 192) by (bit_vector)
        requires
            x <= 1023,
            b0 == ((x >> 8u16) as u8) | 0x80u8,
    ;
    assert((b0 & 0x3fu8) as u16 * 256 + b1 as u16 == x) by (bit_vector)
        requires
            x <= 1023,
            b0 == ((x >> 8u16) as u8) | 0x80u8,
            b1 == x as u8,
    ;
    assert(b0 & 0x3fu8 == b0 % 64) by (bit_vector);
}

proof fn lemma_small_byte(x: u8)
    requires
        x < 64,
    ensures
        x & 0x3fu8 == x,
        0x40u8 | x == x + 64,
{
    assert(x & 0x3fu8 == x) by (bit_vector)
        requires
            x < 64,
    ;
    assert(0x40u8 | x == x + 64) by (bit_vector)
        requires
            x < 64,
    ;
}

proof fn lemma_step_advances(p: Seq<u8>, k: int, prev: u8, cache: Seq<Option<u8>>)
    requires
        0 <= k < p.len(),
    ensures
        1 <= enc_advance(p, k, prev) <= p.len() - k,
        enc_step(p, k, prev, cache).0.len() >= 1,
{
    lemma_run_from_bounds(p, k, p[k], MAX_RUN as nat);
}

/// Replaying the bytes of one encoder decision through the decoder, from the
/// same previous value and the same cache, consumes exactly those bytes,
/// yields exactly the pixels that the decision covered, leaves the same
/// previous value, and leaves the cache in the same state as the encoder's;
/// in particular a cache reference is resolvable where it was emitted.
pub proof fn lemma_step_replay(
    p: Seq<u8>,
    k: int,
    prev: u8,
    cache: Seq<Option<u8>>,
    s: Seq<u8>,
    i: int,
)
    requires
        0 <= k < p.len(),
        cache.len() == 64,
        0 <= i,
        i + enc_step(p, k, prev, cache).0.len() <= s.len(),
        s.subrange(i, i + enc_step(p, k, prev, cache).0.len()) == enc_step(p, k, prev, cache).0,
    ensures
        token_len(s[i]) == enc_step(p, k, prev, cache).0.len(),
        dec_step(s, i, prev, cache) == Ok::<(Seq<u8>, u8, Seq<Option<u8>>), FormatError>(
            (
                p.subrange(k, k + enc_advance(p, k, prev)),
                p[k],
                enc_step(p, k, prev, cache).1,
            ),
        ),
{
    let (bytes, c) = enc_step(p, k, prev, cache);
    let next = k + enc_advance(p, k, prev);
    let b = p[k];
    let h = slot_of(b);
    lemma_step_advances(p, k, prev, cache);
    assert forall|j: int| 0 <= j < bytes.len() implies s[i + j] == bytes[j] by {
        assert(s.subrange(i, i + bytes.len())[j] == s[i + j]);
    }
    let run = run_at(p, k, prev);
    lemma_run_from_bounds(p, k, b, MAX_RUN as nat);
    if run >= 2 {
        lemma_run_token(run as u16);
        assert(s[i] == bytes[0]);
        assert(s[i + 1] == bytes[1]);
        assert(Seq::new(run_length_of(s[i], s[i + 1]) as nat, |j: int| prev) =~= p.subrange(
            k,
            next,
        ));
    } else if cache[h] is None {
        assert(s[i] == bytes[0]);
        assert(seq![b] =~= p.subrange(k, next));
    } else if cache[h] == Some(b) {
        assert(0 <= h < 64);
        assert((h as usize) as u8 == h as u8);
        lemma_small_byte(h as u8);
        assert(s[i] == bytes[0]);
        assert(s[i] == h);
        assert(seq![b] =~= p.subrange(k, next));
    } else if delta_bias(b, prev) < 64 {
        let bias = delta_bias(b, prev);
        assert(0 <= bias < 64);
        lemma_small_byte(bias as u8);
        assert(s[i] == bytes[0]);
        assert(s[i] == bias + 64);
        assert(apply_delta(prev, bias) == b);
        assert(seq![b] =~= p.subrange(k, next));
    } else {
        assert(s[i] == bytes[0]);
        assert(seq![b] =~= p.subrange(k, next));
    }
}

/// Decoding the token bytes that the encoder emits for the pixels from `k`
/// on, wherever they stand in a stream, yields exactly those pixels.
pub proof fn lemma_tokens_round_trip(
    p: Seq<u8>,
    k: int,
    prev: u8,
    cache: Seq<Option<u8>>,
    s: Seq<u8>,
    i: int,
    end: int,
)
    requires
        0 <= k <= p.len(),
        cache.len() == 64,
        0 <= i <= end <= s.len(),
        s.subrange(i, end) == enc_tokens(p, k, prev, cache),
    ensures
        dec_tokens(s, i, end, prev, cache) == Ok::<Seq<u8>, FormatError>(
            p.subrange(k, p.len() as int),
        ),
    decreases p.len() - k,
{
    if k == p.len() {
        assert(p.subrange(k, p.len() as int) =~= Seq::<u8>::empty());
    } else {
        let (bytes, c) = enc_step(p, k, prev, cache);
        let next = k + enc_advance(p, k, prev);
        let all = enc_tokens(p, k, prev, cache);
        let rest = enc_tokens(p, next, p[k], c);
        lemma_step_advances(p, k, prev, cache);
        assert(all == bytes + rest);
        assert(all.len() == end - i);
        assert(all.subrange(0, bytes.len() as int) =~= bytes);
        assert(s.subrange(i, i + bytes.len()) =~= all.subrange(0, bytes.len() as int));
        lemma_step_replay(p, k, prev, cache, s, i);
        let j = i + bytes.len();
        assert(all.subrange(bytes.len() as int, all.len() as int) =~= rest);
        assert(s.subrange(j, end) =~= all.subrange(bytes.len() as int, all.len() as int));
        lemma_tokens_round_trip(p, next, p[k], c, s, j, end);
        assert(p.subrange(k, next) + p.subrange(next, p.len() as int) =~= p.subrange(
            k,
            p.len() as int,
        ));
    }
}

proof fn lemma_run_from_full(p: Seq<u8>, k: int, v: u8, cap: nat)
    requires
        0 <= k,
        k + cap <= p.len(),
        forall|j: int| k <= j < k + cap ==> p[j] == v,
    ensures
        run_from(p, k, v, cap) == cap,
    decreases cap,
{
    if cap > 0 {
        lemma_run_from_full(p, k + 1, v, (cap - 1) as nat);
    }
}

/// Where at least `MAX_RUN` values from position `k` on all repeat the
/// previous value, the encoder covers exactly `MAX_RUN` of them with one run
/// token, and leaves the rest to the decisions that follow.
pub proof fn lemma_run_cap(p: Seq<u8>, k: int, prev: u8, cache: Seq<Option<u8>>)
    requires
        0 <= k,
        k + MAX_RUN <= p.len(),
        forall|j: int| k <= j < k + MAX_RUN ==> p[j] == prev,
    ensures
        enc_step(p, k, prev, cache).0 == run_token(MAX_RUN as u16),
        enc_advance(p, k, prev) == MAX_RUN,
{
    lemma_run_from_full(p, k, prev, MAX_RUN as nat);
}

/// Every sequence of pixels survives encoding and decoding unchanged, and so
/// do the dimensions in the header.
pub proof fn lemma_round_trip(width: u32, height: u32, p: Seq<u8>)
    ensures
        decoded(encoded(width, height, p)) == Ok::<(u32, u32, Seq<u8>), FormatError>(
            (width, height, p),
        ),
{
    let s = encoded(width, height, p);
    let tokens = enc_tokens(p, 0, 0, empty_cache());
    assert(s.subrange(0, 12) =~= header_bytes(width, height));
    lemma_header_prefix(s, width, height);
    assert(s.subrange(12, s.len() - 8) =~= tokens);
    lemma_tokens_round_trip(p, 0, 0, empty_cache(), s, 12, s.len() - 8);
    assert(p.subrange(0, p.len() as int) =~= p);
}

} // verus!
