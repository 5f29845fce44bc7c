//! The greedy single-pass encoder.
use vstd::prelude::*;
use crate::cache::{cache_store, empty_cache, BrightnessCache};
use crate::format::{
    fmi_op_difference, fmi_op_gray, fmi_op_index, fmi_op_run, footer_bytes, gray_token,
    header_bytes, index_token, pos_hash, run_token, slot_of, write_fmi_header, write_footer,
};

verus! {

/// The longest run that the encoder emits as one token.
pub const MAX_RUN: usize = 1023;

/// A grayscale image: one brightness per pixel, row by row.
pub struct Image {
    pub width: u32,
    pub height: u32,
    pub pixels: Vec<u8>,
}

/// How many values from position `k` on equal `v`, counting at most `cap`.
pub open spec fn run_from(p: Seq<u8>, k: int, v: u8, cap: nat) -> nat
    decreases cap,
{
    if cap == 0 || k < 0 || k >= p.len() || p[k] != v {
        0
    } else {
        1 + run_from(p, k + 1, v, (cap - 1) as nat)
    }
}

/// `b - prev` with 8-bit wraparound, plus the bias 32, taken modulo 256:
/// below 64 exactly when the difference lies in `[-32, 31]`.
pub open spec fn delta_bias(b: u8, prev: u8) -> int {
    let d = b - prev + 32;
    if d < 0 {
        d + 256
    } else if d >= 256 {
        d - 256
    } else {
        d
    }
}

/// A delta token carrying the biased difference `bias`.
pub open spec fn delta_token(bias: int) -> Seq<u8> {
    seq![0x40u8 | (bias as u8)]
}

/// The run that the encoder finds at position `k` after value `prev`: the
/// equal values from `k` on, at most `MAX_RUN`, when `p[k]` repeats `prev`.
pub open spec fn run_at(p: Seq<u8>, k: int, prev: u8) -> nat {
    if p[k] == prev {
        run_from(p, k, prev, MAX_RUN as nat)
    } else {
        0
    }
}

/// How many pixels the encoder's decision at position `k` covers.
pub open spec fn enc_advance(p: Seq<u8>, k: int, prev: u8) -> int {
    if run_at(p, k, prev) >= 2 {
        run_at(p, k, prev) as int
    } else {
        1
    }
}

/// One encoder decision at position `k`, after value `prev`, with cache
/// `cache`: the bytes emitted and the cache afterwards.
pub open spec fn enc_step(p: Seq<u8>, k: int, prev: u8, cache: Seq<Option<u8>>) -> (
    Seq<u8>,
    Seq<Option<u8>>,
) {
    let b = p[k];
    let h = slot_of(b);
    if run_at(p, k, prev) >= 2 {
        (run_token(run_at(p, k, prev) as u16), cache)
    } else if cache[h] is None {
        (gray_token(b), cache_store(cache, b))
    } else if cache[h] == Some(b) {
        (index_token(h as usize), cache)
    } else if delta_bias(b, prev) < 64 {
        (delta_token(delta_bias(b, prev)), cache)
    } else {
        (gray_token(b), cache_store(cache, b))
    }
}

/// The token bytes for the pixels from position `k` on.
pub open spec fn enc_tokens(p: Seq<u8>, k: int, prev: u8, cache: Seq<Option<u8>>) -> Seq<u8>
    decreases p.len() - k
    via enc_tokens_decreases
{
    if k < 0 || k >= p.len() {
        Seq::empty()
    } else {
        let (bytes, c) = enc_step(p, k, prev, cache);
        bytes + enc_tokens(p, k + enc_advance(p, k, prev), p[k], c)
    }
}

#[via_fn]
proof fn enc_tokens_decreases(p: Seq<u8>, k: int, prev: u8, cache: Seq<Option<u8>>) {
    if 0 <= k < p.len() {
        lemma_run_from_bounds(p, k, prev, MAX_RUN as nat);
    }
}

/// The whole stream for an image: header, tokens, footer.
pub open spec fn encoded(width: u32, height: u32, p: Seq<u8>) -> Seq<u8> {
    header_bytes(width, height) + enc_tokens(p, 0, 0, empty_cache()) + footer_bytes()
}

/// A run counted from `k` stays within the sequence, within `cap`, and
/// covers only values equal to `v`.
pub proof fn lemma_run_from_bounds(p: Seq<u8>, k: int, v: u8, cap: nat)
    requires
        0 <= k,
    ensures
        run_from(p, k, v, cap) <= cap,
        k + run_from(p, k, v, cap) <= p.len() || run_from(p, k, v, cap) == 0,
        forall|j: int| k <= j < k + run_from(p, k, v, cap) ==> p[j] == v,
    decreases cap,
{
    if cap > 0 && k < p.len() && p[k] == v {
        lemma_run_from_bounds(p, k + 1, v, (cap - 1) as nat);
    }
}

fn count_run(pixels: &Vec<u8>, start: usize, v: u8) -> (r: usize)
    requires
        start <= pixels@.len(),
    ensures
        r as int == run_from(pixels@, start as int, v, MAX_RUN as nat),
        r <= MAX_RUN,
        start + r <= pixels@.len(),
{
    let mut j: usize = start;
    let mut r: usize = 0;
    while j < pixels.len() && pixels[j] == v && r < MAX_RUN
        invariant
            start <= j <= pixels@.len(),
            r == j - start,
            r <= MAX_RUN,
            run_from(pixels@, start as int, v, MAX_RUN as nat) == r + run_from(
                pixels@,
                j as int,
                v,
                (MAX_RUN - r) as nat,
            ),
        decreases pixels@.len() - j,
    {
        j = j + 1;
        r = r + 1;
    }
    r
}

/// Encodes an image into a complete stream: header, tokens and footer.
pub fn encode(image: &Image) -> (r: Vec<u8>)
    ensures
        r@ == encoded(image.width, image.height, image.pixels@),
{
    let pixels = &image.pixels;
    let ghost p = pixels@;
    let mut data_stream: Vec<u8> = Vec::new();
    write_fmi_header(&mut data_stream, image.width, image.height);
    let ghost hdr = data_stream@;
    let mut cache = BrightnessCache::new();
    let mut i: usize = 0;
    let mut prev_brightness: u8 = 0;
    while i < pixels.len()
        invariant
            i <= p.len(),
            p == pixels@,
            cache.wf(),
            hdr == header_bytes(image.width, image.height),
            hdr + enc_tokens(p, 0, 0, empty_cache()) == data_stream@ + enc_tokens(
                p,
                i as int,
                prev_brightness,
                cache@,
            ),
        decreases p.len() - i,
    {
        let ghost before = data_stream@;
        let brightness = pixels[i];
        let hash_index = pos_hash(brightness);
        let ghost step = enc_step(p, i as int, prev_brightness, cache@);
        let ghost next = i + enc_advance(p, i as int, prev_brightness);
        let ghost rest = enc_tokens(p, next, brightness, step.1);
        let run: usize = if brightness == prev_brightness {
            count_run(pixels, i, brightness)
        } else {
            0
        };
        if run >= 2 {
            fmi_op_run(&mut data_stream, run as u16);
            i = i + run;
        } else {
            let slot = cache.get(hash_index);
            if slot.is_none() {
                cache.store(brightness);
                fmi_op_gray(&mut data_stream, brightness);
            } else if slot == Some(brightness) {
                fmi_op_index(&mut data_stream, hash_index);
            } else {
                let d: i32 = brightness as i32 - prev_brightness as i32 + 32;
                let bias: i32 = if d < 0 {
                    d + 256
                } else if d >= 256 {
                    d - 256
                } else {
                    d
                };
                if bias < 64 {
                    fmi_op_difference(&mut data_stream, 0x40u8 | (bias as u8));
                } else {
                    cache.store(brightness);
                    fmi_op_gray(&mut data_stream, brightness);
                }
            }
            i = i + 1;
        }
        prev_brightness = brightness;
        assert(data_stream@ == before + step.0);
        assert(i == next);
        assert(before + (step.0 + rest) == (before + step.0) + rest);
    }
    write_footer(&mut data_stream);
    proof {
        assert(enc_tokens(p, i as int, prev_brightness, cache@) == Seq::<u8>::empty());
        assert(data_stream@ =~= encoded(image.width, image.height, p));
    }
    data_stream
}

} // verus!
