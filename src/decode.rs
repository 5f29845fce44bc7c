//! The single-pass decoder.
use vstd::prelude::*;
use crate::cache::{cache_store, empty_cache, BrightnessCache};
use crate::encode::Image;
use crate::format::{
    header_of, read_header, run_length_of, tag_of, tag_of_byte, FormatError, Tag, FOOTER_LEN,
    HEADER_LEN,
};

verus! {

/// `prev + bias - 32` with 8-bit wraparound: the value a delta token yields.
pub open spec fn apply_delta(prev: u8, bias: int) -> u8 {
    let v = prev + bias - 32;
    if v < 0 {
        (v + 256) as u8
    } else if v >= 256 {
        (v - 256) as u8
    } else {
        v as u8
    }
}

/// `out` followed by the pixels of `rest`, or the error of `rest`.
pub open spec fn prepend(out: Seq<u8>, rest: Result<Seq<u8>, FormatError>) -> Result<
    Seq<u8>,
    FormatError,
> {
    match rest {
        Ok(px) => Ok(out + px),
        Err(e) => Err(e),
    }
}

/// The number of bytes of a token whose first byte is `b0`.
pub open spec fn token_len(b0: u8) -> int {
    match tag_of(b0) {
        Tag::Run | Tag::Literal => 2,
        Tag::CacheRef | Tag::Delta => 1,
    }
}

/// One decoder step on the token at position `i`: the pixels it yields, the
/// new previous value and the cache afterwards.
pub open spec fn dec_step(s: Seq<u8>, i: int, prev: u8, cache: Seq<Option<u8>>) -> Result<
    (Seq<u8>, u8, Seq<Option<u8>>),
    FormatError,
> {
    let b0 = s[i];
    match tag_of(b0) {
        Tag::CacheRef => match cache[b0 as int] {
            Some(v) => Ok((seq![v], v, cache)),
            None => Err(FormatError::UnresolvedCacheRef),
        },
        Tag::Delta => {
            let v = apply_delta(prev, b0 - 64);
            Ok((seq![v], v, cache))
        },
        Tag::Run => Ok((Seq::new(run_length_of(b0, s[i + 1]) as nat, |j: int| prev), prev, cache)),
        Tag::Literal => {
            let v = s[i + 1];
            Ok((seq![v], v, cache_store(cache, v)))
        },
    }
}

/// The pixels that the tokens from position `i` up to `end` yield.
pub open spec fn dec_tokens(s: Seq<u8>, i: int, end: int, prev: u8, cache: Seq<Option<u8>>) -> Result<
    Seq<u8>,
    FormatError,
>
    decreases end - i + 1,
{
    if i >= end {
        Ok(Seq::empty())
    } else {
        match dec_step(s, i, prev, cache) {
            Err(e) => Err(e),
            Ok((out, v, c)) => prepend(out, dec_tokens(s, i + token_len(s[i]), end, v, c)),
        }
    }
}

/// What a whole stream decodes to: width, height and pixels, or why it fails.
pub open spec fn decoded(s: Seq<u8>) -> Result<(u32, u32, Seq<u8>), FormatError> {
    match header_of(s) {
        Err(e) => Err(e),
        Ok((w, h)) => match dec_tokens(s, 12, s.len() - 8, 0, empty_cache()) {
            Ok(px) => Ok((w, h, px)),
            Err(e) => Err(e),
        },
    }
}

/// The decoded image as the triple that `decoded` speaks of.
pub open spec fn image_result(r: Result<Image, FormatError>) -> Result<
    (u32, u32, Seq<u8>),
    FormatError,
> {
    match r {
        Ok(img) => Ok((img.width, img.height, img.pixels@)),
        Err(e) => Err(e),
    }
}

proof fn lemma_prepend_assoc(a: Seq<u8>, b: Seq<u8>, r: Result<Seq<u8>, FormatError>)
    ensures
        prepend(a, prepend(b, r)) == prepend(a + b, r),
{
    if let Ok(px) = r {
        assert(a + (b + px) =~= (a + b) + px);
    }
}

/// Decodes a complete stream: header, tokens up to the footer, footer. The
/// footer's bytes are never read as tokens. A cache reference to a slot that
/// no literal has filled is reported as an error rather than aborting.
pub fn decode(bytes: &Vec<u8>) -> (r: Result<Image, FormatError>)
    ensures
        image_result(r) == decoded(bytes@),
{
    let ghost s = bytes@;
    let (width, height) = match read_header(bytes.as_slice()) {
        Ok(dims) => dims,
        Err(e) => {
            return Err(e);
        },
    };
    let end: usize = bytes.len() - FOOTER_LEN;
    let mut buffer: Vec<u8> = Vec::new();
    let mut cache = BrightnessCache::new();
    let mut i: usize = HEADER_LEN;
    let mut prev_brightness: u8 = 0;
    while i < end
        invariant
            s == bytes@,
            end == s.len() - 8,
            12 <= i <= s.len(),
            s.len() <= usize::MAX,
            header_of(s) == Ok::<(u32, u32), FormatError>((width, height)),
            cache.wf(),
            dec_tokens(s, 12, end as int, 0, empty_cache()) == prepend(
                buffer@,
                dec_tokens(s, i as int, end as int, prev_brightness, cache@),
            ),
        decreases s.len() - i,
    {
        let ghost before = buffer@;
        let ghost step = dec_step(s, i as int, prev_brightness, cache@);
        let b0 = bytes[i];
        match tag_of_byte(b0) {
            Tag::Run => {
                let length: usize = ((b0 & 0x3f) as usize) * 256 + bytes[i + 1] as usize;
                assert((b0 & 0x3f) == b0 % 64) by (bit_vector);
                let mut k: usize = 0;
                while k < length
                    invariant
                        k <= length,
                        buffer@ == before + Seq::new(k as nat, |j: int| prev_brightness),
                    decreases length - k,
                {
                    buffer.push(prev_brightness);
                    k = k + 1;
                    assert(buffer@ =~= before + Seq::new(k as nat, |j: int| prev_brightness));
                }
                i = i + 2;
            },
            Tag::Literal => {
                let brightness = bytes[i + 1];
                buffer.push(brightness);
                cache.store(brightness);
                prev_brightness = brightness;
                i = i + 2;
            },
            Tag::CacheRef => {
                match cache.get(b0 as usize) {
                    Some(brightness) => {
                        buffer.push(brightness);
                        prev_brightness = brightness;
                        i = i + 1;
                    },
                    None => {
                        assert(dec_tokens(s, i as int, end as int, prev_brightness, cache@) == Err::<
                            Seq<u8>,
                            FormatError,
                        >(FormatError::UnresolvedCacheRef));
                        return Err(FormatError::UnresolvedCacheRef);
                    },
                }
            },
            Tag::Delta => {
                let v: i32 = prev_brightness as i32 + (b0 - 64) as i32 - 32;
                let brightness: u8 = if v < 0 {
                    (v + 256) as u8
                } else if v >= 256 {
                    (v - 256) as u8
                } else {
                    v as u8
                };
                buffer.push(brightness);
                prev_brightness = brightness;
                i = i + 1;
            },
        }
        proof {
            let out = step->Ok_0.0;
            assert(buffer@ =~= before + out);
            lemma_prepend_assoc(
                before,
                out,
                dec_tokens(s, i as int, end as int, prev_brightness, cache@),
            );
        }
    }
    Ok(Image { width, height, pixels: buffer })
}

} // verus!
