//! Conversions between colour pixels and brightness values.
use vstd::prelude::*;

verus! {

/// The brightness of a colour: a weighted sum of its channels, truncated.
pub open spec fn luma(red: u8, green: u8, blue: u8) -> int {
    (red * 30 + green * 59 + blue * 11) / 100
}

/// A brightness replicated into the red, green and blue bytes of a `0RGB` word.
pub open spec fn rgb_word(brightness: u8) -> int {
    brightness * 65536 + brightness * 256 + brightness
}

/// The brightness of one colour pixel.
pub fn grayscale(red: u8, green: u8, blue: u8) -> (r: u8)
    ensures
        r as int == luma(red, green, blue),
{
    let r = red as u32;
    let g = green as u32;
    let b = blue as u32;
    let brightness = (r * 30 + g * 59 + b * 11) / 100;
    brightness as u8
}

/// The brightness of each whole pixel of a row-major buffer of three bytes per
/// pixel; trailing bytes that make no whole pixel are ignored.
pub fn rgb_to_brightness(rgb: &Vec<u8>) -> (r: Vec<u8>)
    ensures
        r@.len() == rgb@.len() / 3,
        forall|j: int|
            0 <= j < r@.len() ==> r@[j] as int == luma(
                rgb@[3 * j],
                rgb@[3 * j + 1],
                rgb@[3 * j + 2],
            ),
{
    let len = rgb.len();
    let n = len / 3;
    let mut out: Vec<u8> = Vec::new();
    let mut i: usize = 0;
    while i < n
        invariant
            len == rgb@.len(),
            n == len / 3,
            i <= n,
            out@.len() == i,
            forall|j: int|
                0 <= j < i ==> out@[j] as int == luma(
                    rgb@[3 * j],
                    rgb@[3 * j + 1],
                    rgb@[3 * j + 2],
                ),
        decreases n - i,
    {
        assert(3 * i + 2 < rgb@.len()) by (nonlinear_arith)
            requires
                i < n,
                n == len / 3,
                len == rgb@.len(),
        ;
        out.push(grayscale(rgb[3 * i], rgb[3 * i + 1], rgb[3 * i + 2]));
        i = i + 1;
    }
    out
}

/// Each brightness as a `0RGB` word with all three channels equal, the form
/// that a frame buffer for display takes.
pub fn to_rgb_buffer(pixels: &Vec<u8>) -> (r: Vec<u32>)
    ensures
        r@.len() == pixels@.len(),
        forall|j: int| 0 <= j < r@.len() ==> r@[j] as int == rgb_word(pixels@[j]),
{
    let mut out: Vec<u32> = Vec::new();
    let mut i: usize = 0;
    while i < pixels.len()
        invariant
            i <= pixels@.len(),
            out@.len() == i,
            forall|j: int| 0 <= j < i ==> out@[j] as int == rgb_word(pixels@[j]),
        decreases pixels@.len() - i,
    {
        let b = pixels[i] as u32;
        out.push(b * 65536 + b * 256 + b);
        i = i + 1;
    }
    out
}

/// The frame shown after frame `current` of `count`, wrapping to the first
/// after the last.
pub fn next_frame(current: usize, count: usize) -> (r: usize)
    requires
        current < count,
    ensures
        r as int == (current + 1) % (count as int),
{
    if current == count - 1 {
        assert((current + 1) % (count as int) == 0) by (nonlinear_arith)
            requires
                current + 1 == count,
                count > 0,
        ;
        0
    } else {
        assert((current + 1) % (count as int) == current + 1) by (nonlinear_arith)
            requires
                current + 1 < count,
        ;
        current + 1
    }
}

} // verus!
