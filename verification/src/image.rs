//! Pixels and the plain-text image format.
//!
//! An image is written as a header `P3`, the width and the height, and the
//! largest channel value `255`, each on a line of its own but for the width
//! and the height, which share one; then one line `R G B` per pixel, the top
//! row first.

use crate::fixed::quot;
use crate::fixed::Fixed;
use crate::fixed::SCALE;
use crate::vec3::Vec3;
use vstd::prelude::*;

verus! {

/// Raw representation of `255.99`, the factor that spreads a channel in
/// `[0, 1]` over the 256 levels of a byte.
pub const LEVELS_RAW: i64 = 4_294_799_524;

/// A pixel: red, green and blue, each between 0 and 255.
#[derive(Clone, Copy, Debug, PartialEq, Eq, Structural)]
pub struct Color {
    pub r: u8,
    pub g: u8,
    pub b: u8,
}

/// The byte nearest to the integer part of `x`: zero for a negative
/// number, 255 for a number above 255.
pub open spec fn spec_channel(x: Fixed) -> u8 {
    let whole = quot(x.raw as int, SCALE as int);
    if whole < 0 {
        0u8
    } else if whole > 255 {
        255u8
    } else {
        whole as u8
    }
}

/// Converts a number to a byte, dropping the fraction and saturating.
#[verifier::when_used_as_spec(spec_channel)]
pub fn channel(x: Fixed) -> (c: u8)
    ensures
        c == spec_channel(x),
{
    let whole: i64 = x.trunc();
    if whole < 0 {
        0
    } else if whole > 255 {
        255
    } else {
        whole as u8
    }
}

impl Color {
    /// The pixel with the given channels.
    pub fn new(r: u8, g: u8, b: u8) -> (c: Color)
        ensures
            c == (Color { r, g, b }),
    {
        Color { r, g, b }
    }

    /// The pixel whose channels are the integer parts of the components
    /// of `vec`, saturated to a byte.
    pub open spec fn spec_from_vec3(vec: Vec3) -> Color {
        Color { r: channel(vec.x), g: channel(vec.y), b: channel(vec.z) }
    }

    /// Converts a vector of channel levels to a pixel.
    #[verifier::when_used_as_spec(spec_from_vec3)]
    pub fn from_vec3(vec: Vec3) -> (c: Color)
        ensures
            c == Color::spec_from_vec3(vec),
    {
        Color::new(channel(vec.x), channel(vec.y), channel(vec.z))
    }

    /// The pixel for a colour whose channels lie in `[0, 1]`: each channel
    /// is multiplied by `255.99` and converted to a byte.
    pub open spec fn spec_from_normalized_vec3(vec: Vec3) -> Color {
        Color::from_vec3(vec.scale(Fixed { raw: LEVELS_RAW }))
    }

    /// Converts a colour with channels in `[0, 1]` to a pixel.
    #[verifier::when_used_as_spec(spec_from_normalized_vec3)]
    pub fn from_normalized_vec3(vec: Vec3) -> (c: Color)
        ensures
            c == Color::spec_from_normalized_vec3(vec),
    {
        Color::from_vec3(vec.scale(Fixed::from_raw(LEVELS_RAW)))
    }
}

/// The decimal digits of `n` in ASCII, without leading zeros.
pub open spec fn decimal(n: nat) -> Seq<u8>
    decreases n,
{
    if n < 10 {
        seq![(48 + n) as u8]
    } else {
        decimal(n / 10).push((48 + n % 10) as u8)
    }
}

/// The header of an image of the given size: `"P3\n<cols> <rows>\n255\n"`.
pub open spec fn header(cols: u32, rows: u32) -> Seq<u8> {
    seq![80u8, 51u8, 10u8] + decimal(cols as nat) + seq![32u8] + decimal(rows as nat) + seq![
        10u8,
        50u8,
        53u8,
        53u8,
        10u8,
    ]
}

/// The line of one pixel: `"<r> <g> <b>\n"`.
pub open spec fn pixel_line(c: Color) -> Seq<u8> {
    decimal(c.r as nat) + seq![32u8] + decimal(c.g as nat) + seq![32u8] + decimal(c.b as nat)
        + seq![10u8]
}

/// The lines of the pixels `colors`, in their order.
pub open spec fn pixel_lines(colors: Seq<Color>) -> Seq<u8>
    decreases colors.len(),
{
    if colors.len() == 0 {
        Seq::empty()
    } else {
        pixel_lines(colors.drop_last()) + pixel_line(colors.last())
    }
}

/// Appends the decimal digits of `n` to `out`.
pub fn write_decimal(out: &mut Vec<u8>, n: u32)
    ensures
        final(out)@ == old(out)@ + decimal(n as nat),
    decreases n,
{
    if n >= 10 {
        write_decimal(out, n / 10);
    }
    out.push(48 + (n % 10) as u8);
}

/// Appends the line of the pixel `c` to `out`.
pub fn write_pixel(out: &mut Vec<u8>, c: Color)
    ensures
        final(out)@ == old(out)@ + pixel_line(c),
{
    write_decimal(out, c.r as u32);
    out.push(32);
    write_decimal(out, c.g as u32);
    out.push(32);
    write_decimal(out, c.b as u32);
    out.push(10);
}

/// A finished image: its size and its pixels in row-major order, the top
/// row first.
#[derive(Debug)]
pub struct Output {
    pub rows: u32,
    pub cols: u32,
    pub colors: Vec<Color>,
}

impl Output {
    /// The text of the image: the header, then one line per pixel.
    pub open spec fn spec_encode(&self) -> Seq<u8> {
        header(self.cols, self.rows) + pixel_lines(self.colors@)
    }

    /// Writes the image out as text.
    pub fn encode(&self) -> (text: Vec<u8>)
        ensures
            text@ == self.spec_encode(),
    {
        let mut text: Vec<u8> = Vec::new();
        text.push(80);
        text.push(51);
        text.push(10);
        write_decimal(&mut text, self.cols);
        text.push(32);
        write_decimal(&mut text, self.rows);
        text.push(10);
        text.push(50);
        text.push(53);
        text.push(53);
        text.push(10);
        assert(text@ =~= header(self.cols, self.rows));
        let mut i: usize = 0;
        while i < self.colors.len()
            invariant
                i <= self.colors@.len(),
                text@ == header(self.cols, self.rows) + pixel_lines(self.colors@.take(i as int)),
            decreases self.colors@.len() - i,
        {
            write_pixel(&mut text, self.colors[i]);
            proof {
                let next = self.colors@.take(i + 1);
                assert(next.drop_last() =~= self.colors@.take(i as int));
                assert(next.last() == self.colors@[i as int]);
                assert(text@ =~= header(self.cols, self.rows) + pixel_lines(next));
            }
            i += 1;
        }
        assert(self.colors@.take(i as int) =~= self.colors@);
        text
    }
}

} // verus!
