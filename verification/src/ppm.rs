//! The text of a plain-text image file: a header of three lines, then one
//! line of three numbers for each pixel.

use crate::color::Rgb;
use vstd::prelude::*;

verus! {

/// The ASCII digit for a number below ten.
pub open spec fn digit(n: int) -> u8 {
    (48 + n) as u8
}

/// The decimal digits of a natural number, without leading zeros.
pub open spec fn decimal(n: int) -> Seq<u8>
    decreases n,
{
    if n < 10 {
        seq![digit(n)]
    } else {
        decimal(n / 10).push(digit(n % 10))
    }
}

/// The line of a pixel: its red, green and blue levels in decimal, separated
/// by single spaces and ended by a line feed.
pub open spec fn pixel_text(rgb: Rgb) -> Seq<u8> {
    decimal(rgb.r as int) + seq![32u8] + decimal(rgb.g as int) + seq![32u8] + decimal(
        rgb.b as int,
    ) + seq![10u8]
}

/// The header of an image: the line of the two characters that name the
/// format, a capital `P` and the digit three, then the line of width and
/// height, and the line `255` for the largest level.
pub open spec fn header_text(width: int, height: int) -> Seq<u8> {
    seq![80u8, 51u8, 10u8] + decimal(width) + seq![32u8] + decimal(height) + seq![
        10u8,
        50u8,
        53u8,
        53u8,
        10u8,
    ]
}

/// Appends the decimal digits of `n` to `out`.
pub fn push_decimal(out: &mut Vec<u8>, n: u32)
    ensures
        final(out)@ == old(out)@ + decimal(n as int),
    decreases n,
{
    if n < 10 {
        out.push(48 + n as u8);
        assert(out@ =~= old(out)@ + decimal(n as int));
    } else {
        push_decimal(out, n / 10);
        out.push(48 + (n % 10) as u8);
        assert(out@ =~= old(out)@ + decimal(n as int));
    }
}

/// The line of a pixel.
pub fn pixel_line(rgb: Rgb) -> (line: Vec<u8>)
    ensures
        line@ == pixel_text(rgb),
{
    let mut line: Vec<u8> = Vec::new();
    push_decimal(&mut line, rgb.r as u32);
    line.push(32);
    push_decimal(&mut line, rgb.g as u32);
    line.push(32);
    push_decimal(&mut line, rgb.b as u32);
    line.push(10);
    assert(line@ =~= pixel_text(rgb));
    line
}

/// The header of an image of the given size.
pub fn header(width: u32, height: u32) -> (text: Vec<u8>)
    ensures
        text@ == header_text(width as int, height as int),
{
    let mut text: Vec<u8> = Vec::new();
    text.push(80);
    text.push(51);
    text.push(10);
    push_decimal(&mut text, width);
    text.push(32);
    push_decimal(&mut text, height);
    text.push(10);
    text.push(50);
    text.push(53);
    text.push(53);
    text.push(10);
    assert(text@ =~= header_text(width as int, height as int));
    text
}

} // verus!
