//! The plain-text PPM image format.
use vstd::prelude::*;
use crate::render::{quantize, quantize_spec, unit_color};
use crate::vec3::Vec3;

verus! {

/// The decimal digits of `n`, most significant first.
pub open spec fn decimal(n: nat) -> Seq<u8>
    decreases n,
{
    if n < 10 {
        seq![(48 + n) as u8]
    } else {
        decimal(n / 10).push((48 + n % 10) as u8)
    }
}

/// `P3`, then `<width> <height>`, then the largest channel value `255`, one
/// per line.
pub open spec fn header_spec(width: nat, height: nat) -> Seq<u8> {
    seq![80u8, 51u8, 10u8] + decimal(width) + seq![32u8] + decimal(height) + seq![10u8, 50u8, 53u8, 53u8, 10u8]
}

/// One pixel's line: its three 8-bit channels, separated by spaces.
pub open spec fn pixel_line_spec(c: Vec3) -> Seq<u8> {
    decimal(quantize_spec(c.x as int) as nat) + seq![32u8] + decimal(quantize_spec(c.y as int) as nat)
        + seq![32u8] + decimal(quantize_spec(c.z as int) as nat) + seq![10u8]
}

/// One line per pixel, in order.
pub open spec fn lines_spec(pixels: Seq<Vec3>) -> Seq<u8>
    decreases pixels.len(),
{
    if pixels.len() == 0 {
        Seq::empty()
    } else {
        lines_spec(pixels.drop_last()) + pixel_line_spec(pixels.last())
    }
}

/// Appends the decimal digits of `n`.
pub fn push_decimal(buf: &mut Vec<u8>, n: u64)
    ensures
        final(buf)@ == old(buf)@ + decimal(n as nat),
    decreases n,
{
    if n >= 10 {
        push_decimal(buf, n / 10);
    }
    buf.push((48 + n % 10) as u8);
    proof {
        if n < 10 {
            assert(decimal(n as nat) =~= seq![(48 + n) as u8]);
        }
    }
    assert(final(buf)@ =~= old(buf)@ + decimal(n as nat));
}

/// The header of a `width` by `height` image.
pub fn ppm_header(width: u32, height: u32) -> (r: Vec<u8>)
    ensures
        r@ == header_spec(width as nat, height as nat),
{
    let mut r: Vec<u8> = Vec::new();
    r.push(80u8);
    r.push(51u8);
    r.push(10u8);
    push_decimal(&mut r, width as u64);
    r.push(32u8);
    push_decimal(&mut r, height as u64);
    r.push(10u8);
    r.push(50u8);
    r.push(53u8);
    r.push(53u8);
    r.push(10u8);
    assert(r@ =~= header_spec(width as nat, height as nat));
    r
}

/// Appends the line of one pixel.
pub fn push_pixel(buf: &mut Vec<u8>, c: Vec3)
    requires
        unit_color(c),
    ensures
        final(buf)@ == old(buf)@ + pixel_line_spec(c),
{
    push_decimal(buf, quantize(c.x));
    buf.push(32u8);
    push_decimal(buf, quantize(c.y));
    buf.push(32u8);
    push_decimal(buf, quantize(c.z));
    buf.push(10u8);
    assert(final(buf)@ =~= old(buf)@ + pixel_line_spec(c));
}

/// The whole image file: the header, then exactly `width * height` lines of
/// three channel values in `[0, 255]`, in the order of `pixels`.
pub fn ppm_image(width: u32, height: u32, pixels: &Vec<Vec3>) -> (r: Vec<u8>)
    requires
        pixels@.len() == width * height,
        forall|k: int| 0 <= k < pixels@.len() ==> unit_color(#[trigger] pixels@[k]),
    ensures
        r@ == header_spec(width as nat, height as nat) + lines_spec(pixels@),
{
    let mut r = ppm_header(width, height);
    let mut k: usize = 0;
    while k < pixels.len()
        invariant
            k <= pixels@.len(),
            forall|k: int| 0 <= k < pixels@.len() ==> unit_color(#[trigger] pixels@[k]),
            r@ == header_spec(width as nat, height as nat) + lines_spec(pixels@.take(k as int)),
        decreases pixels@.len() - k,
    {
        proof {
            let next = pixels@.take(k as int + 1);
            assert(next.drop_last() =~= pixels@.take(k as int));
            assert(next.last() == pixels@[k as int]);
        }
        push_pixel(&mut r, pixels[k]);
        assert(r@ =~= header_spec(width as nat, height as nat) + lines_spec(pixels@.take(k as int + 1)));
        k = k + 1;
    }
    assert(pixels@.take(k as int) =~= pixels@);
    r
}

} // verus!
