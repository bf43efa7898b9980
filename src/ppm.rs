//! Plain-text PPM (`P3`) encoding of an 8-bit RGB raster.
use vstd::prelude::*;

verus! {

/// ASCII code of the digit `d` (`0 <= d < 10`).
pub open spec fn digit_byte(d: nat) -> u8 {
    (48 + d) as u8
}

/// The decimal numeral of `n` in ASCII, most significant digit first, with no
/// leading zeros (`0` is written as one digit).
pub open spec fn decimal(n: nat) -> Seq<u8>
    decreases n,
{
    if n < 10 {
        seq![digit_byte(n)]
    } else {
        decimal(n / 10).push(digit_byte(n % 10))
    }
}

/// Appends the decimal numeral of `n` to `out`.
fn push_decimal(out: &mut Vec<u8>, n: usize)
    ensures
        final(out)@ == old(out)@ + decimal(n as nat),
    decreases n,
{
    if n >= 10 {
        push_decimal(out, n / 10);
    }
    out.push(48u8 + (n % 10) as u8);
    proof {
        assert(old(out)@ + decimal(n as nat) =~= out@);
    }
}

/// One pixel of the output raster, each channel already quantised to a byte.
#[derive(Clone, Copy, Debug, PartialEq, Eq, Structural)]
pub struct Rgb8 {
    pub r: u8,
    pub g: u8,
    pub b: u8,
}

/// The header of a `P3` image: magic number, dimensions, and the largest
/// channel value 255, each on its own line.
pub open spec fn header_text(width: nat, height: nat) -> Seq<u8> {
    seq![80u8, 51u8, 10u8] + decimal(width) + seq![32u8] + decimal(height) + seq![
        10u8,
        50u8,
        53u8,
        53u8,
        10u8,
    ]
}

/// The line of one pixel: its three channels in decimal, separated by spaces.
pub open spec fn pixel_text(p: Rgb8) -> Seq<u8> {
    decimal(p.r as nat) + seq![32u8] + decimal(p.g as nat) + seq![32u8] + decimal(p.b as nat)
        + seq![10u8]
}

/// The lines of a run of pixels, in the order given.
pub open spec fn pixels_text(ps: Seq<Rgb8>) -> Seq<u8>
    decreases ps.len(),
{
    if ps.len() == 0 {
        Seq::empty()
    } else {
        pixels_text(ps.drop_last()) + pixel_text(ps.last())
    }
}

/// Appends the header of a `width` by `height` image to `out`.
pub fn write_header(out: &mut Vec<u8>, width: usize, height: usize)
    ensures
        final(out)@ == old(out)@ + header_text(width as nat, height as nat),
{
    out.push(80u8);
    out.push(51u8);
    out.push(10u8);
    push_decimal(out, width);
    out.push(32u8);
    push_decimal(out, height);
    out.push(10u8);
    out.push(50u8);
    out.push(53u8);
    out.push(53u8);
    out.push(10u8);
    proof {
        assert(old(out)@ + header_text(width as nat, height as nat) =~= out@);
    }
}

/// Appends the line of pixel `p` to `out`.
pub fn write_pixel(out: &mut Vec<u8>, p: Rgb8)
    ensures
        final(out)@ == old(out)@ + pixel_text(p),
{
    push_decimal(out, p.r as usize);
    out.push(32u8);
    push_decimal(out, p.g as usize);
    out.push(32u8);
    push_decimal(out, p.b as usize);
    out.push(10u8);
    proof {
        assert(old(out)@ + pixel_text(p) =~= out@);
    }
}

/// Appends the lines of `ps` to `out`, first pixel first.
pub fn write_pixels(out: &mut Vec<u8>, ps: &Vec<Rgb8>)
    ensures
        final(out)@ == old(out)@ + pixels_text(ps@),
{
    let ghost start = out@;
    let mut k: usize = 0;
    while k < ps.len()
        invariant
            k <= ps@.len(),
            out@ == start + pixels_text(ps@.subrange(0, k as int)),
        decreases ps@.len() - k,
    {
        write_pixel(out, ps[k]);
        proof {
            let done = ps@.subrange(0, k + 1);
            assert(done.drop_last() =~= ps@.subrange(0, k as int));
            assert(start + pixels_text(done) =~= out@);
        }
        k = k + 1;
    }
    proof {
        assert(ps@.subrange(0, k as int) =~= ps@);
    }
}

/// Encoding a raster as two runs of pixels, one after the other, gives the
/// encoding of the whole run: a render may stream its rows as they finish.
pub proof fn lemma_pixels_text_append(a: Seq<Rgb8>, b: Seq<Rgb8>)
    ensures
        pixels_text(a + b) == pixels_text(a) + pixels_text(b),
    decreases b.len(),
{
    if b.len() == 0 {
        assert(a + b =~= a);
        assert(pixels_text(a) + pixels_text(b) =~= pixels_text(a));
    } else {
        lemma_pixels_text_append(a, b.drop_last());
        assert((a + b).drop_last() =~= a + b.drop_last());
        assert((a + b).last() == b.last());
        assert(pixels_text(a + b) =~= pixels_text(a) + pixels_text(b));
    }
}

} // verus!
