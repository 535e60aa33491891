//! The binary PPM stream of a quantized framebuffer.
use vstd::prelude::*;

verus! {

/// ASCII codes of the characters that the header uses.
pub const ASCII_P: u8 = 80;
pub const ASCII_SIX: u8 = 54;
pub const ASCII_NEWLINE: u8 = 10;
pub const ASCII_SPACE: u8 = 32;
pub const ASCII_ZERO: u8 = 48;

/// The largest value a channel byte stands for.
pub const MAX_CHANNEL: usize = 255;

/// A pixel with its three channels already quantized to bytes.
#[derive(Debug, Clone, Copy, PartialEq, Eq, Structural)]
pub struct Rgb8 {
    pub r: u8,
    pub g: u8,
    pub b: u8,
}

/// The decimal ASCII digits of `n`, most significant first, without leading zeros.
pub open spec fn decimal(n: nat) -> Seq<u8>
    decreases n,
{
    if n < 10 {
        seq![(ASCII_ZERO + n) as u8]
    } else {
        decimal(n / 10).push((ASCII_ZERO + n % 10) as u8)
    }
}

/// The binary PPM header: the magic line, then width and height in decimal
/// separated by a space, then the largest channel value, each line ending in
/// a newline.
pub open spec fn header_spec(width: nat, height: nat) -> Seq<u8> {
    seq![ASCII_P, ASCII_SIX, ASCII_NEWLINE] + decimal(width) + seq![ASCII_SPACE] + decimal(height)
        + seq![ASCII_NEWLINE] + decimal(MAX_CHANNEL as nat) + seq![ASCII_NEWLINE]
}

/// The pixels' channels in order: red, green, blue of each pixel in turn.
pub open spec fn pixel_bytes(pixels: Seq<Rgb8>) -> Seq<u8>
    decreases pixels.len(),
{
    if pixels.len() == 0 {
        Seq::empty()
    } else {
        let p = pixels.last();
        pixel_bytes(pixels.drop_last()) + seq![p.r, p.g, p.b]
    }
}

/// The whole stream: header, then the pixel bytes.
pub open spec fn ppm_spec(width: nat, height: nat, pixels: Seq<Rgb8>) -> Seq<u8> {
    header_spec(width, height) + pixel_bytes(pixels)
}

/// Appends the decimal digits of `n` to `out`.
fn push_decimal(out: &mut Vec<u8>, n: usize)
    ensures
        final(out)@ == old(out)@ + decimal(n as nat),
    decreases n,
{
    if n >= 10 {
        push_decimal(out, n / 10);
    }
    out.push(ASCII_ZERO + (n % 10) as u8);
}

/// The header of a `width` by `height` image.
pub fn ppm_header(width: usize, height: usize) -> (r: Vec<u8>)
    ensures
        r@ == header_spec(width as nat, height as nat),
{
    let mut r: Vec<u8> = Vec::new();
    r.push(ASCII_P);
    r.push(ASCII_SIX);
    r.push(ASCII_NEWLINE);
    push_decimal(&mut r, width);
    r.push(ASCII_SPACE);
    push_decimal(&mut r, height);
    r.push(ASCII_NEWLINE);
    push_decimal(&mut r, MAX_CHANNEL);
    r.push(ASCII_NEWLINE);
    assert(r@ =~= header_spec(width as nat, height as nat));
    r
}

/// Encodes a framebuffer of quantized pixels, in row-major order, as a binary
/// PPM stream: the header for `width` by `height`, then three bytes per pixel.
pub fn encode_ppm(width: usize, height: usize, pixels: &Vec<Rgb8>) -> (r: Vec<u8>)
    ensures
        r@ == ppm_spec(width as nat, height as nat, pixels@),
{
    let mut r = ppm_header(width, height);
    for i in 0..pixels.len()
        invariant
            r@ == header_spec(width as nat, height as nat) + pixel_bytes(pixels@.take(i as int)),
    {
        let p = pixels[i];
        proof {
            let s = pixels@.take(i + 1);
            assert(s.drop_last() == pixels@.take(i as int));
            assert(s.last() == p);
        }
        r.push(p.r);
        r.push(p.g);
        r.push(p.b);
        assert(r@ =~= header_spec(width as nat, height as nat) + pixel_bytes(pixels@.take(i + 1)));
    }
    assert(pixels@.take(pixels@.len() as int) == pixels@);
    r
}

/// Each pixel takes three bytes.
pub proof fn lemma_pixel_bytes_len(pixels: Seq<Rgb8>)
    ensures
        pixel_bytes(pixels).len() == 3 * pixels.len(),
    decreases pixels.len(),
{
    if pixels.len() > 0 {
        lemma_pixel_bytes_len(pixels.drop_last());
    }
}

/// The stream of a `width` by `height` framebuffer is its header, nine bytes
/// besides the digits of the two sizes, followed by exactly three bytes per pixel.
pub proof fn lemma_ppm_len(width: nat, height: nat, pixels: Seq<Rgb8>)
    requires
        pixels.len() == width * height,
    ensures
        header_spec(width, height).len() == 9 + decimal(width).len() + decimal(height).len(),
        ppm_spec(width, height, pixels).len() == header_spec(width, height).len() + 3 * width
            * height,
{
    assert(decimal(MAX_CHANNEL as nat).len() == 3) by {
        reveal_with_fuel(decimal, 3);
    }
    lemma_pixel_bytes_len(pixels);
    assert(3 * (width * height) == 3 * width * height) by (nonlinear_arith);
}

} // verus!
