//! The image: its raster, the quantisation of a channel, and the plain-text pixel map.
//!
//! The writer is handed, for every pixel, the square roots of its averaged channels, and
//! returns the bytes of the file. Opening the file and tracing the pixels is the caller's.

use crate::scalar::{lemma_floor_below, Scalar, SIGN_BIT};
use crate::vector::Vec3;
use vstd::arithmetic::div_mod::lemma_basic_div;
use vstd::arithmetic::power2::{lemma2_to64, lemma2_to64_rest, lemma_pow2_strictly_increases, pow2};
use vstd::prelude::*;

verus! {

/// The encoding of 0.999, the largest value a channel is let to have before it is
/// scaled to a byte.
pub const CHANNEL_CAP_BITS: u64 = 0x3fef_f7ce_d916_872b;

/// Why an image cannot be set up.
#[derive(Clone, Copy, Debug, PartialEq, Eq, Structural)]
pub enum ImageError {
    /// The image has no columns.
    ZeroWidth,
    /// No sample is taken per pixel.
    ZeroSamples,
}

/// The geometry of an image and the number of samples behind each of its pixels.
#[derive(Clone, Copy, Debug)]
pub struct PPMImageWriter {
    pub image_width: u32,
    pub image_height: u32,
    pub samples_per_pixel: u32,
    pub aspect_ratio: Scalar,
}

/// The decimal digits of a number, in ASCII.
pub open spec fn decimal(n: nat) -> Seq<u8>
    decreases n,
{
    if n < 10 {
        seq![(48 + n) as u8]
    } else {
        decimal(n / 10).push((48 + n % 10) as u8)
    }
}

/// The level of a channel, from 0 to 255: the integer part of 256 times the channel,
/// after the channel was held to `[0, 0.999]`. `root` is the square root of the averaged
/// samples, which is the gamma correction. A NaN gives 0.
pub open spec fn spec_level(root: Scalar) -> nat {
    let held = root.clamp(Scalar::zero(), Scalar { bits: CHANNEL_CAP_BITS });
    if held.is_nan() || held.sign() {
        0
    } else {
        held.floor_scaled(8)
    }
}

/// The line of one pixel: its three levels in decimal, a space between them, and a
/// newline.
pub open spec fn pixel_line(roots: Vec3) -> Seq<u8> {
    decimal(spec_level(roots.x)) + seq![32u8] + decimal(spec_level(roots.y)) + seq![32u8]
        + decimal(spec_level(roots.z)) + seq![10u8]
}

/// The lines of a row of pixels, one after the other.
pub open spec fn pixel_lines(pixels: Seq<Vec3>) -> Seq<u8>
    decreases pixels.len(),
{
    if pixels.len() == 0 {
        Seq::empty()
    } else {
        pixel_lines(pixels.drop_last()) + pixel_line(pixels.last())
    }
}

/// The three header lines: `P3`, width and height, and the largest level.
pub open spec fn header(width: nat, height: nat) -> Seq<u8> {
    seq![80u8, 51u8, 10u8] + decimal(width) + seq![32u8] + decimal(height) + seq![
        10u8,
        50u8,
        53u8,
        53u8,
        10u8,
    ]
}

/// Appends the decimal digits of `n`.
pub fn push_decimal(out: &mut Vec<u8>, n: u32)
    ensures
        final(out)@ == old(out)@ + decimal(n as nat),
    decreases n,
{
    if n >= 10 {
        push_decimal(out, n / 10);
    }
    out.push(48 + (n % 10) as u8);
}

/// The level of a channel, as [`spec_level`] defines it.
pub fn level(root: Scalar) -> (l: u32)
    ensures
        l == spec_level(root),
        l <= 255,
{
    let held = root.clamp(Scalar::zero(), Scalar::from_bits(CHANNEL_CAP_BITS));
    if held.is_nan() || held.to_bits() >= SIGN_BIT {
        0
    } else {
        proof {
            lemma2_to64();
            lemma2_to64_rest();
            let field = held.exponent_field();
            if field == 0 {
                lemma_pow2_strictly_increases(52, 1066);
                lemma_basic_div(held.significand() as int, pow2(1066) as int);
            } else {
                let shift = (1067 - field) as nat;
                if shift > 45 {
                    lemma_pow2_strictly_increases(45, shift);
                }
                lemma_floor_below(held.significand() as int, pow2(shift) as int, 256);
            }
        }
        held.floor_times_pow2(8) as u32
    }
}

/// Appends the line of one pixel.
pub fn write_color(out: &mut Vec<u8>, roots: Vec3)
    ensures
        final(out)@ == old(out)@ + pixel_line(roots),
{
    push_decimal(out, level(roots.x));
    out.push(32);
    push_decimal(out, level(roots.y));
    out.push(32);
    push_decimal(out, level(roots.z));
    out.push(10);
}

impl PPMImageWriter {
    /// Sets up an image of `image_width` columns. `rows` is the width divided by the
    /// aspect ratio, as the caller computed it; its integer part is the height. An image
    /// without columns or without samples is refused, in that order.
    pub fn new(image_width: u32, aspect_ratio: Scalar, rows: Scalar, samples_per_pixel: u32) -> (r: Result<
        Self,
        ImageError,
    >)
        ensures
            image_width == 0 ==> r == Err::<Self, ImageError>(ImageError::ZeroWidth),
            image_width != 0 && samples_per_pixel == 0 ==> r == Err::<Self, ImageError>(
                ImageError::ZeroSamples,
            ),
            image_width != 0 && samples_per_pixel != 0 ==> r == Ok::<Self, ImageError>(
                PPMImageWriter {
                    image_width,
                    image_height: rows.truncate(),
                    samples_per_pixel,
                    aspect_ratio,
                },
            ),
    {
        if image_width == 0 {
            Err(ImageError::ZeroWidth)
        } else if samples_per_pixel == 0 {
            Err(ImageError::ZeroSamples)
        } else {
            Ok(Self { image_width, image_height: rows.truncate(), samples_per_pixel, aspect_ratio })
        }
    }

    /// The number of pixels.
    pub open spec fn spec_pixel_count(&self) -> nat {
        (self.image_width * self.image_height) as nat
    }

    /// The number of pixels.
    pub fn pixel_count(&self) -> (n: u64)
        ensures
            n == self.spec_pixel_count(),
    {
        assert(self.image_width * self.image_height <= u64::MAX) by (nonlinear_arith)
            requires
                self.image_width <= u32::MAX,
                self.image_height <= u32::MAX,
        ;
        self.image_width as u64 * self.image_height as u64
    }

    /// Where the pixel at place `idx` of the raster lies. The raster runs through the
    /// rows from the top, and through each row from the left. The pair is `(j, i)`: `i`
    /// is the column, and `j` counts the rows from the bottom, the top row being row
    /// `image_height`.
    pub fn pixel_coordinates(&self, idx: u64) -> (at: (u32, u32))
        requires
            idx < self.spec_pixel_count(),
        ensures
            at.0 == self.image_height - idx / (self.image_width as u64),
            at.1 == idx % (self.image_width as u64),
            1 <= at.0 <= self.image_height,
            at.1 < self.image_width,
            (self.image_height - at.0) * self.image_width + at.1 == idx,
    {
        let width = self.image_width as u64;
        let height = self.image_height as u64;
        assert(width > 0 && idx / width < height && (idx / width) * width + idx % width == idx)
            by (nonlinear_arith)
            requires
                0 <= idx < width * height,
        ;
        ((height - idx / width) as u32, (idx % width) as u32)
    }

    /// The file: the header and, in raster order, the line of every pixel.
    pub open spec fn file(&self, pixels: Seq<Vec3>) -> Seq<u8> {
        header(self.image_width as nat, self.image_height as nat) + pixel_lines(pixels)
    }

    /// The bytes of the image file. `pixels` holds, in raster order, the square roots of
    /// the averaged channels of every pixel.
    pub fn write(&self, pixels: &Vec<Vec3>) -> (out: Vec<u8>)
        requires
            pixels.len() == self.spec_pixel_count(),
        ensures
            out@ == self.file(pixels@),
    {
        let mut out: Vec<u8> = Vec::new();
        out.push(80);
        out.push(51);
        out.push(10);
        push_decimal(&mut out, self.image_width);
        out.push(32);
        push_decimal(&mut out, self.image_height);
        out.push(10);
        out.push(50);
        out.push(53);
        out.push(53);
        out.push(10);
        assert(out@ == header(self.image_width as nat, self.image_height as nat));
        let mut i: usize = 0;
        while i < pixels.len()
            invariant
                i <= pixels.len(),
                out@ == self.file(pixels@.take(i as int)),
            decreases pixels.len() - i,
        {
            proof {
                assert(pixels@.take(i + 1).drop_last() == pixels@.take(i as int));
            }
            write_color(&mut out, pixels[i]);
            i += 1;
        }
        proof {
            assert(pixels@.take(i as int) == pixels@);
        }
        out
    }
}

} // verus!
