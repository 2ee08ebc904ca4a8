//! Dithering for photo engraving: grey scale → 1 bit. Convention as in the
//! raster path: 0 = burn (dark), 255 = skip (light).
//!
//! The ordered (Bayer) method and the threshold fallback are exact integer
//! rules and live here; the error-diffusion methods work on floating-point
//! error buffers and are run by the caller.

use vstd::prelude::*;

use crate::geometry::ImageMode;

verus! {

/// Is the mode a dither method (grey → dot pattern)? `Grayscale` and
/// `Threshold` are not.
pub open spec fn spec_is_dither(mode: ImageMode) -> bool {
    !(mode is Grayscale || mode is Threshold)
}

/// Whether a mode is a dither method.
pub fn is_dither(mode: ImageMode) -> (r: bool)
    ensures
        r == spec_is_dither(mode),
{
    !matches!(mode, ImageMode::Grayscale | ImageMode::Threshold)
}

/// The 4×4 Bayer matrix, row-major.
pub const BAYER4: [u32; 16] = [0, 8, 2, 10, 12, 4, 14, 6, 3, 11, 1, 9, 15, 7, 13, 5];

/// Bayer matrix entry for pixel column `x` and row `y`.
pub open spec fn bayer_entry(x: nat, y: nat) -> nat {
    BAYER4[((y % 4) * 4 + x % 4) as int] as nat
}

/// Ordered dithering of one pixel: light when the pixel reaches the position's
/// threshold `(entry + 0.5) / 16 · 255`, i.e. `32 · p ≥ (2 · entry + 1) · 255`.
pub open spec fn bayer_pixel(p: u8, x: nat, y: nat) -> u8 {
    if 32 * p >= (2 * bayer_entry(x, y) + 1) * 255 {
        255
    } else {
        0
    }
}

/// Dimensions fit the pixel buffer and are not empty.
pub open spec fn fits(len: nat, w: nat, h: nat) -> bool {
    len == w * h && w > 0 && h > 0
}

/// Checks that a buffer of `len` pixels is a `w`×`h` image.
pub fn dimensions_fit(len: usize, w: usize, h: usize) -> (r: bool)
    ensures
        r == fits(len as nat, w as nat, h as nat),
{
    if w == 0 || h == 0 {
        return false;
    }
    match w.checked_mul(h) {
        Some(n) => n == len,
        None => {
            assert(w * h > usize::MAX);
            false
        },
    }
}

/// Ordered 4×4 Bayer dithering: a threshold per position from the matrix.
pub fn bayer(pixels: &[u8], w: usize, h: usize) -> (out: Vec<u8>)
    requires
        pixels@.len() == w * h,
    ensures
        out@.len() == pixels@.len(),
        forall|i: int|
            0 <= i < pixels@.len() ==> #[trigger] out@[i] == bayer_pixel(
                pixels@[i],
                (i % w as int) as nat,
                (i / w as int) as nat,
            ),
{
    let mut out: Vec<u8> = Vec::new();
    let n = pixels.len();
    let mut i: usize = 0;
    while i < n
        invariant
            n == pixels@.len(),
            n == w * h,
            i <= n,
            out@.len() == i,
            forall|k: int|
                0 <= k < i ==> #[trigger] out@[k] == bayer_pixel(
                    pixels@[k],
                    (k % w as int) as nat,
                    (k / w as int) as nat,
                ),
        decreases n - i,
    {
        assert(w > 0) by (nonlinear_arith)
            requires
                i < n,
                n == w * h,
        ;
        let x = i % w;
        let y = i / w;
        let entry = BAYER4[(y % 4) * 4 + x % 4];
        let p = pixels[i];
        let v: u8 = if 32 * (p as u32) >= (2 * entry + 1) * 255 {
            255
        } else {
            0
        };
        out.push(v);
        i = i + 1;
    }
    out
}

/// Output of `dither` for the methods decided here; `None` for the
/// error-diffusion methods.
pub open spec fn exact_dither(pixels: Seq<u8>, w: nat, h: nat, mode: ImageMode) -> Option<Seq<u8>> {
    if !fits(pixels.len(), w, h) {
        Some(pixels)
    } else {
        match mode {
            ImageMode::Bayer => Some(
                Seq::new(pixels.len(), |i: int| bayer_pixel(pixels[i], (i % w as int) as nat, (i / w as int) as nat)),
            ),
            ImageMode::Grayscale | ImageMode::Threshold => Some(threshold_seq(pixels)),
            _ => None,
        }
    }
}

/// Hard 128 threshold of one pixel.
pub open spec fn threshold_pixel(p: u8) -> u8 {
    if p < 128 {
        0
    } else {
        255
    }
}

pub open spec fn threshold_seq(pixels: Seq<u8>) -> Seq<u8> {
    pixels.map_values(|p: u8| threshold_pixel(p))
}

/// Hard 128 threshold: dark pixels burn (0), light ones are skipped (255).
pub fn threshold_128(pixels: &[u8]) -> (out: Vec<u8>)
    ensures
        out@ == threshold_seq(pixels@),
{
    let mut out: Vec<u8> = Vec::new();
    let mut i: usize = 0;
    while i < pixels.len()
        invariant
            i <= pixels@.len(),
            out@ =~= threshold_seq(pixels@).subrange(0, i as int),
        decreases pixels@.len() - i,
    {
        out.push(if pixels[i] < 128 {
            0
        } else {
            255
        });
        i = i + 1;
    }
    assert(threshold_seq(pixels@).subrange(0, pixels@.len() as int) =~= threshold_seq(pixels@));
    out
}

/// The part of `dither` that needs no floating point: wrong dimensions give the
/// input back unchanged, `Bayer` is ordered dithering and the non-dither
/// modes fall back to the hard 128 threshold. `None` for the error-diffusion
/// methods, which the caller runs.
pub fn dither(pixels: &[u8], w: usize, h: usize, mode: ImageMode) -> (r: Option<Vec<u8>>)
    ensures
        match r {
            Some(v) => exact_dither(pixels@, w as nat, h as nat, mode) == Some(v@),
            None => exact_dither(pixels@, w as nat, h as nat, mode) is None,
        },
{
    if !dimensions_fit(pixels.len(), w, h) {
        let mut v: Vec<u8> = Vec::new();
        let mut i: usize = 0;
        while i < pixels.len()
            invariant
                i <= pixels@.len(),
                v@ =~= pixels@.subrange(0, i as int),
            decreases pixels@.len() - i,
        {
            v.push(pixels[i]);
            i = i + 1;
        }
        assert(pixels@.subrange(0, pixels@.len() as int) =~= pixels@);
        return Some(v);
    }
    match mode {
        ImageMode::Bayer => {
            let v = bayer(pixels, w, h);
            assert(v@ =~= Seq::new(
                pixels@.len(),
                |i: int| bayer_pixel(pixels@[i], (i % w as int) as nat, (i / w as int) as nat),
            ));
            Some(v)
        },
        ImageMode::Grayscale | ImageMode::Threshold => Some(threshold_128(pixels)),
        _ => None,
    }
}

/// Pure black and pure white pass the ordered method and the threshold
/// unchanged: no dither noise on solid areas.
pub proof fn solid_areas_stay_solid(x: nat, y: nat)
    ensures
        bayer_pixel(0, x, y) == 0,
        bayer_pixel(255, x, y) == 255,
        threshold_pixel(0) == 0,
        threshold_pixel(255) == 255,
{
    assert(bayer_entry(x, y) <= 15) by {
        let k = ((y % 4) * 4 + x % 4) as int;
        assert(0 <= k < 16);
    }
}

/// Ordered dithering of a `w`×`h` image: pixel `i` lies in column `i % w`
/// and row `i / w`, and comes out light (255) exactly when `32 · p` reaches
/// `(2 · e + 1) · 255`, where `e` is the Bayer matrix entry in row `row % 4`
/// and column `column % 4`; otherwise it burns (0).
pub proof fn ordered_dither_reads_row_and_column(pixels: Seq<u8>, w: nat, h: nat)
    requires
        fits(pixels.len(), w, h),
    ensures
        exact_dither(pixels, w, h, ImageMode::Bayer) is Some,
        exact_dither(pixels, w, h, ImageMode::Bayer)->0.len() == pixels.len(),
        forall|i: int|
            #![trigger exact_dither(pixels, w, h, ImageMode::Bayer)->0[i]]
            0 <= i < pixels.len() ==> {
                let out = exact_dither(pixels, w, h, ImageMode::Bayer)->0;
                let column = i % (w as int);
                let row = i / (w as int);
                &&& (out[i] == 255 || out[i] == 0)
                &&& (out[i] == 255 <==> 32 * pixels[i] >= (2 * BAYER4[(row % 4) * 4 + column % 4] + 1)
                    * 255)
            },
{
    let out = exact_dither(pixels, w, h, ImageMode::Bayer)->0;
    assert forall|i: int| 0 <= i < pixels.len() implies {
        let column = i % (w as int);
        let row = i / (w as int);
        &&& (#[trigger] out[i] == 255 || out[i] == 0)
        &&& (out[i] == 255 <==> 32 * pixels[i] >= (2 * BAYER4[(row % 4) * 4 + column % 4] + 1) * 255)
    } by {
        assert(i / (w as int) >= 0) by (nonlinear_arith)
            requires
                i >= 0,
                w > 0,
        ;
    }
}

/// Within every 4×4 tile the sixteen pixels get the sixteen thresholds
/// `0..16` of the matrix, each once: no two positions of a tile share a
/// level.
pub proof fn bayer_tile_uses_every_level_once(x0: nat, y0: nat)
    ensures
        forall|x: nat, y: nat| x < 4 && y < 4 ==> #[trigger] bayer_entry(4 * x0 + x, 4 * y0 + y) < 16,
        forall|x1: nat, y1: nat, x2: nat, y2: nat|
            x1 < 4 && y1 < 4 && x2 < 4 && y2 < 4 && (x1 != x2 || y1 != y2) ==> #[trigger] bayer_entry(
                4 * x0 + x1,
                4 * y0 + y1,
            ) != #[trigger] bayer_entry(4 * x0 + x2, 4 * y0 + y2),
{
    assert forall|x: nat, y: nat| x < 4 && y < 4 implies #[trigger] bayer_entry(4 * x0 + x, 4 * y0 + y)
        == BAYER4[(y * 4 + x) as int] by {
        assert((4 * x0 + x) % 4 == x) by (nonlinear_arith)
            requires
                x < 4,
        ;
        assert((4 * y0 + y) % 4 == y) by (nonlinear_arith)
            requires
                y < 4,
        ;
    }
    assert(BAYER4[0] == 0 && BAYER4[1] == 8 && BAYER4[2] == 2 && BAYER4[3] == 10);
    assert(BAYER4[4] == 12 && BAYER4[5] == 4 && BAYER4[6] == 14 && BAYER4[7] == 6);
    assert(BAYER4[8] == 3 && BAYER4[9] == 11 && BAYER4[10] == 1 && BAYER4[11] == 9);
    assert(BAYER4[12] == 15 && BAYER4[13] == 7 && BAYER4[14] == 13 && BAYER4[15] == 5);
}

} // verus!
