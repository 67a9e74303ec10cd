//! The decoded image buffer and the resize step of a conversion task.

use crate::dims::{calc_new_dimensions, plan_spec};
use vstd::prelude::*;

verus! {

/// A decoded image: eight bits per channel, three channels, row-major.
pub struct ImageBuf {
    pub width: u32,
    pub height: u32,
    pub pixels: Vec<u8>,
}

impl ImageBuf {
    /// Exactly three bytes for each of `width * height` pixels.
    pub open spec fn wf(&self) -> bool {
        self.pixels@.len() == self.width as int * self.height as int * 3
    }

    /// Build a buffer, accepting it only if the pixel data matches the
    /// dimensions.
    pub fn new(width: u32, height: u32, pixels: Vec<u8>) -> (r: Option<ImageBuf>)
        ensures
            r is Some <==> pixels@.len() == width as int * height as int * 3,
            r matches Some(b) ==> b.width == width && b.height == height && b.pixels@ == pixels@
                && b.wf(),
    {
        proof {
            assert((width as int) * (height as int) * 3 <= 0xffff_ffff * 0xffff_ffff * 3)
                by (nonlinear_arith)
                requires
                    (width as int) <= 0xffff_ffff,
                    (height as int) <= 0xffff_ffff,
            ;
        }
        let need: u128 = (width as u128) * (height as u128) * 3;
        if (pixels.len() as u128) == need {
            Some(ImageBuf { width, height, pixels })
        } else {
            None
        }
    }
}

/// The resampler averages each target pixel over a block of source pixels,
/// summing up to 255 per pixel plus a half-block rounding addend into a
/// 32-bit accumulator. This bound keeps every such block below 2^24
/// pixels, so no sum overflows and no block area wraps to zero: a block
/// spans at most `source/target + 1` pixels per axis, with one more for
/// the ceiling of the block edge and `source / 2^20` covering the
/// resampler's 32-bit float coordinate rounding.
pub open spec fn thumb_block_ok(w: u32, h: u32, tw: int, th: int) -> bool {
    (w > 0 && h > 0 && tw > 0 && th > 0) ==> (w as int / tw + w as int / 0x100000 + 3) * (
    h as int / th + h as int / 0x100000 + 3) < 0x1000000
}

/// Relies on `image::imageops::thumbnail` and
/// `image::ImageBuffer::{from_raw, into_raw}`: on a buffer whose length
/// matches its dimensions, `from_raw` accepts it, and `thumbnail` returns a
/// buffer of exactly the requested dimensions, three bytes per pixel. The
/// `usize` bounds keep every row and buffer size the two functions compute
/// addressable; `thumb_block_ok` keeps the resampler's per-block 32-bit
/// channel sums and block areas from overflowing, which would panic.
#[verifier::external_body]
fn thumbnail_rgb8(img: ImageBuf, new_width: u32, new_height: u32) -> (r: Option<Vec<u8>>)
    requires
        img.wf(),
        img.width as int * 3 <= usize::MAX as int,
        new_width as int * 3 <= usize::MAX as int,
        new_width as int * new_height as int * 3 <= usize::MAX as int,
        thumb_block_ok(img.width, img.height, new_width as int, new_height as int),
    ensures
        r is Some,
        r matches Some(v) ==> v@.len() == new_width as int * new_height as int * 3,
{
    let buf = image::ImageBuffer::<image::Rgb<u8>, Vec<u8>>::from_raw(
        img.width,
        img.height,
        img.pixels,
    )?;
    Some(image::imageops::thumbnail(&buf, new_width, new_height).into_raw())
}

/// Resize a decoded image so that its long side fits the limit, under the
/// dimension planner's rule. A buffer is refused when its pixel data does
/// not match its dimensions, when a single row of it cannot be addressed,
/// or when the downscale is so steep that the resampler's block bound
/// fails.
pub fn resize_to_limit(img: ImageBuf, long_side_limit: u32) -> (r: Option<ImageBuf>)
    ensures
        r is Some <==> (img.wf() && img.width as int * 3 <= usize::MAX as int && thumb_block_ok(
            img.width,
            img.height,
            plan_spec(img.width, img.height, long_side_limit).0,
            plan_spec(img.width, img.height, long_side_limit).1,
        )),
        r matches Some(b) ==> b.wf() && b.width as int == plan_spec(
            img.width,
            img.height,
            long_side_limit,
        ).0 && b.height as int == plan_spec(img.width, img.height, long_side_limit).1,
{
    proof {
        assert((img.width as int) * (img.height as int) * 3 <= 0xffff_ffff * 0xffff_ffff * 3)
            by (nonlinear_arith)
            requires
                (img.width as int) <= 0xffff_ffff,
                (img.height as int) <= 0xffff_ffff,
        ;
    }
    let need: u128 = (img.width as u128) * (img.height as u128) * 3;
    if (img.pixels.len() as u128) != need {
        return None;
    }
    if (img.width as u128) * 3 > (usize::MAX as u128) {
        return None;
    }
    let (tw, th) = calc_new_dimensions((img.width, img.height), long_side_limit);
    if img.width > 0 && img.height > 0 && tw > 0 && th > 0 {
        let bw: u128 = (img.width / tw) as u128 + (img.width / 0x100000) as u128 + 3;
        let bh: u128 = (img.height / th) as u128 + (img.height / 0x100000) as u128 + 3;
        proof {
            assert((bw as int) * (bh as int) <= 0x2_0000_0000 * 0x2_0000_0000)
                by (nonlinear_arith)
                requires
                    (bw as int) <= 0x2_0000_0000,
                    (bh as int) <= 0x2_0000_0000,
            ;
        }
        if bw * bh >= 0x1000000 {
            return None;
        }
    }
    proof {
        assert(tw as int * th as int * 3 <= img.width as int * img.height as int * 3
            && tw as int * 3 <= img.width as int * 3) by (nonlinear_arith)
            requires
                tw <= img.width,
                th <= img.height,
        ;
    }
    let pixels = thumbnail_rgb8(img, tw, th).unwrap();
    Some(ImageBuf { width: tw, height: th, pixels })
}

} // verus!
