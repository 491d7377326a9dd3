//! The pixel buffer a render produces, and the pixel-wise reduction that
//! merges the workers' partial images.

use crate::fixed::{tdiv_i128, FX_ONE};
use crate::math::Color;
use vstd::prelude::*;

verus! {

/// Largest pixel count accepted per image.
pub const IMAGE_PIXELS_BOUND: u32 = 0x100_0000;

/// Largest number of partial images one reduction accepts.
pub const IMAGE_COUNT_BOUND: usize = 0x1_0000;

/// A rectangular buffer of colors, row-major, top row first.
#[derive(Debug, Clone)]
pub struct Image {
    pub pixels: Vec<Color>,
    pub width: u32,
    pub height: u32,
}

/// Every channel of every pixel lies in `[0, bound]`.
pub open spec fn pixels_in_range(pixels: Seq<Color>, bound: int) -> bool {
    forall|k: int|
        0 <= k < pixels.len() ==> {
            &&& 0 <= (#[trigger] pixels[k]).0 <= bound
            &&& 0 <= pixels[k].1 <= bound
            &&& 0 <= pixels[k].2 <= bound
        }
}

/// A finished frame: one pixel per cell, channels within one unit.
pub open spec fn image_wf(img: Image) -> bool {
    &&& img.pixels@.len() == (img.width as int) * (img.height as int)
    &&& pixels_in_range(img.pixels@, FX_ONE as int)
}

/// The channel-wise sum of the `k`-th pixel across a stack of images.
pub open spec fn sum_at(imgs: Seq<Image>, k: int) -> (int, int, int)
    decreases imgs.len(),
{
    if imgs.len() == 0 {
        (0, 0, 0)
    } else {
        let rest = sum_at(imgs.drop_last(), k);
        (
            rest.0 + imgs.last().pixels@[k].0,
            rest.1 + imgs.last().pixels@[k].1,
            rest.2 + imgs.last().pixels@[k].2,
        )
    }
}

impl Image {
    /// An empty buffer for the given dimensions; the render loop fills it
    /// pixel by pixel.
    pub fn new(width: u32, height: u32) -> (img: Image)
        ensures
            img.width == width,
            img.height == height,
            img.pixels@.len() == 0,
    {
        Image { pixels: Vec::new(), width, height }
    }

    /// The pixel-wise average of a stack of equally sized partial images:
    /// channel sums divided by the number of images. Because each input
    /// channel lies in `[0, 1]`, so does each output channel.
    pub fn average(images: Vec<Image>, width: u32, height: u32) -> (out: Image)
        requires
            1 <= images@.len() <= IMAGE_COUNT_BOUND,
            width * height <= IMAGE_PIXELS_BOUND,
            forall|i: int|
                0 <= i < images@.len() ==> (#[trigger] images@[i]).pixels@.len() == (width as int)
                    * (height as int),
            forall|i: int|
                0 <= i < images@.len() ==> pixels_in_range(
                    (#[trigger] images@[i]).pixels@,
                    FX_ONE as int,
                ),
        ensures
            out.width == width,
            out.height == height,
            out.pixels@.len() == (width as int) * (height as int),
            forall|k: int|
                0 <= k < out.pixels@.len() ==> {
                    let s = sum_at(images@, k);
                    &&& (#[trigger] out.pixels@[k]).0 == s.0 / images@.len() as int
                    &&& out.pixels@[k].1 == s.1 / images@.len() as int
                    &&& out.pixels@[k].2 == s.2 / images@.len() as int
                },
            image_wf(out),
    {
        let n_pixels = (width * height) as usize;
        let n_images = images.len();
        let mut pixels: Vec<Color> = Vec::new();
        let mut k: usize = 0;
        while k < n_pixels
            invariant
                n_pixels == (width as int) * (height as int),
                n_pixels <= IMAGE_PIXELS_BOUND,
                n_images == images@.len(),
                1 <= n_images <= IMAGE_COUNT_BOUND,
                forall|i: int|
                    0 <= i < images@.len() ==> (#[trigger] images@[i]).pixels@.len() == n_pixels,
                forall|i: int|
                    0 <= i < images@.len() ==> pixels_in_range(
                        (#[trigger] images@[i]).pixels@,
                        FX_ONE as int,
                    ),
                k <= n_pixels,
                pixels@.len() == k,
                forall|j: int|
                    0 <= j < k ==> {
                        let s = sum_at(images@, j);
                        &&& (#[trigger] pixels@[j]).0 == s.0 / images@.len() as int
                        &&& pixels@[j].1 == s.1 / images@.len() as int
                        &&& pixels@[j].2 == s.2 / images@.len() as int
                        &&& 0 <= pixels@[j].0 <= FX_ONE
                        &&& 0 <= pixels@[j].1 <= FX_ONE
                        &&& 0 <= pixels@[j].2 <= FX_ONE
                    },
            decreases n_pixels - k,
        {
            let mut sr: i64 = 0;
            let mut sg: i64 = 0;
            let mut sb: i64 = 0;
            let mut i: usize = 0;
            while i < n_images
                invariant
                    n_images == images@.len(),
                    n_images <= IMAGE_COUNT_BOUND,
                    k < n_pixels,
                    forall|ii: int|
                        0 <= ii < images@.len() ==> (#[trigger] images@[ii]).pixels@.len()
                            == n_pixels,
                    forall|ii: int|
                        0 <= ii < images@.len() ==> pixels_in_range(
                            (#[trigger] images@[ii]).pixels@,
                            FX_ONE as int,
                        ),
                    i <= n_images,
                    (sr as int, sg as int, sb as int) == sum_at(
                        images@.take(i as int),
                        k as int,
                    ),
                    0 <= sr <= i * (FX_ONE as int),
                    0 <= sg <= i * (FX_ONE as int),
                    0 <= sb <= i * (FX_ONE as int),
                decreases n_images - i,
            {
                let img = &images[i];
                let p = img.pixels[k];
                proof {
                    assert(images@.take(i + 1 as int).drop_last() =~= images@.take(i as int));
                    assert(images@.take(i + 1 as int).last() == images@[i as int]);
                }
                sr = sr + p.0;
                sg = sg + p.1;
                sb = sb + p.2;
                i = i + 1;
            }
            proof {
                assert(images@.take(n_images as int) =~= images@);
                vstd::arithmetic::div_mod::lemma_div_pos_is_pos(sr as int, n_images as int);
                vstd::arithmetic::div_mod::lemma_div_pos_is_pos(sg as int, n_images as int);
                vstd::arithmetic::div_mod::lemma_div_pos_is_pos(sb as int, n_images as int);
                vstd::arithmetic::div_mod::lemma_multiply_divide_le(
                    sr as int,
                    n_images as int,
                    FX_ONE as int,
                );
                vstd::arithmetic::div_mod::lemma_multiply_divide_le(
                    sg as int,
                    n_images as int,
                    FX_ONE as int,
                );
                vstd::arithmetic::div_mod::lemma_multiply_divide_le(
                    sb as int,
                    n_images as int,
                    FX_ONE as int,
                );
            }
            let ar = div_count(sr, n_images as i64);
            let ag = div_count(sg, n_images as i64);
            let ab = div_count(sb, n_images as i64);
            pixels.push(crate::math::Vector3(ar, ag, ab));
            k = k + 1;
        }
        Image { pixels, width, height }
    }
}

/// A nonnegative channel divided by a positive worker count.
fn div_count(c: i64, n: i64) -> (r: i64)
    requires
        0 <= c,
        0 < n,
    ensures
        r == c as int / n as int,
        0 <= r <= c,
{
    proof {
        vstd::arithmetic::div_mod::lemma_div_pos_is_pos(c as int, n as int);
        vstd::arithmetic::div_mod::lemma_div_nonincreasing(c as int, n as int);
    }
    let q = tdiv_i128(c as i128, n as i128);
    q as i64
}

/// AVERAGING CONSTANT PARTIAL IMAGES IS THE IDENTITY: when every partial
/// image holds the color `c` in every pixel, the channel sums at any cell
/// are the image count times `c`, and dividing by the count — what
/// [`Image::average`] reports per pixel — gives back exactly `c`.
pub proof fn lemma_average_of_constant_images(imgs: Seq<Image>, k: int, c: Color)
    requires
        1 <= imgs.len(),
        forall|i: int|
            0 <= i < imgs.len() ==> forall|j: int|
                0 <= j < (#[trigger] imgs[i]).pixels@.len() ==> (#[trigger] imgs[i].pixels@[j])
                    == c,
        forall|i: int| 0 <= i < imgs.len() ==> k < (#[trigger] imgs[i]).pixels@.len(),
        0 <= k,
    ensures
        sum_at(imgs, k) == (imgs.len() * c.0, imgs.len() * c.1, imgs.len() * c.2),
        sum_at(imgs, k).0 / imgs.len() as int == c.0,
        sum_at(imgs, k).1 / imgs.len() as int == c.1,
        sum_at(imgs, k).2 / imgs.len() as int == c.2,
    decreases imgs.len(),
{
    let n = imgs.len() as int;
    assert(imgs.last() == imgs[n - 1]);
    assert(imgs[n - 1].pixels@[k] == c);
    if imgs.len() == 1 {
        assert(sum_at(imgs.drop_last(), k) == (0int, 0int, 0int));
        assert(sum_at(imgs, k) == (c.0 as int, c.1 as int, c.2 as int));
        assert(n * c.0 == c.0 && n * c.1 == c.1 && n * c.2 == c.2) by (nonlinear_arith)
            requires
                n == 1,
        ;
    } else {
        let dl = imgs.drop_last();
        assert forall|i: int| 0 <= i < dl.len() implies (forall|j: int|
            0 <= j < (#[trigger] dl[i]).pixels@.len() ==> dl[i].pixels@[j] == c) by {
            assert(dl[i] == imgs[i]);
        }
        assert forall|i: int| 0 <= i < dl.len() implies k < (#[trigger] dl[i]).pixels@.len() by {
            assert(dl[i] == imgs[i]);
        }
        lemma_average_of_constant_images(dl, k, c);
        assert(dl.len() == n - 1);
        assert(sum_at(imgs, k).0 == (n - 1) * c.0 + c.0);
        assert(sum_at(imgs, k).1 == (n - 1) * c.1 + c.1);
        assert(sum_at(imgs, k).2 == (n - 1) * c.2 + c.2);
        assert(n * c.0 == (n - 1) * c.0 + c.0) by (nonlinear_arith);
        assert(n * c.1 == (n - 1) * c.1 + c.1) by (nonlinear_arith);
        assert(n * c.2 == (n - 1) * c.2 + c.2) by (nonlinear_arith);
    }
    vstd::arithmetic::div_mod::lemma_div_multiples_vanish(c.0 as int, n);
    vstd::arithmetic::div_mod::lemma_div_multiples_vanish(c.1 as int, n);
    vstd::arithmetic::div_mod::lemma_div_multiples_vanish(c.2 as int, n);
}

} // verus!
