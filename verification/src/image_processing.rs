use vstd::prelude::*;

use crate::error::Error;
use crate::raster::{lemma_pix_index_bound, pix_index, GrayImage, Rgb, RgbImage};
use rand::rngs::StdRng;
use vstd::string::StrSliceExecFns;

verus! {

/// The sRGB luma of a colour pixel: the weighted channel sum
/// `(2126 r + 7152 g + 722 b) / 10000`, rounded down.
pub open spec fn luma_of(p: Rgb) -> int {
    (2126 * p.r + 7152 * p.g + 722 * p.b) / 10000
}

/// Collapse a colour image to grayscale, one luma byte per pixel.
pub fn grayscale(img: &RgbImage) -> (out: GrayImage)
    requires
        img.wf(),
    ensures
        out.wf(),
        out.spec_width() == img.spec_width(),
        out.spec_height() == img.spec_height(),
        forall|x: int, y: int|
            0 <= x < img.spec_width() && 0 <= y < img.spec_height() ==> out.spec_at(x, y)
                == luma_of(img.spec_at(x, y)),
{
    let width = img.width();
    let height = img.height();
    proof {
        img.lemma_area_fits();
    }
    let mut out = GrayImage::new(width, height);
    let mut y: usize = 0;
    while y < height
        invariant
            y <= height,
            out.wf(),
            out.spec_width() == width,
            out.spec_height() == height,
            img.wf(),
            width == img.spec_width(),
            height == img.spec_height(),
            forall|i: int, j: int|
                0 <= i < width && 0 <= j < y ==> out.spec_at(i, j) == luma_of(img.spec_at(i, j)),
        decreases height - y,
    {
        let mut x: usize = 0;
        while x < width
            invariant
                x <= width,
                y < height,
                out.wf(),
                out.spec_width() == width,
                out.spec_height() == height,
                img.wf(),
                width == img.spec_width(),
                height == img.spec_height(),
                forall|i: int, j: int|
                    0 <= i < width && 0 <= j < y ==> out.spec_at(i, j) == luma_of(
                        img.spec_at(i, j),
                    ),
                forall|i: int| 0 <= i < x ==> out.spec_at(i, y as int) == luma_of(
                    img.spec_at(i, y as int),
                ),
            decreases width - x,
        {
            let p = img.get_pixel(x, y);
            let weighted: u32 = 2126 * (p.r as u32) + 7152 * (p.g as u32) + 722 * (p.b as u32);
            let v: u8 = (weighted / 10000) as u8;
            out.put_pixel(x, y, v);
            x = x + 1;
        }
        y = y + 1;
    }
    out
}

/// Spread one grayscale byte across the three colour channels.
pub open spec fn gray_to_rgb(v: u8) -> Rgb {
    Rgb { r: v, g: v, b: v }
}

/// Turn a grayscale image into a colour image in which every pixel's three
/// channels all equal the source intensity.
pub fn convert_grayscale_to_rgb(img: &GrayImage) -> (out: RgbImage)
    requires
        img.wf(),
    ensures
        out.wf(),
        out.spec_width() == img.spec_width(),
        out.spec_height() == img.spec_height(),
        forall|x: int, y: int|
            0 <= x < img.spec_width() && 0 <= y < img.spec_height() ==> out.spec_at(x, y)
                == gray_to_rgb(img.spec_at(x, y)),
{
    let width = img.width();
    let height = img.height();
    proof {
        img.lemma_area_fits();
    }
    let mut out = RgbImage::new(width, height);
    let mut y: usize = 0;
    while y < height
        invariant
            y <= height,
            out.wf(),
            out.spec_width() == width,
            out.spec_height() == height,
            img.wf(),
            width == img.spec_width(),
            height == img.spec_height(),
            forall|i: int, j: int|
                0 <= i < width && 0 <= j < y ==> out.spec_at(i, j) == gray_to_rgb(
                    img.spec_at(i, j),
                ),
        decreases height - y,
    {
        let mut x: usize = 0;
        while x < width
            invariant
                x <= width,
                y < height,
                out.wf(),
                out.spec_width() == width,
                out.spec_height() == height,
                img.wf(),
                width == img.spec_width(),
                height == img.spec_height(),
                forall|i: int, j: int|
                    0 <= i < width && 0 <= j < y ==> out.spec_at(i, j) == gray_to_rgb(
                        img.spec_at(i, j),
                    ),
                forall|i: int| 0 <= i < x ==> out.spec_at(i, y as int) == gray_to_rgb(
                    img.spec_at(i, y as int),
                ),
            decreases width - x,
        {
            let v = img.get_pixel(x, y);
            out.put_pixel(x, y, Rgb { r: v, g: v, b: v });
            x = x + 1;
        }
        y = y + 1;
    }
    out
}

/// The rand crate's seedable standard generator, declared opaquely so a
/// caller-supplied generator can be threaded through the noise functions.
#[verifier::external_type_specification]
#[verifier::external_body]
pub struct ExStdRng(StdRng);

/// Relies on rand's `random_range`: a draw strictly below the bound.
/// (That the draw is uniform is a statistical property no contract here
/// states.)
#[verifier::external_body]
fn draw_below(rng: &mut StdRng, bound: u64) -> (r: u64)
    requires
        bound >= 1,
    ensures
        r < bound,
{
    rand::RngExt::random_range(rng, 0..bound)
}

/// A channel value after adding a signed offset, clamped to the 8-bit range.
pub open spec fn offset_channel(c: u8, k: int) -> u8 {
    if c + k < 0 {
        0u8
    } else if c + k > 255 {
        255u8
    } else {
        (c + k) as u8
    }
}

/// Add a signed offset to one channel, clamping at 0 and at 255; the rest of
/// the Gaussian model once a noise sample is drawn.
pub fn perturb_channel(c: u8, k: i64) -> (r: u8)
    ensures
        r == offset_channel(c, k as int),
{
    if k < 0 {
        if k + (c as i64) < 0 {
            0
        } else {
            ((c as i64) + k) as u8
        }
    } else {
        if k > 255 - (c as i64) {
            255
        } else {
            ((c as i64) + k) as u8
        }
    }
}

/// A sample value clamped down to the 8-bit channel range; the rest of the
/// Poisson model once a sample is drawn.
pub fn clamp_sample_to_channel(s: u64) -> (r: u8)
    ensures
        s <= 255 ==> r == s,
        s > 255 ==> r == 255,
{
    if s > 255 {
        255
    } else {
        s as u8
    }
}

/// The base offset, into a flat per-channel buffer, of the pixel at
/// `(x, y)` in a grid `w` wide: three entries per pixel, row-major.
pub open spec fn channel_base(x: int, y: int, w: int) -> int {
    3 * pix_index(x, y, w)
}

/// A pixel perturbed by three per-channel signed offsets, each channel
/// clamped to the 8-bit range.
pub open spec fn offset_px(p: Rgb, offs: Seq<i64>, base: int) -> Rgb {
    Rgb {
        r: offset_channel(p.r, offs[base] as int),
        g: offset_channel(p.g, offs[base + 1] as int),
        b: offset_channel(p.b, offs[base + 2] as int),
    }
}

/// Perturb every channel of every pixel by its own signed offset — one
/// noise sample per channel, drawn by the caller from
/// `Normal(mean, stddev)` — clamping each result to the channel range.
///
/// A zero standard deviation is a configuration error, never silently
/// ignored; the offsets buffer holds three entries per pixel, row-major.
pub fn add_gaussian_noise_to_rgb(img: &RgbImage, stddev: u32, offsets: &Vec<i64>) -> (r: Result<
    RgbImage,
    Error,
>)
    requires
        img.wf(),
        offsets@.len() == 3 * (img.spec_width() * img.spec_height()),
    ensures
        r is Err <==> stddev == 0,
        r is Err ==> r->Err_0 == Error::InvalidNoiseParameter,
        r matches Ok(out) ==> {
            &&& out.wf()
            &&& out.spec_width() == img.spec_width()
            &&& out.spec_height() == img.spec_height()
            &&& forall|x: int, y: int|
                0 <= x < img.spec_width() && 0 <= y < img.spec_height() ==> out.spec_at(x, y)
                    == offset_px(
                    img.spec_at(x, y),
                    offsets@,
                    channel_base(x, y, img.spec_width() as int),
                )
        },
{
    if stddev == 0 {
        return Err(Error::InvalidNoiseParameter);
    }
    let width = img.width();
    let height = img.height();
    let total: usize = offsets.len();
    proof {
        img.lemma_area_fits();
    }
    let mut out = RgbImage::new(width, height);
    let mut y: usize = 0;
    while y < height
        invariant
            y <= height,
            out.wf(),
            out.spec_width() == width,
            out.spec_height() == height,
            img.wf(),
            width == img.spec_width(),
            height == img.spec_height(),
            total == offsets@.len(),
            offsets@.len() == 3 * (width * height),
            forall|i: int, j: int|
                0 <= i < width && 0 <= j < y ==> out.spec_at(i, j) == offset_px(
                    img.spec_at(i, j),
                    offsets@,
                    channel_base(i, j, width as int),
                ),
        decreases height - y,
    {
        let mut x: usize = 0;
        while x < width
            invariant
                x <= width,
                y < height,
                out.wf(),
                out.spec_width() == width,
                out.spec_height() == height,
                img.wf(),
                width == img.spec_width(),
                height == img.spec_height(),
                total == offsets@.len(),
                offsets@.len() == 3 * (width * height),
                forall|i: int, j: int|
                    0 <= i < width && 0 <= j < y ==> out.spec_at(i, j) == offset_px(
                        img.spec_at(i, j),
                        offsets@,
                        channel_base(i, j, width as int),
                    ),
                forall|i: int|
                    0 <= i < x ==> out.spec_at(i, y as int) == offset_px(
                        img.spec_at(i, y as int),
                        offsets@,
                        channel_base(i, y as int, width as int),
                    ),
            decreases width - x,
        {
            proof {
                lemma_pix_index_bound(x as int, y as int, width as int, height as int);
            }
            let base: usize = 3 * (y * width + x);
            let p = img.get_pixel(x, y);
            let nr = perturb_channel(p.r, *offsets.get(base).unwrap());
            let ng = perturb_channel(p.g, *offsets.get(base + 1).unwrap());
            let nb = perturb_channel(p.b, *offsets.get(base + 2).unwrap());
            out.put_pixel(x, y, Rgb { r: nr, g: ng, b: nb });
            x = x + 1;
        }
        y = y + 1;
    }
    Ok(out)
}

/// The pure white pixel salt noise writes.
pub open spec fn white_px() -> Rgb {
    Rgb { r: 255, g: 255, b: 255 }
}

/// The pure black pixel pepper noise writes.
pub open spec fn black_px() -> Rgb {
    Rgb { r: 0, g: 0, b: 0 }
}

/// Replace each pixel, independently and with probability `density`, by pure
/// white (half the time) or pure black (the other half); leave it unchanged
/// otherwise. The density is the ratio `density_num / density_den`.
///
/// Every output pixel is fully white, fully black, or exactly the input
/// pixel — never partially perturbed; a zero density changes nothing and a
/// density of one replaces every pixel. A density outside [0, 1] is a
/// configuration error.
pub fn add_salt_and_pepper_noise_to_rgb(
    img: &RgbImage,
    density_num: u32,
    density_den: u32,
    rng: &mut StdRng,
) -> (r: Result<RgbImage, Error>)
    requires
        img.wf(),
    ensures
        r is Err <==> (density_den == 0 || density_num > density_den),
        r is Err ==> r->Err_0 == Error::InvalidNoiseParameter,
        r matches Ok(out) ==> {
            &&& out.wf()
            &&& out.spec_width() == img.spec_width()
            &&& out.spec_height() == img.spec_height()
            &&& forall|x: int, y: int|
                0 <= x < img.spec_width() && 0 <= y < img.spec_height() ==> (out.spec_at(x, y)
                    == white_px() || out.spec_at(x, y) == black_px() || out.spec_at(x, y)
                    == img.spec_at(x, y))
            &&& density_num == 0 ==> forall|x: int, y: int|
                0 <= x < img.spec_width() && 0 <= y < img.spec_height() ==> out.spec_at(x, y)
                    == img.spec_at(x, y)
            &&& density_num == density_den ==> forall|x: int, y: int|
                0 <= x < img.spec_width() && 0 <= y < img.spec_height() ==> (out.spec_at(x, y)
                    == white_px() || out.spec_at(x, y) == black_px())
        },
{
    if density_den == 0 || density_num > density_den {
        return Err(Error::InvalidNoiseParameter);
    }
    let width = img.width();
    let height = img.height();
    proof {
        img.lemma_area_fits();
    }
    let mut out = RgbImage::new(width, height);
    let mut y: usize = 0;
    while y < height
        invariant
            y <= height,
            out.wf(),
            out.spec_width() == width,
            out.spec_height() == height,
            img.wf(),
            width == img.spec_width(),
            height == img.spec_height(),
            density_den >= 1,
            density_num <= density_den,
            forall|i: int, j: int|
                0 <= i < width && 0 <= j < y ==> (out.spec_at(i, j) == white_px() || out.spec_at(
                    i,
                    j,
                ) == black_px() || out.spec_at(i, j) == img.spec_at(i, j)),
            density_num == 0 ==> forall|i: int, j: int|
                0 <= i < width && 0 <= j < y ==> out.spec_at(i, j) == img.spec_at(i, j),
            density_num == density_den ==> forall|i: int, j: int|
                0 <= i < width && 0 <= j < y ==> (out.spec_at(i, j) == white_px() || out.spec_at(
                    i,
                    j,
                ) == black_px()),
        decreases height - y,
    {
        let mut x: usize = 0;
        while x < width
            invariant
                x <= width,
                y < height,
                out.wf(),
                out.spec_width() == width,
                out.spec_height() == height,
                img.wf(),
                width == img.spec_width(),
                height == img.spec_height(),
                density_den >= 1,
                density_num <= density_den,
                forall|i: int, j: int|
                    0 <= i < width && 0 <= j < y ==> (out.spec_at(i, j) == white_px()
                        || out.spec_at(i, j) == black_px() || out.spec_at(i, j) == img.spec_at(
                        i,
                        j,
                    )),
                forall|i: int|
                    0 <= i < x ==> (out.spec_at(i, y as int) == white_px() || out.spec_at(
                        i,
                        y as int,
                    ) == black_px() || out.spec_at(i, y as int) == img.spec_at(i, y as int)),
                density_num == 0 ==> forall|i: int, j: int|
                    0 <= i < width && 0 <= j < y ==> out.spec_at(i, j) == img.spec_at(i, j),
                density_num == 0 ==> forall|i: int|
                    0 <= i < x ==> out.spec_at(i, y as int) == img.spec_at(i, y as int),
                density_num == density_den ==> forall|i: int, j: int|
                    0 <= i < width && 0 <= j < y ==> (out.spec_at(i, j) == white_px()
                        || out.spec_at(i, j) == black_px()),
                density_num == density_den ==> forall|i: int|
                    0 <= i < x ==> (out.spec_at(i, y as int) == white_px() || out.spec_at(
                        i,
                        y as int,
                    ) == black_px()),
            decreases width - x,
        {
            let u = draw_below(rng, 2 * (density_den as u64));
            if u < density_num as u64 {
                out.put_pixel(x, y, Rgb { r: 255, g: 255, b: 255 });
            } else if u < 2 * (density_num as u64) {
                out.put_pixel(x, y, Rgb { r: 0, g: 0, b: 0 });
            } else {
                out.put_pixel(x, y, img.get_pixel(x, y));
            }
            x = x + 1;
        }
        y = y + 1;
    }
    Ok(out)
}

/// A pixel on an earlier row, or earlier in the same row, has all three of
/// its channel slots strictly before the slot a later pixel's channels
/// start at.
proof fn lemma_channel_base_lt(i: int, j: int, x: int, y: int, w: int)
    requires
        0 <= i < w,
        0 <= j <= y,
        j == y ==> i < x,
        0 <= x,
    ensures
        channel_base(i, j, w) + 2 < 3 * (w * y + x),
{
    assert(j * w + i < w * y + x) by (nonlinear_arith)
        requires
            0 <= i < w,
            0 <= j <= y,
            j == y ==> i < x,
            0 <= x,
    ;
}

/// The Poisson rate of one channel: its own value, floored at 1 so that a
/// fully black channel still has a rate.
pub open spec fn rate_of(c: u8) -> u32 {
    if c >= 1 {
        c as u32
    } else {
        1u32
    }
}

/// The per-channel Poisson rates of a whole image, three entries per pixel,
/// row-major: the buffer a caller draws the Poisson samples with.
pub fn poisson_rates(img: &RgbImage) -> (rates: Vec<u32>)
    requires
        img.wf(),
    ensures
        rates@.len() == 3 * (img.spec_width() * img.spec_height()),
        forall|x: int, y: int|
            #![trigger img.spec_at(x, y)]
            0 <= x < img.spec_width() && 0 <= y < img.spec_height() ==> {
                let base = channel_base(x, y, img.spec_width() as int);
                &&& rates@[base] == rate_of(img.spec_at(x, y).r)
                &&& rates@[base + 1] == rate_of(img.spec_at(x, y).g)
                &&& rates@[base + 2] == rate_of(img.spec_at(x, y).b)
            },
{
    let width = img.width();
    let height = img.height();
    proof {
        img.lemma_area_fits();
    }
    let mut rates: Vec<u32> = Vec::new();
    let mut y: usize = 0;
    while y < height
        invariant
            y <= height,
            img.wf(),
            width == img.spec_width(),
            height == img.spec_height(),
            rates@.len() == 3 * (width * y),
            forall|i: int, j: int|
                #![trigger img.spec_at(i, j)]
                0 <= i < width && 0 <= j < y ==> {
                    let base = channel_base(i, j, width as int);
                    &&& rates@[base] == rate_of(img.spec_at(i, j).r)
                    &&& rates@[base + 1] == rate_of(img.spec_at(i, j).g)
                    &&& rates@[base + 2] == rate_of(img.spec_at(i, j).b)
                },
        decreases height - y,
    {
        let mut x: usize = 0;
        while x < width
            invariant
                x <= width,
                y < height,
                img.wf(),
                width == img.spec_width(),
                height == img.spec_height(),
                rates@.len() == 3 * (width * y + x),
                forall|i: int, j: int|
                    #![trigger img.spec_at(i, j)]
                    0 <= i < width && 0 <= j < y ==> {
                        let base = channel_base(i, j, width as int);
                        &&& rates@[base] == rate_of(img.spec_at(i, j).r)
                        &&& rates@[base + 1] == rate_of(img.spec_at(i, j).g)
                        &&& rates@[base + 2] == rate_of(img.spec_at(i, j).b)
                    },
                forall|i: int|
                    #![trigger img.spec_at(i, y as int)]
                    0 <= i < x ==> {
                        let base = channel_base(i, y as int, width as int);
                        &&& rates@[base] == rate_of(img.spec_at(i, y as int).r)
                        &&& rates@[base + 1] == rate_of(img.spec_at(i, y as int).g)
                        &&& rates@[base + 2] == rate_of(img.spec_at(i, y as int).b)
                    },
            decreases width - x,
        {
            proof {
                lemma_pix_index_bound(x as int, y as int, width as int, height as int);
                assert(width * y + x == pix_index(x as int, y as int, width as int)) by (
                nonlinear_arith);
            }
            let p = img.get_pixel(x, y);
            rates.push(if p.r >= 1 {
                p.r as u32
            } else {
                1
            });
            rates.push(if p.g >= 1 {
                p.g as u32
            } else {
                1
            });
            rates.push(if p.b >= 1 {
                p.b as u32
            } else {
                1
            });
            proof {
                assert forall|i: int, j: int|
                    #![trigger img.spec_at(i, j)]
                    0 <= i < width && 0 <= j < y implies {
                    let base = channel_base(i, j, width as int);
                    &&& rates@[base] == rate_of(img.spec_at(i, j).r)
                    &&& rates@[base + 1] == rate_of(img.spec_at(i, j).g)
                    &&& rates@[base + 2] == rate_of(img.spec_at(i, j).b)
                } by {
                    lemma_channel_base_lt(i, j, x as int, y as int, width as int);
                }
                assert forall|i: int|
                    #![trigger img.spec_at(i, y as int)]
                    0 <= i < x implies {
                    let base = channel_base(i, y as int, width as int);
                    &&& rates@[base] == rate_of(img.spec_at(i, y as int).r)
                    &&& rates@[base + 1] == rate_of(img.spec_at(i, y as int).g)
                    &&& rates@[base + 2] == rate_of(img.spec_at(i, y as int).b)
                } by {
                    lemma_channel_base_lt(i, y as int, x as int, y as int, width as int);
                }
            }
            x = x + 1;
        }
        proof {
            assert(width * (y as int) + width == width * ((y as int) + 1)) by (nonlinear_arith);
        }
        y = y + 1;
    }
    rates
}

/// A sample clamped to the channel range, as a spec value.
pub open spec fn clamped_sample(s: u64) -> u8 {
    if s > 255 {
        255u8
    } else {
        s as u8
    }
}

/// A pixel rebuilt from three per-channel samples, each clamped to the
/// channel range.
pub open spec fn sampled_px(samples: Seq<u64>, base: int) -> Rgb {
    Rgb {
        r: clamped_sample(samples[base]),
        g: clamped_sample(samples[base + 1]),
        b: clamped_sample(samples[base + 2]),
    }
}

/// Replace each channel, independently, by the caller's draw from a Poisson
/// distribution whose rate is the channel's own value floored at 1 — the
/// buffer `poisson_rates` describes — clamped to the channel range.
/// Brighter channels are noisier in absolute terms.
pub fn add_poisson_noise_to_rgb(img: &RgbImage, samples: &Vec<u64>) -> (out: RgbImage)
    requires
        img.wf(),
        samples@.len() == 3 * (img.spec_width() * img.spec_height()),
    ensures
        out.wf(),
        out.spec_width() == img.spec_width(),
        out.spec_height() == img.spec_height(),
        forall|x: int, y: int|
            0 <= x < img.spec_width() && 0 <= y < img.spec_height() ==> out.spec_at(x, y)
                == sampled_px(samples@, channel_base(x, y, img.spec_width() as int)),
{
    let width = img.width();
    let height = img.height();
    let total: usize = samples.len();
    proof {
        img.lemma_area_fits();
    }
    let mut out = RgbImage::new(width, height);
    let mut y: usize = 0;
    while y < height
        invariant
            y <= height,
            out.wf(),
            out.spec_width() == width,
            out.spec_height() == height,
            img.wf(),
            width == img.spec_width(),
            height == img.spec_height(),
            total == samples@.len(),
            samples@.len() == 3 * (width * height),
            forall|i: int, j: int|
                0 <= i < width && 0 <= j < y ==> out.spec_at(i, j) == sampled_px(
                    samples@,
                    channel_base(i, j, width as int),
                ),
        decreases height - y,
    {
        let mut x: usize = 0;
        while x < width
            invariant
                x <= width,
                y < height,
                out.wf(),
                out.spec_width() == width,
                out.spec_height() == height,
                img.wf(),
                width == img.spec_width(),
                height == img.spec_height(),
                total == samples@.len(),
                samples@.len() == 3 * (width * height),
                forall|i: int, j: int|
                    0 <= i < width && 0 <= j < y ==> out.spec_at(i, j) == sampled_px(
                        samples@,
                        channel_base(i, j, width as int),
                    ),
                forall|i: int|
                    0 <= i < x ==> out.spec_at(i, y as int) == sampled_px(
                        samples@,
                        channel_base(i, y as int, width as int),
                    ),
            decreases width - x,
        {
            proof {
                lemma_pix_index_bound(x as int, y as int, width as int, height as int);
            }
            let base: usize = 3 * (y * width + x);
            let nr = clamp_sample_to_channel(*samples.get(base).unwrap());
            let ng = clamp_sample_to_channel(*samples.get(base + 1).unwrap());
            let nb = clamp_sample_to_channel(*samples.get(base + 2).unwrap());
            out.put_pixel(x, y, Rgb { r: nr, g: ng, b: nb });
            x = x + 1;
        }
        y = y + 1;
    }
    out
}


/// The value of a hexadecimal digit character, or 16 for any other
/// character.
pub open spec fn hex_val(c: char) -> int {
    if 48 <= c as int <= 57 {
        c as int - 48
    } else if 65 <= c as int <= 70 {
        c as int - 55
    } else if 97 <= c as int <= 102 {
        c as int - 87
    } else {
        16
    }
}

/// Whether a character is a hexadecimal digit.
pub open spec fn is_hex_digit(c: char) -> bool {
    hex_val(c) < 16
}

/// A colour string with every leading `#` removed.
pub open spec fn strip_hashes(s: Seq<char>) -> Seq<char>
    decreases s.len(),
{
    if s.len() > 0 && s[0] == '#' {
        strip_hashes(s.drop_first())
    } else {
        s
    }
}

/// The byte two hexadecimal digits denote.
pub open spec fn hex_byte(h: char, l: char) -> int {
    hex_val(h) * 16 + hex_val(l)
}

/// Whether the string is a well-formed `#RRGGBB` tint colour: after the
/// leading hashes, exactly six hexadecimal digits.
pub open spec fn valid_tint(s: Seq<char>) -> bool {
    let b = strip_hashes(s);
    b.len() == 6 && (forall|i: int| 0 <= i < 6 ==> is_hex_digit(#[trigger] b[i]))
}

/// The colour a well-formed tint string denotes.
pub open spec fn tint_rgb_of(s: Seq<char>) -> Rgb {
    let b = strip_hashes(s);
    Rgb {
        r: hex_byte(b[0], b[1]) as u8,
        g: hex_byte(b[2], b[3]) as u8,
        b: hex_byte(b[4], b[5]) as u8,
    }
}

/// The value of one hexadecimal digit character, 16 for any other.
fn hex_digit_val(c: char) -> (v: u8)
    ensures
        v as int == hex_val(c),
{
    let d: u32 = c as u32;
    if 48 <= d && d <= 57 {
        (d - 48) as u8
    } else if 65 <= d && d <= 70 {
        (d - 55) as u8
    } else if 97 <= d && d <= 102 {
        (d - 87) as u8
    } else {
        16
    }
}

/// Parse a `#RRGGBB` tint string into a colour; any number of leading
/// hashes is accepted, anything else than six hex digits after them is an
/// encoding error.
pub fn hex_to_rgb(hex: &str) -> (r: Result<Rgb, Error>)
    ensures
        r is Ok <==> valid_tint(hex@),
        r matches Ok(c) ==> c == tint_rgb_of(hex@),
        r is Err ==> r->Err_0 == Error::InvalidColorEncoding,
{
    let n: usize = hex.unicode_len();
    proof {
        assert(hex@.subrange(0, n as int) =~= hex@);
    }
    let mut i: usize = 0;
    while i < n && hex.get_char(i) == '#'
        invariant
            i <= n,
            n == hex@.len(),
            strip_hashes(hex@) == strip_hashes(hex@.subrange(i as int, n as int)),
        decreases n - i,
    {
        proof {
            assert(hex@.subrange(i as int, n as int).drop_first() =~= hex@.subrange(
                i + 1,
                n as int,
            ));
        }
        i = i + 1;
    }
    let ghost b = strip_hashes(hex@);
    proof {
        assert(b == hex@.subrange(i as int, n as int));
    }
    if n - i != 6 {
        return Err(Error::InvalidColorEncoding);
    }
    let mut vals: [u8; 6] = [0, 0, 0, 0, 0, 0];
    let mut k: usize = 0;
    while k < 6
        invariant
            k <= 6,
            i + 6 == n,
            n == hex@.len(),
            b == strip_hashes(hex@),
            b == hex@.subrange(i as int, n as int),
            forall|t: int| 0 <= t < k ==> vals[t] as int == hex_val(b[t]) && is_hex_digit(b[t]),
        decreases 6 - k,
    {
        let v = hex_digit_val(hex.get_char(i + k));
        if v >= 16 {
            proof {
                assert(!is_hex_digit(b[k as int]));
            }
            return Err(Error::InvalidColorEncoding);
        }
        vals[k] = v;
        k = k + 1;
    }
    let red: u8 = vals[0] * 16 + vals[1];
    let green: u8 = vals[2] * 16 + vals[3];
    let blue: u8 = vals[4] * 16 + vals[5];
    Ok(Rgb { r: red, g: green, b: blue })
}

/// One channel tinted `num/den` of the way toward the tint channel,
/// rounded down.
pub open spec fn tint_channel(c: u8, t: u8, num: int, den: int) -> int {
    (c * (den - num) + t * num) / den
}

/// A pixel tinted channel by channel.
pub open spec fn tint_px(p: Rgb, tint: Rgb, num: int, den: int) -> Rgb {
    Rgb {
        r: tint_channel(p.r, tint.r, num, den) as u8,
        g: tint_channel(p.g, tint.g, num, den) as u8,
        b: tint_channel(p.b, tint.b, num, den) as u8,
    }
}

proof fn lemma_tint_channel_bound(c: int, t: int, num: int, den: int)
    requires
        0 <= c <= 255,
        0 <= t <= 255,
        0 <= num <= den,
        1 <= den,
    ensures
        0 <= c * (den - num) + t * num <= 255 * den,
        0 <= (c * (den - num) + t * num) / den <= 255,
{
    assert(0 <= c * (den - num) + t * num <= 255 * den) by (nonlinear_arith)
        requires
            0 <= c <= 255,
            0 <= t <= 255,
            0 <= num <= den,
    ;
    assert((255 * den) / den == 255) by (nonlinear_arith)
        requires
            1 <= den,
    ;
    assert((c * (den - num) + t * num) / den <= (255 * den) / den) by (nonlinear_arith)
        requires
            0 <= c * (den - num) + t * num <= 255 * den,
            1 <= den,
    ;
    assert(0 <= (c * (den - num) + t * num) / den) by (nonlinear_arith)
        requires
            0 <= c * (den - num) + t * num,
            1 <= den,
    ;
}

/// Blend every pixel `num/den` of the way toward the colour a `#RRGGBB`
/// string denotes.
///
/// A malformed colour string is an encoding error; an intensity outside
/// [0, 1] is a parameter error, reported first.
pub fn apply_tint_to_rgb(
    img: &RgbImage,
    tint_color: &str,
    intensity_num: u32,
    intensity_den: u32,
) -> (r: Result<RgbImage, Error>)
    requires
        img.wf(),
    ensures
        r is Err <==> (intensity_den == 0 || intensity_num > intensity_den || !valid_tint(
            tint_color@,
        )),
        (intensity_den == 0 || intensity_num > intensity_den) ==> r == Err::<RgbImage, Error>(
            Error::InvalidNoiseParameter,
        ),
        (intensity_den >= 1 && intensity_num <= intensity_den && !valid_tint(tint_color@)) ==> r
            == Err::<RgbImage, Error>(Error::InvalidColorEncoding),
        r matches Ok(out) ==> {
            &&& out.wf()
            &&& out.spec_width() == img.spec_width()
            &&& out.spec_height() == img.spec_height()
            &&& forall|x: int, y: int|
                0 <= x < img.spec_width() && 0 <= y < img.spec_height() ==> out.spec_at(x, y)
                    == tint_px(
                    img.spec_at(x, y),
                    tint_rgb_of(tint_color@),
                    intensity_num as int,
                    intensity_den as int,
                )
        },
{
    if intensity_den == 0 || intensity_num > intensity_den {
        return Err(Error::InvalidNoiseParameter);
    }
    let tint = match hex_to_rgb(tint_color) {
        Ok(t) => t,
        Err(e) => {
            return Err(e);
        },
    };
    let width = img.width();
    let height = img.height();
    proof {
        img.lemma_area_fits();
    }
    let mut out = RgbImage::new(width, height);
    let mut y: usize = 0;
    while y < height
        invariant
            y <= height,
            out.wf(),
            out.spec_width() == width,
            out.spec_height() == height,
            img.wf(),
            width == img.spec_width(),
            height == img.spec_height(),
            1 <= intensity_den,
            intensity_num <= intensity_den,
            tint == tint_rgb_of(tint_color@),
            forall|i: int, j: int|
                0 <= i < width && 0 <= j < y ==> out.spec_at(i, j) == tint_px(
                    img.spec_at(i, j),
                    tint,
                    intensity_num as int,
                    intensity_den as int,
                ),
        decreases height - y,
    {
        let mut x: usize = 0;
        while x < width
            invariant
                x <= width,
                y < height,
                out.wf(),
                out.spec_width() == width,
                out.spec_height() == height,
                img.wf(),
                width == img.spec_width(),
                height == img.spec_height(),
                1 <= intensity_den,
                intensity_num <= intensity_den,
                tint == tint_rgb_of(tint_color@),
                forall|i: int, j: int|
                    0 <= i < width && 0 <= j < y ==> out.spec_at(i, j) == tint_px(
                        img.spec_at(i, j),
                        tint,
                        intensity_num as int,
                        intensity_den as int,
                    ),
                forall|i: int|
                    0 <= i < x ==> out.spec_at(i, y as int) == tint_px(
                        img.spec_at(i, y as int),
                        tint,
                        intensity_num as int,
                        intensity_den as int,
                    ),
            decreases width - x,
        {
            let p = img.get_pixel(x, y);
            proof {
                lemma_tint_channel_bound(
                    p.r as int,
                    tint.r as int,
                    intensity_num as int,
                    intensity_den as int,
                );
                lemma_tint_channel_bound(
                    p.g as int,
                    tint.g as int,
                    intensity_num as int,
                    intensity_den as int,
                );
                lemma_tint_channel_bound(
                    p.b as int,
                    tint.b as int,
                    intensity_num as int,
                    intensity_den as int,
                );
            }
            let keep: u64 = (intensity_den - intensity_num) as u64;
            let nr: u64 = ((p.r as u64) * keep + (tint.r as u64) * (intensity_num as u64))
                / (intensity_den as u64);
            let ng: u64 = ((p.g as u64) * keep + (tint.g as u64) * (intensity_num as u64))
                / (intensity_den as u64);
            let nb: u64 = ((p.b as u64) * keep + (tint.b as u64) * (intensity_num as u64))
                / (intensity_den as u64);
            out.put_pixel(x, y, Rgb { r: nr as u8, g: ng as u8, b: nb as u8 });
            x = x + 1;
        }
        y = y + 1;
    }
    Ok(out)
}

} // verus!
