use vstd::prelude::*;

use crate::error::Error;
use crate::image_processing::{convert_grayscale_to_rgb, gray_to_rgb, grayscale, luma_of};
use crate::raster::{Rgb, RgbImage};
use crate::sky_detection::{
    apply_sky_color_with_gradient, blend_px, detect_sky_region_growing, get_sky_color_for_time,
    spec_sky_color_for_time, transition_factor, SkyMask,
};

verus! {

/// A noise model and its parameters, chosen once per pipeline run.
#[derive(Clone, Copy, PartialEq, Eq, Structural, Debug)]
pub enum NoiseSpec {
    /// Additive per-channel noise drawn from `Normal(mean, stddev)`.
    Gaussian { mean: i32, stddev: u32 },
    /// Per-pixel replacement by white or black with probability
    /// `density_num / density_den`.
    SaltPepper { density_num: u32, density_den: u32 },
    /// Per-channel Poisson resampling at the channel's own value.
    Poisson,
}

/// An exact pixel-for-pixel copy of an image.
pub fn clone_image(img: &RgbImage) -> (out: RgbImage)
    requires
        img.wf(),
    ensures
        out.wf(),
        out.spec_width() == img.spec_width(),
        out.spec_height() == img.spec_height(),
        forall|x: int, y: int|
            0 <= x < img.spec_width() && 0 <= y < img.spec_height() ==> out.spec_at(x, y)
                == img.spec_at(x, y),
{
    let width = img.width();
    let height = img.height();
    proof {
        img.lemma_area_fits();
    }
    let mut out = RgbImage::new(width, height);
    let mut y: usize = 0;
    while y < height
        invariant
            y <= height,
            out.wf(),
            out.spec_width() == width,
            out.spec_height() == height,
            img.wf(),
            width == img.spec_width(),
            height == img.spec_height(),
            forall|i: int, j: int|
                0 <= i < width && 0 <= j < y ==> out.spec_at(i, j) == img.spec_at(i, j),
        decreases height - y,
    {
        let mut x: usize = 0;
        while x < width
            invariant
                x <= width,
                y < height,
                out.wf(),
                out.spec_width() == width,
                out.spec_height() == height,
                img.wf(),
                width == img.spec_width(),
                height == img.spec_height(),
                forall|i: int, j: int|
                    0 <= i < width && 0 <= j < y ==> out.spec_at(i, j) == img.spec_at(i, j),
                forall|i: int| 0 <= i < x ==> out.spec_at(i, y as int) == img.spec_at(i, y as int),
            decreases width - x,
        {
            out.put_pixel(x, y, img.get_pixel(x, y));
            x = x + 1;
        }
        y = y + 1;
    }
    out
}

/// What the optional grayscale stage leaves of one pixel: the pixel itself,
/// or its luma spread across the three channels.
pub open spec fn stage1_px(p: Rgb, to_grayscale: bool) -> Rgb {
    if to_grayscale {
        gray_to_rgb(luma_of(p) as u8)
    } else {
        p
    }
}

/// The relation between the pipeline's input and output when the sky is
/// recoloured through the given mask: every output pixel is the compositing
/// blend of the grayscale stage's pixel toward the hour's sky colour.
pub open spec fn composited_via(
    out: RgbImage,
    img: RgbImage,
    to_grayscale: bool,
    hour: u32,
    m: SkyMask,
) -> bool {
    &&& m.wf()
    &&& m.spec_width() == img.spec_width()
    &&& m.spec_height() == img.spec_height()
    &&& forall|x: int, y: int|
        0 <= x < img.spec_width() && 0 <= y < img.spec_height() ==> out.spec_at(x, y) == blend_px(
            stage1_px(img.spec_at(x, y), to_grayscale),
            spec_sky_color_for_time(hour),
            transition_factor(&m, x, y),
        )
}

/// The deterministic stages of one pipeline run: optionally collapse the
/// frame to grayscale, then optionally segment its sky and recolour it with
/// the hour's colour. The stochastic noise stage follows separately.
///
/// Recolouring a zero-sized frame is an invalid-dimensions error; without
/// recolouring the frame passes through whatever its size.
pub fn process_base(img: &RgbImage, to_grayscale: bool, color_sky: bool, hour: u32) -> (r: Result<
    RgbImage,
    Error,
>)
    requires
        img.wf(),
    ensures
        r is Err <==> (color_sky && (img.spec_width() == 0 || img.spec_height() == 0)),
        r is Err ==> r->Err_0 == Error::InvalidDimensions,
        r matches Ok(out) ==> {
            &&& out.wf()
            &&& out.spec_width() == img.spec_width()
            &&& out.spec_height() == img.spec_height()
            &&& !color_sky ==> forall|x: int, y: int|
                0 <= x < img.spec_width() && 0 <= y < img.spec_height() ==> out.spec_at(x, y)
                    == stage1_px(img.spec_at(x, y), to_grayscale)
            &&& color_sky ==> exists|m: SkyMask| composited_via(out, *img, to_grayscale, hour, m)
        },
{
    let stage1: RgbImage = if to_grayscale {
        let gray = grayscale(img);
        convert_grayscale_to_rgb(&gray)
    } else {
        clone_image(img)
    };
    if !color_sky {
        return Ok(stage1);
    }
    let gray_for_sky = grayscale(&stage1);
    match detect_sky_region_growing(&gray_for_sky) {
        Err(e) => Err(e),
        Ok(mask) => {
            let color = get_sky_color_for_time(hour);
            let out = apply_sky_color_with_gradient(&stage1, &mask, color);
            proof {
                assert(composited_via(out, *img, to_grayscale, hour, mask));
            }
            Ok(out)
        },
    }
}

} // verus!
