use vstd::prelude::*;

use crate::error::Error;
use crate::raster::{lemma_pix_index_bound, lemma_pix_index_distinct, pix_index, GrayImage, Rgb,
    RgbImage};
use vstd::arithmetic::div_mod::{lemma_fundamental_div_mod, lemma_fundamental_div_mod_converse,
    lemma_mod_bound};
use vstd::set_lib::{lemma_int_range, lemma_len_subset, set_int_range};

verus! {

/// A boolean grid, one flag per pixel, `true` meaning "classified as sky".
#[derive(Debug)]
pub struct SkyMask {
    width: usize,
    height: usize,
    data: Vec<bool>,
}

impl SkyMask {
    pub closed spec fn wf(&self) -> bool {
        self.data.len() == self.width * self.height
    }

    pub closed spec fn spec_width(&self) -> usize {
        self.width
    }

    pub closed spec fn spec_height(&self) -> usize {
        self.height
    }

    /// Whether the pixel at column `x`, row `y` is classified as sky.
    pub closed spec fn spec_at(&self, x: int, y: int) -> bool {
        self.data[pix_index(x, y, self.width as int)]
    }

    /// A fresh all-false mask.
    pub fn new(width: usize, height: usize) -> (m: SkyMask)
        requires
            width * height <= usize::MAX,
        ensures
            m.wf(),
            m.spec_width() == width,
            m.spec_height() == height,
            forall|x: int, y: int| 0 <= x < width && 0 <= y < height ==> !m.spec_at(x, y),
    {
        proof {
            assert(width * height <= usize::MAX) by (nonlinear_arith)
                requires
                    width * height <= usize::MAX,
            ;
        }
        let n: usize = width * height;
        let mut data: Vec<bool> = Vec::new();
        let mut i: usize = 0;
        while i < n
            invariant
                i <= n,
                data.len() == i,
                forall|k: int| 0 <= k < i ==> !data[k],
            decreases n - i,
        {
            data.push(false);
            i = i + 1;
        }
        let m = SkyMask { width, height, data };
        proof {
            assert forall|x: int, y: int|
                0 <= x < width && 0 <= y < height implies !m.spec_at(x, y) by {
                lemma_pix_index_bound(x, y, width as int, height as int);
            }
        }
        m
    }

    pub proof fn lemma_area_fits(&self)
        requires
            self.wf(),
        ensures
            self.spec_width() * self.spec_height() <= usize::MAX,
    {
    }

    pub fn width(&self) -> (w: usize)
        ensures
            w == self.spec_width(),
    {
        self.width
    }

    pub fn height(&self) -> (h: usize)
        ensures
            h == self.spec_height(),
    {
        self.height
    }

    pub fn get(&self, x: usize, y: usize) -> (v: bool)
        requires
            self.wf(),
            x < self.spec_width(),
            y < self.spec_height(),
        ensures
            v == self.spec_at(x as int, y as int),
    {
        proof {
            lemma_pix_index_bound(x as int, y as int, self.width as int, self.height as int);
        }
        self.data[y * self.width + x]
    }

    pub fn set(&mut self, x: usize, y: usize, v: bool)
        requires
            old(self).wf(),
            x < old(self).spec_width(),
            y < old(self).spec_height(),
        ensures
            final(self).wf(),
            final(self).spec_width() == old(self).spec_width(),
            final(self).spec_height() == old(self).spec_height(),
            final(self).spec_at(x as int, y as int) == v,
            forall|i: int, j: int|
                0 <= i < old(self).spec_width() && 0 <= j < old(self).spec_height()
                    && !(i == x && j == y) ==> final(self).spec_at(i, j) == old(self).spec_at(i, j),
    {
        proof {
            lemma_pix_index_bound(x as int, y as int, self.width as int, self.height as int);
        }
        let idx: usize = y * self.width + x;
        self.data.set(idx, v);
        proof {
            assert forall|i: int, j: int|
                0 <= i < old(self).spec_width() && 0 <= j < old(self).spec_height()
                    && !(i == x && j == y) implies final(self).spec_at(i, j) == old(self).spec_at(
                i,
                j,
            ) by {
                lemma_pix_index_bound(i, j, self.width as int, self.height as int);
                lemma_pix_index_distinct(i, j, x as int, y as int, self.width as int);
            }
        }
    }
}

/// The row-major indices of the pixels a mask marks as sky; the measure that
/// shrinks as region growth marks new pixels.
spec fn marked_ids(m: &SkyMask) -> Set<int> {
    Set::new(
        |i: int|
            0 <= i < (m.spec_width() as int) * (m.spec_height() as int) && m.spec_at(
                i % (m.spec_width() as int),
                i / (m.spec_width() as int),
            ),
    )
}

/// A row-major index inside a `w` by `h` grid decodes to in-bounds
/// coordinates that re-encode to the same index.
proof fn lemma_id_coords(i: int, w: int, h: int)
    requires
        w >= 1,
        0 <= i < w * h,
    ensures
        0 <= i % w < w,
        0 <= i / w < h,
        i == w * (i / w) + (i % w),
{
    lemma_fundamental_div_mod(i, w);
    lemma_mod_bound(i, w);
    let q = i / w;
    let r = i % w;
    if q < 0 {
        assert(w * q <= 0 - w) by (nonlinear_arith)
            requires
                w >= 1,
                q <= -1,
        ;
    }
    if q >= h {
        assert(w * q >= w * h) by (nonlinear_arith)
            requires
                w >= 1,
                q >= h,
        ;
    }
}

proof fn lemma_marked_ids_bounded(m: &SkyMask)
    ensures
        marked_ids(m).finite(),
        marked_ids(m).len() <= (m.spec_width() as int) * (m.spec_height() as int),
{
    broadcast use vstd::set::group_set_axioms;

    let area = (m.spec_width() as int) * (m.spec_height() as int);
    if area < 0 {
        assert(false) by (nonlinear_arith)
            requires
                area == (m.spec_width() as int) * (m.spec_height() as int),
                area < 0,
                m.spec_width() >= 0,
                m.spec_height() >= 0,
        ;
    }
    lemma_int_range(0, area);
    assert(marked_ids(m).subset_of(set_int_range(0, area)));
    lemma_len_subset(marked_ids(m), set_int_range(0, area));
}

/// Marking one unmarked pixel grows the marked-index set by exactly one.
proof fn lemma_marked_ids_insert(m1: &SkyMask, m2: &SkyMask, x: int, y: int)
    requires
        m1.spec_width() == m2.spec_width(),
        m1.spec_height() == m2.spec_height(),
        m1.spec_width() >= 1,
        0 <= x < m1.spec_width() as int,
        0 <= y < m1.spec_height() as int,
        !m1.spec_at(x, y),
        m2.spec_at(x, y),
        forall|i: int, j: int|
            0 <= i < m1.spec_width() && 0 <= j < m1.spec_height() && !(i == x && j == y)
                ==> m2.spec_at(i, j) == m1.spec_at(i, j),
    ensures
        marked_ids(m2).len() == marked_ids(m1).len() + 1,
        marked_ids(m2).finite(),
{
    broadcast use vstd::set::group_set_axioms;

    let w = m1.spec_width() as int;
    let h = m1.spec_height() as int;
    let t = y * w + x;
    lemma_pix_index_bound(x, y, w, h);
    lemma_fundamental_div_mod_converse(t, w, y, x);
    assert(w * y == y * w) by (nonlinear_arith);
    assert forall|i: int| #[trigger] marked_ids(m2).contains(i) implies marked_ids(
        m1,
    ).insert(t).contains(i) by {
        lemma_id_coords(i, w, h);
        if i != t {
            assert(!(i % w == x && i / w == y));
        }
    }
    assert forall|i: int| #[trigger] marked_ids(m1).insert(t).contains(i) implies marked_ids(
        m2,
    ).contains(i) by {
        if i == t {
        } else {
            lemma_id_coords(i, w, h);
            assert(!(i % w == x && i / w == y));
        }
    }
    assert(marked_ids(m2) =~= marked_ids(m1).insert(t));
    lemma_marked_ids_bounded(m1);
    assert(!marked_ids(m1).contains(t));
}

/// If the popped pixel's neighbour at `(nx, ny)` is unmarked, bright enough
/// and close enough in intensity to the popped pixel, mark it and queue it.
fn try_join(
    img: &GrayImage,
    m: &mut SkyMask,
    seeds: &mut Vec<(usize, usize)>,
    cur_val: u8,
    nx: usize,
    ny: usize,
)
    requires
        img.wf(),
        old(m).wf(),
        old(m).spec_width() == img.spec_width(),
        old(m).spec_height() == img.spec_height(),
        img.spec_width() >= 1,
        img.spec_height() >= 1,
        nx < img.spec_width(),
        ny < img.spec_height(),
        forall|k: int|
            0 <= k < old(seeds)@.len() ==> (#[trigger] old(seeds)@[k]).0 < img.spec_width() && old(
                seeds,
            )@[k].1 < img.spec_height(),
    ensures
        final(m).wf(),
        final(m).spec_width() == old(m).spec_width(),
        final(m).spec_height() == old(m).spec_height(),
        forall|k: int|
            0 <= k < final(seeds)@.len() ==> (#[trigger] final(seeds)@[k]).0 < img.spec_width()
                && final(seeds)@[k].1 < img.spec_height(),
        forall|i: int, j: int|
            0 <= i < img.spec_width() && 0 <= j < img.spec_height() && old(m).spec_at(i, j)
                ==> final(m).spec_at(i, j),
        forall|i: int, j: int|
            0 <= i < img.spec_width() && 0 <= j < img.spec_height()
                && #[trigger] final(m).spec_at(i, j) && !old(m).spec_at(i, j)
                ==> img.spec_at(i, j) > 100,
        marked_ids(final(m)).finite(),
        2 * ((img.spec_width() as int) * (img.spec_height() as int) - marked_ids(
            final(m),
        ).len()) + final(seeds)@.len() <= 2 * ((img.spec_width() as int) * (img.spec_height()
            as int) - marked_ids(old(m)).len()) + old(seeds)@.len(),
{
    proof {
        lemma_marked_ids_bounded(old(m));
    }
    if !m.get(nx, ny) {
        let nv = img.get_pixel(nx, ny);
        let diff: u8 = if nv >= cur_val {
            nv - cur_val
        } else {
            cur_val - nv
        };
        if diff < 15 && nv > 100 {
            m.set(nx, ny, true);
            seeds.push((nx, ny));
            proof {
                lemma_marked_ids_insert(old(m), m, nx as int, ny as int);
            }
        }
    }
}

/// The growth phase marked every bright top-row seed.
pub open spec fn seeds_marked(raw: SkyMask, img: &GrayImage) -> bool {
    forall|x: int|
        0 <= x < img.spec_width() && #[trigger] img.spec_at(x, 0) > 120 ==> raw.spec_at(x, 0)
}

/// The growth phase marked only pixels bright enough to join the sky: above
/// intensity 100, or a top-row seed above 120.
pub open spec fn grown_mask_sound(raw: SkyMask, img: &GrayImage) -> bool {
    forall|x: int, y: int|
        0 <= x < img.spec_width() && 0 <= y < img.spec_height() && #[trigger] raw.spec_at(x, y)
            ==> (img.spec_at(x, y) > 100 || (y == 0 && img.spec_at(x, 0) > 120))
}

/// The mask `m` is the boundary-smoothed form of a grown mask `raw`: `raw`
/// marks the bright top-row seeds and only bright pixels, and `m` is one
/// contiguous cap per column, from row 0 down to the median-filtered
/// bottoms of `raw`.
pub open spec fn smoothed_from_growth(m: &SkyMask, raw: SkyMask, img: &GrayImage) -> bool {
    &&& raw.wf()
    &&& raw.spec_width() == img.spec_width()
    &&& raw.spec_height() == img.spec_height()
    &&& seeds_marked(raw, img)
    &&& grown_mask_sound(raw, img)
    &&& forall|x: int, y: int|
        0 <= x < img.spec_width() && 0 <= y < img.spec_height() ==> m.spec_at(x, y) == (y
            <= smoothed_of(bottoms_of(&raw))[x] as int)
}

/// Classify the sky of a grayscale frame by seeded region growth.
///
/// Seeds are the bright pixels of the top row; growth spreads down, left and
/// right (never up) to unmarked neighbours that are bright enough and close
/// in intensity to the pixel they are reached from; a median pass then
/// smooths the per-column boundary, so each column of the result is one
/// contiguous cap of sky rows starting at row 0.
pub fn detect_sky_region_growing(img: &GrayImage) -> (r: Result<SkyMask, Error>)
    requires
        img.wf(),
    ensures
        r is Err <==> (img.spec_width() == 0 || img.spec_height() == 0),
        r is Err ==> r->Err_0 == Error::InvalidDimensions,
        r matches Ok(m) ==> {
            &&& m.wf()
            &&& m.spec_width() == img.spec_width()
            &&& m.spec_height() == img.spec_height()
            &&& (forall|x: int| 0 <= x < img.spec_width() ==> img.spec_at(x, 0) <= 120)
                ==> (forall|x: int, y: int|
                0 <= x < img.spec_width() && 0 <= y < img.spec_height() ==> !m.spec_at(x, y))
            &&& (exists|x: int| 0 <= x < img.spec_width() && img.spec_at(x, 0) > 120) ==> {
                &&& (forall|x: int| 0 <= x < img.spec_width() ==> m.spec_at(x, 0))
                &&& (forall|x: int, y1: int, y2: int|
                    0 <= x < img.spec_width() && 0 <= y1 <= y2 < img.spec_height() && m.spec_at(
                        x,
                        y2,
                    ) ==> m.spec_at(x, y1))
                &&& exists|raw: SkyMask| smoothed_from_growth(&m, raw, img)
            }
        },
{
    let width = img.width();
    let height = img.height();
    if width == 0 || height == 0 {
        return Err(Error::InvalidDimensions);
    }
    proof {
        img.lemma_area_fits();
    }
    let mut mask = SkyMask::new(width, height);
    let mut seeds: Vec<(usize, usize)> = Vec::new();

    let mut x: usize = 0;
    while x < width
        invariant
            x <= width,
            img.wf(),
            width == img.spec_width(),
            height == img.spec_height(),
            width >= 1,
            height >= 1,
            mask.wf(),
            mask.spec_width() == width,
            mask.spec_height() == height,
            forall|k: int|
                0 <= k < seeds@.len() ==> (#[trigger] seeds@[k]).0 < width && seeds@[k].1 < height,
            seeds@.len() == 0 ==> forall|i: int, j: int|
                0 <= i < width && 0 <= j < height ==> !mask.spec_at(i, j),
            seeds@.len() == 0 ==> forall|i: int| 0 <= i < x ==> img.spec_at(i, 0) <= 120,
            seeds@.len() > 0 ==> exists|i: int| 0 <= i < width && img.spec_at(i, 0) > 120,
            forall|i: int|
                0 <= i < x && #[trigger] img.spec_at(i, 0) > 120 ==> mask.spec_at(i, 0),
            grown_mask_sound(mask, img),
        decreases width - x,
    {
        if img.get_pixel(x, 0) > 120 {
            mask.set(x, 0, true);
            seeds.push((x, 0));
        }
        x = x + 1;
    }

    if seeds.len() == 0 {
        // No pixel of the top row is bright enough to seed growth: the mask
        // stays all false and no boundary is smoothed.
        return Ok(mask);
    }

    proof {
        lemma_marked_ids_bounded(&mask);
    }
    while seeds.len() > 0
        invariant
            img.wf(),
            width == img.spec_width(),
            height == img.spec_height(),
            width >= 1,
            height >= 1,
            mask.wf(),
            mask.spec_width() == width,
            mask.spec_height() == height,
            forall|k: int|
                0 <= k < seeds@.len() ==> (#[trigger] seeds@[k]).0 < width && seeds@[k].1 < height,
            marked_ids(&mask).finite(),
            marked_ids(&mask).len() <= (width as int) * (height as int),
            exists|i: int| 0 <= i < width && img.spec_at(i, 0) > 120,
            seeds_marked(mask, img),
            grown_mask_sound(mask, img),
        decreases 2 * ((width as int) * (height as int) - marked_ids(&mask).len())
            + seeds@.len(),
    {
        let popped = seeds.pop();
        match popped {
            None => {
                proof {
                    assert(false);
                }
            },
            Some((cx, cy)) => {
                let cur_val = img.get_pixel(cx, cy);
                if cy + 1 < height {
                    try_join(img, &mut mask, &mut seeds, cur_val, cx, cy + 1);
                }
                if cx + 1 < width {
                    try_join(img, &mut mask, &mut seeds, cur_val, cx + 1, cy);
                }
                if cx > 0 {
                    try_join(img, &mut mask, &mut seeds, cur_val, cx - 1, cy);
                }
            },
        }
        proof {
            lemma_marked_ids_bounded(&mask);
        }
    }

    // At least one seed existed, so the mask enters smoothing non-trivially;
    // the rebuilt mask is a contiguous cap per column.
    let ghost raw = mask;
    smooth_sky_boundary(&mut mask);
    proof {
        assert(smoothed_from_growth(&mask, raw, img));
    }
    Ok(mask)
}

/// The numerator of a pixel's sky score over the common denominator
/// `2550 (r + g + 1) h`: the weighted sum of blue dominance
/// `b / (r + g + 1)` (weight 2/5), brightness `(r + g + b) / 765`
/// (weight 3/10), and vertical position `max(0, 1 - 2y/h)` (weight 3/10),
/// cleared of fractions.
pub open spec fn sky_score_num(p: Rgb, y: int, h: int) -> int {
    1020 * p.b * h + (p.r + p.g + p.b) * (p.r + p.g + 1) * h + if 2 * y < h {
        765 * (p.r + p.g + 1) * (h - 2 * y)
    } else {
        0
    }
}

/// The sky-score threshold numerator for a tenths threshold `t`: the score
/// exceeds `t/10` exactly when its numerator exceeds this.
pub open spec fn sky_score_thresh(p: Rgb, h: int, t: int) -> int {
    t * 255 * (p.r + p.g + 1) * h
}

/// A pixel whose sky score clears the high hysteresis threshold of 6/10.
pub open spec fn strong_sky(p: Rgb, y: int, h: int) -> bool {
    sky_score_num(p, y, h) > sky_score_thresh(p, h, 6)
}

/// A pixel whose sky score clears the low hysteresis threshold of 4/10.
pub open spec fn weak_sky(p: Rgb, y: int, h: int) -> bool {
    sky_score_num(p, y, h) > sky_score_thresh(p, h, 4)
}

/// Whether any of the four neighbours of `(x, y)` is marked.
pub open spec fn has_marked_neighbor(m: &SkyMask, x: int, y: int) -> bool {
    ||| (y > 0 && m.spec_at(x, y - 1))
    ||| (x + 1 < m.spec_width() && m.spec_at(x + 1, y))
    ||| (y + 1 < m.spec_height() && m.spec_at(x, y + 1))
    ||| (x > 0 && m.spec_at(x - 1, y))
}

/// A score that clears the high threshold clears the low one: the
/// threshold base is never negative.
proof fn lemma_strong_is_weak(p: Rgb, y: int, h: int)
    requires
        0 <= h,
    ensures
        strong_sky(p, y, h) ==> weak_sky(p, y, h),
{
    assert(4 * 255 * (p.r + p.g + 1) * h <= 6 * 255 * (p.r + p.g + 1) * h) by (nonlinear_arith)
        requires
            0 <= p.r,
            0 <= p.g,
            0 <= h,
    ;
}

/// Whether the pixel's sky score exceeds `t` tenths, by exact integer
/// arithmetic over the cleared-of-fractions form.
fn sky_score_above(p: Rgb, y: usize, h: usize, t: u8) -> (r: bool)
    requires
        y < h,
        t <= 10,
    ensures
        r == (sky_score_num(p, y as int, h as int) > sky_score_thresh(p, h as int, t as int)),
{
    proof {
        let ri = p.r as int;
        let gi = p.g as int;
        let bi = p.b as int;
        let yi = y as int;
        let hi = h as int;
        assert(hi <= u64::MAX);
        assert(1020 * bi * hi <= 1020 * 255 * (u64::MAX as int)) by (nonlinear_arith)
            requires
                0 <= bi <= 255,
                0 <= hi <= u64::MAX,
        ;
        assert(0 <= (ri + gi + bi) * (ri + gi + 1) <= 765 * 511) by (nonlinear_arith)
            requires
                0 <= ri <= 255,
                0 <= gi <= 255,
                0 <= bi <= 255,
        ;
        assert(0 <= (ri + gi + bi) * (ri + gi + 1) * hi <= 765 * 511 * (u64::MAX as int))
            by (nonlinear_arith)
            requires
                0 <= (ri + gi + bi) * (ri + gi + 1) <= 765 * 511,
                0 <= hi <= u64::MAX,
        ;
        assert(2 * yi < hi ==> 0 <= 765 * (ri + gi + 1) * (hi - 2 * yi) <= 765 * 511 * (u64::MAX
            as int)) by (nonlinear_arith)
            requires
                0 <= ri <= 255,
                0 <= gi <= 255,
                0 <= yi,
                hi <= u64::MAX,
        ;
        assert(0 <= (t as int) * 255 * (ri + gi + 1) <= 10 * 255 * 511) by (nonlinear_arith)
            requires
                0 <= t as int <= 10,
                0 <= ri <= 255,
                0 <= gi <= 255,
        ;
        assert(0 <= (t as int) * 255 * (ri + gi + 1) * hi <= 10 * 255 * 511 * (u64::MAX as int))
            by (nonlinear_arith)
            requires
                0 <= (t as int) * 255 * (ri + gi + 1) <= 10 * 255 * 511,
                0 <= hi <= u64::MAX,
        ;
    }
    let s1: u128 = (p.r as u128) + (p.g as u128) + 1;
    let hh: u128 = h as u128;
    let sum: u128 = (p.r as u128) + (p.g as u128) + (p.b as u128);
    let vertical: u128 = if 2 * (y as u128) < hh {
        765 * s1 * (hh - 2 * (y as u128))
    } else {
        0
    };
    let score: u128 = 1020 * (p.b as u128) * hh + sum * s1 * hh + vertical;
    let thresh: u128 = (t as u128) * 255 * s1 * hh;
    score > thresh
}

/// Classify the sky of a colour frame by scoring and hysteresis: every
/// pixel whose blue-dominance, brightness and vertical-position score
/// clears the high threshold is sky, and sky grows to neighbouring pixels
/// that clear the low threshold, until nothing more joins.
///
/// The result is characterised by the two thresholds: strong pixels are
/// always marked, every marked pixel is at least weak, a marked pixel that
/// is not strong touches another marked pixel, and no unmarked weak pixel
/// touches a marked one — growth has reached a fixed point.
pub fn detect_sky_with_color(img: &RgbImage) -> (m: SkyMask)
    requires
        img.wf(),
    ensures
        m.wf(),
        m.spec_width() == img.spec_width(),
        m.spec_height() == img.spec_height(),
        forall|x: int, y: int|
            0 <= x < img.spec_width() && 0 <= y < img.spec_height() && strong_sky(
                #[trigger] img.spec_at(x, y),
                y,
                img.spec_height() as int,
            ) ==> m.spec_at(x, y),
        forall|x: int, y: int|
            0 <= x < img.spec_width() && 0 <= y < img.spec_height() && #[trigger] m.spec_at(x, y)
                ==> weak_sky(img.spec_at(x, y), y, img.spec_height() as int),
        forall|x: int, y: int|
            0 <= x < img.spec_width() && 0 <= y < img.spec_height() && #[trigger] m.spec_at(x, y)
                && !strong_sky(img.spec_at(x, y), y, img.spec_height() as int)
                ==> has_marked_neighbor(&m, x, y),
        forall|x: int, y: int|
            0 <= x < img.spec_width() && 0 <= y < img.spec_height() && !(#[trigger] m.spec_at(
                x,
                y,
            )) && weak_sky(img.spec_at(x, y), y, img.spec_height() as int)
                ==> !has_marked_neighbor(&m, x, y),
{
    let width = img.width();
    let height = img.height();
    proof {
        img.lemma_area_fits();
    }
    let mut mask = SkyMask::new(width, height);

    // First pass: mark every strong pixel.
    let mut y: usize = 0;
    while y < height
        invariant
            y <= height,
            img.wf(),
            width == img.spec_width(),
            height == img.spec_height(),
            mask.wf(),
            mask.spec_width() == width,
            mask.spec_height() == height,
            forall|i: int, j: int|
                0 <= i < width && 0 <= j < y ==> mask.spec_at(i, j) == strong_sky(
                    #[trigger] img.spec_at(i, j),
                    j,
                    height as int,
                ),
            forall|i: int, j: int|
                0 <= i < width && y <= j < height ==> !(#[trigger] mask.spec_at(i, j)),
        decreases height - y,
    {
        let mut x: usize = 0;
        while x < width
            invariant
                x <= width,
                y < height,
                img.wf(),
                width == img.spec_width(),
                height == img.spec_height(),
                mask.wf(),
                mask.spec_width() == width,
                mask.spec_height() == height,
                forall|i: int, j: int|
                    0 <= i < width && 0 <= j < y ==> mask.spec_at(i, j) == strong_sky(
                        #[trigger] img.spec_at(i, j),
                        j,
                        height as int,
                    ),
                forall|i: int|
                    0 <= i < x ==> mask.spec_at(i, y as int) == strong_sky(
                        #[trigger] img.spec_at(i, y as int),
                        y as int,
                        height as int,
                    ),
                forall|i: int, j: int|
                    0 <= i < width && y < j < height ==> !(#[trigger] mask.spec_at(i, j)),
                forall|i: int|
                    x <= i < width ==> !(#[trigger] mask.spec_at(i, y as int)),
            decreases width - x,
        {
            let p = img.get_pixel(x, y);
            if sky_score_above(p, y, height, 6) {
                mask.set(x, y, true);
            }
            x = x + 1;
        }
        y = y + 1;
    }

    // Second pass: grow to weak neighbours of marked pixels until nothing
    // more joins.
    proof {
        lemma_marked_ids_bounded(&mask);
        assert forall|i: int, j: int|
            0 <= i < width && 0 <= j < height && #[trigger] mask.spec_at(i, j) implies weak_sky(
            img.spec_at(i, j),
            j,
            height as int,
        ) by {
            lemma_strong_is_weak(img.spec_at(i, j), j, height as int);
        }
    }
    let mut changed: bool = true;
    while changed
        invariant
            img.wf(),
            width == img.spec_width(),
            height == img.spec_height(),
            mask.wf(),
            mask.spec_width() == width,
            mask.spec_height() == height,
            marked_ids(&mask).finite(),
            marked_ids(&mask).len() <= (width as int) * (height as int),
            forall|i: int, j: int|
                0 <= i < width && 0 <= j < height && strong_sky(
                    #[trigger] img.spec_at(i, j),
                    j,
                    height as int,
                ) ==> mask.spec_at(i, j),
            forall|i: int, j: int|
                0 <= i < width && 0 <= j < height && #[trigger] mask.spec_at(i, j) ==> weak_sky(
                    img.spec_at(i, j),
                    j,
                    height as int,
                ),
            forall|i: int, j: int|
                0 <= i < width && 0 <= j < height && #[trigger] mask.spec_at(i, j) && !strong_sky(
                    img.spec_at(i, j),
                    j,
                    height as int,
                ) ==> has_marked_neighbor(&mask, i, j),
            !changed ==> forall|i: int, j: int|
                0 <= i < width && 0 <= j < height && !(#[trigger] mask.spec_at(i, j)) && weak_sky(
                    img.spec_at(i, j),
                    j,
                    height as int,
                ) ==> !has_marked_neighbor(&mask, i, j),
        decreases 2 * ((width as int) * (height as int) - marked_ids(&mask).len()) + (
        if changed {
            1int
        } else {
            0int
        }),
    {
        changed = false;
        let ghost m0 = mask;
        let mut y2: usize = 0;
        while y2 < height
            invariant
                y2 <= height,
                img.wf(),
                width == img.spec_width(),
                height == img.spec_height(),
                mask.wf(),
                mask.spec_width() == width,
                mask.spec_height() == height,
                m0.spec_width() == width,
                m0.spec_height() == height,
                marked_ids(&mask).finite(),
                marked_ids(&mask).len() <= (width as int) * (height as int),
                marked_ids(&mask).len() >= marked_ids(&m0).len(),
                changed ==> marked_ids(&mask).len() > marked_ids(&m0).len(),
                !changed ==> mask == m0,
                forall|i: int, j: int|
                    0 <= i < width && 0 <= j < height && strong_sky(
                        #[trigger] img.spec_at(i, j),
                        j,
                        height as int,
                    ) ==> mask.spec_at(i, j),
                forall|i: int, j: int|
                    0 <= i < width && 0 <= j < height && #[trigger] mask.spec_at(i, j)
                        ==> weak_sky(img.spec_at(i, j), j, height as int),
                forall|i: int, j: int|
                    0 <= i < width && 0 <= j < height && #[trigger] mask.spec_at(i, j)
                        && !strong_sky(img.spec_at(i, j), j, height as int)
                        ==> has_marked_neighbor(&mask, i, j),
                !changed ==> forall|i: int, j: int|
                    0 <= i < width && 0 <= j < y2 && !(#[trigger] mask.spec_at(i, j))
                        && weak_sky(img.spec_at(i, j), j, height as int)
                        ==> !has_marked_neighbor(&mask, i, j),
            decreases height - y2,
        {
            let mut x2: usize = 0;
            while x2 < width
                invariant
                    x2 <= width,
                    y2 < height,
                    img.wf(),
                    width == img.spec_width(),
                    height == img.spec_height(),
                    mask.wf(),
                    mask.spec_width() == width,
                    mask.spec_height() == height,
                    m0.spec_width() == width,
                    m0.spec_height() == height,
                    marked_ids(&mask).finite(),
                    marked_ids(&mask).len() <= (width as int) * (height as int),
                    marked_ids(&mask).len() >= marked_ids(&m0).len(),
                    changed ==> marked_ids(&mask).len() > marked_ids(&m0).len(),
                    !changed ==> mask == m0,
                    forall|i: int, j: int|
                        0 <= i < width && 0 <= j < height && strong_sky(
                            #[trigger] img.spec_at(i, j),
                            j,
                            height as int,
                        ) ==> mask.spec_at(i, j),
                    forall|i: int, j: int|
                        0 <= i < width && 0 <= j < height && #[trigger] mask.spec_at(i, j)
                            ==> weak_sky(img.spec_at(i, j), j, height as int),
                    forall|i: int, j: int|
                        0 <= i < width && 0 <= j < height && #[trigger] mask.spec_at(i, j)
                            && !strong_sky(img.spec_at(i, j), j, height as int)
                            ==> has_marked_neighbor(&mask, i, j),
                    !changed ==> forall|i: int, j: int|
                        0 <= i < width && 0 <= j < y2 && !(#[trigger] mask.spec_at(i, j))
                            && weak_sky(img.spec_at(i, j), j, height as int)
                            ==> !has_marked_neighbor(&mask, i, j),
                    !changed ==> forall|i: int|
                        0 <= i < x2 && !(#[trigger] mask.spec_at(i, y2 as int)) && weak_sky(
                            img.spec_at(i, y2 as int),
                            y2 as int,
                            height as int,
                        ) ==> !has_marked_neighbor(&mask, i, y2 as int),
                decreases width - x2,
            {
                if !mask.get(x2, y2) {
                    let p = img.get_pixel(x2, y2);
                    if sky_score_above(p, y2, height, 4) {
                        let mut any: bool = false;
                        if y2 > 0 {
                            if mask.get(x2, y2 - 1) {
                                any = true;
                            }
                        }
                        if x2 + 1 < width {
                            if mask.get(x2 + 1, y2) {
                                any = true;
                            }
                        }
                        if y2 + 1 < height {
                            if mask.get(x2, y2 + 1) {
                                any = true;
                            }
                        }
                        if x2 > 0 {
                            if mask.get(x2 - 1, y2) {
                                any = true;
                            }
                        }
                        proof {
                            assert(any == has_marked_neighbor(&mask, x2 as int, y2 as int));
                        }
                        if any {
                            let ghost before = mask;
                            mask.set(x2, y2, true);
                            changed = true;
                            proof {
                                lemma_marked_ids_insert(&before, &mask, x2 as int, y2 as int);
                                lemma_marked_ids_bounded(&mask);
                                assert forall|i: int, j: int|
                                    0 <= i < width && 0 <= j < height && #[trigger] mask.spec_at(
                                        i,
                                        j,
                                    ) && !strong_sky(img.spec_at(i, j), j, height as int)
                                    implies has_marked_neighbor(&mask, i, j) by {
                                    if i == x2 as int && j == y2 as int {
                                    } else {
                                        assert(before.spec_at(i, j));
                                        assert(has_marked_neighbor(&before, i, j));
                                    }
                                }
                            }
                        }
                    }
                }
                x2 = x2 + 1;
            }
            y2 = y2 + 1;
        }
    }
    mask
}

/// The fixed muted dark blue used during night hours.
pub open spec fn night_color() -> Rgb {
    Rgb { r: 40, g: 45, b: 70 }
}

/// A blend `k` quarters of the way from the muted dawn base (70, 80, 120)
/// toward warm amber (205, 140, 110), each channel rounded down.
pub open spec fn dawn_dusk_blend(k: int) -> Rgb {
    Rgb {
        r: ((205 * k + 70 * (4 - k)) / 4) as u8,
        g: ((140 * k + 80 * (4 - k)) / 4) as u8,
        b: ((110 * k + 120 * (4 - k)) / 4) as u8,
    }
}

/// The target sky colour for each hour of the day: fixed night, morning and
/// midday hues, and a linear dawn/dusk ramp between the muted base and amber.
pub open spec fn spec_sky_color_for_time(hour: u32) -> Rgb {
    if hour <= 4 || hour == 22 || hour == 23 {
        night_color()
    } else if hour == 5 || hour == 6 {
        dawn_dusk_blend(2 * (hour - 5))
    } else if 7 <= hour <= 9 {
        Rgb { r: 170, g: 190, b: 215 }
    } else if 18 <= hour <= 21 {
        dawn_dusk_blend(22 - hour)
    } else {
        Rgb { r: 180, g: 200, b: 220 }
    }
}

/// Map an hour of the day to the colour the sky should be recoloured with.
///
/// Total over every `u32`: hours past 23 fall back to the midday hue, as an
/// unmatched hour does.
pub fn get_sky_color_for_time(hour: u32) -> (c: Rgb)
    ensures
        c == spec_sky_color_for_time(hour),
{
    if hour <= 4 || hour == 22 || hour == 23 {
        Rgb { r: 40, g: 45, b: 70 }
    } else if hour == 5 || hour == 6 {
        let k: u32 = 2 * (hour - 5);
        Rgb {
            r: ((205 * k + 70 * (4 - k)) / 4) as u8,
            g: ((140 * k + 80 * (4 - k)) / 4) as u8,
            b: ((110 * k + 120 * (4 - k)) / 4) as u8,
        }
    } else if hour >= 7 && hour <= 9 {
        Rgb { r: 170, g: 190, b: 215 }
    } else if hour >= 18 && hour <= 21 {
        let k: u32 = 22 - hour;
        Rgb {
            r: ((205 * k + 70 * (4 - k)) / 4) as u8,
            g: ((140 * k + 80 * (4 - k)) / 4) as u8,
            b: ((110 * k + 120 * (4 - k)) / 4) as u8,
        }
    } else {
        Rgb { r: 180, g: 200, b: 220 }
    }
}

/// The colour schedule is a total, deterministic function of the hour alone:
/// equal hours always give equal colours, and the first and last hours of the
/// day both give the fixed night colour.
pub proof fn lemma_sky_color_total_deterministic(h1: u32, h2: u32)
    ensures
        h1 == h2 ==> spec_sky_color_for_time(h1) == spec_sky_color_for_time(h2),
        spec_sky_color_for_time(0) == night_color(),
        spec_sky_color_for_time(23) == night_color(),
{
}

/// The largest row index marked as sky in column `x` among rows `0 .. n`,
/// or 0 when none of them is marked.
pub open spec fn col_bottom_upto(m: &SkyMask, x: int, n: int) -> int
    decreases n,
{
    if n <= 0 {
        0
    } else if m.spec_at(x, n - 1) {
        n - 1
    } else {
        col_bottom_upto(m, x, n - 1)
    }
}

/// The lowest sky row of column `x` (0 when the column has no sky).
pub open spec fn col_bottom(m: &SkyMask, x: int) -> int {
    col_bottom_upto(m, x, m.spec_height() as int)
}

proof fn lemma_col_bottom_upto_range(m: &SkyMask, x: int, n: int)
    ensures
        0 <= col_bottom_upto(m, x, n),
        n > 0 ==> col_bottom_upto(m, x, n) < n,
        n <= 0 ==> col_bottom_upto(m, x, n) == 0,
    decreases n,
{
    if n > 0 {
        lemma_col_bottom_upto_range(m, x, n - 1);
    }
}

/// The lowest sky row of a column, computed by scanning the column.
pub fn column_bottom(m: &SkyMask, x: usize) -> (b: usize)
    requires
        m.wf(),
        x < m.spec_width(),
    ensures
        b == col_bottom(m, x as int),
        b < m.spec_height() || b == 0,
{
    let height = m.height();
    let mut b: usize = 0;
    let mut y: usize = 0;
    while y < height
        invariant
            y <= height,
            m.wf(),
            x < m.spec_width(),
            height == m.spec_height(),
            b == col_bottom_upto(m, x as int, y as int),
            b < height || b == 0,
        decreases height - y,
    {
        if m.get(x, y) {
            b = y;
        }
        y = y + 1;
    }
    b
}

/// The order the boundary medians use: `<=` on machine words.
pub open spec fn usize_leq() -> spec_fn(usize, usize) -> bool {
    |a: usize, b: usize| a <= b
}

/// The middle element of a window in sorted order.
pub open spec fn median_of(s: Seq<usize>) -> usize
    recommends
        s.len() > 0,
{
    s.sort_by(usize_leq())[s.len() as int / 2]
}

/// First column of the centred seven-column median window, clamped at the
/// left edge.
pub open spec fn window_lo(x: int) -> int {
    if x >= 3 {
        x - 3
    } else {
        0
    }
}

/// One past the last column of the median window, clamped at the right edge.
pub open spec fn window_hi(x: int, w: int) -> int {
    if x + 4 <= w {
        x + 4
    } else {
        w
    }
}

/// The per-column sky bottoms after the sliding median filter.
pub open spec fn smoothed_of(bs: Seq<usize>) -> Seq<usize> {
    Seq::new(
        bs.len(),
        |x: int| median_of(bs.subrange(window_lo(x), window_hi(x, bs.len() as int))),
    )
}

/// The per-column sky bottoms of a mask.
pub open spec fn bottoms_of(m: &SkyMask) -> Seq<usize> {
    Seq::new(m.spec_width() as nat, |x: int| col_bottom(m, x) as usize)
}

/// Insert a value into a sorted vector, keeping it sorted.
fn sorted_insert(v: &mut Vec<usize>, val: usize)
    requires
        vstd::relations::sorted_by(old(v)@, usize_leq()),
        old(v)@.len() < usize::MAX,
    ensures
        vstd::relations::sorted_by(final(v)@, usize_leq()),
        final(v)@.to_multiset() == old(v)@.to_multiset().insert(val),
        final(v)@.len() == old(v)@.len() + 1,
{
    let mut i: usize = 0;
    let n: usize = v.len();
    while i < n && *v.get(i).unwrap() <= val
        invariant
            i <= n,
            n == v@.len(),
            v@ == old(v)@,
            forall|j: int| 0 <= j < i ==> v@[j] <= val,
        decreases n - i,
    {
        i = i + 1;
    }
    v.insert(i, val);
    proof {
        let s = old(v)@;
        let leq = usize_leq();
        s.insert_ensures(i as int, val);
        vstd::seq_lib::to_multiset_insert(s, i as int, val);
        assert(v@ == s.insert(i as int, val));
        assert forall|k1: int, k2: int| 0 <= k1 < k2 < v@.len() implies #[trigger] leq(
            v@[k1],
            v@[k2],
        ) by {
            let p = i as int;
            if k1 < p && k2 < p {
                assert(v@[k1] == s[k1] && v@[k2] == s[k2]);
            } else if k1 < p && k2 == p {
                assert(v@[k1] == s[k1] && v@[k2] == val);
            } else if k1 < p && k2 > p {
                assert(v@[k1] == s[k1] && v@[k2] == s[k2 - 1]);
                if k2 - 1 == k1 {
                } else {
                    assert(leq(s[k1], s[k2 - 1]));
                }
            } else if k1 == p && k2 > p {
                // everything at or past the insertion point exceeds `val`
                assert(v@[k1] == val && v@[k2] == s[k2 - 1]);
                if p < s.len() {
                    assert(s[p] > val);
                    if k2 - 1 > p {
                        assert(leq(s[p], s[k2 - 1]));
                    }
                }
            } else {
                assert(v@[k1] == s[k1 - 1] && v@[k2] == s[k2 - 1]);
                assert(leq(s[k1 - 1], s[k2 - 1]));
            }
        }
    }
}

/// The median of the clamped seven-column window of `bottoms` centred on
/// column `x`.
fn median_window(bottoms: &Vec<usize>, x: usize) -> (med: usize)
    requires
        bottoms@.len() > 0,
        x < bottoms@.len(),
    ensures
        med == median_of(
            bottoms@.subrange(window_lo(x as int), window_hi(x as int, bottoms@.len() as int)),
        ),
{
    let n: usize = bottoms.len();
    let lo: usize = if x >= 3 {
        x - 3
    } else {
        0
    };
    let hi: usize = if n - x > 4 {
        x + 4
    } else {
        n
    };
    let ghost windowseq = bottoms@.subrange(lo as int, hi as int);
    let mut win: Vec<usize> = Vec::new();
    let mut i: usize = lo;
    proof {
        assert(bottoms@.subrange(lo as int, lo as int) =~= win@);
    }
    while i < hi
        invariant
            lo <= i <= hi,
            hi <= n,
            n == bottoms@.len(),
            win@.len() == i - lo,
            vstd::relations::sorted_by(win@, usize_leq()),
            win@.to_multiset() == bottoms@.subrange(lo as int, i as int).to_multiset(),
        decreases hi - i,
    {
        let b = *bottoms.get(i).unwrap();
        proof {
            assert(bottoms@.subrange(lo as int, i as int + 1) =~= bottoms@.subrange(
                lo as int,
                i as int,
            ).push(b));
            broadcast use vstd::seq_lib::to_multiset_build;

        }
        sorted_insert(&mut win, b);
        i = i + 1;
    }
    proof {
        let leq = usize_leq();
        assert(win@.to_multiset() == windowseq.to_multiset());
        windowseq.lemma_sort_by_ensures(leq);
        assert(vstd::relations::total_ordering(leq)) by {
            assert(vstd::relations::reflexive(leq));
            assert(vstd::relations::antisymmetric(leq));
            assert(vstd::relations::transitive(leq));
            assert(vstd::relations::strongly_connected(leq));
        }
        vstd::seq_lib::lemma_sorted_unique(win@, windowseq.sort_by(leq), leq);
        broadcast use vstd::seq_lib::to_multiset_len;

        assert(win@.len() == windowseq.len());
    }
    let mid: usize = win.len() / 2;
    *win.get(mid).unwrap()
}

/// Smooth a mask's per-column sky boundary and rebuild the mask from it.
///
/// Each column's lowest sky row is located, the resulting boundary is median
/// filtered over a clamped seven-column window, and the mask is rebuilt so
/// that column `x` is sky exactly in the rows from 0 down to the smoothed
/// bottom — one contiguous cap per column, even if the input had holes.
pub fn smooth_sky_boundary(m: &mut SkyMask)
    requires
        old(m).wf(),
        old(m).spec_width() >= 1,
        old(m).spec_height() >= 1,
    ensures
        final(m).wf(),
        final(m).spec_width() == old(m).spec_width(),
        final(m).spec_height() == old(m).spec_height(),
        forall|x: int, y: int|
            0 <= x < old(m).spec_width() && 0 <= y < old(m).spec_height() ==> final(m).spec_at(
                x,
                y,
            ) == (y <= smoothed_of(bottoms_of(old(m)))[x] as int),
{
    let width = m.width();
    let height = m.height();

    let mut bottoms: Vec<usize> = Vec::new();
    let mut x: usize = 0;
    while x < width
        invariant
            x <= width,
            *m == *old(m),
            m.wf(),
            width == m.spec_width(),
            height == m.spec_height(),
            bottoms@.len() == x,
            forall|i: int| 0 <= i < x ==> bottoms@[i] == col_bottom(m, i) as usize,
        decreases width - x,
    {
        bottoms.push(column_bottom(m, x));
        x = x + 1;
    }
    proof {
        assert(bottoms@ =~= bottoms_of(m));
    }

    let mut smoothed: Vec<usize> = Vec::new();
    x = 0;
    while x < width
        invariant
            x <= width,
            width >= 1,
            *m == *old(m),
            bottoms@ == bottoms_of(m),
            bottoms@.len() == width,
            smoothed@.len() == x,
            forall|i: int|
                0 <= i < x ==> smoothed@[i] == median_of(
                    bottoms@.subrange(window_lo(i), window_hi(i, bottoms@.len() as int)),
                ),
        decreases width - x,
    {
        smoothed.push(median_window(&bottoms, x));
        x = x + 1;
    }
    proof {
        assert(smoothed@ =~= smoothed_of(bottoms_of(old(m))));
    }

    x = 0;
    while x < width
        invariant
            x <= width,
            m.wf(),
            width == m.spec_width(),
            height == m.spec_height(),
            smoothed@ == smoothed_of(bottoms_of(old(m))),
            smoothed@.len() == width,
            forall|i: int, j: int|
                0 <= i < x && 0 <= j < height ==> m.spec_at(i, j) == (j <= smoothed@[i] as int),
        decreases width - x,
    {
        let bx: usize = *smoothed.get(x).unwrap();
        let mut y: usize = 0;
        while y < height
            invariant
                y <= height,
                x < width,
                m.wf(),
                width == m.spec_width(),
                height == m.spec_height(),
                smoothed@.len() == width,
                bx == smoothed@[x as int],
                forall|i: int, j: int|
                    0 <= i < x && 0 <= j < height ==> m.spec_at(i, j) == (j <= smoothed@[i] as int),
                forall|j: int| 0 <= j < y ==> m.spec_at(x as int, j) == (j <= bx as int),
            decreases height - y,
        {
            m.set(x, y, y <= bx);
            y = y + 1;
        }
        x = x + 1;
    }
}

/// The median of a non-empty window is one of the window's values.
proof fn lemma_median_member(s: Seq<usize>)
    requires
        s.len() > 0,
    ensures
        s.contains(median_of(s)),
{
    broadcast use vstd::seq_lib::to_multiset_len;

    let leq = usize_leq();
    s.lemma_sort_by_ensures(leq);
    let sorted = s.sort_by(leq);
    let mid = s.len() as int / 2;
    assert(sorted.len() == s.len()) by {
        vstd::seq_lib::to_multiset_len(s);
        vstd::seq_lib::to_multiset_len(sorted);
        assert(s.to_multiset().len() == sorted.to_multiset().len());
    }
    assert(sorted.contains(sorted[mid]));
    assert(!s.contains(sorted[mid]) ==> !sorted.contains(sorted[mid]));
    assert(s.contains(sorted[mid]));
}

/// Every filtered bottom is one of the unfiltered bottoms, so the filter
/// keeps boundaries inside the image.
proof fn lemma_smoothed_values_bounded(bs: Seq<usize>, h: int)
    requires
        forall|i: int| 0 <= i < bs.len() ==> (bs[i] as int) < h,
    ensures
        forall|i: int| 0 <= i < smoothed_of(bs).len() ==> (smoothed_of(bs)[i] as int) < h,
{
    assert forall|i: int|
        0 <= i < smoothed_of(bs).len() implies (smoothed_of(bs)[i] as int) < h by {
        let win = bs.subrange(window_lo(i), window_hi(i, bs.len() as int));
        assert(win.len() > 0);
        lemma_median_member(win);
        let j = choose|j: int| 0 <= j < win.len() && win[j] == median_of(win);
        assert(win[j] == bs[window_lo(i) + j]);
    }
}

/// A mask that is one contiguous cap per column, reaching from row 0 down to
/// row `s[x]`, has exactly `s` as its column bottoms.
proof fn lemma_cap_col_bottom_upto(m: &SkyMask, x: int, s: int, n: int)
    requires
        0 <= x < m.spec_width(),
        0 <= s < m.spec_height(),
        forall|y: int| 0 <= y < m.spec_height() ==> m.spec_at(x, y) == (y <= s),
        s < n <= m.spec_height(),
    ensures
        col_bottom_upto(m, x, n) == s,
    decreases n,
{
    if n > s + 1 {
        lemma_cap_col_bottom_upto(m, x, s, n - 1);
    }
}

/// Boundary smoothing is idempotent on a smoothed mask whose boundary the
/// median filter no longer moves: a mask rebuilt from a filtered boundary
/// `s`, where filtering `s` again gives `s` back, smooths to itself.
///
/// Here `m1` is the smoothing pass's output for input mask `m0`, as
/// `smooth_sky_boundary` guarantees it, and the conclusion says a second
/// pass rebuilds `m1` unchanged. The fixed-point premise cannot be dropped:
/// one median filtering does not leave every boundary stationary, so a
/// second pass can still move some boundaries.
pub proof fn lemma_smoothing_idempotent_on_fixed_boundary(m0: &SkyMask, m1: &SkyMask)
    requires
        m1.spec_width() == m0.spec_width(),
        m1.spec_height() == m0.spec_height(),
        m0.spec_width() >= 1,
        m0.spec_height() >= 1,
        forall|x: int, y: int|
            0 <= x < m0.spec_width() && 0 <= y < m0.spec_height() ==> m1.spec_at(x, y) == (y
                <= smoothed_of(bottoms_of(m0))[x] as int),
        smoothed_of(smoothed_of(bottoms_of(m0))) == smoothed_of(bottoms_of(m0)),
    ensures
        forall|x: int, y: int|
            0 <= x < m1.spec_width() && 0 <= y < m1.spec_height() ==> (y <= smoothed_of(
                bottoms_of(m1),
            )[x] as int) == m1.spec_at(x, y),
{
    let w = m0.spec_width() as int;
    let h = m0.spec_height() as int;
    let s = smoothed_of(bottoms_of(m0));
    assert forall|i: int| 0 <= i < bottoms_of(m0).len() implies (bottoms_of(m0)[i] as int)
        < h by {
        lemma_col_bottom_upto_range(m0, i, h);
    }
    lemma_smoothed_values_bounded(bottoms_of(m0), h);
    assert forall|x: int| 0 <= x < w implies bottoms_of(m1)[x] == s[x] by {
        lemma_cap_col_bottom_upto(m1, x, s[x] as int, h);
    }
    assert(bottoms_of(m1) =~= s);
}

/// One channel of the compositing blend: `k` fifths of the target colour plus
/// the rest of the original, rounded to the nearest byte.
pub open spec fn blend_channel(color: int, orig: int, k: int) -> int {
    (color * k + orig * (5 - k) + 2) / 5
}

/// The compositing blend of a whole pixel, channel by channel.
pub open spec fn blend_px(orig: Rgb, color: Rgb, k: int) -> Rgb {
    Rgb {
        r: blend_channel(color.r as int, orig.r as int, k) as u8,
        g: blend_channel(color.g as int, orig.g as int, k) as u8,
        b: blend_channel(color.b as int, orig.b as int, k) as u8,
    }
}

/// How strongly the target colour replaces the pixel at `(x, y)`, in fifths:
/// 5 inside the sky mask, fading linearly over the five rows below the
/// column's sky bottom, 0 past the transition zone. The factor never exceeds
/// 5, even for an unmarked pixel above the column bottom.
pub open spec fn transition_factor(m: &SkyMask, x: int, y: int) -> int {
    if m.spec_at(x, y) {
        5
    } else {
        let b = col_bottom(m, x);
        if y < b + 5 {
            if b + 5 - y > 5 {
                5
            } else {
                b + 5 - y
            }
        } else {
            0
        }
    }
}

/// A full-strength blend leaves exactly the target colour, a zero blend
/// leaves exactly the original channel.
pub proof fn lemma_blend_channel_extremes(color: int, orig: int, k: int)
    requires
        0 <= color <= 255,
        0 <= orig <= 255,
    ensures
        blend_channel(color, orig, 5) == color,
        blend_channel(color, orig, 0) == orig,
{
    lemma_fundamental_div_mod_converse(color * 5 + orig * 0 + 2, 5, color, 2);
    lemma_fundamental_div_mod_converse(color * 0 + orig * 5 + 2, 5, orig, 2);
}

proof fn lemma_blend_channel_bound(color: int, orig: int, k: int)
    requires
        0 <= color <= 255,
        0 <= orig <= 255,
        0 <= k <= 5,
    ensures
        0 <= blend_channel(color, orig, k) <= 255,
        color * k + orig * (5 - k) + 2 <= 1277,
{
    assert(color * k + orig * (5 - k) <= 1275) by (nonlinear_arith)
        requires
            0 <= color <= 255,
            0 <= orig <= 255,
            0 <= k <= 5,
    ;
    assert(0 <= color * k + orig * (5 - k)) by (nonlinear_arith)
        requires
            0 <= color,
            0 <= orig,
            0 <= k <= 5,
    ;
}

/// Recolour the sky region of an image toward a target colour, fading the
/// recolouring linearly over a five-row transition zone below each column's
/// sky boundary.
///
/// Pixels inside the mask become exactly the target colour; pixels past the
/// transition zone keep exactly their original value.
pub fn apply_sky_color_with_gradient(img: &RgbImage, sky_mask: &SkyMask, sky_color: Rgb) -> (out:
    RgbImage)
    requires
        img.wf(),
        sky_mask.wf(),
        sky_mask.spec_width() == img.spec_width(),
        sky_mask.spec_height() == img.spec_height(),
    ensures
        out.wf(),
        out.spec_width() == img.spec_width(),
        out.spec_height() == img.spec_height(),
        forall|x: int, y: int|
            0 <= x < img.spec_width() && 0 <= y < img.spec_height() ==> out.spec_at(x, y)
                == blend_px(img.spec_at(x, y), sky_color, transition_factor(sky_mask, x, y)),
        forall|x: int, y: int|
            0 <= x < img.spec_width() && 0 <= y < img.spec_height() && sky_mask.spec_at(x, y)
                ==> out.spec_at(x, y) == sky_color,
        forall|x: int, y: int|
            0 <= x < img.spec_width() && 0 <= y < img.spec_height() && transition_factor(
                sky_mask,
                x,
                y,
            ) == 0 ==> out.spec_at(x, y) == img.spec_at(x, y),
{
    let width = img.width();
    let height = img.height();
    proof {
        img.lemma_area_fits();
    }
    let mut out = RgbImage::new(width, height);
    let mut x: usize = 0;
    while x < width
        invariant
            x <= width,
            out.wf(),
            out.spec_width() == width,
            out.spec_height() == height,
            img.wf(),
            sky_mask.wf(),
            width == img.spec_width(),
            height == img.spec_height(),
            sky_mask.spec_width() == width,
            sky_mask.spec_height() == height,
            forall|i: int, j: int|
                0 <= i < x && 0 <= j < height ==> out.spec_at(i, j) == blend_px(
                    img.spec_at(i, j),
                    sky_color,
                    transition_factor(sky_mask, i, j),
                ),
        decreases width - x,
    {
        let bottom = column_bottom(sky_mask, x);
        let mut y: usize = 0;
        while y < height
            invariant
                y <= height,
                x < width,
                out.wf(),
                out.spec_width() == width,
                out.spec_height() == height,
                img.wf(),
                sky_mask.wf(),
                width == img.spec_width(),
                height == img.spec_height(),
                sky_mask.spec_width() == width,
                sky_mask.spec_height() == height,
                bottom == col_bottom(sky_mask, x as int),
                forall|i: int, j: int|
                    0 <= i < x && 0 <= j < height ==> out.spec_at(i, j) == blend_px(
                        img.spec_at(i, j),
                        sky_color,
                        transition_factor(sky_mask, i, j),
                    ),
                forall|j: int|
                    0 <= j < y ==> out.spec_at(x as int, j) == blend_px(
                        img.spec_at(x as int, j),
                        sky_color,
                        transition_factor(sky_mask, x as int, j),
                    ),
            decreases height - y,
        {
            let k: u32 = if sky_mask.get(x, y) {
                5
            } else if y <= bottom {
                5
            } else if y - bottom < 5 {
                (5 - (y - bottom)) as u32
            } else {
                0
            };
            proof {
                assert(k == transition_factor(sky_mask, x as int, y as int));
                lemma_blend_channel_bound(sky_color.r as int, img.spec_at(x as int, y as int).r as int, k as int);
                lemma_blend_channel_bound(sky_color.g as int, img.spec_at(x as int, y as int).g as int, k as int);
                lemma_blend_channel_bound(sky_color.b as int, img.spec_at(x as int, y as int).b as int, k as int);
            }
            let p = img.get_pixel(x, y);
            let nr: u32 = ((sky_color.r as u32) * k + (p.r as u32) * (5 - k) + 2) / 5;
            let ng: u32 = ((sky_color.g as u32) * k + (p.g as u32) * (5 - k) + 2) / 5;
            let nb: u32 = ((sky_color.b as u32) * k + (p.b as u32) * (5 - k) + 2) / 5;
            out.put_pixel(
                x,
                y,
                Rgb { r: nr as u8, g: ng as u8, b: nb as u8 },
            );
            y = y + 1;
        }
        x = x + 1;
    }
    proof {
        assert forall|x: int, y: int|
            0 <= x < img.spec_width() && 0 <= y < img.spec_height() && sky_mask.spec_at(x, y)
                implies out.spec_at(x, y) == sky_color by {
            lemma_blend_channel_extremes(sky_color.r as int, img.spec_at(x, y).r as int, 5);
            lemma_blend_channel_extremes(sky_color.g as int, img.spec_at(x, y).g as int, 5);
            lemma_blend_channel_extremes(sky_color.b as int, img.spec_at(x, y).b as int, 5);
        }
        assert forall|x: int, y: int|
            0 <= x < img.spec_width() && 0 <= y < img.spec_height() && transition_factor(
                sky_mask,
                x,
                y,
            ) == 0 implies out.spec_at(x, y) == img.spec_at(x, y) by {
            lemma_blend_channel_extremes(sky_color.r as int, img.spec_at(x, y).r as int, 0);
            lemma_blend_channel_extremes(sky_color.g as int, img.spec_at(x, y).g as int, 0);
            lemma_blend_channel_extremes(sky_color.b as int, img.spec_at(x, y).b as int, 0);
        }
    }
    out
}

} // verus!
