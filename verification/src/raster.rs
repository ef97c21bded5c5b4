use vstd::prelude::*;

verus! {

/// One 8-bit-per-channel colour pixel.
#[derive(Clone, Copy, PartialEq, Eq, Structural, Debug)]
pub struct Rgb {
    pub r: u8,
    pub g: u8,
    pub b: u8,
}

/// Row-major index of the pixel at column `x`, row `y` in a grid `w` wide.
pub open spec fn pix_index(x: int, y: int, w: int) -> int {
    y * w + x
}

/// A pixel position inside a `w` by `h` grid has a row-major index inside the
/// backing buffer.
pub proof fn lemma_pix_index_bound(x: int, y: int, w: int, h: int)
    requires
        0 <= x < w,
        0 <= y < h,
    ensures
        0 <= pix_index(x, y, w) < w * h,
{
    assert(0 <= y * w + x < w * h) by (nonlinear_arith)
        requires
            0 <= x < w,
            0 <= y < h,
    ;
}

/// A single-channel 8-bit image, stored row-major.
#[derive(Debug)]
pub struct GrayImage {
    width: usize,
    height: usize,
    data: Vec<u8>,
}

impl GrayImage {
    /// The backing buffer holds exactly one byte per pixel.
    pub closed spec fn wf(&self) -> bool {
        self.data.len() == self.width * self.height
    }

    pub closed spec fn spec_width(&self) -> usize {
        self.width
    }

    pub closed spec fn spec_height(&self) -> usize {
        self.height
    }

    /// The intensity of the pixel at column `x`, row `y`.
    pub closed spec fn spec_at(&self, x: int, y: int) -> u8 {
        self.data[pix_index(x, y, self.width as int)]
    }

    /// A fresh all-black image.
    pub fn new(width: usize, height: usize) -> (img: GrayImage)
        requires
            width * height <= usize::MAX,
        ensures
            img.wf(),
            img.spec_width() == width,
            img.spec_height() == height,
            forall|x: int, y: int|
                0 <= x < width && 0 <= y < height ==> img.spec_at(x, y) == 0u8,
    {
        proof {
            assert(width * height <= usize::MAX) by (nonlinear_arith)
                requires
                    width * height <= usize::MAX,
            ;
        }
        let n: usize = width * height;
        let mut data: Vec<u8> = Vec::new();
        let mut i: usize = 0;
        while i < n
            invariant
                i <= n,
                data.len() == i,
                forall|k: int| 0 <= k < i ==> data[k] == 0u8,
            decreases n - i,
        {
            data.push(0);
            i = i + 1;
        }
        let img = GrayImage { width, height, data };
        proof {
            assert forall|x: int, y: int|
                0 <= x < width && 0 <= y < height implies img.spec_at(x, y) == 0u8 by {
                lemma_pix_index_bound(x, y, width as int, height as int);
            }
        }
        img
    }

    /// A well-formed image's pixel count fits in the backing buffer's length.
    pub proof fn lemma_area_fits(&self)
        requires
            self.wf(),
        ensures
            self.spec_width() * self.spec_height() <= usize::MAX,
    {
    }

    pub fn width(&self) -> (w: usize)
        ensures
            w == self.spec_width(),
    {
        self.width
    }

    pub fn height(&self) -> (h: usize)
        ensures
            h == self.spec_height(),
    {
        self.height
    }

    pub fn get_pixel(&self, x: usize, y: usize) -> (v: u8)
        requires
            self.wf(),
            x < self.spec_width(),
            y < self.spec_height(),
        ensures
            v == self.spec_at(x as int, y as int),
    {
        proof {
            lemma_pix_index_bound(x as int, y as int, self.width as int, self.height as int);
        }
        self.data[y * self.width + x]
    }

    pub fn put_pixel(&mut self, x: usize, y: usize, v: u8)
        requires
            old(self).wf(),
            x < old(self).spec_width(),
            y < old(self).spec_height(),
        ensures
            final(self).wf(),
            final(self).spec_width() == old(self).spec_width(),
            final(self).spec_height() == old(self).spec_height(),
            final(self).spec_at(x as int, y as int) == v,
            forall|i: int, j: int|
                0 <= i < old(self).spec_width() && 0 <= j < old(self).spec_height()
                    && !(i == x && j == y) ==> final(self).spec_at(i, j) == old(self).spec_at(i, j),
    {
        proof {
            lemma_pix_index_bound(x as int, y as int, self.width as int, self.height as int);
        }
        let idx: usize = y * self.width + x;
        self.data.set(idx, v);
        proof {
            assert forall|i: int, j: int|
                0 <= i < old(self).spec_width() && 0 <= j < old(self).spec_height()
                    && !(i == x && j == y) implies final(self).spec_at(i, j) == old(self).spec_at(
                i,
                j,
            ) by {
                lemma_pix_index_bound(i, j, self.width as int, self.height as int);
                lemma_pix_index_distinct(i, j, x as int, y as int, self.width as int);
            }
        }
    }
}

/// Distinct positions in the same grid have distinct row-major indices.
pub proof fn lemma_pix_index_distinct(x1: int, y1: int, x2: int, y2: int, w: int)
    requires
        0 <= x1 < w,
        0 <= x2 < w,
        0 <= y1,
        0 <= y2,
        !(x1 == x2 && y1 == y2),
    ensures
        pix_index(x1, y1, w) != pix_index(x2, y2, w),
{
    assert(y1 * w + x1 != y2 * w + x2) by (nonlinear_arith)
        requires
            0 <= x1 < w,
            0 <= x2 < w,
            0 <= y1,
            0 <= y2,
            !(x1 == x2 && y1 == y2),
    ;
}

/// A three-channel 8-bit image, stored row-major.
#[derive(Debug)]
pub struct RgbImage {
    width: usize,
    height: usize,
    data: Vec<Rgb>,
}

impl RgbImage {
    pub closed spec fn wf(&self) -> bool {
        self.data.len() == self.width * self.height
    }

    pub closed spec fn spec_width(&self) -> usize {
        self.width
    }

    pub closed spec fn spec_height(&self) -> usize {
        self.height
    }

    /// The colour of the pixel at column `x`, row `y`.
    pub closed spec fn spec_at(&self, x: int, y: int) -> Rgb {
        self.data[pix_index(x, y, self.width as int)]
    }

    /// A fresh all-black image.
    pub fn new(width: usize, height: usize) -> (img: RgbImage)
        requires
            width * height <= usize::MAX,
        ensures
            img.wf(),
            img.spec_width() == width,
            img.spec_height() == height,
            forall|x: int, y: int|
                0 <= x < width && 0 <= y < height ==> img.spec_at(x, y) == (Rgb {
                    r: 0u8,
                    g: 0u8,
                    b: 0u8,
                }),
    {
        proof {
            assert(width * height <= usize::MAX) by (nonlinear_arith)
                requires
                    width * height <= usize::MAX,
            ;
        }
        let n: usize = width * height;
        let mut data: Vec<Rgb> = Vec::new();
        let mut i: usize = 0;
        while i < n
            invariant
                i <= n,
                data.len() == i,
                forall|k: int| 0 <= k < i ==> data[k] == (Rgb { r: 0u8, g: 0u8, b: 0u8 }),
            decreases n - i,
        {
            data.push(Rgb { r: 0, g: 0, b: 0 });
            i = i + 1;
        }
        let img = RgbImage { width, height, data };
        proof {
            assert forall|x: int, y: int|
                0 <= x < width && 0 <= y < height implies img.spec_at(x, y) == (Rgb {
                r: 0u8,
                g: 0u8,
                b: 0u8,
            }) by {
                lemma_pix_index_bound(x, y, width as int, height as int);
            }
        }
        img
    }

    /// A well-formed image's pixel count fits in the backing buffer's length.
    pub proof fn lemma_area_fits(&self)
        requires
            self.wf(),
        ensures
            self.spec_width() * self.spec_height() <= usize::MAX,
    {
    }

    pub fn width(&self) -> (w: usize)
        ensures
            w == self.spec_width(),
    {
        self.width
    }

    pub fn height(&self) -> (h: usize)
        ensures
            h == self.spec_height(),
    {
        self.height
    }

    pub fn get_pixel(&self, x: usize, y: usize) -> (p: Rgb)
        requires
            self.wf(),
            x < self.spec_width(),
            y < self.spec_height(),
        ensures
            p == self.spec_at(x as int, y as int),
    {
        proof {
            lemma_pix_index_bound(x as int, y as int, self.width as int, self.height as int);
        }
        self.data[y * self.width + x]
    }

    pub fn put_pixel(&mut self, x: usize, y: usize, p: Rgb)
        requires
            old(self).wf(),
            x < old(self).spec_width(),
            y < old(self).spec_height(),
        ensures
            final(self).wf(),
            final(self).spec_width() == old(self).spec_width(),
            final(self).spec_height() == old(self).spec_height(),
            final(self).spec_at(x as int, y as int) == p,
            forall|i: int, j: int|
                0 <= i < old(self).spec_width() && 0 <= j < old(self).spec_height()
                    && !(i == x && j == y) ==> final(self).spec_at(i, j) == old(self).spec_at(i, j),
    {
        proof {
            lemma_pix_index_bound(x as int, y as int, self.width as int, self.height as int);
        }
        let idx: usize = y * self.width + x;
        self.data.set(idx, p);
        proof {
            assert forall|i: int, j: int|
                0 <= i < old(self).spec_width() && 0 <= j < old(self).spec_height()
                    && !(i == x && j == y) implies final(self).spec_at(i, j) == old(self).spec_at(
                i,
                j,
            ) by {
                lemma_pix_index_bound(i, j, self.width as int, self.height as int);
                lemma_pix_index_distinct(i, j, x as int, y as int, self.width as int);
            }
        }
    }
}

} // verus!
