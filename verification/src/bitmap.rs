use vstd::prelude::*;
use vstd::arithmetic::div_mod::{
    lemma_fundamental_div_mod, lemma_fundamental_div_mod_converse, lemma_mod_bound,
};

use crate::errors::RegionError;
use crate::pixel::{channel, Rgba};

verus! {

/// A row-major grid of RGBA pixels together with its dimensions; the
/// top-left pixel is at coordinate `(0, 0)`.
pub struct Bitmap {
    pub width: u32,
    pub height: u32,
    pub data: Vec<Rgba>,
}

/// The pixel grid encoded by a tightly packed row-major RGBA byte buffer
/// of `w * h` four-byte pixels.
pub open spec fn pixels_of_raw(w: int, h: int, raw: Seq<u8>) -> Seq<Rgba> {
    Seq::new(
        (w * h) as nat,
        |i: int|
            Rgba {
                r: raw[4 * i],
                g: raw[4 * i + 1],
                b: raw[4 * i + 2],
                a: raw[4 * i + 3],
            },
    )
}

/// The tightly packed row-major RGBA byte buffer encoding a pixel grid.
pub open spec fn raw_of_pixels(ps: Seq<Rgba>) -> Seq<u8> {
    Seq::new(4 * ps.len(), |i: int| channel(ps[i / 4], i % 4))
}

/// The pixels of the `w` by `h` sub-grid at offset `(x, y)` of a row-major
/// grid of row length `src_w`.
pub open spec fn crop_pixels(ps: Seq<Rgba>, src_w: int, x: int, y: int, w: int, h: int) -> Seq<
    Rgba,
> {
    Seq::new((w * h) as nat, |i: int| ps[(y + i / w) * src_w + (x + i % w)])
}

/// A row-major index built from a column `x` and a row `y` decomposes back
/// into that column and row.
pub proof fn lemma_row_major(x: int, y: int, w: int)
    requires
        0 <= x < w,
    ensures
        (y * w + x) / w == y,
        (y * w + x) % w == x,
{
    lemma_fundamental_div_mod_converse(y * w + x, w, y, x);
}

/// A value below a product is, divided by one factor, below the other.
pub proof fn lemma_div_bound(a: int, b: int, c: int)
    requires
        0 <= a,
        a < b * c,
        0 < b,
    ensures
        a / b < c,
{
    lemma_fundamental_div_mod(a, b);
    lemma_mod_bound(a, b);
    assert(a / b < c) by (nonlinear_arith)
        requires
            b * (a / b) + a % b == a,
            0 <= a % b < b,
            a < b * c,
            0 < b,
    ;
}

/// A coordinate pair inside a `w` by `h` grid addresses an index inside its
/// row-major data.
pub proof fn lemma_index_in_range(x: int, y: int, w: int, h: int)
    requires
        0 <= x < w,
        0 <= y < h,
    ensures
        0 <= y * w + x < w * h,
{
    assert(y * w + x < w * h) by (nonlinear_arith)
        requires
            0 <= x < w,
            0 <= y < h,
    ;
    assert(y * w + x >= 0) by (nonlinear_arith)
        requires
            0 <= x,
            0 <= y,
            0 < w,
    ;
}

impl Bitmap {
    /// The pixel data matches the declared dimensions.
    pub open spec fn wf(self) -> bool {
        self.data@.len() == self.width * self.height
    }

    /// The pixel in column `x` of row `y`.
    pub open spec fn pix(self, x: int, y: int) -> Rgba {
        self.data@[y * self.width + x]
    }

    /// Allocates a `width` by `height` bitmap with every pixel equal to
    /// `fill`.
    pub fn filled(width: u32, height: u32, fill: Rgba) -> (r: Bitmap)
        requires
            width * height <= usize::MAX,
        ensures
            r.wf(),
            r.width == width,
            r.height == height,
            r.data@ == Seq::new((width * height) as nat, |i: int| fill),
    {
        let n: usize = (width as usize) * (height as usize);
        let mut data: Vec<Rgba> = Vec::new();
        let mut i: usize = 0;
        while i < n
            invariant
                i <= n,
                n == width * height,
                data@.len() == i,
                forall|j: int| 0 <= j < i ==> data@[j] == fill,
            decreases n - i,
        {
            data.push(fill);
            i = i + 1;
        }
        let r = Bitmap { width, height, data };
        proof {
            assert(r.data@ =~= Seq::new((width * height) as nat, |i: int| fill));
        }
        r
    }

    /// Rebuilds the pixel grid from a tightly packed row-major RGBA byte
    /// buffer.
    pub fn from_raw(width: u32, height: u32, raw: &Vec<u8>) -> (r: Bitmap)
        requires
            raw@.len() == 4 * ((width * height) as int),
        ensures
            r.wf(),
            r.width == width,
            r.height == height,
            r.data@ == pixels_of_raw(width as int, height as int, raw@),
    {
        let len: usize = raw.len();
        let n: usize = len / 4;
        proof {
            lemma_row_major(0, (width * height) as int, 4);
        }
        assert(n == width * height);
        let mut data: Vec<Rgba> = Vec::new();
        let mut i: usize = 0;
        while i < n
            invariant
                i <= n,
                n == width * height,
                raw@.len() == 4 * n,
                4 * n <= usize::MAX,
                data@.len() == i,
                forall|j: int|
                    0 <= j < i ==> data@[j] == (Rgba {
                        r: raw@[4 * j],
                        g: raw@[4 * j + 1],
                        b: raw@[4 * j + 2],
                        a: raw@[4 * j + 3],
                    }),
            decreases n - i,
        {
            let p = Rgba {
                r: raw[4 * i],
                g: raw[4 * i + 1],
                b: raw[4 * i + 2],
                a: raw[4 * i + 3],
            };
            data.push(p);
            i = i + 1;
        }
        let r = Bitmap { width, height, data };
        proof {
            assert(r.data@ =~= pixels_of_raw(width as int, height as int, raw@));
        }
        r
    }

    /// Flattens the pixel grid into a tightly packed row-major RGBA byte
    /// buffer.
    pub fn to_raw(&self) -> (r: Vec<u8>)
        requires
            4 * self.data@.len() <= usize::MAX,
        ensures
            r@ == raw_of_pixels(self.data@),
    {
        let n: usize = self.data.len();
        let mut raw: Vec<u8> = Vec::new();
        let mut i: usize = 0;
        while i < n
            invariant
                i <= n,
                n == self.data@.len(),
                4 * n <= usize::MAX,
                raw@.len() == 4 * i,
                forall|j: int| 0 <= j < 4 * i ==> raw@[j] == channel(self.data@[j / 4], j % 4),
            decreases n - i,
        {
            let p = self.data[i];
            raw.push(p.r);
            raw.push(p.g);
            raw.push(p.b);
            raw.push(p.a);
            proof {
                assert forall|j: int| 0 <= j < 4 * (i + 1) implies raw@[j] == channel(
                    self.data@[j / 4],
                    j % 4,
                ) by {
                    if j >= 4 * i {
                        lemma_row_major(j - 4 * i, i as int, 4);
                        assert(j == (i as int) * 4 + (j - 4 * i));
                        assert(j / 4 == i as int);
                        assert(j % 4 == j - 4 * i);
                    }
                }
            }
            i = i + 1;
        }
        proof {
            assert(raw@ =~= raw_of_pixels(self.data@));
        }
        raw
    }

    /// The region extractor: returns the `w` by `h` sub-bitmap of `self` at
    /// offset `(x, y)` as a deep copy, after validating the rectangle.
    /// Validation order, first failure wins: negative offset, zero size,
    /// rectangle past the source edges.
    pub fn crop(&self, x: i32, y: i32, w: u32, h: u32) -> (r: Result<Bitmap, RegionError>)
        requires
            self.wf(),
        ensures
            (x < 0 || y < 0) <==> r == Err::<Bitmap, RegionError>(RegionError::NegativeOffset),
            (x >= 0 && y >= 0 && (w == 0 || h == 0)) <==> r == Err::<Bitmap, RegionError>(
                RegionError::ZeroSize,
            ),
            (x >= 0 && y >= 0 && w > 0 && h > 0 && (x + w > self.width || y + h > self.height))
                <==> r == Err::<Bitmap, RegionError>(RegionError::OutOfBounds),
            r is Ok <==> (x >= 0 && y >= 0 && w > 0 && h > 0 && x + w <= self.width && y + h
                <= self.height),
            r matches Ok(b) ==> b.wf() && b.width == w && b.height == h && b.data@ == crop_pixels(
                self.data@,
                self.width as int,
                x as int,
                y as int,
                w as int,
                h as int,
            ) && (forall|px: int, py: int|
                0 <= px < w && 0 <= py < h ==> #[trigger] b.pix(px, py) == self.pix(
                    x + px,
                    y + py,
                )) && ((x == 0 && y == 0 && w == self.width && h == self.height) ==> b.data@
                == self.data@),
    {
        if x < 0 || y < 0 {
            return Err(RegionError::NegativeOffset);
        }
        if w == 0 || h == 0 {
            return Err(RegionError::ZeroSize);
        }
        if (x as u64) + (w as u64) > (self.width as u64) || (y as u64) + (h as u64) > (
        self.height as u64) {
            return Err(RegionError::OutOfBounds);
        }
        let total: usize = self.data.len();
        proof {
            assert(total == self.width * self.height);
            assert((w * h) as int <= (self.width * self.height) as int) by (nonlinear_arith)
                requires
                    0 < w <= self.width,
                    0 < h <= self.height,
            ;
        }
        let n: usize = (w as usize) * (h as usize);
        let mut data: Vec<Rgba> = Vec::new();
        let mut i: usize = 0;
        while i < n
            invariant
                i <= n,
                n == w * h,
                0 < w,
                0 < h,
                self.wf(),
                self.width * self.height <= usize::MAX,
                0 <= x,
                0 <= y,
                x + w <= self.width,
                y + h <= self.height,
                data@.len() == i,
                forall|j: int|
                    0 <= j < i ==> data@[j] == self.data@[(y + j / (w as int)) * self.width + (x + j
                        % (w as int))],
            decreases n - i,
        {
            let px: usize = i % (w as usize);
            let py: usize = i / (w as usize);
            proof {
                lemma_mod_bound(i as int, w as int);
                lemma_fundamental_div_mod(i as int, w as int);
                assert((i as int) / (w as int) < h as int) by (nonlinear_arith)
                    requires
                        (i as int) < (w as int) * (h as int),
                        0 < w,
                        0 <= i,
                        (w as int) * ((i as int) / (w as int)) + (i as int) % (w as int) == i as int,
                        0 <= (i as int) % (w as int) < w as int,
                {}
                lemma_index_in_range(
                    x + px as int,
                    y + py as int,
                    self.width as int,
                    self.height as int,
                );
                assert((y + (py as int)) * self.width + (x + (px as int)) < (self.width
                    * self.height) as int && (y + (py as int)) * self.width <= (self.width
                    * self.height) as int) by (nonlinear_arith)
                    requires
                        0 <= x + (px as int) < self.width,
                        0 <= y + (py as int) < self.height,
                ;
            }
            let idx: usize = ((y as usize) + py) * (self.width as usize) + ((x as usize) + px);
            data.push(self.data[idx]);
            i = i + 1;
        }
        let b = Bitmap { width: w, height: h, data };
        proof {
            assert(b.data@ =~= crop_pixels(
                self.data@,
                self.width as int,
                x as int,
                y as int,
                w as int,
                h as int,
            ));
            assert forall|px: int, py: int| 0 <= px < w && 0 <= py < h implies #[trigger] b.pix(
                px,
                py,
            ) == self.pix(x + px, y + py) by {
                let j = py * (w as int) + px;
                lemma_row_major(px, py, w as int);
                lemma_index_in_range(px, py, w as int, h as int);
                assert(b.pix(px, py) == b.data@[j]);
            }
            if x == 0 && y == 0 && w == self.width && h == self.height {
                assert forall|j: int| 0 <= j < b.data@.len() implies b.data@[j] == self.data@[j] by {
                    lemma_fundamental_div_mod(j, w as int);
                    lemma_mod_bound(j, w as int);
                    assert(b.data@[j] == self.data@[(j / (w as int)) * (w as int) + (j % (
                    w as int))]);
                    assert((j / (w as int)) * (w as int) + (j % (w as int)) == j);
                }
                assert(b.data@ =~= self.data@);
            }
        }
        Ok(b)
    }
}

} // verus!
