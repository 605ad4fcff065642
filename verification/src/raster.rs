//! Rasters, binarization, and the trusted image-processing primitives.
//!
//! A [`Raster`] is a row-major single-channel image. The binarizer
//! thresholds it at the Otsu level and cleans the mask with one
//! morphological opening followed by one closing (structuring radius 2);
//! an external primitive then extracts the boundary polygons of the
//! foreground regions. Thresholding is implemented and verified here;
//! the Otsu level, the morphology and the contour extraction are calls
//! into `imageproc` behind trusted wrappers.

use vstd::prelude::*;

use crate::geometry::pts;

verus! {

/// A single-channel raster: `data[y * width + x]` is the intensity of
/// the pixel at `(x, y)`.
pub struct Raster {
    pub width: usize,
    pub height: usize,
    pub data: Vec<u8>,
}

/// Whether the pixel at `(x, y)` of a row-major buffer of width `w` is
/// foreground: intensity strictly above 128.
pub open spec fn is_fg(pix: Seq<u8>, w: int, x: int, y: int) -> bool {
    pix[y * w + x] > 128
}

impl Raster {
    /// Dimensions between 1 and 16384 on each side, and a pixel buffer
    /// of exactly `width * height` entries.
    pub open spec fn wf(self) -> bool {
        &&& 1 <= self.width <= 16384
        &&& 1 <= self.height <= 16384
        &&& self.data@.len() == self.width * self.height
    }

    pub open spec fn w(self) -> int {
        self.width as int
    }

    pub open spec fn h(self) -> int {
        self.height as int
    }

    pub open spec fn pix(self) -> Seq<u8> {
        self.data@
    }

    /// Builds a raster from row-major pixels; rejects empty or oversized
    /// dimensions and a buffer of the wrong length.
    pub fn new(width: usize, height: usize, data: Vec<u8>) -> (r: Option<Raster>)
        ensures
            r is Some <==> (1 <= width <= 16384 && 1 <= height <= 16384 && data@.len() == width
                * height),
            r is Some ==> {
                &&& r.unwrap().wf()
                &&& r.unwrap().w() == width
                &&& r.unwrap().h() == height
                &&& r.unwrap().pix() == data@
            },
    {
        if 1 <= width && width <= 16384 && 1 <= height && height <= 16384 {
            proof {
                assert(width * height <= 16384 * 16384) by (nonlinear_arith)
                    requires
                        1 <= width <= 16384 && 1 <= height <= 16384,
                ;
            }
            if data.len() == width * height {
                Some(Raster { width, height, data })
            } else {
                None
            }
        } else {
            None
        }
    }

    pub fn width(&self) -> (w: usize)
        ensures
            w == self.w(),
    {
        self.width
    }

    pub fn height(&self) -> (h: usize)
        ensures
            h == self.h(),
    {
        self.height
    }

    /// Whether the pixel at `(x, y)` is foreground.
    pub fn fg(&self, x: usize, y: usize) -> (r: bool)
        requires
            self.wf(),
            x < self.w(),
            y < self.h(),
        ensures
            r == is_fg(self.pix(), self.w(), x as int, y as int),
    {
        proof {
            assert((y as int) * (self.w()) + x < self.h() * self.w()) by (nonlinear_arith)
                requires
                    0 <= x < self.w() && 0 <= y < self.h(),
            ;
            assert(self.h() * self.w() == self.w() * self.h()) by (nonlinear_arith);
            assert(self.h() * self.w() <= 16384 * 16384) by (nonlinear_arith)
                requires
                    1 <= self.w() <= 16384 && 1 <= self.h() <= 16384,
            ;
        }
        self.data[y * self.width + x] > 128
    }
}

/// The binary image at threshold `level`: every pixel strictly above it
/// becomes 255, every other 0.
pub open spec fn thresh_spec(pix: Seq<u8>, level: u8) -> Seq<u8> {
    Seq::new(pix.len(), |i: int| if pix[i] > level { 255u8 } else { 0u8 })
}

/// Thresholds the pixels at a fixed level.
pub fn binarize_pixels(pix: &Vec<u8>, level: u8) -> (r: Vec<u8>)
    ensures
        r@ == thresh_spec(pix@, level),
{
    let ghost goal = thresh_spec(pix@, level);
    let n = pix.len();
    let mut out: Vec<u8> = Vec::new();
    let mut i: usize = 0;
    while i < n
        invariant
            i <= n,
            n == pix@.len(),
            goal == thresh_spec(pix@, level),
            out@ == goal.subrange(0, i as int),
        decreases n - i,
    {
        let v: u8 = if pix[i] > level {
            255
        } else {
            0
        };
        out.push(v);
        proof {
            assert(out@ =~= goal.subrange(0, i as int + 1));
        }
        i = i + 1;
    }
    proof {
        assert(out@ =~= goal);
    }
    out
}

/// The Otsu threshold level of the image: a name for what
/// `imageproc::contrast::otsu_level` returns.
pub uninterp spec fn otsu_level_of(pix: Seq<u8>, width: int, height: int) -> u8;

/// Relies on `imageproc::contrast::otsu_level`: the histogram-variance
/// maximizing threshold level of an 8-bit image. The result depends on
/// the pixels and dimensions alone.
#[verifier::external_body]
pub(crate) fn otsu_level_raster(data: &Vec<u8>, width: usize, height: usize) -> (r: u8)
    requires
        1 <= width <= 16384,
        1 <= height <= 16384,
        data@.len() == width * height,
    ensures
        r == otsu_level_of(data@, width as int, height as int),
{
    let img = image::GrayImage::from_raw(width as u32, height as u32, data.clone()).expect(
        "buffer length equals width * height",
    );
    imageproc::contrast::otsu_level(&img)
}

/// The image after morphological opening by a Euclidean disk: a name for
/// what `imageproc::morphology::open` returns.
pub uninterp spec fn opened_of(pix: Seq<u8>, width: int, height: int, radius: u8) -> Seq<u8>;

/// Relies on `imageproc::morphology::open`: erosion then dilation by a
/// Euclidean (`Norm::L2`) ball of the given radius. The output image has
/// the input's dimensions and depends on the pixels alone.
#[verifier::external_body]
pub(crate) fn open_raster(data: &Vec<u8>, width: usize, height: usize, radius: u8) -> (r: Vec<u8>)
    requires
        1 <= width <= 16384,
        1 <= height <= 16384,
        data@.len() == width * height,
    ensures
        r@ == opened_of(data@, width as int, height as int, radius),
        r@.len() == data@.len(),
{
    let img = image::GrayImage::from_raw(width as u32, height as u32, data.clone()).expect(
        "buffer length equals width * height",
    );
    imageproc::morphology::open(&img, imageproc::distance_transform::Norm::L2, radius).into_raw()
}

/// The image after morphological closing by a Euclidean disk: a name for
/// what `imageproc::morphology::close` returns.
pub uninterp spec fn closed_of(pix: Seq<u8>, width: int, height: int, radius: u8) -> Seq<u8>;

/// Relies on `imageproc::morphology::close`: dilation then erosion by a
/// Euclidean (`Norm::L2`) ball of the given radius. The output image has
/// the input's dimensions and depends on the pixels alone.
#[verifier::external_body]
pub(crate) fn close_raster(data: &Vec<u8>, width: usize, height: usize, radius: u8) -> (r: Vec<u8>)
    requires
        1 <= width <= 16384,
        1 <= height <= 16384,
        data@.len() == width * height,
    ensures
        r@ == closed_of(data@, width as int, height as int, radius),
        r@.len() == data@.len(),
{
    let img = image::GrayImage::from_raw(width as u32, height as u32, data.clone()).expect(
        "buffer length equals width * height",
    );
    imageproc::morphology::close(&img, imageproc::distance_transform::Norm::L2, radius).into_raw()
}

/// The boundary polygons of the foreground regions of a binary image: a
/// name for what `imageproc::contours::find_contours` returns.
pub uninterp spec fn contours_of(pix: Seq<u8>, width: int, height: int) -> Seq<Seq<(int, int)>>;

/// View of a list of extracted contours as point sequences.
pub open spec fn contour_views(cs: Seq<Vec<(i64, i64)>>) -> Seq<Seq<(int, int)>> {
    Seq::new(cs.len(), |i: int| pts(cs[i]@))
}

/// Relies on `imageproc::contours::find_contours` (the Suzuki-Abe border
/// following algorithm): the boundary polygons, outer borders and hole
/// borders alike, of the regions of non-zero pixels, in raster-scan
/// discovery order. The result depends on the pixels and dimensions
/// alone.
#[verifier::external_body]
pub(crate) fn find_contours_raster(data: &Vec<u8>, width: usize, height: usize) -> (r: Vec<
    Vec<(i64, i64)>,
>)
    requires
        1 <= width <= 16384,
        1 <= height <= 16384,
        data@.len() == width * height,
    ensures
        contour_views(r@) == contours_of(data@, width as int, height as int),
{
    let img = image::GrayImage::from_raw(width as u32, height as u32, data.clone()).expect(
        "buffer length equals width * height",
    );
    let cs = imageproc::contours::find_contours::<u32>(&img);
    cs.into_iter().map(|ct| ct.points.iter().map(|p| (p.x as i64, p.y as i64)).collect()).collect()
}

/// The binarized mask of a grayscale image: Otsu thresholding, then one
/// opening and one closing with structuring radius 2.
pub open spec fn binarized_spec(pix: Seq<u8>, w: int, h: int) -> Seq<u8> {
    closed_of(opened_of(thresh_spec(pix, otsu_level_of(pix, w, h)), w, h, 2), w, h, 2)
}

/// Binarizes a grayscale raster into the cleaned foreground mask.
pub fn binarize(img: &Raster) -> (r: Raster)
    requires
        img.wf(),
    ensures
        r.wf(),
        r.w() == img.w(),
        r.h() == img.h(),
        r.pix() == binarized_spec(img.pix(), img.w(), img.h()),
{
    let level = otsu_level_raster(&img.data, img.width, img.height);
    let bw = binarize_pixels(&img.data, level);
    let opened = open_raster(&bw, img.width, img.height, 2);
    let closed = close_raster(&opened, img.width, img.height, 2);
    Raster { width: img.width, height: img.height, data: closed }
}

} // verus!
