use vstd::prelude::*;
use vstd::pervasive::VecAdditionalExecFns;

verus! {

/// Mathematical model of a raster: its dimensions and the flat byte
/// sequence holding four 8-bit channels (red, green, blue, alpha) per
/// pixel, row-major, top-left origin.
#[verifier::ext_equal]
pub ghost struct RasterModel {
    pub width: nat,
    pub height: nat,
    pub data: Seq<u8>,
}

impl RasterModel {
    /// The byte sequence holds exactly four bytes per pixel.
    pub open spec fn wf(self) -> bool {
        self.data.len() == 4 * self.width * self.height
    }

    /// Index of the first byte of pixel (x, y).
    pub open spec fn byte_index(self, x: int, y: int) -> int {
        4 * (y * self.width + x)
    }

    /// The four channels of pixel (x, y).
    pub open spec fn pixel(self, x: int, y: int) -> (u8, u8, u8, u8) {
        let o = self.byte_index(x, y);
        (self.data[o], self.data[o + 1], self.data[o + 2], self.data[o + 3])
    }
}

/// The byte offset of an in-bounds pixel lies within the buffer of a
/// well-formed raster.
pub proof fn lemma_byte_index_in_bounds(w: int, h: int, x: int, y: int)
    requires
        0 <= x < w,
        0 <= y < h,
    ensures
        0 <= 4 * (y * w + x),
        4 * (y * w + x) + 3 < 4 * (w * h),
{
    assert(0 <= y * w + x && y * w + x < w * h) by (nonlinear_arith)
        requires
            0 <= x < w,
            0 <= y < h,
    ;
}

/// Distinct in-bounds pixel coordinates index distinct groups of bytes.
pub proof fn lemma_byte_index_injective(w: int, x1: int, y1: int, x2: int, y2: int)
    requires
        0 <= x1 < w,
        0 <= x2 < w,
        0 <= y1,
        0 <= y2,
        !(x1 == x2 && y1 == y2),
    ensures
        y1 * w + x1 != y2 * w + x2,
{
    assert(y1 * w + x1 != y2 * w + x2) by (nonlinear_arith)
        requires
            0 <= x1 < w,
            0 <= x2 < w,
            0 <= y1,
            0 <= y2,
            !(x1 == x2 && y1 == y2),
    ;
}

/// An RGBA image with 8-bit channels, stored as one flat row-major buffer.
pub struct Raster {
    pub width: u32,
    pub height: u32,
    pub data: Vec<u8>,
}

impl View for Raster {
    type V = RasterModel;

    open spec fn view(&self) -> RasterModel {
        RasterModel { width: self.width as nat, height: self.height as nat, data: self.data@ }
    }
}

impl Raster {
    pub open spec fn wf(self) -> bool {
        self@.wf()
    }

    pub fn width(&self) -> (w: u32)
        ensures
            w == self@.width,
    {
        self.width
    }

    pub fn height(&self) -> (h: u32)
        ensures
            h == self@.height,
    {
        self.height
    }

    /// A raster of the given dimensions with every channel zero.
    pub fn new(width: u32, height: u32) -> (r: Raster)
        requires
            4 * (width as int) * (height as int) <= usize::MAX,
        ensures
            r.wf(),
            r@.width == width,
            r@.height == height,
            forall|x: int, y: int|
                0 <= x < width && 0 <= y < height ==> r@.pixel(x, y) == (0u8, 0u8, 0u8, 0u8),
    {
        proof {
            assert((width as int) * (height as int) >= 0 && 4 * ((width as int) * (height
                as int)) == 4 * (width as int) * (height as int)) by (nonlinear_arith);
        }
        let n: usize = 4 * ((width as usize) * (height as usize));
        let mut data: Vec<u8> = Vec::new();
        while data.len() < n
            invariant
                data@.len() <= n,
                forall|k: int| 0 <= k < data@.len() ==> data@[k] == 0u8,
            decreases n - data@.len(),
        {
            data.push(0u8);
        }
        let r = Raster { width, height, data };
        proof {
            assert forall|x: int, y: int| 0 <= x < width && 0 <= y < height implies r@.pixel(x, y)
                == (0u8, 0u8, 0u8, 0u8) by {
                lemma_byte_index_in_bounds(width as int, height as int, x, y);
            };
        }
        r
    }

    /// The four channels of pixel (x, y).
    pub fn get_pixel(&self, x: u32, y: u32) -> (p: (u8, u8, u8, u8))
        requires
            self.wf(),
            x < self@.width,
            y < self@.height,
        ensures
            p == self@.pixel(x as int, y as int),
    {
        // reading the length puts its bound on 4 * width * height in scope
        let n: usize = self.data.len();
        proof {
            lemma_byte_index_in_bounds(self@.width as int, self@.height as int, x as int, y as int);
            assert(4 * ((self@.width as int) * (self@.height as int)) == 4 * (self@.width
                as int) * (self@.height as int)) by (nonlinear_arith);
        }
        let o: usize = 4 * ((y as usize) * (self.width as usize) + (x as usize));
        (self.data[o], self.data[o + 1], self.data[o + 2], self.data[o + 3])
    }

    /// Overwrite pixel (x, y); every other pixel keeps its value.
    pub fn put_pixel(&mut self, x: u32, y: u32, p: (u8, u8, u8, u8))
        requires
            old(self).wf(),
            x < old(self)@.width,
            y < old(self)@.height,
        ensures
            final(self).wf(),
            final(self)@.width == old(self)@.width,
            final(self)@.height == old(self)@.height,
            final(self)@.pixel(x as int, y as int) == p,
            forall|x2: int, y2: int|
                0 <= x2 < old(self)@.width && 0 <= y2 < old(self)@.height && !(x2 == x && y2 == y)
                    ==> final(self)@.pixel(x2, y2) == old(self)@.pixel(x2, y2),
    {
        let ghost w = old(self)@.width as int;
        let ghost h = old(self)@.height as int;
        // reading the length puts its bound on 4 * width * height in scope
        let n: usize = self.data.len();
        proof {
            lemma_byte_index_in_bounds(w, h, x as int, y as int);
            assert(4 * (w * h) == 4 * w * h) by (nonlinear_arith);
        }
        let o: usize = 4 * ((y as usize) * (self.width as usize) + (x as usize));
        self.data.set(o, p.0);
        self.data.set(o + 1, p.1);
        self.data.set(o + 2, p.2);
        self.data.set(o + 3, p.3);
        proof {
            assert forall|x2: int, y2: int|
                0 <= x2 < w && 0 <= y2 < h && !(x2 == x as int && y2 == y as int) implies self@.pixel(
                x2,
                y2,
            ) == old(self)@.pixel(x2, y2) by {
                lemma_byte_index_in_bounds(w, h, x2, y2);
                lemma_byte_index_injective(w, x2, y2, x as int, y as int);
            };
        }
    }
}

} // verus!
