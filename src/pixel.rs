use vstd::prelude::*;

verus! {

/// One source pixel: red, green, blue and alpha channels.
#[derive(Clone, Copy, Debug, PartialEq, Eq, Structural)]
pub struct Rgba {
    pub r: u8,
    pub g: u8,
    pub b: u8,
    pub a: u8,
}

/// The mathematical content of a pixel buffer.
pub ghost struct ImageModel {
    pub width: nat,
    pub height: nat,
    pub pixels: Seq<Rgba>,
}

impl ImageModel {
    /// The pixel at column `x`, row `y` (row-major storage).
    pub open spec fn at(self, x: int, y: int) -> Rgba {
        self.pixels[y * self.width + x]
    }

    pub open spec fn wf(self) -> bool {
        self.pixels.len() == self.width * self.height
    }
}

/// A read-only rectangular image, stored row by row.
#[derive(Debug)]
pub struct PixelBuffer {
    width: u32,
    height: u32,
    pixels: Vec<Rgba>,
}

impl View for PixelBuffer {
    type V = ImageModel;

    closed spec fn view(&self) -> ImageModel {
        ImageModel { width: self.width as nat, height: self.height as nat, pixels: self.pixels@ }
    }
}

pub proof fn lemma_row_major_index(x: int, y: int, w: int, h: int)
    requires
        0 <= x < w,
        0 <= y < h,
    ensures
        0 <= y * w + x < w * h,
{
    assert(0 <= y * w + x < w * h) by (nonlinear_arith)
        requires
            0 <= x < w,
            0 <= y < h,
    ;
}

/// A product of two 32-bit values fits in 64 bits.
pub proof fn lemma_mul_u32_fits(a: int, b: int)
    requires
        0 <= a <= u32::MAX,
        0 <= b <= u32::MAX,
    ensures
        0 <= a * b <= u64::MAX,
{
    assert(0 <= a * b <= u32::MAX * u32::MAX) by (nonlinear_arith)
        requires
            0 <= a <= u32::MAX,
            0 <= b <= u32::MAX,
    ;
}

impl PixelBuffer {
    #[verifier::type_invariant]
    spec fn inv(&self) -> bool {
        self.pixels@.len() == self.width as nat * self.height as nat
    }

    /// Builds a buffer from its pixels in row-major order; `None` when the
    /// number of pixels is not `width * height`.
    pub fn new(width: u32, height: u32, pixels: Vec<Rgba>) -> (r: Option<PixelBuffer>)
        ensures
            r is Some <==> pixels@.len() == width as nat * height as nat,
            r matches Some(b) ==> b@ == (ImageModel {
                width: width as nat,
                height: height as nat,
                pixels: pixels@,
            }),
    {
        proof {
            lemma_mul_u32_fits(width as int, height as int);
        }
        let n: u64 = width as u64 * height as u64;
        if pixels.len() as u64 == n {
            Some(PixelBuffer { width, height, pixels })
        } else {
            None
        }
    }

    pub fn width(&self) -> (r: u32)
        ensures
            r == self@.width,
            self@.wf(),
    {
        proof {
            use_type_invariant(self);
        }
        self.width
    }

    pub fn height(&self) -> (r: u32)
        ensures
            r == self@.height,
            self@.wf(),
    {
        proof {
            use_type_invariant(self);
        }
        self.height
    }

    /// The pixel at column `x`, row `y`.
    pub fn pixel(&self, x: u32, y: u32) -> (p: Rgba)
        requires
            x < self@.width,
            y < self@.height,
        ensures
            p == self@.at(x as int, y as int),
    {
        proof {
            use_type_invariant(self);
            lemma_row_major_index(x as int, y as int, self.width as int, self.height as int);
            lemma_mul_u32_fits(self.width as int, self.height as int);
        }
        let i: u64 = y as u64 * self.width as u64 + x as u64;
        let n: usize = self.pixels.len();
        assert(i < n);
        let k: usize = i as usize;
        self.pixels[k]
    }
}

} // verus!
