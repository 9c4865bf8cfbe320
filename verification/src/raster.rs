//! The raster that a conversion reads.

use vstd::prelude::*;

verus! {

/// The color of one pixel, with its opacity.
#[derive(Clone, Copy, Debug, PartialEq, Eq, Structural)]
pub struct Rgba {
    pub r: u8,
    pub g: u8,
    pub b: u8,
    pub a: u8,
}

/// The most pixels that a raster can have and be traced. The tracer numbers
/// the regions of an image with sixteen bits and gives up at the last number.
/// A region is started at a pixel whose upper and left neighbors are not of
/// its kind, so no two starts are neighbors and at most every other pixel
/// starts one.
pub const PIXEL_LIMIT: usize = 131_068;

/// The greatest width and height that a raster can have and be reduced to
/// polygons or curves. The reducer squares the distance of two corners in
/// thirty-two bits.
pub const SPAN_LIMIT: usize = 46_340;

/// The color that `bytes`, rows of RGBA quadruples, hold at offset `index`.
pub open spec fn pixel_at(bytes: Seq<u8>, index: int) -> Rgba {
    Rgba { r: bytes[4 * index], g: bytes[4 * index + 1], b: bytes[4 * index + 2], a: bytes[4 * index + 3] }
}

/// Whether some pixel of `bytes` has the three color channels given,
/// whatever its opacity.
pub open spec fn has_color(bytes: Seq<u8>, r: u8, g: u8, b: u8) -> bool {
    exists|i: int|
        0 <= i && 4 * i + 3 < bytes.len() && #[trigger] bytes[4 * i] == r && bytes[4 * i + 1] == g
            && bytes[4 * i + 2] == b
}

/// The wholly transparent pixels among the first `n` of row `y`.
pub open spec fn transparent_upto(bytes: Seq<u8>, width: nat, y: nat, n: nat) -> nat
    decreases n,
{
    if n == 0 {
        0
    } else {
        transparent_upto(bytes, width, y, (n - 1) as nat) + if bytes[4 * (y * width + n - 1) + 3] == 0 {
            1nat
        } else {
            0nat
        }
    }
}

/// The wholly transparent pixels of row `y`.
pub open spec fn transparent_in_row(bytes: Seq<u8>, width: nat, y: nat) -> nat {
    transparent_upto(bytes, width, y, width)
}

/// Whether a color raster is keyed, that is, has its transparent pixels
/// painted in a color of their own and left out. It is, if five of its rows
/// together, the first, the last and those at each quarter of the height,
/// hold as many transparent pixels as a fifth of twice the width, rounded
/// down. A row that is counted twice counts twice.
pub open spec fn key_sought(bytes: Seq<u8>, width: nat, height: nat) -> bool {
    &&& width > 0
    &&& height > 0
    &&& transparent_in_row(bytes, width, 0) + transparent_in_row(bytes, width, height / 4) + transparent_in_row(
        bytes,
        width,
        height / 2,
    ) + transparent_in_row(bytes, width, 3 * height / 4) + transparent_in_row(
        bytes,
        width,
        (height - 1) as nat,
    ) >= 2 * width / 5
}

/// A grid of pixels, stored row by row as RGBA quadruples. It is read-only
/// once made.
#[derive(Debug)]
pub struct RasterBuffer {
    width: usize,
    height: usize,
    pixels: Vec<u8>,
}

impl RasterBuffer {
    #[verifier::type_invariant]
    spec fn sized(self) -> bool {
        self.pixels.len() == 4 * self.width * self.height
    }

    pub closed spec fn spec_width(self) -> nat {
        self.width as nat
    }

    pub closed spec fn spec_height(self) -> nat {
        self.height as nat
    }

    /// The bytes of the raster: four for each pixel, row after row.
    pub closed spec fn bytes(self) -> Seq<u8> {
        self.pixels@
    }

    pub open spec fn spec_is_empty(self) -> bool {
        self.spec_width() == 0 || self.spec_height() == 0
    }

    /// The raster has no more pixels than the tracer can number regions
    /// for.
    pub open spec fn countable(self) -> bool {
        self.spec_width() * self.spec_height() <= PIXEL_LIMIT
    }

    /// The raster is no wider and no higher than the reducer can take.
    pub open spec fn reducible(self) -> bool {
        self.spec_width() <= SPAN_LIMIT && self.spec_height() <= SPAN_LIMIT
    }

    /// Makes a raster of `pixels`, which must hold four bytes for each of the
    /// `width * height` pixels.
    pub fn new(width: usize, height: usize, pixels: Vec<u8>) -> (r: Option<RasterBuffer>)
        ensures
            r is Some <==> pixels.len() == 4 * width * height,
            r matches Some(raster) ==> raster.spec_width() == width && raster.spec_height()
                == height && raster.bytes() == pixels@,
    {
        let expected = match width.checked_mul(height) {
            Some(count) => count.checked_mul(4),
            None => None,
        };
        match expected {
            Some(len) => {
                assert(len == 4 * width * height) by (nonlinear_arith)
                    requires
                        len == (width * height) * 4,
                ;
                if pixels.len() == len {
                    Some(RasterBuffer { width, height, pixels })
                } else {
                    None
                }
            },
            None => {
                assert(4 * width * height > usize::MAX) by (nonlinear_arith)
                    requires
                        width * height > usize::MAX || (width * height) * 4 > usize::MAX,
                        width >= 0,
                        height >= 0,
                ;
                None
            },
        }
    }

    pub fn width(&self) -> (w: usize)
        ensures
            w == self.spec_width(),
    {
        self.width
    }

    pub fn height(&self) -> (h: usize)
        ensures
            h == self.spec_height(),
    {
        self.height
    }

    /// Whether the raster has no pixels.
    pub fn is_empty(&self) -> (e: bool)
        ensures
            e == self.spec_is_empty(),
    {
        self.width == 0 || self.height == 0
    }

    /// The color of the pixel in column `x` of row `y`.
    pub fn pixel(&self, x: usize, y: usize) -> (c: Rgba)
        requires
            x < self.spec_width(),
            y < self.spec_height(),
        ensures
            c == pixel_at(self.bytes(), y * self.spec_width() + x),
    {
        proof {
            use_type_invariant(self);
            assert(4 * (y * self.width + x) + 3 < 4 * self.width * self.height) by (nonlinear_arith)
                requires
                    x < self.width,
                    y < self.height,
            ;
        }
        let i = 4 * (y * self.width + x);
        Rgba { r: self.pixels[i], g: self.pixels[i + 1], b: self.pixels[i + 2], a: self.pixels[i + 3] }
    }

    /// Whether some pixel has the three color channels given, whatever its
    /// opacity.
    pub fn uses_color(&self, r: u8, g: u8, b: u8) -> (found: bool)
        ensures
            found == has_color(self.bytes(), r, g, b),
    {
        let count = self.pixels.len() / 4;
        let mut i: usize = 0;
        while i < count
            invariant
                i <= count,
                count == self.pixels.len() / 4,
                forall|k: int|
                    0 <= k < i ==> !(#[trigger] self.pixels@[4 * k] == r && self.pixels@[4 * k + 1] == g
                        && self.pixels@[4 * k + 2] == b),
            decreases count - i,
        {
            if self.pixels[4 * i] == r && self.pixels[4 * i + 1] == g && self.pixels[4 * i + 2] == b {
                return true;
            }
            i += 1;
        }
        false
    }

    /// The wholly transparent pixels of row `y`.
    fn count_transparent(&self, y: usize) -> (count: usize)
        requires
            y < self.spec_height(),
        ensures
            count == transparent_in_row(self.bytes(), self.spec_width(), y as nat),
            count <= self.spec_width(),
    {
        proof {
            use_type_invariant(self);
        }
        let mut count: usize = 0;
        let mut x: usize = 0;
        while x < self.width
            invariant
                x <= self.width,
                y < self.height,
                self.pixels.len() == 4 * self.width * self.height,
                count == transparent_upto(self.pixels@, self.width as nat, y as nat, x as nat),
                count <= x,
            decreases self.width - x,
        {
            proof {
                assert(4 * (y * self.width + x) + 3 < 4 * self.width * self.height) by (nonlinear_arith)
                    requires
                        x < self.width,
                        y < self.height,
                ;
            }
            if self.pixels[4 * (y * self.width + x) + 3] == 0 {
                count += 1;
            }
            x += 1;
        }
        count
    }

    /// Whether the raster is keyed where it is traced in color.
    pub fn seeks_key(&self) -> (sought: bool)
        ensures
            sought == key_sought(self.bytes(), self.spec_width(), self.spec_height()),
    {
        if self.width == 0 || self.height == 0 {
            return false;
        }
        let h = self.height;
        let quarter = h / 4;
        let half = h / 2;
        let last = h - 1;
        let three_quarters = if h % 4 == 0 {
            h - quarter
        } else {
            h - quarter - 1
        };
        assert(three_quarters == 3 * h / 4);
        let found = self.count_transparent(0) as u128 + self.count_transparent(quarter) as u128
            + self.count_transparent(half) as u128 + self.count_transparent(three_quarters) as u128
            + self.count_transparent(last) as u128;
        found >= (2 * (self.width as u128)) / 5
    }

    /// Whether the raster has no more pixels than the tracer can number
    /// regions for.
    pub fn is_countable(&self) -> (ok: bool)
        ensures
            ok == self.countable(),
    {
        proof {
            use_type_invariant(self);
            assert(4 * self.width * self.height == 4 * (self.width * self.height)) by (nonlinear_arith);
        }
        self.pixels.len() / 4 <= PIXEL_LIMIT
    }

    /// Whether the raster is no wider and no higher than the reducer can
    /// take.
    pub fn is_reducible(&self) -> (ok: bool)
        ensures
            ok == self.reducible(),
    {
        self.width <= SPAN_LIMIT && self.height <= SPAN_LIMIT
    }

    /// Gives up the raster for its bytes.
    pub fn into_bytes(self) -> (pixels: Vec<u8>)
        ensures
            pixels@ == self.bytes(),
            pixels.len() == 4 * self.spec_width() * self.spec_height(),
    {
        proof {
            use_type_invariant(&self);
        }
        self.pixels
    }
}

} // verus!
