//! Images as grids of pixels of four samples each.

use vstd::prelude::*;

verus! {

/// One pixel: its red, green and blue samples, and its opacity.
#[derive(Clone, Copy, Debug, PartialEq, Eq, Structural)]
pub struct Pixel {
    pub red: u8,
    pub green: u8,
    pub blue: u8,
    pub alpha: u8,
}

/// An image: `height` rows of `width` pixels each, stored row by row, four samples to the
/// pixel.
#[derive(Debug)]
pub struct Canvas {
    width: u32,
    height: u32,
    data: Vec<u8>,
}

/// What a [`Canvas`] stands for.
pub ghost struct CanvasView {
    pub width: nat,
    pub height: nat,
    /// The samples of all pixels, row by row, in the order red, green, blue, opacity.
    pub samples: Seq<u8>,
}

impl CanvasView {
    /// Whether there are exactly the samples of `width * height` pixels.
    pub open spec fn wf(self) -> bool {
        self.samples.len() == 4 * (self.width * self.height)
    }

    /// Whether the pixel in column `x` of row `y` lies on the image.
    pub open spec fn contains(self, x: int, y: int) -> bool {
        0 <= x < self.width && 0 <= y < self.height
    }

    /// The place of the first sample of the pixel in column `x` of row `y`.
    pub open spec fn offset(self, x: int, y: int) -> int {
        4 * (y * self.width + x)
    }

    /// The pixel in column `x` of row `y`.
    pub open spec fn pixel(self, x: int, y: int) -> Pixel {
        Pixel {
            red: self.samples[self.offset(x, y)],
            green: self.samples[self.offset(x, y) + 1],
            blue: self.samples[self.offset(x, y) + 2],
            alpha: self.samples[self.offset(x, y) + 3],
        }
    }
}

/// What `Pixel::blend` of the crate `image` makes of the pixel `bottom`, an `Rgba<u8>`, when
/// the pixel `top` is blended onto it and `top` is neither fully transparent nor fully
/// opaque.
pub uninterp spec fn blend(bottom: Pixel, top: Pixel) -> Pixel;

/// The pixel that shows where `top` is laid over `bottom`: `bottom` where `top` is fully
/// transparent, `top` where it is fully opaque, and a blend of the two otherwise.
pub open spec fn composite(bottom: Pixel, top: Pixel) -> Pixel {
    if top.alpha == 0 {
        bottom
    } else if top.alpha == 255 {
        top
    } else {
        blend(bottom, top)
    }
}

/// The samples of a pixel that lies on an image lie among the samples of the image.
pub proof fn lemma_pixel_in_samples(x: int, y: int, width: int, height: int)
    requires
        0 <= x < width,
        0 <= y < height,
    ensures
        0 <= 4 * (y * width + x),
        4 * (y * width + x) + 4 <= 4 * (width * height),
{
    assert(0 <= y * width && (y + 1) * width <= height * width && (y + 1) * width == y * width
        + width && height * width == width * height) by (nonlinear_arith)
        requires
            0 <= y < height,
            0 <= width,
    ;
}

impl View for Canvas {
    type V = CanvasView;

    closed spec fn view(&self) -> CanvasView {
        CanvasView {
            width: self.width as nat,
            height: self.height as nat,
            samples: self.data@,
        }
    }
}

impl Canvas {
    #[verifier::type_invariant]
    spec fn well_formed(&self) -> bool {
        self.data@.len() == 4 * (self.width as nat * self.height as nat)
    }

    /// The number of samples of an image of the given size, where that is a count.
    fn sample_count(width: u32, height: u32) -> (count: Option<usize>)
        ensures
            count is Some <==> 4 * (width as nat * height as nat) <= usize::MAX,
            count matches Some(n) ==> n == 4 * (width as nat * height as nat),
    {
        assert(width as nat * height as nat == width as int * height as int && width as int
            * height as int <= 0xffff_ffff * 0xffff_ffff) by (nonlinear_arith)
            requires
                width <= 0xffff_ffff,
                height <= 0xffff_ffff,
        ;
        let pixels: u64 = width as u64 * height as u64;
        let samples: u128 = 4 * (pixels as u128);
        if samples <= usize::MAX as u128 {
            Some(samples as usize)
        } else {
            None
        }
    }

    /// A canvas of the given size with every sample zero: transparent black.
    ///
    /// None where the samples of such a canvas are too many to be counted.
    pub fn new(width: u32, height: u32) -> (canvas: Option<Self>)
        ensures
            canvas is Some <==> 4 * (width as nat * height as nat) <= usize::MAX,
            canvas matches Some(c) ==> c@.width == width && c@.height == height && c@.wf()
                && forall|i: int| 0 <= i < c@.samples.len() ==> c@.samples[i] == 0,
    {
        match Self::sample_count(width, height) {
            Some(count) => Some(Canvas { width, height, data: vec![0u8; count] }),
            None => None,
        }
    }

    /// The canvas of the given size that has the given samples.
    ///
    /// None where `data` does not hold exactly four samples for each pixel.
    pub fn from_raw(width: u32, height: u32, data: Vec<u8>) -> (canvas: Option<Self>)
        ensures
            canvas is Some <==> data@.len() == 4 * (width as nat * height as nat),
            canvas matches Some(c) ==> c@ == (CanvasView {
                width: width as nat,
                height: height as nat,
                samples: data@,
            }),
    {
        assert(data.len() == data@.len());
        match Self::sample_count(width, height) {
            Some(count) => {
                if data.len() == count {
                    Some(Canvas { width, height, data })
                } else {
                    None
                }
            },
            None => None,
        }
    }

    /// The samples of the canvas.
    pub fn into_raw(self) -> (data: Vec<u8>)
        ensures
            data@ == self@.samples,
            self@.wf(),
    {
        proof {
            use_type_invariant(&self);
        }
        self.data
    }

    /// The number of pixels in a row.
    pub fn width(&self) -> (width: u32)
        ensures
            width == self@.width,
            self@.wf(),
    {
        proof {
            use_type_invariant(self);
        }
        self.width
    }

    /// The number of rows.
    pub fn height(&self) -> (height: u32)
        ensures
            height == self@.height,
            self@.wf(),
    {
        proof {
            use_type_invariant(self);
        }
        self.height
    }

    /// `image::imageops::overlay`, on two `Rgba<u8>` images that hold the samples of `self`
    /// and of `top`: lays `top` over `self` with its top left corner at column `x` of row
    /// `y`.
    ///
    /// It is called only with `top` wholly on `self`. Then the size stays, and every pixel that
    /// is not under `top` stays as it is. A pixel under `top` becomes what `Pixel::blend` makes
    /// of it and of the pixel of `top` above it: it stays where that one is fully transparent,
    /// it becomes that one where that one is fully opaque, and it becomes a blend of the two
    /// otherwise.
    #[verifier::external_body]
    pub(crate) fn overlay(&mut self, top: &Canvas, x: i64, y: i64)
        requires
            0 <= x,
            0 <= y,
            x + top@.width <= old(self)@.width,
            y + top@.height <= old(self)@.height,
        ensures
            final(self)@.width == old(self)@.width,
            final(self)@.height == old(self)@.height,
            final(self)@.wf(),
            forall|column: int, row: int|
                old(self)@.contains(column, row) ==> #[trigger] final(self)@.pixel(column, row)
                    == {
                    let under = old(self)@.pixel(column, row);
                    let over = top@.pixel(column - x, row - y);
                    if !(x <= column < x + top@.width && y <= row < y + top@.height) {
                        under
                    } else if over.alpha == 0 {
                        under
                    } else if over.alpha == 255 {
                        over
                    } else {
                        blend(under, over)
                    }
                },
    {
        let data = std::mem::take(&mut self.data);
        if let Some(mut bottom) = image::RgbaImage::from_raw(self.width, self.height, data) {
            let tile = image::ImageBuffer::<image::Rgba<u8>, &[u8]>::from_raw(
                top.width,
                top.height,
                top.data.as_slice(),
            );
            if let Some(tile) = tile {
                image::imageops::overlay(&mut bottom, &tile, x, y);
            }
            self.data = bottom.into_raw();
        }
    }

    /// The pixel in column `x` of row `y`.
    pub fn get_pixel(&self, x: u32, y: u32) -> (pixel: Pixel)
        requires
            self@.contains(x as int, y as int),
        ensures
            pixel == self@.pixel(x as int, y as int),
    {
        proof {
            use_type_invariant(self);
            lemma_pixel_in_samples(x as int, y as int, self.width as int, self.height as int);
            assert(0 <= y as int * self.width as int && self.width as nat * self.height as nat
                == self.width as int * self.height as int) by (nonlinear_arith);
            assert(self.data.len() == self.data@.len());
        }
        let offset: usize = 4 * (y as usize * self.width as usize + x as usize);
        Pixel {
            red: self.data[offset],
            green: self.data[offset + 1],
            blue: self.data[offset + 2],
            alpha: self.data[offset + 3],
        }
    }
}

} // verus!
