//! Pixel grids: the input grid of RGB triples and the output grid of
//! RGBA quadruples, both stored row-major.

use vstd::prelude::*;
use crate::types::Rgb;
use crate::types::Rgba;

verus! {

/// Row-major index of the pixel at `(x, y)` in a grid `width` pixels wide.
pub open spec fn pixel_index(width: int, x: int, y: int) -> int {
    y * width + x
}

/// The pixel at `(x, y)` of a row-major pixel sequence.
pub open spec fn pix_at(pix: Seq<Rgb>, width: int, x: int, y: int) -> Rgb {
    pix[pixel_index(width, x, y)]
}

/// The pixel at `(x, y)` of a row-major RGBA pixel sequence.
pub open spec fn pix_at_rgba(pix: Seq<Rgba>, width: int, x: int, y: int) -> Rgba {
    pix[pixel_index(width, x, y)]
}

/// The same pixels with the alpha channel dropped.
pub open spec fn drop_alpha(pix: Seq<Rgba>) -> Seq<Rgb> {
    pix.map_values(|p: Rgba| Rgb { r: p.r, g: p.g, b: p.b })
}

/// In-bounds coordinates index inside the grid's pixel data.
pub proof fn lemma_pixel_index_in_bounds(width: int, height: int, x: int, y: int)
    requires
        0 <= x < width,
        0 <= y < height,
    ensures
        0 <= pixel_index(width, x, y) < width * height,
        0 <= y * width <= width * height,
{
    assert(0 <= y * width + x < width * height && 0 <= y * width <= width * height)
        by (nonlinear_arith)
        requires
            0 <= x < width,
            0 <= y < height,
    ;
}

/// An RGB pixel grid, the filter's input: `pixels` holds the rows one
/// after the other, `width * height` entries in all.
pub struct PixelGrid {
    pub width: u32,
    pub height: u32,
    pub pixels: Vec<Rgb>,
}

impl PixelGrid {
    /// The grid is well formed: exactly one pixel for every coordinate.
    pub open spec fn wf(&self) -> bool {
        self.pixels@.len() == (self.width as int) * (self.height as int)
    }

    /// Builds a grid from row-major pixel data; `None` when the data's
    /// length does not match the dimensions.
    pub fn new(width: u32, height: u32, pixels: Vec<Rgb>) -> (r: Option<PixelGrid>)
        ensures
            (pixels@.len() == (width as int) * (height as int)) <==> r is Some,
            r is Some ==> r->0 == (PixelGrid { width, height, pixels }),
            r is Some ==> r->0.wf(),
    {
        proof {
            assert((width as int) * (height as int) <= 0xffff_ffff * 0xffff_ffff)
                by (nonlinear_arith)
                requires
                    width <= 0xffff_ffffu32,
                    height <= 0xffff_ffffu32,
            ;
        }
        if (pixels.len() as u128) == (width as u128) * (height as u128) {
            Some(PixelGrid { width, height, pixels })
        } else {
            None
        }
    }

    /// The pixel at `(x, y)`; `None` outside the grid.
    pub fn pixel(&self, x: u32, y: u32) -> (r: Option<Rgb>)
        requires
            self.wf(),
        ensures
            r == if x < self.width && y < self.height {
                Some(pix_at(self.pixels@, self.width as int, x as int, y as int))
            } else {
                None::<Rgb>
            },
    {
        if x < self.width && y < self.height {
            proof {
                lemma_pixel_index_in_bounds(
                    self.width as int,
                    self.height as int,
                    x as int,
                    y as int,
                );
            }
            let n = self.pixels.len();
            assert(y * self.width + x < n);
            Some(self.pixels[(y as usize) * (self.width as usize) + (x as usize)])
        } else {
            None
        }
    }
}

/// An RGBA pixel grid, the filter's output, stored like `PixelGrid`.
pub struct RgbaGrid {
    pub width: u32,
    pub height: u32,
    pub pixels: Vec<Rgba>,
}

impl RgbaGrid {
    /// The grid is well formed: exactly one pixel for every coordinate.
    pub open spec fn wf(&self) -> bool {
        self.pixels@.len() == (self.width as int) * (self.height as int)
    }

    /// The pixel at `(x, y)`; `None` outside the grid.
    pub fn pixel(&self, x: u32, y: u32) -> (r: Option<Rgba>)
        requires
            self.wf(),
        ensures
            r == if x < self.width && y < self.height {
                Some(pix_at_rgba(self.pixels@, self.width as int, x as int, y as int))
            } else {
                None::<Rgba>
            },
    {
        if x < self.width && y < self.height {
            proof {
                lemma_pixel_index_in_bounds(
                    self.width as int,
                    self.height as int,
                    x as int,
                    y as int,
                );
            }
            let n = self.pixels.len();
            assert(y * self.width + x < n);
            Some(self.pixels[(y as usize) * (self.width as usize) + (x as usize)])
        } else {
            None
        }
    }

    /// The same grid with every pixel's alpha channel dropped, ready to
    /// be fed through the filter again.
    pub fn to_rgb(&self) -> (r: PixelGrid)
        requires
            self.wf(),
        ensures
            r.width == self.width,
            r.height == self.height,
            r.pixels@ == drop_alpha(self.pixels@),
            r.wf(),
    {
        let mut pixels: Vec<Rgb> = Vec::new();
        let n = self.pixels.len();
        for i in 0..n
            invariant
                n == self.pixels@.len(),
                pixels@.len() == i,
                forall|j: int|
                    0 <= j < i ==> pixels@[j] == (Rgb {
                        r: self.pixels@[j].r,
                        g: self.pixels@[j].g,
                        b: self.pixels@[j].b,
                    }),
        {
            let p = self.pixels[i];
            pixels.push(Rgb { r: p.r, g: p.g, b: p.b });
        }
        proof {
            assert(pixels@ =~= drop_alpha(self.pixels@));
        }
        PixelGrid { width: self.width, height: self.height, pixels }
    }
}

} // verus!
