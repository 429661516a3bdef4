//! The mosaic renderer: every pixel of a full sector takes its sector's
//! mean color; in `Circle` mode a pixel strictly farther from its
//! sector's center than half the sector size takes the background color
//! instead. A pixel of a trailing partial row or column belongs to no
//! full sector and always takes the background color — never the color
//! of some other sector.

use vstd::prelude::*;
use vstd::arithmetic::div_mod::lemma_fundamental_div_mod_converse;
use crate::grid::lemma_pixel_index_in_bounds;
use crate::grid::pix_at_rgba;
use crate::grid::PixelGrid;
use crate::grid::RgbaGrid;
use crate::sector::compute_sector_colors;
use crate::sector::spec_sector_colors;
use crate::types::Mode;
use crate::types::MosaicError;
use crate::types::Rgba;
use crate::types::SectorColor;

verus! {

/// The background color: fully transparent white.
pub open spec fn background() -> Rgba {
    Rgba { r: 255, g: 255, b: 255, a: 0 }
}

/// The background color as a value.
pub fn background_pixel() -> (p: Rgba)
    ensures
        p == background(),
{
    Rgba { r: 255, g: 255, b: 255, a: 0 }
}

/// One coordinate of the center of the sector a pixel coordinate falls
/// in: the sector's origin plus half the sector size, floor-divided.
pub open spec fn center_coord(v: int, size: int) -> int {
    v - v % size + size / 2
}

/// Whether `(x, y)` lies strictly farther from its sector's center than
/// half the sector size. With integer coordinates the squared distance
/// is exact, so `4 * d2 > size * size` says precisely
/// `sqrt(d2) > size / 2` over the reals.
pub open spec fn outside_circle(x: int, y: int, size: int) -> bool {
    let dx = x - center_coord(x, size);
    let dy = y - center_coord(y, size);
    4 * (dx * dx + dy * dy) > size * size
}

/// The color of the output pixel at `(x, y)`.
pub open spec fn spec_render_pixel(
    colors: Seq<SectorColor>,
    width: int,
    height: int,
    size: int,
    mode: Mode,
    x: int,
    y: int,
) -> Rgba {
    let scol = x / size;
    let srow = y / size;
    let idx = srow * (width / size) + scol;
    if scol >= width / size || srow >= height / size || idx >= colors.len() {
        background()
    } else if mode is Circle && outside_circle(x, y, size) {
        background()
    } else {
        Rgba { r: colors[idx].r, g: colors[idx].g, b: colors[idx].b, a: 255 }
    }
}

/// The whole output grid, row-major.
pub open spec fn spec_render(
    colors: Seq<SectorColor>,
    width: int,
    height: int,
    size: int,
    mode: Mode,
) -> Seq<Rgba> {
    Seq::new(
        (width * height) as nat,
        |i: int| spec_render_pixel(colors, width, height, size, mode, i % width, i / width),
    )
}

/// Renders one output pixel.
fn render_pixel(
    colors: &Vec<SectorColor>,
    width: u32,
    height: u32,
    size: u32,
    mode: Mode,
    x: u32,
    y: u32,
) -> (p: Rgba)
    requires
        size >= 1,
        x < width,
        y < height,
    ensures
        p == spec_render_pixel(
            colors@,
            width as int,
            height as int,
            size as int,
            mode,
            x as int,
            y as int,
        ),
{
    let scol = x / size;
    let srow = y / size;
    let n_cols = width / size;
    let n_rows = height / size;
    if scol >= n_cols || srow >= n_rows {
        return background_pixel();
    }
    proof {
        assert((srow as int) * (n_cols as int) + (scol as int) < 0x1_0000_0000_0000_0000)
            by (nonlinear_arith)
            requires
                0 <= srow <= 0xffff_ffffu32,
                0 <= scol <= 0xffff_ffffu32,
                0 <= n_cols <= 0xffff_ffffu32,
        ;
    }
    let idx = (srow as u64) * (n_cols as u64) + (scol as u64);
    let len = colors.len();
    if idx >= (len as u64) {
        return background_pixel();
    }
    if mode == Mode::Circle {
        let rx = x % size;
        let ry = y % size;
        let half = size / 2;
        let dx = (rx as i64) - (half as i64);
        let dy = (ry as i64) - (half as i64);
        proof {
            assert((dx as int) * (dx as int) + (dy as int) * (dy as int)
                <= 0x1_0000_0000_0000_0000_0000 && (dx as int) * (dx as int) >= 0 && (dy as int)
                * (dy as int) >= 0 && (size as int) * (size as int)
                <= 0xffff_ffff * 0xffff_ffff) by (nonlinear_arith)
                requires
                    -0x1_0000_0000 < dx < 0x1_0000_0000,
                    -0x1_0000_0000 < dy < 0x1_0000_0000,
                    0 <= size <= 0xffff_ffffu32,
            ;
            assert(dx as int == x as int - center_coord(x as int, size as int));
            assert(dy as int == y as int - center_coord(y as int, size as int));
        }
        let dx2 = (dx as i128) * (dx as i128);
        let dy2 = (dy as i128) * (dy as i128);
        if 4 * (dx2 + dy2) > (size as i128) * (size as i128) {
            return background_pixel();
        }
    }
    let c = colors[idx as usize];
    Rgba { r: c.r, g: c.g, b: c.b, a: 255 }
}

/// Renders the full output grid from the sector colors: `width * height`
/// pixels, each as `spec_render_pixel` says.
pub fn render_mosaic(
    width: u32,
    height: u32,
    colors: &Vec<SectorColor>,
    sector_size: u32,
    mode: Mode,
) -> (out: RgbaGrid)
    requires
        sector_size >= 1,
        (width as int) * (height as int) <= usize::MAX,
    ensures
        out.width == width,
        out.height == height,
        out.wf(),
        out.pixels@ == spec_render(
            colors@,
            width as int,
            height as int,
            sector_size as int,
            mode,
        ),
        forall|x: int, y: int|
            0 <= x < width && 0 <= y < height ==> pix_at_rgba(out.pixels@, width as int, x, y)
                == spec_render_pixel(
                colors@,
                width as int,
                height as int,
                sector_size as int,
                mode,
                x,
                y,
            ),
{
    let ghost gw = width as int;
    let ghost gh = height as int;
    let ghost gs = sector_size as int;
    let mut pixels: Vec<Rgba> = Vec::new();
    let mut y: u32 = 0;
    while y < height
        invariant
            sector_size >= 1,
            gw == width as int,
            gh == height as int,
            gs == sector_size as int,
            y <= height,
            gw * gh <= usize::MAX,
            pixels@.len() == (y as int) * gw,
            forall|j: int|
                0 <= j < pixels@.len() ==> pixels@[j] == spec_render_pixel(
                    colors@,
                    gw,
                    gh,
                    gs,
                    mode,
                    j % gw,
                    j / gw,
                ),
        decreases height - y,
    {
        let mut x: u32 = 0;
        while x < width
            invariant
                sector_size >= 1,
                gw == width as int,
                gh == height as int,
                gs == sector_size as int,
                y < height,
                x <= width,
                gw * gh <= usize::MAX,
                pixels@.len() == (y as int) * gw + x as int,
                forall|j: int|
                    0 <= j < pixels@.len() ==> pixels@[j] == spec_render_pixel(
                        colors@,
                        gw,
                        gh,
                        gs,
                        mode,
                        j % gw,
                        j / gw,
                    ),
            decreases width - x,
        {
            let p = render_pixel(colors, width, height, sector_size, mode, x, y);
            proof {
                lemma_fundamental_div_mod_converse(
                    (y as int) * gw + x as int,
                    gw,
                    y as int,
                    x as int,
                );
            }
            pixels.push(p);
            x = x + 1;
        }
        proof {
            assert(((y + 1) as int) * gw == (y as int) * gw + gw) by (nonlinear_arith);
        }
        y = y + 1;
    }
    proof {
        assert(gw * gh == gh * gw) by (nonlinear_arith);
        assert(pixels@ =~= spec_render(colors@, gw, gh, gs, mode));
        assert forall|x: int, y: int|
            0 <= x < width && 0 <= y < height implies pix_at_rgba(pixels@, gw, x, y)
            == spec_render_pixel(colors@, gw, gh, gs, mode, x, y) by {
            lemma_pixel_index_in_bounds(gw, gh, x, y);
            lemma_fundamental_div_mod_converse(y * gw + x, gw, y, x);
        }
    }
    RgbaGrid { width, height, pixels }
}

/// Runs the whole filter: computes every full sector's mean color, then
/// renders a grid of the input's dimensions from those colors. Fails
/// with `InvalidConfiguration` if and only if the sector size is zero or
/// exceeds one of the grid's dimensions.
pub fn apply_mosaic(grid: &PixelGrid, sector_size: u32, mode: Mode) -> (r: Result<
    RgbaGrid,
    MosaicError,
>)
    requires
        grid.wf(),
    ensures
        r is Err <==> (sector_size == 0 || sector_size > grid.width || sector_size > grid.height),
        r is Err ==> r == Err::<RgbaGrid, MosaicError>(MosaicError::InvalidConfiguration),
        r is Ok ==> r->Ok_0.width == grid.width && r->Ok_0.height == grid.height && r->Ok_0.wf()
            && r->Ok_0.pixels@ == spec_render(
            spec_sector_colors(
                grid.pixels@,
                grid.width as int,
                grid.height as int,
                sector_size as int,
            ),
            grid.width as int,
            grid.height as int,
            sector_size as int,
            mode,
        ),
{
    let colors = match compute_sector_colors(grid, sector_size) {
        Ok(colors) => colors,
        Err(e) => {
            return Err(e);
        },
    };
    let _grid_len = grid.pixels.len();
    Ok(render_mosaic(grid.width, grid.height, &colors, sector_size, mode))
}

} // verus!
