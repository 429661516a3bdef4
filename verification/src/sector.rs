//! The sector averager: partitions the grid into `size * size` sectors
//! (trailing partial rows and columns are discarded) and computes the
//! truncated per-channel mean color of each sector, row-major.

use vstd::prelude::*;
use vstd::arithmetic::div_mod::lemma_fundamental_div_mod;
use vstd::arithmetic::div_mod::lemma_fundamental_div_mod_converse;
use vstd::arithmetic::div_mod::lemma_div_is_ordered;
use vstd::arithmetic::div_mod::lemma_mod_division_less_than_divisor;
use vstd::arithmetic::mul::lemma_mul_inequality;
use crate::grid::pix_at;
use crate::grid::lemma_pixel_index_in_bounds;
use crate::grid::PixelGrid;
use crate::types::MosaicError;
use crate::types::Rgb;
use crate::types::SectorColor;

verus! {

/// Channel `c` of a pixel: 0 is red, 1 is green, anything else blue.
pub open spec fn chan(p: Rgb, c: int) -> int {
    if c == 0 {
        p.r as int
    } else if c == 1 {
        p.g as int
    } else {
        p.b as int
    }
}

/// Sum of channel `c` over the `n` pixels `(x0, y) .. (x0 + n - 1, y)`.
pub open spec fn row_sum(pix: Seq<Rgb>, width: int, x0: int, y: int, n: nat, c: int) -> int
    decreases n,
{
    if n == 0 {
        0
    } else {
        row_sum(pix, width, x0, y, (n - 1) as nat, c) + chan(
            pix_at(pix, width, x0 + n - 1, y),
            c,
        )
    }
}

/// Sum of channel `c` over the first `nrows` rows, each `size` pixels
/// wide, of the sector whose top-left corner is `(x0, y0)`.
pub open spec fn sector_sum(
    pix: Seq<Rgb>,
    width: int,
    size: int,
    x0: int,
    y0: int,
    nrows: nat,
    c: int,
) -> int
    decreases nrows,
{
    if nrows == 0 {
        0
    } else {
        sector_sum(pix, width, size, x0, y0, (nrows - 1) as nat, c) + row_sum(
            pix,
            width,
            x0,
            y0 + nrows - 1,
            size as nat,
            c,
        )
    }
}

/// The truncated mean of channel `c` over the sector in sector row
/// `srow` and sector column `scol`: the channel sum over its `size * size`
/// pixels, divided by `size * size` with the remainder discarded.
pub open spec fn sector_avg(
    pix: Seq<Rgb>,
    width: int,
    size: int,
    srow: int,
    scol: int,
    c: int,
) -> int {
    sector_sum(pix, width, size, scol * size, srow * size, size as nat, c) / (size * size)
}

/// The mean color of the sector in sector row `srow`, sector column `scol`.
pub open spec fn sector_color_at(
    pix: Seq<Rgb>,
    width: int,
    size: int,
    srow: int,
    scol: int,
) -> SectorColor {
    SectorColor {
        r: sector_avg(pix, width, size, srow, scol, 0) as u8,
        g: sector_avg(pix, width, size, srow, scol, 1) as u8,
        b: sector_avg(pix, width, size, srow, scol, 2) as u8,
    }
}

/// The mean colors of all `(height / size) * (width / size)` full sectors,
/// in row-major sector order: index `i` holds the sector in row
/// `i / (width / size)`, column `i % (width / size)`.
pub open spec fn spec_sector_colors(pix: Seq<Rgb>, width: int, height: int, size: int) -> Seq<
    SectorColor,
> {
    Seq::new(
        ((height / size) * (width / size)) as nat,
        |i: int| sector_color_at(pix, width, size, i / (width / size), i % (width / size)),
    )
}

/// A row sum of `n` 8-bit channel values lies between 0 and `255 * n`.
pub proof fn lemma_row_sum_bounds(pix: Seq<Rgb>, width: int, x0: int, y: int, n: nat, c: int)
    ensures
        0 <= row_sum(pix, width, x0, y, n, c) <= 255 * n,
    decreases n,
{
    if n > 0 {
        lemma_row_sum_bounds(pix, width, x0, y, (n - 1) as nat, c);
    }
}

/// A sector sum over `nrows` rows of `size` pixels lies between 0 and
/// `255 * nrows * size`.
pub proof fn lemma_sector_sum_bounds(
    pix: Seq<Rgb>,
    width: int,
    size: int,
    x0: int,
    y0: int,
    nrows: nat,
    c: int,
)
    requires
        size >= 0,
    ensures
        0 <= sector_sum(pix, width, size, x0, y0, nrows, c) <= 255 * nrows * size,
    decreases nrows,
{
    if nrows > 0 {
        lemma_sector_sum_bounds(pix, width, size, x0, y0, (nrows - 1) as nat, c);
        lemma_row_sum_bounds(pix, width, x0, y0 + nrows - 1, size as nat, c);
        assert(255 * ((nrows - 1) as nat) * size + 255 * (size as nat) == 255 * nrows * size)
            by (nonlinear_arith)
            requires
                nrows >= 1,
                size >= 0,
        ;
    }
}

/// Every sector mean of 8-bit channel values is itself an 8-bit value.
pub proof fn lemma_sector_avg_range(
    pix: Seq<Rgb>,
    width: int,
    size: int,
    srow: int,
    scol: int,
    c: int,
)
    requires
        size >= 1,
    ensures
        0 <= sector_avg(pix, width, size, srow, scol, c) <= 255,
{
    let s = sector_sum(pix, width, size, scol * size, srow * size, size as nat, c);
    let area = size * size;
    lemma_sector_sum_bounds(pix, width, size, scol * size, srow * size, size as nat, c);
    assert(area >= 1 && 255 * (size as nat) * size == 255 * area) by (nonlinear_arith)
        requires
            size >= 1,
            area == size * size,
    ;
    assert((255 * area) / area == 255) by (nonlinear_arith)
        requires
            area >= 1,
    ;
    lemma_div_is_ordered(s, 255 * area, area);
    lemma_div_is_ordered(0, s, area);
}

/// A sector index within the sector grid counts full sectors only: its
/// origin lies at least one full sector away from the grid's edge.
pub proof fn lemma_sector_origin(dim: int, size: int, s: int)
    requires
        size >= 1,
        0 <= s < dim / size,
    ensures
        0 <= s * size,
        s * size + size <= dim,
{
    let q = dim / size;
    lemma_fundamental_div_mod(dim, size);
    lemma_mod_division_less_than_divisor(dim, size);
    lemma_mul_inequality(s + 1, q, size);
    assert((s + 1) * size == s * size + size && size * q == q * size && s * size >= 0)
        by (nonlinear_arith)
        requires
            size >= 1,
            s >= 0,
    ;
}

/// A sector's row-major index lies below the total sector count.
pub proof fn lemma_sector_index_bound(srow: int, scol: int, nrows: int, ncols: int)
    requires
        0 <= srow < nrows,
        0 <= scol < ncols,
    ensures
        0 <= srow * ncols + scol < nrows * ncols,
{
    assert(0 <= srow * ncols + scol < nrows * ncols) by (nonlinear_arith)
        requires
            0 <= srow < nrows,
            0 <= scol < ncols,
    ;
}

/// Computes the mean color of one full sector by summing its pixels.
fn average_sector(grid: &PixelGrid, size: u32, srow: u32, scol: u32) -> (c: SectorColor)
    requires
        grid.wf(),
        size >= 1,
        srow < grid.height / size,
        scol < grid.width / size,
    ensures
        c == sector_color_at(
            grid.pixels@,
            grid.width as int,
            size as int,
            srow as int,
            scol as int,
        ),
        c.r as int == sector_avg(grid.pixels@, grid.width as int, size as int, srow as int, scol as int, 0),
        c.g as int == sector_avg(grid.pixels@, grid.width as int, size as int, srow as int, scol as int, 1),
        c.b as int == sector_avg(grid.pixels@, grid.width as int, size as int, srow as int, scol as int, 2),
{
    let ghost pix = grid.pixels@;
    let ghost gw = grid.width as int;
    let ghost gh = grid.height as int;
    let ghost gs = size as int;
    proof {
        lemma_sector_origin(gw, gs, scol as int);
        lemma_sector_origin(gh, gs, srow as int);
    }
    let x0 = scol * size;
    let y0 = srow * size;
    let mut sr: u128 = 0;
    let mut sg: u128 = 0;
    let mut sb: u128 = 0;
    let mut sy: u32 = 0;
    while sy < size
        invariant
            grid.wf(),
            pix == grid.pixels@,
            gw == grid.width as int,
            gh == grid.height as int,
            gs == size as int,
            size >= 1,
            sy <= size,
            x0 == scol * size,
            y0 == srow * size,
            x0 + size <= grid.width,
            y0 + size <= grid.height,
            sr == sector_sum(pix, gw, gs, x0 as int, y0 as int, sy as nat, 0),
            sg == sector_sum(pix, gw, gs, x0 as int, y0 as int, sy as nat, 1),
            sb == sector_sum(pix, gw, gs, x0 as int, y0 as int, sy as nat, 2),
        decreases size - sy,
    {
        let y = y0 + sy;
        let mut sx: u32 = 0;
        while sx < size
            invariant
                grid.wf(),
                pix == grid.pixels@,
                gw == grid.width as int,
                gh == grid.height as int,
                gs == size as int,
                size >= 1,
                sy < size,
                sx <= size,
                y == y0 + sy,
                x0 + size <= grid.width,
                y0 + size <= grid.height,
                sr == sector_sum(pix, gw, gs, x0 as int, y0 as int, sy as nat, 0) + row_sum(
                    pix,
                    gw,
                    x0 as int,
                    y as int,
                    sx as nat,
                    0,
                ),
                sg == sector_sum(pix, gw, gs, x0 as int, y0 as int, sy as nat, 1) + row_sum(
                    pix,
                    gw,
                    x0 as int,
                    y as int,
                    sx as nat,
                    1,
                ),
                sb == sector_sum(pix, gw, gs, x0 as int, y0 as int, sy as nat, 2) + row_sum(
                    pix,
                    gw,
                    x0 as int,
                    y as int,
                    sx as nat,
                    2,
                ),
            decreases size - sx,
        {
            proof {
                lemma_pixel_index_in_bounds(gw, gh, (x0 + sx) as int, y as int);
                lemma_sector_sum_bounds(pix, gw, gs, x0 as int, y0 as int, sy as nat, 0);
                lemma_sector_sum_bounds(pix, gw, gs, x0 as int, y0 as int, sy as nat, 1);
                lemma_sector_sum_bounds(pix, gw, gs, x0 as int, y0 as int, sy as nat, 2);
                lemma_row_sum_bounds(pix, gw, x0 as int, y as int, sx as nat, 0);
                lemma_row_sum_bounds(pix, gw, x0 as int, y as int, sx as nat, 1);
                lemma_row_sum_bounds(pix, gw, x0 as int, y as int, sx as nat, 2);
                assert(255 * (sy as nat) * gs + 255 * (sx as nat) + 255 < u128::MAX)
                    by (nonlinear_arith)
                    requires
                        0 <= sy <= 0xffff_ffffu32,
                        0 <= sx <= 0xffff_ffffu32,
                        1 <= gs <= 0xffff_ffffu32,
                ;
            }
            let _grid_len = grid.pixels.len();
            let p = grid.pixels[(y as usize) * (grid.width as usize) + ((x0 + sx) as usize)];
            proof {
                assert(p == pix_at(pix, gw, (x0 + sx) as int, y as int));
                assert(row_sum(pix, gw, x0 as int, y as int, (sx + 1) as nat, 0) == row_sum(
                    pix,
                    gw,
                    x0 as int,
                    y as int,
                    sx as nat,
                    0,
                ) + chan(pix_at(pix, gw, x0 + sx, y as int), 0));
                assert(row_sum(pix, gw, x0 as int, y as int, (sx + 1) as nat, 1) == row_sum(
                    pix,
                    gw,
                    x0 as int,
                    y as int,
                    sx as nat,
                    1,
                ) + chan(pix_at(pix, gw, x0 + sx, y as int), 1));
                assert(row_sum(pix, gw, x0 as int, y as int, (sx + 1) as nat, 2) == row_sum(
                    pix,
                    gw,
                    x0 as int,
                    y as int,
                    sx as nat,
                    2,
                ) + chan(pix_at(pix, gw, x0 + sx, y as int), 2));
            }
            sr = sr + (p.r as u128);
            sg = sg + (p.g as u128);
            sb = sb + (p.b as u128);
            sx = sx + 1;
        }
        proof {
            assert(sector_sum(pix, gw, gs, x0 as int, y0 as int, (sy + 1) as nat, 0)
                == sector_sum(pix, gw, gs, x0 as int, y0 as int, sy as nat, 0) + row_sum(
                pix,
                gw,
                x0 as int,
                y0 + sy as int,
                gs as nat,
                0,
            ));
            assert(sector_sum(pix, gw, gs, x0 as int, y0 as int, (sy + 1) as nat, 1)
                == sector_sum(pix, gw, gs, x0 as int, y0 as int, sy as nat, 1) + row_sum(
                pix,
                gw,
                x0 as int,
                y0 + sy as int,
                gs as nat,
                1,
            ));
            assert(sector_sum(pix, gw, gs, x0 as int, y0 as int, (sy + 1) as nat, 2)
                == sector_sum(pix, gw, gs, x0 as int, y0 as int, sy as nat, 2) + row_sum(
                pix,
                gw,
                x0 as int,
                y0 + sy as int,
                gs as nat,
                2,
            ));
        }
        sy = sy + 1;
    }
    proof {
        assert((size as int) * (size as int) <= 0xffff_ffff * 0xffff_ffff) by (nonlinear_arith)
            requires
                1 <= size <= 0xffff_ffffu32,
        ;
    }
    let area = (size as u128) * (size as u128);
    proof {
        lemma_sector_avg_range(pix, gw, gs, srow as int, scol as int, 0);
        lemma_sector_avg_range(pix, gw, gs, srow as int, scol as int, 1);
        lemma_sector_avg_range(pix, gw, gs, srow as int, scol as int, 2);
        lemma_sector_sum_bounds(pix, gw, gs, x0 as int, y0 as int, gs as nat, 0);
        lemma_sector_sum_bounds(pix, gw, gs, x0 as int, y0 as int, gs as nat, 1);
        lemma_sector_sum_bounds(pix, gw, gs, x0 as int, y0 as int, gs as nat, 2);
        assert(area == gs * gs && area >= 1) by (nonlinear_arith)
            requires
                1 <= gs <= 0xffff_ffffu32,
                area == (gs as u128) * (gs as u128),
        ;
    }
    let r = (sr / area) as u8;
    let g = (sg / area) as u8;
    let b = (sb / area) as u8;
    SectorColor { r, g, b }
}

/// Computes the mean color of every full sector, row-major, exactly
/// `(height / size) * (width / size)` entries. Fails with
/// `InvalidConfiguration` if and only if the sector size is zero or
/// exceeds one of the grid's dimensions.
pub fn compute_sector_colors(grid: &PixelGrid, sector_size: u32) -> (r: Result<
    Vec<SectorColor>,
    MosaicError,
>)
    requires
        grid.wf(),
    ensures
        r is Err <==> (sector_size == 0 || sector_size > grid.width || sector_size > grid.height),
        r is Err ==> r == Err::<Vec<SectorColor>, MosaicError>(MosaicError::InvalidConfiguration),
        r is Ok ==> r->Ok_0@ == spec_sector_colors(
            grid.pixels@,
            grid.width as int,
            grid.height as int,
            sector_size as int,
        ),
{
    if sector_size == 0 || sector_size > grid.width || sector_size > grid.height {
        return Err(MosaicError::InvalidConfiguration);
    }
    let size = sector_size;
    let n_cols = grid.width / size;
    let n_rows = grid.height / size;
    let ghost pix = grid.pixels@;
    let ghost gw = grid.width as int;
    let ghost gh = grid.height as int;
    let ghost gs = size as int;
    let mut colors: Vec<SectorColor> = Vec::new();
    let mut srow: u32 = 0;
    while srow < n_rows
        invariant
            grid.wf(),
            pix == grid.pixels@,
            gw == grid.width as int,
            gh == grid.height as int,
            gs == size as int,
            size >= 1,
            n_cols == gw / gs,
            n_rows == gh / gs,
            srow <= n_rows,
            colors@.len() == (srow as int) * (n_cols as int),
            forall|k: int|
                0 <= k < colors@.len() ==> colors@[k] == sector_color_at(
                    pix,
                    gw,
                    gs,
                    k / (n_cols as int),
                    k % (n_cols as int),
                ),
        decreases n_rows - srow,
    {
        let mut scol: u32 = 0;
        while scol < n_cols
            invariant
                grid.wf(),
                pix == grid.pixels@,
                gw == grid.width as int,
                gh == grid.height as int,
                gs == size as int,
                size >= 1,
                n_cols == gw / gs,
                n_rows == gh / gs,
                srow < n_rows,
                scol <= n_cols,
                colors@.len() == (srow as int) * (n_cols as int) + scol as int,
                forall|k: int|
                    0 <= k < colors@.len() ==> colors@[k] == sector_color_at(
                        pix,
                        gw,
                        gs,
                        k / (n_cols as int),
                        k % (n_cols as int),
                    ),
            decreases n_cols - scol,
        {
            let c = average_sector(grid, size, srow, scol);
            proof {
                lemma_fundamental_div_mod_converse(
                    (srow as int) * (n_cols as int) + scol as int,
                    n_cols as int,
                    srow as int,
                    scol as int,
                );
            }
            colors.push(c);
            scol = scol + 1;
        }
        proof {
            assert(((srow + 1) as int) * (n_cols as int) == (srow as int) * (n_cols as int)
                + n_cols as int) by (nonlinear_arith);
        }
        srow = srow + 1;
    }
    proof {
        assert((n_rows as int) * (n_cols as int) == (gh / gs) * (gw / gs));
        assert(colors@ =~= spec_sector_colors(pix, gw, gh, gs));
    }
    Ok(colors)
}

} // verus!
