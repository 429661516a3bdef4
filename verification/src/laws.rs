//! Laws of the filter, stated over the spec functions the executable
//! contracts use: uniform sectors average to their own color, a
//! Quad-mode rendering re-averages to the same sector colors (so the
//! pipeline is idempotent in Quad mode), and the circle mask is exact.

use vstd::prelude::*;
use vstd::arithmetic::div_mod::lemma_div_by_self;
use vstd::arithmetic::div_mod::lemma_div_is_ordered;
use vstd::arithmetic::div_mod::lemma_div_multiples_vanish;
use vstd::arithmetic::div_mod::lemma_fundamental_div_mod_converse;
use vstd::arithmetic::div_mod::lemma_mod_division_less_than_divisor;
use vstd::arithmetic::div_mod::lemma_multiply_divide_lt;
use crate::grid::drop_alpha;
use crate::grid::lemma_pixel_index_in_bounds;
use crate::grid::pix_at;
use crate::grid::pixel_index;
use crate::render::background;
use crate::render::center_coord;
use crate::render::outside_circle;
use crate::render::spec_render;
use crate::render::spec_render_pixel;
use crate::sector::chan;
use crate::sector::lemma_sector_avg_range;
use crate::sector::lemma_sector_index_bound;
use crate::sector::lemma_sector_origin;
use crate::sector::row_sum;
use crate::sector::sector_avg;
use crate::sector::sector_color_at;
use crate::sector::sector_sum;
use crate::sector::spec_sector_colors;
use crate::types::Mode;
use crate::types::Rgb;
use crate::types::Rgba;
use crate::types::SectorColor;

verus! {

/// A row of pixels with one channel value everywhere sums to `n * v`.
pub proof fn lemma_row_sum_uniform(
    pix: Seq<Rgb>,
    width: int,
    x0: int,
    y: int,
    n: nat,
    c: int,
    v: int,
)
    requires
        forall|x: int| x0 <= x < x0 + n ==> chan(pix_at(pix, width, x, y), c) == v,
    ensures
        row_sum(pix, width, x0, y, n, c) == n * v,
    decreases n,
{
    if n > 0 {
        lemma_row_sum_uniform(pix, width, x0, y, (n - 1) as nat, c, v);
        assert(chan(pix_at(pix, width, x0 + n - 1, y), c) == v);
        assert(((n - 1) as nat) * v + v == n * v) by (nonlinear_arith)
            requires
                n >= 1,
        ;
    }
}

/// A sector with one channel value everywhere sums to `nrows * size * v`.
pub proof fn lemma_sector_sum_uniform(
    pix: Seq<Rgb>,
    width: int,
    size: int,
    x0: int,
    y0: int,
    nrows: nat,
    c: int,
    v: int,
)
    requires
        size >= 0,
        forall|x: int, y: int|
            x0 <= x < x0 + size && y0 <= y < y0 + nrows ==> chan(pix_at(pix, width, x, y), c)
                == v,
    ensures
        sector_sum(pix, width, size, x0, y0, nrows, c) == (nrows * size) * v,
    decreases nrows,
{
    if nrows > 0 {
        let m = (nrows - 1) as nat;
        lemma_sector_sum_uniform(pix, width, size, x0, y0, m, c, v);
        lemma_row_sum_uniform(pix, width, x0, y0 + nrows - 1, size as nat, c, v);
        assert((size as nat) as int == size);
        assert(sector_sum(pix, width, size, x0, y0, nrows, c) == (m * size) * v + size * v);
        assert((m * size) * v + size * v == (nrows * size) * v) by (nonlinear_arith)
            requires
                m + 1 == nrows,
        ;
    } else {
        assert((nrows * size) * v == 0) by (nonlinear_arith)
            requires
                nrows == 0,
        ;
    }
}

/// A sector holding one pixel value everywhere averages to that value,
/// on every channel.
pub proof fn lemma_sector_avg_uniform(
    pix: Seq<Rgb>,
    width: int,
    size: int,
    srow: int,
    scol: int,
    u: Rgb,
)
    requires
        size >= 1,
        forall|x: int, y: int|
            scol * size <= x < scol * size + size && srow * size <= y < srow * size + size
                ==> pix_at(pix, width, x, y) == u,
    ensures
        forall|c: int| sector_avg(pix, width, size, srow, scol, c) == chan(u, c),
{
    assert forall|c: int| sector_avg(pix, width, size, srow, scol, c) == chan(u, c) by {
        let v = chan(u, c);
        lemma_sector_sum_uniform(
            pix,
            width,
            size,
            scol * size,
            srow * size,
            size as nat,
            c,
            v,
        );
        let area = size * size;
        assert((size as nat) as int == size);
        assert(sector_sum(pix, width, size, scol * size, srow * size, size as nat, c) == (size
            * size) * v);
        assert(area >= 1) by (nonlinear_arith)
            requires
                size >= 1,
                area == size * size,
        ;
        lemma_div_multiples_vanish(v, area);
    }
}

/// In Quad mode, a pixel of a full sector renders as the sector's mean
/// color, opaque.
pub proof fn lemma_quad_pixel_in_sector(
    colors: Seq<SectorColor>,
    width: int,
    height: int,
    size: int,
    x: int,
    y: int,
)
    requires
        size >= 1,
        colors.len() == (height / size) * (width / size),
        0 <= x,
        0 <= y,
        x / size < width / size,
        y / size < height / size,
    ensures
        spec_render_pixel(colors, width, height, size, Mode::Quad, x, y) == (Rgba {
            r: colors[(y / size) * (width / size) + x / size].r,
            g: colors[(y / size) * (width / size) + x / size].g,
            b: colors[(y / size) * (width / size) + x / size].b,
            a: 255,
        }),
{
    lemma_sector_index_bound(y / size, x / size, height / size, width / size);
}

/// The Quad-mode output of the whole pipeline, as an RGB grid again.
pub open spec fn quad_rendered(pix: Seq<Rgb>, width: int, height: int, size: int) -> Seq<Rgb> {
    drop_alpha(
        spec_render(
            spec_sector_colors(pix, width, height, size),
            width,
            height,
            size,
            Mode::Quad,
        ),
    )
}

/// Law: re-averaging a Quad-mode rendering reproduces the averager's own
/// result. For every full sector, the mean of the rendered sector equals
/// the original sector's truncated mean, channel for channel.
pub proof fn lemma_quad_sector_roundtrip(
    pix: Seq<Rgb>,
    width: int,
    height: int,
    size: int,
    srow: int,
    scol: int,
)
    requires
        pix.len() == width * height,
        1 <= size <= width,
        size <= height,
        0 <= srow < height / size,
        0 <= scol < width / size,
    ensures
        forall|c: int|
            0 <= c < 3 ==> sector_avg(
                quad_rendered(pix, width, height, size),
                width,
                size,
                srow,
                scol,
                c,
            ) == sector_avg(pix, width, size, srow, scol, c),
        sector_color_at(quad_rendered(pix, width, height, size), width, size, srow, scol)
            == sector_color_at(pix, width, size, srow, scol),
{
    let colors = spec_sector_colors(pix, width, height, size);
    let rnd = quad_rendered(pix, width, height, size);
    let ncols = width / size;
    let nrows = height / size;
    let idx = srow * ncols + scol;
    lemma_div_is_ordered(size, width, size);
    lemma_div_by_self(size);
    lemma_sector_index_bound(srow, scol, nrows, ncols);
    lemma_fundamental_div_mod_converse(idx, ncols, srow, scol);
    assert(colors[idx] == sector_color_at(pix, width, size, srow, scol));
    let u = Rgb { r: colors[idx].r, g: colors[idx].g, b: colors[idx].b };
    lemma_sector_origin(width, size, scol);
    lemma_sector_origin(height, size, srow);
    assert forall|x: int, y: int|
        scol * size <= x < scol * size + size && srow * size <= y < srow * size + size implies
        pix_at(rnd, width, x, y) == u by {
        lemma_pixel_index_in_bounds(width, height, x, y);
        let k = pixel_index(width, x, y);
        lemma_fundamental_div_mod_converse(k, width, y, x);
        lemma_fundamental_div_mod_converse(x, size, scol, x - scol * size);
        lemma_fundamental_div_mod_converse(y, size, srow, y - srow * size);
        lemma_quad_pixel_in_sector(colors, width, height, size, x, y);
        assert(spec_render(colors, width, height, size, Mode::Quad)[k] == spec_render_pixel(
            colors,
            width,
            height,
            size,
            Mode::Quad,
            x,
            y,
        ));
        assert(pix_at(rnd, width, x, y) == u);
    }
    lemma_sector_avg_uniform(rnd, width, size, srow, scol, u);
    lemma_sector_avg_range(pix, width, size, srow, scol, 0);
    lemma_sector_avg_range(pix, width, size, srow, scol, 1);
    lemma_sector_avg_range(pix, width, size, srow, scol, 2);
    assert(sector_avg(rnd, width, size, srow, scol, 0) == sector_avg(
        pix,
        width,
        size,
        srow,
        scol,
        0,
    ));
    assert(sector_avg(rnd, width, size, srow, scol, 1) == sector_avg(
        pix,
        width,
        size,
        srow,
        scol,
        1,
    ));
    assert(sector_avg(rnd, width, size, srow, scol, 2) == sector_avg(
        pix,
        width,
        size,
        srow,
        scol,
        2,
    ));
}

/// Law: the pipeline is idempotent in Quad mode. Re-averaging its own
/// Quad-mode output gives the same sector colors, so re-rendering gives
/// the same output grid, pixel for pixel.
pub proof fn lemma_quad_idempotent(pix: Seq<Rgb>, width: int, height: int, size: int)
    requires
        pix.len() == width * height,
        1 <= size <= width,
        size <= height,
    ensures
        spec_sector_colors(quad_rendered(pix, width, height, size), width, height, size)
            == spec_sector_colors(pix, width, height, size),
        spec_render(
            spec_sector_colors(quad_rendered(pix, width, height, size), width, height, size),
            width,
            height,
            size,
            Mode::Quad,
        ) == spec_render(
            spec_sector_colors(pix, width, height, size),
            width,
            height,
            size,
            Mode::Quad,
        ),
{
    let a = spec_sector_colors(pix, width, height, size);
    let rnd = quad_rendered(pix, width, height, size);
    let b = spec_sector_colors(rnd, width, height, size);
    let ncols = width / size;
    let nrows = height / size;
    lemma_div_is_ordered(size, width, size);
    lemma_div_by_self(size);
    assert forall|i: int| 0 <= i < b.len() implies b[i] == a[i] by {
        lemma_mod_division_less_than_divisor(i, ncols);
        assert(nrows * ncols == ncols * nrows) by (nonlinear_arith);
        lemma_multiply_divide_lt(i, ncols, nrows);
        lemma_quad_sector_roundtrip(pix, width, height, size, i / ncols, i % ncols);
    }
    assert(b =~= a);
}

/// Law: the circle mask is exact. In Circle mode a pixel strictly
/// farther from its sector's center than half the sector size renders as
/// the transparent background; the pixel at the exact center of a full
/// sector always renders opaque, in its sector's mean color.
pub proof fn lemma_circle_mask(
    colors: Seq<SectorColor>,
    width: int,
    height: int,
    size: int,
    x: int,
    y: int,
)
    requires
        size >= 1,
        0 <= x,
        0 <= y,
    ensures
        outside_circle(x, y, size) ==> spec_render_pixel(colors, width, height, size, Mode::Circle, x, y)
            == background(),
        (x == center_coord(x, size) && y == center_coord(y, size) && x / size < width / size
            && y / size < height / size && colors.len() == (height / size) * (width / size))
            ==> spec_render_pixel(colors, width, height, size, Mode::Circle, x, y) == (Rgba {
            r: colors[(y / size) * (width / size) + x / size].r,
            g: colors[(y / size) * (width / size) + x / size].g,
            b: colors[(y / size) * (width / size) + x / size].b,
            a: 255,
        }),
{
    if x == center_coord(x, size) && y == center_coord(y, size) && x / size < width / size && y
        / size < height / size && colors.len() == (height / size) * (width / size) {
        lemma_sector_index_bound(y / size, x / size, height / size, width / size);
        assert(!outside_circle(x, y, size));
    }
}

} // verus!
