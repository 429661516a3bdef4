use color_circler::grid::PixelGrid;
use color_circler::render::apply_mosaic;
use color_circler::render::render_mosaic;
use color_circler::sector::compute_sector_colors;
use color_circler::types::Mode;
use color_circler::types::MosaicError;
use color_circler::types::Rgb;
use color_circler::types::Rgba;
use color_circler::types::SectorColor;

fn grid_of(width: u32, height: u32, f: impl Fn(u32, u32) -> (u8, u8, u8)) -> PixelGrid {
    let mut pixels: Vec<Rgb> = Vec::new();
    for y in 0..height {
        for x in 0..width {
            let (r, g, b) = f(x, y);
            pixels.push(Rgb { r, g, b });
        }
    }
    PixelGrid::new(width, height, pixels).unwrap()
}

const BACKGROUND: Rgba = Rgba { r: 255, g: 255, b: 255, a: 0 };

#[test]
fn new_rejects_wrong_length() {
    let pixels = vec![Rgb { r: 0, g: 0, b: 0 }; 5];
    assert!(PixelGrid::new(2, 2, pixels).is_none());
    let pixels = vec![Rgb { r: 0, g: 0, b: 0 }; 4];
    assert!(PixelGrid::new(2, 2, pixels).is_some());
}

#[test]
fn pixel_getter_bounds() {
    let g = grid_of(3, 2, |x, y| (x as u8, y as u8, 7));
    assert_eq!(g.pixel(2, 1), Some(Rgb { r: 2, g: 1, b: 7 }));
    assert_eq!(g.pixel(3, 0), None);
    assert_eq!(g.pixel(0, 2), None);
}

#[test]
fn zero_sector_size_is_invalid_configuration() {
    let g = grid_of(10, 10, |_, _| (1, 2, 3));
    assert_eq!(
        compute_sector_colors(&g, 0),
        Err(MosaicError::InvalidConfiguration)
    );
    assert!(apply_mosaic(&g, 0, Mode::Quad).is_err());
}

#[test]
fn oversized_sector_is_invalid_configuration() {
    let g = grid_of(10, 8, |_, _| (1, 2, 3));
    // Wider than the image.
    assert_eq!(
        compute_sector_colors(&g, 11),
        Err(MosaicError::InvalidConfiguration)
    );
    // Taller than the image, though not wider.
    assert_eq!(
        compute_sector_colors(&g, 9),
        Err(MosaicError::InvalidConfiguration)
    );
    assert_eq!(
        apply_mosaic(&g, 11, Mode::Circle).err(),
        Some(MosaicError::InvalidConfiguration)
    );
}

#[test]
fn uniform_ten_by_ten_quad() {
    // A 10x10 image of uniform (255,0,0) with sector size 5: four sectors,
    // each averaging exactly (255,0,0); the output is uniformly (255,0,0).
    let g = grid_of(10, 10, |_, _| (255, 0, 0));
    let colors = compute_sector_colors(&g, 5).unwrap();
    assert_eq!(colors.len(), 4);
    for c in &colors {
        assert_eq!(*c, SectorColor { r: 255, g: 0, b: 0 });
    }
    let out = apply_mosaic(&g, 5, Mode::Quad).unwrap();
    assert_eq!(out.width, 10);
    assert_eq!(out.height, 10);
    for y in 0..10 {
        for x in 0..10 {
            assert_eq!(out.pixel(x, y), Some(Rgba { r: 255, g: 0, b: 0, a: 255 }));
        }
    }
}

#[test]
fn half_and_half_truncates_mean() {
    // Left half (255,0,0), right half (0,255,0), one 10x10 sector:
    // each of red and green averages to 127.5, truncated to 127.
    let g = grid_of(10, 10, |x, _| if x < 5 { (255, 0, 0) } else { (0, 255, 0) });
    let colors = compute_sector_colors(&g, 10).unwrap();
    assert_eq!(colors, vec![SectorColor { r: 127, g: 127, b: 0 }]);
    let out = apply_mosaic(&g, 10, Mode::Quad).unwrap();
    for y in 0..10 {
        for x in 0..10 {
            assert_eq!(out.pixel(x, y), Some(Rgba { r: 127, g: 127, b: 0, a: 255 }));
        }
    }
}

#[test]
fn trailing_pixels_render_background() {
    // A 6x6 image with sector size 4: floor(6/4) = 1 sector per axis.
    // Pixels with x >= 4 or y >= 4 belong to no full sector and render
    // as the transparent background, never as a neighbor's color.
    let g = grid_of(6, 6, |_, _| (10, 20, 30));
    let colors = compute_sector_colors(&g, 4).unwrap();
    assert_eq!(colors.len(), 1);
    assert_eq!(colors[0], SectorColor { r: 10, g: 20, b: 30 });
    let out = apply_mosaic(&g, 4, Mode::Quad).unwrap();
    assert_eq!(out.width, 6);
    assert_eq!(out.height, 6);
    for y in 0..6 {
        for x in 0..6 {
            let expected = if x < 4 && y < 4 {
                Rgba { r: 10, g: 20, b: 30, a: 255 }
            } else {
                BACKGROUND
            };
            assert_eq!(out.pixel(x, y), Some(expected), "pixel ({}, {})", x, y);
        }
    }
}

#[test]
fn circle_mode_masks_far_pixels() {
    // One 4x4 sector with integer center (2,2) and radius 2. The corner
    // (0,0) has squared distance 8 and (3,0)/(0,3) have 5, all beyond
    // radius 2, so they are transparent; (3,3) has squared distance 2 and
    // lies inside, as do the center and the pixels at exactly radius 2.
    let g = grid_of(4, 4, |_, _| (100, 150, 200));
    let out = apply_mosaic(&g, 4, Mode::Circle).unwrap();
    let opaque = Rgba { r: 100, g: 150, b: 200, a: 255 };
    assert_eq!(out.pixel(0, 0), Some(BACKGROUND));
    assert_eq!(out.pixel(3, 0), Some(BACKGROUND));
    assert_eq!(out.pixel(0, 3), Some(BACKGROUND));
    assert_eq!(out.pixel(3, 3), Some(opaque));
    assert_eq!(out.pixel(2, 2), Some(opaque));
    assert_eq!(out.pixel(2, 0), Some(opaque));
    assert_eq!(out.pixel(0, 2), Some(opaque));
    // Quad mode keeps every pixel of the sector opaque.
    let quad = apply_mosaic(&g, 4, Mode::Quad).unwrap();
    assert_eq!(quad.pixel(0, 0), Some(opaque));
    assert_eq!(quad.pixel(3, 3), Some(opaque));
}

#[test]
fn circle_center_always_opaque() {
    let g = grid_of(15, 10, |x, y| ((x * 16) as u8, (y * 7) as u8, 9));
    let out = apply_mosaic(&g, 5, Mode::Circle).unwrap();
    let colors = compute_sector_colors(&g, 5).unwrap();
    for srow in 0..2u32 {
        for scol in 0..3u32 {
            let c = colors[(srow * 3 + scol) as usize];
            let p = out.pixel(scol * 5 + 2, srow * 5 + 2).unwrap();
            assert_eq!(p, Rgba { r: c.r, g: c.g, b: c.b, a: 255 });
        }
    }
}

#[test]
fn renderer_falls_back_on_short_color_sequence() {
    // The renderer tolerates a sector-color sequence shorter than the
    // sector grid: missing sectors render as the background.
    let colors = vec![SectorColor { r: 1, g: 2, b: 3 }];
    let out = render_mosaic(4, 4, &colors, 2, Mode::Quad);
    assert_eq!(out.pixel(0, 0), Some(Rgba { r: 1, g: 2, b: 3, a: 255 }));
    assert_eq!(out.pixel(3, 0), Some(BACKGROUND));
    assert_eq!(out.pixel(0, 3), Some(BACKGROUND));
    assert_eq!(out.pixel(3, 3), Some(BACKGROUND));
}

#[test]
fn quad_pipeline_is_idempotent() {
    // Re-running the pipeline on its own Quad-mode output with the same
    // sector size changes no pixel value.
    let g = grid_of(11, 7, |x, y| ((x * 23) as u8, (y * 31) as u8, ((x + y) * 13) as u8));
    let first = apply_mosaic(&g, 3, Mode::Quad).unwrap();
    let second = apply_mosaic(&first.to_rgb(), 3, Mode::Quad).unwrap();
    assert_eq!(first.width, second.width);
    assert_eq!(first.height, second.height);
    for y in 0..7 {
        for x in 0..11 {
            assert_eq!(first.pixel(x, y), second.pixel(x, y), "pixel ({}, {})", x, y);
        }
    }
}

#[test]
fn quad_rendering_reaverages_to_same_sector_colors() {
    // The mean of each rendered sector equals the original sector mean.
    let g = grid_of(8, 8, |x, y| ((x * 30) as u8, (y * 29) as u8, 77));
    let colors = compute_sector_colors(&g, 4).unwrap();
    let out = apply_mosaic(&g, 4, Mode::Quad).unwrap();
    let colors_again = compute_sector_colors(&out.to_rgb(), 4).unwrap();
    assert_eq!(colors, colors_again);
}

#[test]
fn sector_colors_are_row_major() {
    // Four 1x1 sectors of a 2x2 image: index = row * sectors_per_row + col.
    let g = grid_of(2, 2, |x, y| ((x + 2 * y) as u8, 0, 0));
    let colors = compute_sector_colors(&g, 1).unwrap();
    assert_eq!(
        colors,
        vec![
            SectorColor { r: 0, g: 0, b: 0 },
            SectorColor { r: 1, g: 0, b: 0 },
            SectorColor { r: 2, g: 0, b: 0 },
            SectorColor { r: 3, g: 0, b: 0 },
        ]
    );
}
