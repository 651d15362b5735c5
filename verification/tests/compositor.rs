use descrambler::compositor::{descramble, CompositeError};
use descrambler::geometry::{GeometryDescriptor, TilePlacement};
use descrambler::manifest::parse_json;
use descrambler::raster::{Color, Pixmap};
use image::{DynamicImage, GrayImage, Luma, Rgb, RgbImage, Rgba, RgbaImage};

fn tile(source_x: u32, source_y: u32, width: u32, height: u32, dest_x: u32, dest_y: u32) -> TilePlacement {
    TilePlacement { source_x, source_y, width, height, dest_x, dest_y }
}

fn geometry(canvas_width: u64, canvas_height: u64, placements: Vec<TilePlacement>) -> GeometryDescriptor {
    GeometryDescriptor { canvas_width, canvas_height, placements }
}

/// The colour that the test images have at `(x, y)`: no two coordinates
/// share one.
fn shade(x: u32, y: u32) -> Color {
    Color { red: (10 * x + 1) as u8, green: (10 * y + 2) as u8, blue: (x + 16 * y + 3) as u8, alpha: (200 + x + 7 * y) as u8 }
}

fn source(width: u32, height: u32) -> DynamicImage {
    DynamicImage::ImageRgba8(RgbaImage::from_fn(width, height, |x, y| {
        let c = shade(x, y);
        Rgba([c.red, c.green, c.blue, c.alpha])
    }))
}

const CLEAR: Color = Color { red: 0, green: 0, blue: 0, alpha: 0 };

fn assert_same_as_source(canvas: &Pixmap, image: &DynamicImage) {
    let rgba = image.to_rgba8();
    assert_eq!(canvas.width(), rgba.width());
    assert_eq!(canvas.height(), rgba.height());
    for y in 0..rgba.height() {
        for x in 0..rgba.width() {
            let p = rgba.get_pixel(x, y).0;
            assert_eq!(
                canvas.pixel(x, y),
                Some(Color { red: p[0], green: p[1], blue: p[2], alpha: p[3] })
            );
        }
    }
}

#[test]
fn two_tiles_side_by_side_restore_the_source() {
    let text = r#"{"views":[{"width":4,"height":2,"coords":["i:0,0+2,2>0,0","i:2,0+2,2>2,0"]}]}"#;
    let views = parse_json(text).unwrap();
    let image = source(4, 2);
    let canvas = descramble(&image, &views).unwrap();
    assert_same_as_source(&canvas, &image);
    assert_eq!(canvas.into_channels(), image.to_rgba8().into_raw());
}

#[test]
fn one_tile_over_all_is_the_source() {
    let image = source(5, 3);
    let canvas = descramble(&image, &geometry(5, 3, vec![tile(0, 0, 5, 3, 0, 0)])).unwrap();
    assert_same_as_source(&canvas, &image);
    assert_eq!(canvas.into_channels(), image.to_rgba8().into_raw());
}

#[test]
fn round_trip_of_a_single_pixel() {
    let image = source(1, 1);
    let canvas = descramble(&image, &geometry(1, 1, vec![tile(0, 0, 1, 1, 0, 0)])).unwrap();
    assert_eq!(canvas.pixel(0, 0), Some(shade(0, 0)));
    assert_eq!(canvas.into_channels(), vec![1, 2, 3, 200]);
}

#[test]
fn the_later_of_two_placements_shows() {
    let image = source(4, 2);
    let first = tile(0, 0, 2, 2, 1, 0);
    let second = tile(2, 0, 2, 2, 1, 0);
    let canvas = descramble(&image, &geometry(4, 2, vec![first, second])).unwrap();
    for y in 0..2 {
        for x in 0..2 {
            assert_eq!(canvas.pixel(1 + x, y), Some(shade(2 + x, y)));
            assert_ne!(canvas.pixel(1 + x, y), Some(shade(x, y)));
        }
    }
    let canvas = descramble(&image, &geometry(4, 2, vec![second, first])).unwrap();
    for y in 0..2 {
        for x in 0..2 {
            assert_eq!(canvas.pixel(1 + x, y), Some(shade(x, y)));
        }
    }
}

#[test]
fn a_later_tile_overwrites_only_where_it_lies() {
    let image = source(4, 4);
    let canvas = descramble(
        &image,
        &geometry(4, 4, vec![tile(0, 0, 3, 3, 0, 0), tile(3, 3, 1, 1, 1, 1)]),
    )
    .unwrap();
    for y in 0..4 {
        for x in 0..4 {
            let expected = if x == 1 && y == 1 {
                shade(3, 3)
            } else if x < 3 && y < 3 {
                shade(x, y)
            } else {
                CLEAR
            };
            assert_eq!(canvas.pixel(x, y), Some(expected));
        }
    }
}

#[test]
fn source_overrun_to_the_right_is_refused() {
    let image = source(4, 2);
    let bad = tile(3, 0, 2, 2, 0, 0);
    assert_eq!(
        descramble(&image, &geometry(4, 2, vec![bad])).unwrap_err(),
        CompositeError::SourceOutOfBounds { index: 0, placement: bad }
    );
}

#[test]
fn source_overrun_at_the_bottom_is_refused() {
    let image = source(4, 2);
    let good = tile(0, 0, 2, 2, 0, 0);
    let bad = tile(0, 1, 2, 2, 2, 0);
    assert_eq!(
        descramble(&image, &geometry(4, 2, vec![good, bad])).unwrap_err(),
        CompositeError::SourceOutOfBounds { index: 1, placement: bad }
    );
}

#[test]
fn source_rectangle_that_would_wrap_is_refused() {
    let image = source(4, 2);
    let bad = tile(4294967295, 0, 2, 1, 0, 0);
    assert_eq!(
        descramble(&image, &geometry(4, 2, vec![bad])).unwrap_err(),
        CompositeError::SourceOutOfBounds { index: 0, placement: bad }
    );
    let bad = tile(0, 2, 1, 4294967295, 0, 0);
    assert_eq!(
        descramble(&image, &geometry(4, 2, vec![bad])).unwrap_err(),
        CompositeError::SourceOutOfBounds { index: 0, placement: bad }
    );
}

#[test]
fn destination_overrun_is_refused() {
    let image = source(4, 2);
    let bad = tile(0, 0, 2, 2, 3, 0);
    assert_eq!(
        descramble(&image, &geometry(4, 2, vec![bad])).unwrap_err(),
        CompositeError::DestinationOutOfBounds { index: 0, placement: bad }
    );
    let bad = tile(0, 0, 2, 2, 0, 1);
    assert_eq!(
        descramble(&image, &geometry(4, 2, vec![tile(0, 0, 1, 1, 0, 0), bad])).unwrap_err(),
        CompositeError::DestinationOutOfBounds { index: 1, placement: bad }
    );
    let bad = tile(0, 0, 1, 1, 4294967295, 0);
    assert_eq!(
        descramble(&image, &geometry(4, 2, vec![bad])).unwrap_err(),
        CompositeError::DestinationOutOfBounds { index: 0, placement: bad }
    );
}

#[test]
fn tile_larger_than_the_canvas_is_refused() {
    let image = source(4, 4);
    let bad = tile(0, 0, 3, 3, 0, 0);
    assert_eq!(
        descramble(&image, &geometry(2, 2, vec![bad])).unwrap_err(),
        CompositeError::DestinationOutOfBounds { index: 0, placement: bad }
    );
}

#[test]
fn source_is_looked_at_before_destination() {
    let image = source(4, 2);
    let bad = tile(3, 0, 2, 2, 3, 0);
    assert_eq!(
        descramble(&image, &geometry(4, 2, vec![bad])).unwrap_err(),
        CompositeError::SourceOutOfBounds { index: 0, placement: bad }
    );
}

#[test]
fn the_first_bad_placement_is_reported() {
    let image = source(4, 2);
    let first = tile(0, 0, 2, 2, 3, 0);
    let second = tile(9, 9, 2, 2, 0, 0);
    assert_eq!(
        descramble(&image, &geometry(4, 2, vec![first, second])).unwrap_err(),
        CompositeError::DestinationOutOfBounds { index: 0, placement: first }
    );
}

#[test]
fn tiles_that_touch_the_edges_are_accepted() {
    let image = source(4, 2);
    let canvas = descramble(&image, &geometry(6, 3, vec![tile(2, 1, 2, 1, 4, 2)])).unwrap();
    assert_eq!(canvas.pixel(4, 2), Some(shade(2, 1)));
    assert_eq!(canvas.pixel(5, 2), Some(shade(3, 1)));
    assert_eq!(canvas.pixel(3, 2), Some(CLEAR));
}

#[test]
fn uncovered_canvas_stays_transparent() {
    let image = source(4, 2);
    let canvas = descramble(&image, &geometry(4, 3, vec![tile(0, 0, 2, 2, 2, 1)])).unwrap();
    assert_eq!(canvas.width(), 4);
    assert_eq!(canvas.height(), 3);
    for y in 0..3 {
        for x in 0..4 {
            let expected = if x >= 2 && y >= 1 { shade(x - 2, y - 1) } else { CLEAR };
            assert_eq!(canvas.pixel(x, y), Some(expected));
        }
    }
}

#[test]
fn canvas_without_placements_is_blank() {
    let image = source(2, 2);
    let canvas = descramble(&image, &geometry(3, 2, vec![])).unwrap();
    assert_eq!(canvas.pixel(0, 0), Some(CLEAR));
    assert_eq!(canvas.pixel(2, 1), Some(CLEAR));
    assert_eq!(canvas.into_channels(), vec![0u8; 24]);
}

#[test]
fn empty_canvas() {
    let image = source(2, 2);
    let canvas = descramble(&image, &geometry(0, 0, vec![])).unwrap();
    assert_eq!(canvas.width(), 0);
    assert_eq!(canvas.height(), 0);
    assert_eq!(canvas.pixel(0, 0), None);
    assert_eq!(canvas.into_channels(), Vec::<u8>::new());
    let canvas = descramble(&image, &geometry(0, 5, vec![])).unwrap();
    assert_eq!(canvas.width(), 0);
    assert_eq!(canvas.height(), 5);
}

#[test]
fn tile_without_extent_copies_nothing() {
    let image = source(4, 2);
    let canvas = descramble(&image, &geometry(2, 2, vec![tile(4, 2, 0, 0, 2, 2), tile(1, 1, 0, 1, 0, 0)])).unwrap();
    assert_eq!(canvas.into_channels(), vec![0u8; 16]);
    let bad = tile(0, 0, 0, 0, 3, 0);
    assert_eq!(
        descramble(&image, &geometry(2, 2, vec![bad])).unwrap_err(),
        CompositeError::DestinationOutOfBounds { index: 0, placement: bad }
    );
    let bad = tile(5, 0, 0, 0, 0, 0);
    assert_eq!(
        descramble(&image, &geometry(2, 2, vec![bad])).unwrap_err(),
        CompositeError::SourceOutOfBounds { index: 0, placement: bad }
    );
}

#[test]
fn canvas_that_cannot_be_built_is_refused() {
    let image = source(1, 1);
    assert_eq!(
        descramble(&image, &geometry(4294967296, 1, vec![])).unwrap_err(),
        CompositeError::CanvasTooLarge { width: 4294967296, height: 1 }
    );
    assert_eq!(
        descramble(&image, &geometry(1, 18446744073709551615, vec![])).unwrap_err(),
        CompositeError::CanvasTooLarge { width: 1, height: 18446744073709551615 }
    );
    assert_eq!(
        descramble(&image, &geometry(4294967295, 4294967295, vec![])).unwrap_err(),
        CompositeError::CanvasTooLarge { width: 4294967295, height: 4294967295 }
    );
}

#[test]
fn wide_canvas_without_rows() {
    // four bytes a pixel of one row must be countable, rows or none
    let image = source(1, 1);
    let outcome = descramble(&image, &geometry(1073741824, 0, vec![]));
    if (usize::MAX as u128) < 4 * 1073741824u128 {
        assert_eq!(
            outcome.unwrap_err(),
            CompositeError::CanvasTooLarge { width: 1073741824, height: 0 }
        );
    } else {
        let canvas = outcome.unwrap();
        assert_eq!(canvas.width(), 1073741824);
        assert_eq!(canvas.height(), 0);
        assert_eq!(canvas.pixel(0, 0), None);
        assert_eq!(canvas.into_channels(), Vec::<u8>::new());
    }
}

#[test]
fn canvas_size_is_looked_at_before_the_placements() {
    let image = source(1, 1);
    assert_eq!(
        descramble(&image, &geometry(4294967296, 1, vec![tile(5, 5, 5, 5, 5, 5)])).unwrap_err(),
        CompositeError::CanvasTooLarge { width: 4294967296, height: 1 }
    );
}

#[test]
fn pixel_outside_the_canvas_is_none() {
    let image = source(2, 2);
    let canvas = descramble(&image, &geometry(2, 2, vec![tile(0, 0, 2, 2, 0, 0)])).unwrap();
    assert_eq!(canvas.pixel(1, 1), Some(shade(1, 1)));
    assert_eq!(canvas.pixel(2, 0), None);
    assert_eq!(canvas.pixel(0, 2), None);
    assert_eq!(canvas.pixel(4294967295, 4294967295), None);
}

#[test]
fn channels_run_row_after_row() {
    let image = source(2, 2);
    let canvas = descramble(&image, &geometry(2, 2, vec![tile(0, 0, 2, 2, 0, 0)])).unwrap();
    assert_eq!(
        canvas.into_channels(),
        vec![1, 2, 3, 200, 11, 2, 4, 201, 1, 12, 19, 207, 11, 12, 20, 208]
    );
}

#[test]
fn tiles_are_swapped_back() {
    // the source holds the right half first
    let image = source(4, 2);
    let canvas = descramble(
        &image,
        &geometry(4, 2, vec![tile(0, 0, 2, 2, 2, 0), tile(2, 0, 2, 2, 0, 0)]),
    )
    .unwrap();
    for y in 0..2 {
        for x in 0..4 {
            assert_eq!(canvas.pixel(x, y), Some(shade((x + 2) % 4, y)));
        }
    }
}

#[test]
fn opaque_source_gets_full_alpha() {
    let image = DynamicImage::ImageRgb8(RgbImage::from_fn(2, 1, |x, _| Rgb([x as u8 + 1, 20, 30])));
    let canvas = descramble(&image, &geometry(3, 1, vec![tile(0, 0, 2, 1, 1, 0)])).unwrap();
    assert_eq!(canvas.pixel(0, 0), Some(CLEAR));
    assert_eq!(canvas.pixel(1, 0), Some(Color { red: 1, green: 20, blue: 30, alpha: 255 }));
    assert_eq!(canvas.pixel(2, 0), Some(Color { red: 2, green: 20, blue: 30, alpha: 255 }));
}

#[test]
fn grey_source_is_shown_in_colour() {
    let image = DynamicImage::ImageLuma8(GrayImage::from_fn(2, 2, |x, y| Luma([(x + 2 * y) as u8 * 50])));
    let canvas = descramble(&image, &geometry(2, 2, vec![tile(0, 0, 2, 2, 0, 0)])).unwrap();
    assert_same_as_source(&canvas, &image);
    assert_eq!(canvas.pixel(1, 1), Some(Color { red: 150, green: 150, blue: 150, alpha: 255 }));
}
