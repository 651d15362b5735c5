//! The compositor: it builds the output canvas by copying each tile of the
//! source image to its place, in manifest order.

use crate::geometry::{Geometry, GeometryDescriptor, TilePlacement};
use crate::raster::{
    blank_canvas, canvas_raster, cut_tile, paste_tile, source_extent, source_raster, Color,
    Pixmap, Raster,
};
use vstd::prelude::*;

verus! {

/// Why a composition was given up. No canvas is handed out with an error.
#[derive(Clone, Copy, Debug, PartialEq, Eq, Structural)]
pub enum CompositeError {
    /// A canvas of this extent cannot be built: a side does not fit 32
    /// bits, or its bytes cannot be counted or held in one allocation.
    CanvasTooLarge { width: u64, height: u64 },
    /// The source rectangle of the placement at `index` leaves the source
    /// image.
    SourceOutOfBounds { index: usize, placement: TilePlacement },
    /// The destination rectangle of the placement at `index` leaves the
    /// canvas.
    DestinationOutOfBounds { index: usize, placement: TilePlacement },
}

/// Whether a canvas of the given extent can be built: each side fits 32
/// bits, the four bytes a pixel of one row can be counted in `usize`, also
/// where the canvas has no rows, and those of all rows fit one allocation.
pub open spec fn canvas_fits(width: nat, height: nat) -> bool {
    &&& width <= u32::MAX
    &&& height <= u32::MAX
    &&& 4 * width <= usize::MAX
    &&& 4 * width * height <= isize::MAX
}

/// What is wrong with the placement at `index`, the source rectangle being
/// looked at before the destination.
pub open spec fn violation(source: Raster, geometry: Geometry, index: int) -> Option<
    CompositeError,
> {
    let placement = geometry.placements[index];
    if !placement.source_within(source.width, source.height) {
        Some(CompositeError::SourceOutOfBounds { index: index as usize, placement })
    } else if !placement.dest_within(geometry.canvas_width, geometry.canvas_height) {
        Some(CompositeError::DestinationOutOfBounds { index: index as usize, placement })
    } else {
        None
    }
}

/// What is wrong with the first of the first `count` placements with which
/// anything is wrong.
pub open spec fn first_violation(source: Raster, geometry: Geometry, count: int) -> Option<
    CompositeError,
>
    decreases count,
{
    if count <= 0 {
        None
    } else {
        match first_violation(source, geometry, count - 1) {
            Some(e) => Some(e),
            None => violation(source, geometry, count - 1),
        }
    }
}

/// Why the composition of `geometry` from `source` is given up, where it is.
pub open spec fn rejection(source: Raster, geometry: Geometry) -> Option<CompositeError> {
    if !canvas_fits(geometry.canvas_width, geometry.canvas_height) {
        Some(
            CompositeError::CanvasTooLarge {
                width: geometry.canvas_width as u64,
                height: geometry.canvas_height as u64,
            },
        )
    } else {
        first_violation(source, geometry, geometry.placements.len() as int)
    }
}

/// The source position that a placement copies to the canvas coordinate
/// `(x, y)`.
pub open spec fn source_point(placement: TilePlacement, x: int, y: int) -> (int, int) {
    (x - placement.dest_x + placement.source_x, y - placement.dest_y + placement.source_y)
}

/// The canvas after one more placement.
pub open spec fn placed(canvas: Raster, source: Raster, placement: TilePlacement) -> Raster {
    canvas.paste(
        source.crop(
            placement.source_x as nat,
            placement.source_y as nat,
            placement.width as nat,
            placement.height as nat,
        ),
        placement.dest_x as nat,
        placement.dest_y as nat,
    )
}

/// The canvas after the first `count` placements: a blank canvas, written
/// over by each of them in turn.
pub open spec fn composited_upto(source: Raster, geometry: Geometry, count: int) -> Raster
    decreases count,
{
    if count <= 0 {
        Raster::blank(geometry.canvas_width, geometry.canvas_height)
    } else {
        placed(
            composited_upto(source, geometry, count - 1),
            source,
            geometry.placements[count - 1],
        )
    }
}

/// The finished canvas.
pub open spec fn composited(source: Raster, geometry: Geometry) -> Raster {
    composited_upto(source, geometry, geometry.placements.len() as int)
}

/// Tells whether a canvas of the given extent can be built.
fn fits(width: u64, height: u64) -> (fits: bool)
    ensures
        fits == canvas_fits(width as nat, height as nat),
{
    if width > u32::MAX as u64 || height > u32::MAX as u64 {
        return false;
    }
    if width > usize::MAX as u64 / 4 {
        return false;
    }
    assert(width * height <= 0xffff_ffff * 0xffff_ffff) by (nonlinear_arith)
        requires
            width <= 0xffff_ffff,
            height <= 0xffff_ffff,
    ;
    let cells: u64 = width * height;
    assert(4 * width * height == 4 * cells) by (nonlinear_arith)
        requires
            cells == width * height,
    ;
    cells <= isize::MAX as u64 / 4
}

/// Builds the canvas that `views` describes from the tiles of `img`.
///
/// The composition is given up at the first placement whose source
/// rectangle leaves the image or whose destination rectangle leaves the
/// canvas; nothing is clipped, wrapped or clamped. Where rectangles overlap
/// on the canvas, the later placement is the one that shows.
pub fn descramble(img: &image::DynamicImage, views: &GeometryDescriptor) -> (canvas: Result<
    Pixmap,
    CompositeError,
>)
    ensures
        match canvas {
            Ok(pixmap) => {
                &&& rejection(source_raster(*img), views@) is None
                &&& pixmap@ == composited(source_raster(*img), views@)
                &&& pixmap@.width == views.canvas_width
                &&& pixmap@.height == views.canvas_height
            },
            Err(e) => rejection(source_raster(*img), views@) == Some(e),
        },
        (exists|i: int|
            0 <= i < views.placements@.len() && !(#[trigger] views.placements@[i]).source_within(
                source_raster(*img).width,
                source_raster(*img).height,
            )) ==> canvas is Err,
{
    let ghost source = source_raster(*img);
    let ghost geometry = views@;
    if !fits(views.canvas_width, views.canvas_height) {
        return Err(
            CompositeError::CanvasTooLarge {
                width: views.canvas_width,
                height: views.canvas_height,
            },
        );
    }
    let width: u32 = views.canvas_width as u32;
    let height: u32 = views.canvas_height as u32;
    let mut canvas = blank_canvas(width, height);
    let (source_w, source_h) = source_extent(img);
    let mut i: usize = 0;
    while i < views.placements.len()
        invariant
            i <= views.placements.len(),
            source == source_raster(*img),
            geometry == views@,
            source_w == source.width,
            source_h == source.height,
            geometry.canvas_width == width,
            geometry.canvas_height == height,
            canvas_fits(geometry.canvas_width, geometry.canvas_height),
            canvas_raster(canvas) == composited_upto(source, geometry, i as int),
            canvas_raster(canvas).width == width,
            canvas_raster(canvas).height == height,
            first_violation(source, geometry, i as int) is None,
        decreases views.placements.len() - i,
    {
        let placement = views.placements[i];
        if placement.source_x as u64 + placement.width as u64 > source_w as u64
            || placement.source_y as u64 + placement.height as u64 > source_h as u64 {
            proof {
                lemma_first_violation_stays(source, geometry, i + 1, geometry.placements.len() as int);
            }
            return Err(CompositeError::SourceOutOfBounds { index: i, placement });
        }
        let tile = cut_tile(
            img,
            placement.source_x,
            placement.source_y,
            placement.width,
            placement.height,
        );
        if !paste_tile(&mut canvas, &tile, placement.dest_x, placement.dest_y) {
            proof {
                lemma_first_violation_stays(source, geometry, i + 1, geometry.placements.len() as int);
            }
            return Err(CompositeError::DestinationOutOfBounds { index: i, placement });
        }
        i = i + 1;
    }
    assert forall|k: int| 0 <= k < geometry.placements.len() implies (#[trigger] geometry.placements[k]).source_within(
        source.width,
        source.height,
    ) by {
        lemma_no_violation(source, geometry, geometry.placements.len() as int, k);
    }
    Ok(Pixmap::from_canvas(canvas, width, height))
}

/// The geometry whose one placement copies all of a `width` by `height`
/// source to a canvas of the same extent.
pub open spec fn full_cover(width: nat, height: nat) -> Geometry {
    Geometry {
        canvas_width: width,
        canvas_height: height,
        placements: seq![
            TilePlacement {
                source_x: 0,
                source_y: 0,
                width: width as u32,
                height: height as u32,
                dest_x: 0,
                dest_y: 0,
            },
        ],
    }
}

/// Every stage of a composition has the extent of the canvas.
pub proof fn lemma_composited_extent(source: Raster, geometry: Geometry, count: int)
    ensures
        composited_upto(source, geometry, count).width == geometry.canvas_width,
        composited_upto(source, geometry, count).height == geometry.canvas_height,
    decreases count,
{
    if count > 0 {
        lemma_composited_extent(source, geometry, count - 1);
    }
}

/// Last write wins, stage by stage: a canvas coordinate shows what the last
/// of the first `count` placements that covers it copies there.
pub proof fn lemma_last_cover_upto(
    source: Raster,
    geometry: Geometry,
    count: int,
    index: int,
    x: int,
    y: int,
)
    requires
        0 <= index < count <= geometry.placements.len(),
        0 <= x < geometry.canvas_width,
        0 <= y < geometry.canvas_height,
        geometry.placements[index].covers(x, y),
        forall|j: int| index < j < count ==> !(#[trigger] geometry.placements[j]).covers(x, y),
    ensures
        composited_upto(source, geometry, count).at(x, y) == source.at(
            source_point(geometry.placements[index], x, y).0,
            source_point(geometry.placements[index], x, y).1,
        ),
    decreases count,
{
    lemma_composited_extent(source, geometry, count - 1);
    if index < count - 1 {
        lemma_last_cover_upto(source, geometry, count - 1, index, x, y);
        assert(!geometry.placements[count - 1].covers(x, y));
    }
}

/// A canvas coordinate that none of the first `count` placements covers is
/// as the blank canvas has it: transparent.
pub proof fn lemma_uncovered_upto(source: Raster, geometry: Geometry, count: int, x: int, y: int)
    requires
        0 <= count <= geometry.placements.len(),
        0 <= x < geometry.canvas_width,
        0 <= y < geometry.canvas_height,
        forall|j: int| 0 <= j < count ==> !(#[trigger] geometry.placements[j]).covers(x, y),
    ensures
        composited_upto(source, geometry, count).at(x, y) == Color::transparent(),
    decreases count,
{
    if count > 0 {
        lemma_composited_extent(source, geometry, count - 1);
        lemma_uncovered_upto(source, geometry, count - 1, x, y);
        assert(!geometry.placements[count - 1].covers(x, y));
    }
}

/// Round trip: one placement that copies all of the source to a canvas of
/// the source's extent is accepted, and the canvas then shows, pixel for
/// pixel, the source. (The source must be one whose canvas can be built.)
pub proof fn lemma_full_cover_restores_source(source: Raster)
    requires
        canvas_fits(source.width, source.height),
    ensures
        rejection(source, full_cover(source.width, source.height)) is None,
        composited(source, full_cover(source.width, source.height)).same_pixels(source),
{
    let geometry = full_cover(source.width, source.height);
    let result = composited(source, geometry);
    assert(geometry.placements.len() == 1);
    assert(first_violation(source, geometry, 0) is None);
    assert(violation(source, geometry, 0) is None);
    lemma_composited_extent(source, geometry, 1);
    assert forall|x: int, y: int| 0 <= x < result.width && 0 <= y < result.height implies 
    #[trigger] result.at(x, y) == source.at(x, y) by {
        lemma_last_cover_upto(source, geometry, 1, 0, x, y);
    }
}

/// Last write wins: a canvas coordinate shows what the last placement that
/// covers it copies there.
pub proof fn lemma_last_cover_shows(source: Raster, geometry: Geometry, index: int, x: int, y: int)
    requires
        0 <= index < geometry.placements.len(),
        0 <= x < geometry.canvas_width,
        0 <= y < geometry.canvas_height,
        geometry.placements[index].covers(x, y),
        forall|j: int|
            index < j < geometry.placements.len() ==> !(#[trigger] geometry.placements[j]).covers(
                x,
                y,
            ),
    ensures
        composited(source, geometry).at(x, y) == source.at(
            source_point(geometry.placements[index], x, y).0,
            source_point(geometry.placements[index], x, y).1,
        ),
{
    lemma_last_cover_upto(source, geometry, geometry.placements.len() as int, index, x, y);
}

/// Order sensitivity: of two placements that are written to the same
/// rectangle of the canvas, the canvas shows in that rectangle the source
/// pixels of the later one, whatever the earlier one copied there.
pub proof fn lemma_later_placement_shows(source: Raster, geometry: Geometry, x: int, y: int)
    requires
        geometry.placements.len() == 2,
        geometry.placements[0].same_destination(geometry.placements[1]),
        0 <= x < geometry.canvas_width,
        0 <= y < geometry.canvas_height,
        geometry.placements[1].covers(x, y),
    ensures
        composited(source, geometry).at(x, y) == source.at(
            source_point(geometry.placements[1], x, y).0,
            source_point(geometry.placements[1], x, y).1,
        ),
{
    lemma_last_cover_shows(source, geometry, 1, x, y);
}

/// Coverage gap: a canvas coordinate that no placement covers stays as the
/// canvas was made, transparent.
pub proof fn lemma_uncovered_stays_transparent(source: Raster, geometry: Geometry, x: int, y: int)
    requires
        0 <= x < geometry.canvas_width,
        0 <= y < geometry.canvas_height,
        forall|j: int|
            0 <= j < geometry.placements.len() ==> !(#[trigger] geometry.placements[j]).covers(
                x,
                y,
            ),
    ensures
        composited(source, geometry).at(x, y) == Color::transparent(),
{
    lemma_uncovered_upto(source, geometry, geometry.placements.len() as int, x, y);
}

/// Bounds rejection: a placement whose source rectangle runs past the right
/// edge of the source has the composition given up; and where the canvas can
/// be built and nothing is wrong with the placements before it, the error is
/// its own.
pub proof fn lemma_source_overrun_rejected(source: Raster, geometry: Geometry, index: int)
    requires
        0 <= index < geometry.placements.len(),
        geometry.placements[index].source_x + geometry.placements[index].width > source.width,
    ensures
        rejection(source, geometry) is Some,
        canvas_fits(geometry.canvas_width, geometry.canvas_height) && first_violation(
            source,
            geometry,
            index,
        ) is None ==> rejection(source, geometry) == Some(
            CompositeError::SourceOutOfBounds {
                index: index as usize,
                placement: geometry.placements[index],
            },
        ),
{
    assert(violation(source, geometry, index) is Some);
    lemma_violation_rejects(source, geometry);
    if first_violation(source, geometry, index) is None {
        lemma_first_violation_stays(
            source,
            geometry,
            index + 1,
            geometry.placements.len() as int,
        );
    }
}

/// A violation among the first `count` placements is still the first among
/// more of them.
proof fn lemma_first_violation_stays(source: Raster, geometry: Geometry, count: int, more: int)
    requires
        0 <= count <= more,
        first_violation(source, geometry, count) is Some,
    ensures
        first_violation(source, geometry, more) == first_violation(source, geometry, count),
    decreases more - count,
{
    if count < more {
        lemma_first_violation_stays(source, geometry, count, more - 1);
    }
}

/// Where none of the first `count` placements is refused, none of them has
/// anything wrong with it.
proof fn lemma_no_violation(source: Raster, geometry: Geometry, count: int, index: int)
    requires
        0 <= index < count,
        first_violation(source, geometry, count) is None,
    ensures
        violation(source, geometry, index) is None,
    decreases count,
{
    if index < count - 1 {
        lemma_no_violation(source, geometry, count - 1, index);
    }
}

/// A placement with anything wrong with it has the composition given up.
proof fn lemma_violation_rejects(source: Raster, geometry: Geometry)
    ensures
        forall|i: int|
            0 <= i < geometry.placements.len() && (#[trigger] violation(source, geometry, i))
                is Some ==> rejection(source, geometry) is Some,
{
    assert forall|i: int|
        0 <= i < geometry.placements.len() && (#[trigger] violation(source, geometry, i))
            is Some implies rejection(source, geometry) is Some by {
        if first_violation(source, geometry, geometry.placements.len() as int) is None {
            lemma_no_violation(source, geometry, geometry.placements.len() as int, i);
        }
    }
}

} // verus!
