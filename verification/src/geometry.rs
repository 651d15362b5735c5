//! The geometry that a manifest describes: the extent of the output canvas
//! and the tile placements, in manifest order.

use vstd::prelude::*;

verus! {

/// One tile: a rectangle of the source image and the canvas position that its
/// top left corner is copied to.
#[derive(Clone, Copy, Debug, PartialEq, Eq, Structural)]
pub struct TilePlacement {
    pub source_x: u32,
    pub source_y: u32,
    pub width: u32,
    pub height: u32,
    pub dest_x: u32,
    pub dest_y: u32,
}

impl TilePlacement {
    /// Whether the tile's source rectangle lies within an image of the given
    /// extent.
    pub open spec fn source_within(self, width: nat, height: nat) -> bool {
        self.source_x + self.width <= width && self.source_y + self.height <= height
    }

    /// Whether the tile's destination rectangle lies within a canvas of the
    /// given extent.
    pub open spec fn dest_within(self, width: nat, height: nat) -> bool {
        self.dest_x + self.width <= width && self.dest_y + self.height <= height
    }

    /// Whether the tile's destination rectangle holds the canvas coordinate
    /// `(x, y)`.
    pub open spec fn covers(self, x: int, y: int) -> bool {
        self.dest_x <= x < self.dest_x + self.width && self.dest_y <= y < self.dest_y
            + self.height
    }

    /// Whether two tiles are written to the same rectangle of the canvas.
    pub open spec fn same_destination(self, other: TilePlacement) -> bool {
        self.dest_x == other.dest_x && self.dest_y == other.dest_y && self.width == other.width
            && self.height == other.height
    }
}

/// The model of a [`GeometryDescriptor`].
pub struct Geometry {
    pub canvas_width: nat,
    pub canvas_height: nat,
    pub placements: Seq<TilePlacement>,
}

/// What a manifest describes. The canvas extent is carried as the manifest
/// states it; whether a canvas of that extent can be built is for the
/// compositor to say.
#[derive(Debug, PartialEq, Eq)]
pub struct GeometryDescriptor {
    pub canvas_width: u64,
    pub canvas_height: u64,
    pub placements: Vec<TilePlacement>,
}

impl View for GeometryDescriptor {
    type V = Geometry;

    open spec fn view(&self) -> Geometry {
        Geometry {
            canvas_width: self.canvas_width as nat,
            canvas_height: self.canvas_height as nat,
            placements: self.placements@,
        }
    }
}

} // verus!
