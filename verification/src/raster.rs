//! Pixel rasters: the mathematical model of an image, and the calls into the
//! `image` crate that the compositor builds on.

use vstd::prelude::*;

verus! {

/// One pixel as the `image` crate hands it out through
/// `GenericImageView::get_pixel`: four 8-bit channels.
#[derive(Clone, Copy, Debug, PartialEq, Eq, Structural)]
pub struct Color {
    pub red: u8,
    pub green: u8,
    pub blue: u8,
    pub alpha: u8,
}

impl Color {
    /// The pixel every channel of which is zero: fully transparent black.
    pub open spec fn transparent() -> Color {
        Color { red: 0, green: 0, blue: 0, alpha: 0 }
    }
}

/// The model of an image: its extent and the colour at each coordinate
/// `(x, y)` with `x < width` and `y < height`, the origin at the top left.
#[verifier::ext_equal]
pub struct Raster {
    pub width: nat,
    pub height: nat,
    pub pixels: Map<(int, int), Color>,
}

impl Raster {
    /// Whether `(x, y)` is a coordinate of this raster.
    pub open spec fn contains(self, x: int, y: int) -> bool {
        0 <= x < self.width && 0 <= y < self.height
    }

    /// The colour at `(x, y)`.
    pub open spec fn at(self, x: int, y: int) -> Color {
        self.pixels[(x, y)]
    }

    /// Whether the two rasters have the same extent and the same colour at
    /// each of their coordinates.
    pub open spec fn same_pixels(self, other: Raster) -> bool {
        &&& self.width == other.width
        &&& self.height == other.height
        &&& forall|x: int, y: int|
            0 <= x < self.width && 0 <= y < self.height ==> #[trigger] self.at(x, y) == other.at(
                x,
                y,
            )
    }

    /// The raster that row-major RGBA channel data denotes: the four
    /// channels of the pixel at `(x, y)` start at `4 * (y * width + x)`.
    pub open spec fn from_channels(width: nat, height: nat, channels: Seq<u8>) -> Raster {
        Raster {
            width,
            height,
            pixels: Map::new(
                |at: (int, int)| 0 <= at.0 < width && 0 <= at.1 < height,
                |at: (int, int)|
                    Color {
                        red: channels[4 * (at.1 * width + at.0)],
                        green: channels[4 * (at.1 * width + at.0) + 1],
                        blue: channels[4 * (at.1 * width + at.0) + 2],
                        alpha: channels[4 * (at.1 * width + at.0) + 3],
                    },
            ),
        }
    }

    /// The raster of the given extent all of whose pixels are transparent.
    pub open spec fn blank(width: nat, height: nat) -> Raster {
        Raster {
            width,
            height,
            pixels: Map::new(
                |at: (int, int)| 0 <= at.0 < width && 0 <= at.1 < height,
                |at: (int, int)| Color::transparent(),
            ),
        }
    }

    /// The `width` by `height` cut-out of this raster whose top left corner
    /// lies at `(x, y)`.
    pub open spec fn crop(self, x: nat, y: nat, width: nat, height: nat) -> Raster {
        Raster {
            width,
            height,
            pixels: Map::new(
                |at: (int, int)| 0 <= at.0 < width && 0 <= at.1 < height,
                |at: (int, int)| self.pixels[(at.0 + x, at.1 + y)],
            ),
        }
    }

    /// Whether `tile`, put with its top left corner at `(x, y)`, lies within
    /// this raster.
    pub open spec fn holds(self, tile: Raster, x: nat, y: nat) -> bool {
        x + tile.width <= self.width && y + tile.height <= self.height
    }

    /// This raster with `tile` written over it, the tile's top left corner at
    /// `(x, y)`.
    pub open spec fn paste(self, tile: Raster, x: nat, y: nat) -> Raster {
        Raster {
            width: self.width,
            height: self.height,
            pixels: Map::new(
                |at: (int, int)| 0 <= at.0 < self.width && 0 <= at.1 < self.height,
                |at: (int, int)|
                    if x <= at.0 < x + tile.width && y <= at.1 < y + tile.height {
                        tile.pixels[(at.0 - x, at.1 - y)]
                    } else {
                        self.pixels[at]
                    },
            ),
        }
    }
}

/// `image::DynamicImage`: a decoded image, of whatever pixel format. Nothing
/// of its inside is known here but what [`source_raster`] names.
#[verifier::external_type_specification]
#[verifier::external_body]
pub struct ExDynamicImage(image::DynamicImage);

/// The buffer that a composition is built in: an `image::RgbaImage`, of
/// whose inside nothing is known here but what [`canvas_raster`] names.
#[verifier::external_body]
pub struct Canvas {
    buffer: image::RgbaImage,
}

/// What a decoded image shows: its extent, and at each coordinate the colour
/// that `GenericImageView::get_pixel` returns there.
pub uninterp spec fn source_raster(image: image::DynamicImage) -> Raster;

/// What a canvas holds: its extent, and at each coordinate its pixel.
pub uninterp spec fn canvas_raster(canvas: Canvas) -> Raster;

/// `ImageBuffer::new`: a buffer of the given extent with every channel of
/// every pixel zero. The crate computes the buffer's byte length in two
/// steps, four times the width and then that times the height, and the call
/// panics where either product leaves `usize`, or where the length does not
/// fit a vector; `requires` leaves all of these out.
#[verifier::external_body]
pub(crate) fn blank_canvas(width: u32, height: u32) -> (canvas: Canvas)
    requires
        4 * width <= usize::MAX,
        4 * width * height <= isize::MAX,
    ensures
        canvas_raster(canvas) == Raster::blank(width as nat, height as nat),
{
    Canvas { buffer: image::ImageBuffer::new(width, height) }
}

/// `GenericImageView::dimensions` of a `DynamicImage`: the numbers of its
/// pixel columns and rows.
#[verifier::external_body]
pub(crate) fn source_extent(image: &image::DynamicImage) -> (extent: (u32, u32))
    ensures
        extent.0 == source_raster(*image).width,
        extent.1 == source_raster(*image).height,
{
    image::GenericImageView::dimensions(image)
}

/// `DynamicImage::crop_imm`: a new image holding the pixels of the given
/// rectangle. The crate clamps a rectangle that leaves the image; `requires`
/// admits only rectangles inside it, of which the result is the exact cut-out.
/// Such a tile is no wider and no higher than the image it is cut from and
/// has its pixel format, so its buffer can be built wherever the image's was.
#[verifier::external_body]
pub(crate) fn cut_tile(
    image: &image::DynamicImage,
    x: u32,
    y: u32,
    width: u32,
    height: u32,
) -> (tile: image::DynamicImage)
    requires
        x + width <= source_raster(*image).width,
        y + height <= source_raster(*image).height,
    ensures
        source_raster(tile) == source_raster(*image).crop(
            x as nat,
            y as nat,
            width as nat,
            height as nat,
        ),
{
    image.crop_imm(x, y, width, height)
}

/// `GenericImage::copy_from` on an RGBA buffer: where the tile, put at
/// `(x, y)`, lies within the buffer, each of its pixels is written to the
/// buffer and the call succeeds; where it does not, the call fails before it
/// writes anything.
#[verifier::external_body]
pub(crate) fn paste_tile(canvas: &mut Canvas, tile: &image::DynamicImage, x: u32, y: u32) -> (pasted:
    bool)
    ensures
        pasted == canvas_raster(*old(canvas)).holds(source_raster(*tile), x as nat, y as nat),
        canvas_raster(*final(canvas)) == (if pasted {
            canvas_raster(*old(canvas)).paste(source_raster(*tile), x as nat, y as nat)
        } else {
            canvas_raster(*old(canvas))
        }),
{
    image::GenericImage::copy_from(&mut canvas.buffer, tile, x, y).is_ok()
}

/// `ImageBuffer::into_raw`: the buffer's channel data, four bytes for each
/// pixel, row after row from the top.
#[verifier::external_body]
pub(crate) fn canvas_channels(canvas: Canvas) -> (channels: Vec<u8>)
    ensures
        channels@.len() == 4 * canvas_raster(canvas).width * canvas_raster(canvas).height,
        Raster::from_channels(
            canvas_raster(canvas).width,
            canvas_raster(canvas).height,
            channels@,
        ) == canvas_raster(canvas),
{
    canvas.buffer.into_raw()
}

/// A finished image as plain values: its extent and its RGBA channel data,
/// four bytes for each pixel, row after row from the top.
#[derive(Debug)]
pub struct Pixmap {
    width: u32,
    height: u32,
    channels: Vec<u8>,
}

impl View for Pixmap {
    type V = Raster;

    closed spec fn view(&self) -> Raster {
        Raster::from_channels(self.width as nat, self.height as nat, self.channels@)
    }
}

impl Pixmap {
    #[verifier::type_invariant]
    spec fn well_formed(self) -> bool {
        self.channels@.len() == 4 * self.width * self.height
    }

    /// Takes the pixels out of a canvas of the given extent.
    pub(crate) fn from_canvas(canvas: Canvas, width: u32, height: u32) -> (pixmap: Pixmap)
        requires
            canvas_raster(canvas).width == width,
            canvas_raster(canvas).height == height,
        ensures
            pixmap@ == canvas_raster(canvas),
    {
        let channels = canvas_channels(canvas);
        Pixmap { width, height, channels }
    }

    /// The number of pixel columns.
    pub fn width(&self) -> (width: u32)
        ensures
            width == self@.width,
    {
        self.width
    }

    /// The number of pixel rows.
    pub fn height(&self) -> (height: u32)
        ensures
            height == self@.height,
    {
        self.height
    }

    /// The colour at `(x, y)`, where that is a coordinate of the image.
    pub fn pixel(&self, x: u32, y: u32) -> (color: Option<Color>)
        ensures
            color == (if self@.contains(x as int, y as int) {
                Some(self@.at(x as int, y as int))
            } else {
                None
            }),
    {
        proof {
            use_type_invariant(self);
        }
        if x >= self.width || y >= self.height {
            return None;
        }
        let length = self.channels.len();
        proof {
            lemma_pixel_offset(x as int, y as int, self.width as int, self.height as int);
            assert(4 * (y * self.width + x) + 3 < length);
        }
        let start: usize = 4 * (y as usize * self.width as usize + x as usize);
        Some(
            Color {
                red: self.channels[start],
                green: self.channels[start + 1],
                blue: self.channels[start + 2],
                alpha: self.channels[start + 3],
            },
        )
    }

    /// The channel data: four bytes for each pixel, row after row from the
    /// top.
    pub fn into_channels(self) -> (channels: Vec<u8>)
        ensures
            channels@.len() == 4 * self@.width * self@.height,
            Raster::from_channels(self@.width, self@.height, channels@) == self@,
    {
        proof {
            use_type_invariant(&self);
        }
        self.channels
    }
}

/// The channels of a pixel lie within the channel data.
proof fn lemma_pixel_offset(x: int, y: int, width: int, height: int)
    requires
        0 <= x < width,
        0 <= y < height,
    ensures
        0 <= y * width <= y * width + x,
        4 * (y * width + x) + 3 < 4 * width * height,
{
    assert(0 <= y * width && y * width + width <= height * width) by (nonlinear_arith)
        requires
            0 <= y < height,
            0 <= width,
    ;
    assert(4 * width * height == 4 * (height * width)) by (nonlinear_arith);
}

} // verus!
