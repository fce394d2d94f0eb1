//! A widget that shows an image.

use vstd::prelude::*;
use crate::buffer::{lemma_offset_bound, Buffer};
use crate::color::{laid_over, Rgba};
use crate::dither::{dithered, DitherAlgorithm};
use crate::rect::Rect;
use crate::vec2::Vec2;
use crate::view::{source_of, stamped, View};
use crate::widget::{AvailableSpace, Layout, RenderError, Size, Widget};
use vstd::view::View as _;

verus! {

/// How the pixels between the pixels of an image are found when the image
/// is made larger or smaller.
#[derive(Clone, Copy, Debug, PartialEq, Eq, Structural)]
pub enum FilterType {
    /// The nearest pixel.
    Nearest,
    /// A straight line between the neighbours.
    Triangle,
    /// A cubic curve through the neighbours.
    CatmullRom,
    /// A bell curve over the neighbours.
    Gaussian,
    /// A windowed sinc over the neighbours.
    Lanczos3,
}

impl FilterType {
    /// Whether the same image gives the same pixels wherever it is
    /// resized with this filter. The nearest pixel and the straight line
    /// are weighed with comparisons, subtractions and absolute values
    /// alone. The cubic curve is worked out with `powi`, the bell curve
    /// with the exponential function and the windowed sinc with the sine,
    /// and how exactly those come out is left to the machine.
    pub open spec fn is_repeatable(self) -> bool {
        self == FilterType::Nearest || self == FilterType::Triangle
    }
}

/// An image that takes the size of its node, and may be dithered.
pub struct Image {
    image: Buffer<Rgba>,
    shrink: bool,
    grow: bool,
    filter: FilterType,
    dither_palette: Option<Vec<Rgba>>,
    dither_algorithm: DitherAlgorithm,
}

/// The pixels as bytes: red, green, blue and alpha of each pixel, row by
/// row.
pub open spec fn bytes_of(pixels: Seq<Rgba>) -> Seq<u8> {
    Seq::new(
        4 * pixels.len(),
        |i: int|
            if i % 4 == 0 {
                pixels[i / 4].r
            } else if i % 4 == 1 {
                pixels[i / 4].g
            } else if i % 4 == 2 {
                pixels[i / 4].b
            } else {
                pixels[i / 4].a
            },
    )
}

/// The bytes of pixels hold those pixels.
pub proof fn lemma_pixels_of_bytes(pixels: Seq<Rgba>)
    ensures
        pixels_of(bytes_of(pixels)) == pixels,
{
    assert(pixels_of(bytes_of(pixels)) =~= pixels);
}

/// The pixels that the bytes hold, four bytes to a pixel.
pub open spec fn pixels_of(bytes: Seq<u8>) -> Seq<Rgba> {
    Seq::new(
        bytes.len() / 4,
        |i: int| Rgba { r: bytes[4 * i], g: bytes[4 * i + 1], b: bytes[4 * i + 2], a: bytes[4 * i + 3] },
    )
}

/// What `image::imageops::resize` makes of an image of `width` by `height`
/// pixels, given as bytes, when it is asked for `new_width` by
/// `new_height` pixels with a filter that is repeatable.
pub uninterp spec fn resized(
    bytes: Seq<u8>,
    width: int,
    height: int,
    new_width: int,
    new_height: int,
    filter: FilterType,
) -> Seq<u8>;

/// Whether an image `width` pixels wide can be brought to `new_width` by
/// `new_height` pixels: on the way there is an image as wide as the old
/// and as high as the new one, with sixteen bytes to a pixel, and no image
/// may have more bytes than `isize` can count.
pub open spec fn can_resize(width: int, new_width: int, new_height: int) -> bool {
    16 * (width * new_height) <= isize::MAX && 4 * (new_width * new_height) <= isize::MAX
}

/// Makes an image larger or smaller with `image::imageops::resize`.
///
/// The bytes go into an `RgbaImage` and the bytes of what `resize` returns
/// come back. There are four of them for each pixel asked for. With a
/// repeatable filter they depend on the arguments alone. An image that has
/// pixels and is asked for in its own size comes back as it is.
#[verifier::external_body]
fn resize_bytes(
    bytes: Vec<u8>,
    width: u32,
    height: u32,
    new_width: u32,
    new_height: u32,
    filter: FilterType,
) -> (out: Vec<u8>)
    requires
        bytes@.len() == 4 * (width * height),
        can_resize(width as int, new_width as int, new_height as int),
    ensures
        filter.is_repeatable() ==> out@ == resized(
            bytes@,
            width as int,
            height as int,
            new_width as int,
            new_height as int,
            filter,
        ),
        out@.len() == 4 * (new_width * new_height),
        width > 0 && height > 0 && new_width == width && new_height == height ==> out@ == bytes@,
{
    let filter = match filter {
        FilterType::Nearest => image::imageops::FilterType::Nearest,
        FilterType::Triangle => image::imageops::FilterType::Triangle,
        FilterType::CatmullRom => image::imageops::FilterType::CatmullRom,
        FilterType::Gaussian => image::imageops::FilterType::Gaussian,
        FilterType::Lanczos3 => image::imageops::FilterType::Lanczos3,
    };
    let source = image::RgbaImage::from_raw(width, height, bytes).unwrap();
    image::imageops::resize(&source, new_width, new_height, filter).into_raw()
}

/// The image's pixels as bytes.
pub fn to_bytes(image: &Buffer<Rgba>) -> (bytes: Vec<u8>)
    requires
        4 * image.pixels().len() <= usize::MAX,
    ensures
        bytes@ == bytes_of(image.pixels()),
{
    proof {
        use_type_invariant(image);
    }
    let size = image.size();
    let mut bytes: Vec<u8> = Vec::new();
    let mut y: i32 = 0;
    while y < size.y
        invariant
            0 <= y <= size.y,
            size == image.spec_size(),
            image.wf(),
            bytes@.len() == 4 * (y * size.x),
            forall|i: int| 0 <= i < bytes@.len() ==> #[trigger] bytes@[i] == bytes_of(image.pixels())[i],
        decreases size.y - y,
    {
        let mut x: i32 = 0;
        while x < size.x
            invariant
                0 <= y < size.y,
                0 <= x <= size.x,
                size == image.spec_size(),
                image.wf(),
                bytes@.len() == 4 * (y * size.x + x),
                forall|i: int|
                    0 <= i < bytes@.len() ==> #[trigger] bytes@[i] == bytes_of(image.pixels())[i],
            decreases size.x - x,
        {
            proof {
                lemma_offset_bound(size.x as int, size.y as int, x as int, y as int);
            }
            let pixel = match image.at(Vec2::new(x, y)) {
                Some(pixel) => *pixel,
                None => Rgba { r: 0, g: 0, b: 0, a: 0 },
            };
            let ghost k = y * size.x + x;
            let ghost before = bytes@;
            bytes.push(pixel.r);
            bytes.push(pixel.g);
            bytes.push(pixel.b);
            bytes.push(pixel.a);
            assert forall|i: int| 0 <= i < bytes@.len() implies #[trigger] bytes@[i] == bytes_of(
                image.pixels(),
            )[i] by {
                if i < 4 * k {
                    assert(bytes@[i] == before[i]);
                } else {
                    assert(i / 4 == k);
                }
            }
            x = x + 1;
        }
        assert(y * size.x + size.x == (y + 1) * size.x) by (nonlinear_arith);
        y = y + 1;
    }
    assert(size.y * size.x == size.x * size.y) by (nonlinear_arith);
    assert(bytes@ =~= bytes_of(image.pixels()));
    bytes
}

/// The image of `width` by `height` pixels that the bytes hold.
pub fn from_bytes(bytes: &Vec<u8>, width: u32, height: u32) -> (image: Buffer<Rgba>)
    requires
        width <= i32::MAX,
        height <= i32::MAX,
        bytes@.len() == 4 * (width * height),
    ensures
        image.spec_size().x == width,
        image.spec_size().y == height,
        image.pixels() == pixels_of(bytes@),
{
    let ghost count = width * height;
    assert(0 <= count) by (nonlinear_arith)
        requires
            count == width * height,
            0 <= width,
            0 <= height,
    ;
    assert(bytes.len() == 4 * count);
    let size = Vec2::new(width as i32, height as i32);
    let mut image = Buffer::new(size, Rgba { r: 0, g: 0, b: 0, a: 0 });
    let mut y: i32 = 0;
    while y < size.y
        invariant
            0 <= y <= size.y,
            size.x == width,
            size.y == height,
            count == size.x * size.y,
            image.spec_size() == size,
            bytes@.len() == 4 * count,
            image.pixels().len() == count,
            forall|i: int| 0 <= i < y * size.x ==> #[trigger] image.pixels()[i] == pixels_of(bytes@)[i],
        decreases size.y - y,
    {
        let mut x: i32 = 0;
        while x < size.x
            invariant
                0 <= y < size.y,
                0 <= x <= size.x,
                size.x == width,
                size.y == height,
                count == size.x * size.y,
                image.spec_size() == size,
                bytes@.len() == 4 * count,
                image.pixels().len() == count,
                forall|i: int|
                    0 <= i < y * size.x + x ==> #[trigger] image.pixels()[i] == pixels_of(
                        bytes@,
                    )[i],
            decreases size.x - x,
        {
            proof {
                lemma_offset_bound(size.x as int, size.y as int, x as int, y as int);
            }
            assert(0 <= y * size.x) by (nonlinear_arith)
                requires
                    0 <= y,
                    0 <= size.x,
            ;
            let ghost offset = y * size.x + x;
            assert(0 <= offset < count);
            assert(bytes.len() == 4 * count);
            assert(y * size.x <= offset);
            let k: usize = (y as usize) * (size.x as usize) + (x as usize);
            let pixel = Rgba {
                r: bytes[4 * k],
                g: bytes[4 * k + 1],
                b: bytes[4 * k + 2],
                a: bytes[4 * k + 3],
            };
            let ghost before = image.pixels();
            image.set(Vec2::new(x, y), pixel);
            proof {
                use_type_invariant(&image);
                assert(image.pixels() == before.update(offset, pixel));
                assert forall|i: int| 0 <= i < offset + 1 implies #[trigger] image.pixels()[i]
                    == pixels_of(bytes@)[i] by {
                    if i < offset {
                        assert(image.pixels()[i] == before[i]);
                    }
                }
            }
            x = x + 1;
        }
        assert(y * size.x + size.x == (y + 1) * size.x) by (nonlinear_arith);
        y = y + 1;
    }
    assert(size.y * size.x == count) by (nonlinear_arith)
        requires
            count == size.x * size.y,
    ;
    assert(image.pixels() =~= pixels_of(bytes@));
    image
}

/// The most that an image may measure along one axis: what is settled, or
/// else what room there is. `None` stands for no bound.
pub open spec fn bound_of(known: Option<i32>, available: AvailableSpace) -> Option<int> {
    match known {
        Some(v) => Some(if v < 0 { 0 } else { v as int }),
        None => match available {
            AvailableSpace::Definite(v) => Some(if v < 0 { 0 } else { v as int }),
            AvailableSpace::MinContent => Some(0),
            AvailableSpace::MaxContent => None,
        },
    }
}

/// The size at which an image of `w` by `h` pixels is shown: its own size,
/// or where it may not be that large and may shrink, or may be larger and
/// may grow, the largest size of its proportions within the bounds, each
/// side rounded down.
pub open spec fn shown_size(
    w: int,
    h: int,
    max_w: Option<int>,
    max_h: Option<int>,
    shrink: bool,
    grow: bool,
) -> (int, int) {
    if w <= 0 || h <= 0 {
        (0, 0)
    } else {
        let (num, den) = match (max_w, max_h) {
            (None, None) => (1int, 1int),
            (None, Some(mh)) => (mh, h),
            (Some(mw), None) => (mw, w),
            (Some(mw), Some(mh)) => if mw * h <= mh * w {
                (mw, w)
            } else {
                (mh, h)
            },
        };
        if (num < den && shrink) || (num > den && grow) {
            ((w * num) / den, (h * num) / den)
        } else {
            (w, h)
        }
    }
}

/// The size, or where a side is larger than `i32` can say, the largest
/// size that it can say.
pub open spec fn at_most_max(size: (int, int)) -> (int, int) {
    if size.0 > i32::MAX || size.1 > i32::MAX {
        (i32::MAX as int, i32::MAX as int)
    } else {
        size
    }
}

/// A bound as a number without bound: `None` stands for no bound.
pub open spec fn bound_as_int(max: Option<u32>) -> Option<int> {
    match max {
        Some(v) => Some(v as int),
        None => None,
    }
}

/// The length, or where it is more than `u32` can say, the most that it
/// can say.
pub open spec fn at_most_u32(v: int) -> int {
    if v > u32::MAX {
        u32::MAX as int
    } else {
        v
    }
}

/// The size to which an image of `width` by `height` pixels is brought
/// so that it fills the bounds as well as its proportions allow: made
/// smaller where it is too large and larger where there is room, each side
/// rounded down. Without bounds it keeps its size. No side comes out
/// larger than `u32` can say.
pub fn fitted_size(width: u32, height: u32, max_width: Option<u32>, max_height: Option<u32>) -> (size:
    (u32, u32))
    ensures
        size.0 == at_most_u32(
            shown_size(
                width as int,
                height as int,
                bound_as_int(max_width),
                bound_as_int(max_height),
                true,
                true,
            ).0,
        ),
        size.1 == at_most_u32(
            shown_size(
                width as int,
                height as int,
                bound_as_int(max_width),
                bound_as_int(max_height),
                true,
                true,
            ).1,
        ),
{
    if width == 0 || height == 0 {
        return (0, 0);
    }
    let w: u64 = width as u64;
    let h: u64 = height as u64;
    let (num, den): (u64, u64) = match (max_width, max_height) {
        (None, None) => (1, 1),
        (None, Some(mh)) => (mh as u64, h),
        (Some(mw), None) => (mw as u64, w),
        (Some(mw), Some(mh)) => {
            assert(0 <= (mw as u64) * h <= 0xffff_ffff * 0xffff_ffff) by (nonlinear_arith)
                requires
                    0 <= mw <= 0xffff_ffff,
                    0 <= h <= 0xffff_ffff,
            ;
            assert(0 <= (mh as u64) * w <= 0xffff_ffff * 0xffff_ffff) by (nonlinear_arith)
                requires
                    0 <= mh <= 0xffff_ffff,
                    0 <= w <= 0xffff_ffff,
            ;
            if (mw as u64) * h <= (mh as u64) * w {
                (mw as u64, w)
            } else {
                (mh as u64, h)
            }
        },
    };
    if num == den {
        return (width, height);
    }
    assert(0 <= w * num <= 0xffff_ffff * 0xffff_ffff) by (nonlinear_arith)
        requires
            0 <= num <= 0xffff_ffff,
            0 <= w <= 0xffff_ffff,
    ;
    assert(0 <= h * num <= 0xffff_ffff * 0xffff_ffff) by (nonlinear_arith)
        requires
            0 <= num <= 0xffff_ffff,
            0 <= h <= 0xffff_ffff,
    ;
    let wide: u64 = (w * num) / den;
    let high: u64 = (h * num) / den;
    (
        if wide > 0xffff_ffff {
            u32::MAX
        } else {
            wide as u32
        },
        if high > 0xffff_ffff {
            u32::MAX
        } else {
            high as u32
        },
    )
}

impl Image {
    pub closed spec fn image(&self) -> Buffer<Rgba> {
        self.image
    }

    pub closed spec fn shrinks(&self) -> bool {
        self.shrink
    }

    pub closed spec fn grows(&self) -> bool {
        self.grow
    }

    pub closed spec fn filter(&self) -> FilterType {
        self.filter
    }

    /// The colours to which the image is dithered, if it is.
    pub closed spec fn dither_palette(&self) -> Option<Seq<Rgba>> {
        match self.dither_palette {
            Some(palette) => Some(palette@),
            None => None,
        }
    }

    pub closed spec fn dither_algorithm(&self) -> DitherAlgorithm {
        self.dither_algorithm
    }

    /// Whether the other widget shows the same image in the same way.
    pub open spec fn same_as(&self, other: &Image) -> bool {
        &&& self.image() == other.image()
        &&& self.shrinks() == other.shrinks()
        &&& self.grows() == other.grows()
        &&& self.filter() == other.filter()
        &&& self.dither_palette() == other.dither_palette()
        &&& self.dither_algorithm() == other.dither_algorithm()
    }

    /// A widget for the image that shrinks where there is too little room,
    /// does not grow, and is not dithered.
    pub fn new(image: Buffer<Rgba>) -> (widget: Image)
        ensures
            widget.image() == image,
            widget.shrinks(),
            !widget.grows(),
            widget.filter() == FilterType::CatmullRom,
            widget.dither_palette().is_none(),
            widget.dither_algorithm() == DitherAlgorithm::FloydSteinberg,
    {
        Image {
            image,
            shrink: true,
            grow: false,
            filter: FilterType::CatmullRom,
            dither_palette: None,
            dither_algorithm: DitherAlgorithm::FloydSteinberg,
        }
    }

    pub fn with_shrink(self, shrink: bool) -> (widget: Image)
        ensures
            widget.shrinks() == shrink,
            widget.image() == self.image(),
            widget.grows() == self.grows(),
            widget.filter() == self.filter(),
            widget.dither_palette() == self.dither_palette(),
            widget.dither_algorithm() == self.dither_algorithm(),
    {
        let mut widget = self;
        widget.shrink = shrink;
        widget
    }

    pub fn with_grow(self, grow: bool) -> (widget: Image)
        ensures
            widget.grows() == grow,
            widget.image() == self.image(),
            widget.shrinks() == self.shrinks(),
            widget.filter() == self.filter(),
            widget.dither_palette() == self.dither_palette(),
            widget.dither_algorithm() == self.dither_algorithm(),
    {
        let mut widget = self;
        widget.grow = grow;
        widget
    }

    pub fn with_filter(self, filter: FilterType) -> (widget: Image)
        ensures
            widget.filter() == filter,
            widget.image() == self.image(),
            widget.shrinks() == self.shrinks(),
            widget.grows() == self.grows(),
            widget.dither_palette() == self.dither_palette(),
            widget.dither_algorithm() == self.dither_algorithm(),
    {
        let mut widget = self;
        widget.filter = filter;
        widget
    }

    pub fn with_dither_palette(self, palette: Vec<Rgba>) -> (widget: Image)
        ensures
            widget.dither_palette() == Some(palette@),
            widget.image() == self.image(),
            widget.shrinks() == self.shrinks(),
            widget.grows() == self.grows(),
            widget.filter() == self.filter(),
            widget.dither_algorithm() == self.dither_algorithm(),
    {
        let mut widget = self;
        widget.dither_palette = Some(palette);
        widget
    }

    pub fn with_dither_algorithm(self, algorithm: DitherAlgorithm) -> (widget: Image)
        ensures
            widget.dither_algorithm() == algorithm,
            widget.image() == self.image(),
            widget.shrinks() == self.shrinks(),
            widget.grows() == self.grows(),
            widget.filter() == self.filter(),
            widget.dither_palette() == self.dither_palette(),
    {
        let mut widget = self;
        widget.dither_algorithm = algorithm;
        widget
    }

    /// The size at which the image is shown, given what is settled and
    /// what room there is.
    pub fn measure(&self, known: Size<Option<i32>>, available: Size<AvailableSpace>) -> (size:
        Size<i32>)
        ensures
            (size.width as int, size.height as int) == at_most_max(
                shown_size(
                    self.image().spec_size().x as int,
                    self.image().spec_size().y as int,
                    bound_of(known.width, available.width),
                    bound_of(known.height, available.height),
                    self.shrinks(),
                    self.grows(),
                ),
            ),
    {
        let own = self.image.size();
        if own.x == 0 || own.y == 0 {
            return Size { width: 0, height: 0 };
        }
        let max_w = bound(known.width, available.width);
        let max_h = bound(known.height, available.height);
        let w: i64 = own.x as i64;
        let h: i64 = own.y as i64;
        let (num, den): (i64, i64) = match (max_w, max_h) {
            (None, None) => (1, 1),
            (None, Some(mh)) => (mh as i64, h),
            (Some(mw), None) => (mw as i64, w),
            (Some(mw), Some(mh)) => {
                assert(0 <= (mw as i64) * h <= 0x7fff_ffff * 0x7fff_ffff) by (nonlinear_arith)
                    requires
                        0 <= mw <= 0x7fff_ffff,
                        0 <= h <= 0x7fff_ffff,
                ;
                assert(0 <= (mh as i64) * w <= 0x7fff_ffff * 0x7fff_ffff) by (nonlinear_arith)
                    requires
                        0 <= mh <= 0x7fff_ffff,
                        0 <= w <= 0x7fff_ffff,
                ;
                if (mw as i64) * h <= (mh as i64) * w {
                    (mw as i64, w)
                } else {
                    (mh as i64, h)
                }
            },
        };
        if (num < den && self.shrink) || (num > den && self.grow) {
            assert(0 <= w * num <= 0x7fff_ffff * 0x7fff_ffff) by (nonlinear_arith)
                requires
                    0 <= num <= 0x7fff_ffff,
                    0 <= w <= 0x7fff_ffff,
            ;
            assert(0 <= h * num <= 0x7fff_ffff * 0x7fff_ffff) by (nonlinear_arith)
                requires
                    0 <= num <= 0x7fff_ffff,
                    0 <= h <= 0x7fff_ffff,
            ;
            let width: i64 = (w * num) / den;
            let height: i64 = (h * num) / den;
            if width > 0x7fff_ffff || height > 0x7fff_ffff {
                return Size { width: i32::MAX, height: i32::MAX };
            }
            Size { width: width as i32, height: height as i32 }
        } else {
            Size { width: own.x, height: own.y }
        }
    }

    /// The image in the given size, dithered if a palette is set. Where
    /// the image is resized with a filter that is not repeatable, only the
    /// size of the outcome is known.
    pub fn prepared(&self, width: u32, height: u32) -> (out: Option<Buffer<Rgba>>)
        ensures
            out.is_some() <==> width <= i32::MAX && height <= i32::MAX && can_resize(
                self.image().spec_size().x as int,
                width as int,
                height as int,
            ) && 4 * self.image().pixels().len() <= usize::MAX,
            out.is_some() ==> out.unwrap().spec_size().x == width && out.unwrap().spec_size().y
                == height,
            out.is_some() && self.is_known_at(width as int, height as int) ==> out.unwrap().pixels()
                == self.prepared_pixels(width as int, height as int),
    {
        proof {
            use_type_invariant(&self.image);
        }
        if width > 0x7fff_ffff || height > 0x7fff_ffff {
            return None;
        }
        assert(0 <= width * height <= 0x7fff_ffff * 0x7fff_ffff) by (nonlinear_arith)
            requires
                0 <= width <= 0x7fff_ffff,
                0 <= height <= 0x7fff_ffff,
        ;
        let wanted: u64 = (width as u64) * (height as u64);
        if wanted > (isize::MAX as u64) / 4 {
            return None;
        }
        let own = self.image.size();
        assert(0 <= own.x * height <= 0x7fff_ffff * 0x7fff_ffff) by (nonlinear_arith)
            requires
                0 <= own.x <= 0x7fff_ffff,
                0 <= height <= 0x7fff_ffff,
        ;
        let between: u64 = (own.x as u64) * (height as u64);
        if between > (isize::MAX as u64) / 16 {
            return None;
        }
        assert(0 <= own.x * own.y <= 0x7fff_ffff * 0x7fff_ffff) by (nonlinear_arith)
            requires
                0 <= own.x <= 0x7fff_ffff,
                0 <= own.y <= 0x7fff_ffff,
        ;
        let held: u64 = (own.x as u64) * (own.y as u64);
        if held > (usize::MAX as u64) / 4 {
            return None;
        }
        assert(self.image.pixels().len() == held);
        let bytes = to_bytes(&self.image);
        assert(bytes@.len() == 4 * (own.x * own.y));
        let scaled = resize_bytes(bytes, own.x as u32, own.y as u32, width, height, self.filter);
        let image = from_bytes(&scaled, width, height);
        proof {
            if self.keeps_size(width as int, height as int) {
                lemma_pixels_of_bytes(self.image.pixels());
            }
        }
        match &self.dither_palette {
            Some(palette) => Some(self.dither_algorithm.dither(image, palette)),
            None => Some(image),
        }
    }

    /// Paints the image, in the size of the window, over what is there.
    /// Outside of the window nothing changes.
    pub fn paint(&self, view: &mut View<'_>) -> (r: Result<
        (),
        RenderError,
    >)
        ensures
            final(view).area == old(view).area,
            final(view).buffer.spec_size() == old(view).buffer.spec_size(),
            *final(final(view).buffer) == *final(old(view).buffer),
            r.is_ok() <==> fits_memory(self.image(), old(view).area),
            r.is_err() ==> r == Err::<(), RenderError>(RenderError::OutOfRange),
            r.is_err() ==> final(view).buffer.pixels() == old(view).buffer.pixels(),
            r.is_ok() && self.is_known_at(old(view).area.width(), old(view).area.height())
                ==> forall|q: Vec2|
                old(view).buffer.in_bounds(q) ==> #[trigger] final(view).buffer.pixel(q) == shown(
                    self.prepared_pixels(old(view).area.width(), old(view).area.height()),
                    old(view).area,
                    old(view).buffer.pixel(q),
                    q,
                ),
            forall|q: Vec2|
                old(view).buffer.in_bounds(q) && !in_window(old(view).area, q)
                    ==> #[trigger] final(view).buffer.pixel(q) == old(view).buffer.pixel(q),
    {
        let size = view.size();
        let ghost before = *view.buffer;
        match self.prepared(size.x as u32, size.y as u32) {
            Some(image) => {
                view.image(&image);
                proof {
                    assert forall|q: Vec2| before.in_bounds(q) && !in_window(old(view).area, q)
                        implies #[trigger] view.buffer.pixel(q) == before.pixel(q) by {}
                }
                Ok(())
            },
            None => Err(RenderError::OutOfRange),
        }
    }

    /// Whether the image has pixels and the given size is its own, so
    /// that it is not resized at all.
    pub open spec fn keeps_size(&self, width: int, height: int) -> bool {
        &&& self.image().spec_size().x > 0
        &&& self.image().spec_size().y > 0
        &&& width == self.image().spec_size().x
        &&& height == self.image().spec_size().y
    }

    /// Whether it is known here which pixels the image has in the given
    /// size: it keeps its size, or its filter is repeatable.
    pub open spec fn is_known_at(&self, width: int, height: int) -> bool {
        self.keeps_size(width, height) || self.filter().is_repeatable()
    }

    /// The pixels of the image in the given size, dithered if a palette is
    /// set.
    pub open spec fn prepared_pixels(&self, width: int, height: int) -> Seq<Rgba> {
        let scaled = if self.keeps_size(width, height) {
            self.image().pixels()
        } else {
            pixels_of(
                resized(
                    bytes_of(self.image().pixels()),
                    self.image().spec_size().x as int,
                    self.image().spec_size().y as int,
                    width,
                    height,
                    self.filter(),
                ),
            )
        };
        match self.dither_palette() {
            Some(palette) => dithered(scaled, width, height, palette, self.dither_algorithm()),
            None => scaled,
        }
    }
}

/// Whether the image, and the image in the size of the window, can be
/// held in memory as bytes.
pub open spec fn fits_memory(image: Buffer<Rgba>, window: Rect) -> bool {
    can_resize(image.spec_size().x as int, window.width(), window.height()) && 4
        * image.pixels().len() <= usize::MAX
}

/// Whether the buffer's position `q` lies in the window.
pub open spec fn in_window(window: Rect, q: Vec2) -> bool {
    0 <= q.x - window.west() < window.width() && 0 <= q.y - window.north() < window.height()
}

/// What the buffer's pixel at `q` becomes when the pixels of an image as
/// wide as the window are painted over the window: the image's pixel for
/// that place over what was there, and outside of the window what was
/// there.
pub open spec fn shown(pixels: Seq<Rgba>, window: Rect, below: Rgba, q: Vec2) -> Rgba {
    let x = q.x - window.west();
    let y = q.y - window.north();
    if 0 <= x < window.width() && 0 <= y < window.height() {
        laid_over(pixels[y * window.width() + x], below)
    } else {
        below
    }
}

/// The most that an image may measure along one axis.
fn bound(known: Option<i32>, available: AvailableSpace) -> (r: Option<i32>)
    ensures
        match bound_of(known, available) {
            Some(v) => r == Some(v as i32) && 0 <= v <= i32::MAX,
            None => r.is_none(),
        },
{
    match known {
        Some(v) => Some(if v < 0 { 0 } else { v }),
        None => match available {
            AvailableSpace::Definite(v) => Some(if v < 0 { 0 } else { v }),
            AvailableSpace::MinContent => Some(0),
            AvailableSpace::MaxContent => None,
        },
    }
}

impl<C> Widget<C> for Image {
    fn size(
        &mut self,
        ctx: &mut C,
        known: Size<Option<i32>>,
        available: Size<AvailableSpace>,
    ) -> (size: Size<i32>)
        ensures
            final(self).same_as(old(self)),
            *final(ctx) == *old(ctx),
            (size.width as int, size.height as int) == at_most_max(
                shown_size(
                    old(self).image().spec_size().x as int,
                    old(self).image().spec_size().y as int,
                    bound_of(known.width, available.width),
                    bound_of(known.height, available.height),
                    old(self).shrinks(),
                    old(self).grows(),
                ),
            ),
    {
        self.measure(known, available)
    }

    /// Paints the image, in the size of the window, over what is there.
    /// Outside of the window nothing changes.
    fn draw_below(&mut self, ctx: &mut C, view: &mut View<'_>, layout: &Layout) -> (r: Result<
        (),
        RenderError,
    >)
        ensures
            final(self).same_as(old(self)),
            *final(ctx) == *old(ctx),
            r.is_ok() <==> fits_memory(old(self).image(), old(view).area),
            r.is_err() ==> r == Err::<(), RenderError>(RenderError::OutOfRange),
            r.is_err() ==> final(view).buffer.pixels() == old(view).buffer.pixels(),
            r.is_ok() && old(self).is_known_at(old(view).area.width(), old(view).area.height())
                ==> forall|q: Vec2|
                old(view).buffer.in_bounds(q) ==> #[trigger] final(view).buffer.pixel(q) == shown(
                    old(self).prepared_pixels(old(view).area.width(), old(view).area.height()),
                    old(view).area,
                    old(view).buffer.pixel(q),
                    q,
                ),
            forall|q: Vec2|
                old(view).buffer.in_bounds(q) && !in_window(old(view).area, q)
                    ==> #[trigger] final(view).buffer.pixel(q) == old(view).buffer.pixel(q),
    {
        self.paint(view)
    }
}

} // verus!
