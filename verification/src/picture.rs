//! Encoded and decoded pictures: the boundary to the `image` crate.

use std::io::Cursor;

use image::imageops::FilterType;
use image::{DynamicImage, GrayImage, ImageError, ImageFormat, RgbImage, RgbaImage};
use vstd::prelude::*;

use crate::plane::{Grid, Plane};

verus! {

/// How a decoded picture stores one pixel: the channels it has and the size of a sample.
pub ghost enum PixelKind {
    Luma8,
    LumaA8,
    Rgb8,
    Rgba8,
    Luma16,
    LumaA16,
    Rgb16,
    Rgba16,
    Rgb32F,
    Rgba32F,
}

impl PixelKind {
    /// The number of samples in one pixel.
    pub open spec fn channels(self) -> nat {
        match self {
            PixelKind::Luma8 | PixelKind::Luma16 => 1,
            PixelKind::LumaA8 | PixelKind::LumaA16 => 2,
            PixelKind::Rgb8 | PixelKind::Rgb16 | PixelKind::Rgb32F => 3,
            PixelKind::Rgba8 | PixelKind::Rgba16 | PixelKind::Rgba32F => 4,
        }
    }

    /// The number of bytes in one sample.
    pub open spec fn sample_bytes(self) -> nat {
        match self {
            PixelKind::Luma8 | PixelKind::LumaA8 | PixelKind::Rgb8 | PixelKind::Rgba8 => 1,
            PixelKind::Rgb32F | PixelKind::Rgba32F => 4,
            _ => 2,
        }
    }

    /// The number of bytes in one pixel.
    pub open spec fn bytes(self) -> nat {
        self.channels() * self.sample_bytes()
    }

    /// Whether the samples are floating-point numbers, which a PNG file cannot hold.
    pub open spec fn is_float(self) -> bool {
        self is Rgb32F || self is Rgba32F
    }
}

/// The model of a decoded picture: its size, its kind of pixel, and its samples row by row
/// from the top left, channel by channel. A floating-point sample stands by its bit pattern.
pub ghost struct Picture {
    pub kind: PixelKind,
    pub width: nat,
    pub height: nat,
    pub samples: Seq<u32>,
}

impl Picture {
    /// The samples are exactly those of the pixels, with no padding behind them.
    pub open spec fn exact(self) -> bool {
        self.samples.len() == self.width * self.height * self.kind.channels()
    }

    /// Neither side is zero.
    pub open spec fn nonempty(self) -> bool {
        self.width > 0 && self.height > 0
    }

    /// The number of bytes that the samples take up.
    pub open spec fn byte_size(self) -> nat {
        self.width * self.height * self.kind.bytes()
    }
}

/// The picture that a grey plane is.
pub open spec fn gray_picture(grid: Grid<u8>) -> Picture {
    Picture {
        kind: PixelKind::Luma8,
        width: grid.width,
        height: grid.height,
        samples: Seq::new(grid.cells.len(), |i: int| grid.cells[i] as u32),
    }
}

/// The picture that a plane of red, green and blue is.
pub open spec fn rgb_picture(grid: Grid<[u8; 3]>) -> Picture {
    Picture {
        kind: PixelKind::Rgb8,
        width: grid.width,
        height: grid.height,
        samples: Seq::new(3 * grid.cells.len(), |i: int| grid.cells[i / 3][i % 3] as u32),
    }
}

/// The picture that a plane of red, green, blue and alpha is.
pub open spec fn rgba_picture(grid: Grid<[u8; 4]>) -> Picture {
    Picture {
        kind: PixelKind::Rgba8,
        width: grid.width,
        height: grid.height,
        samples: Seq::new(4 * grid.cells.len(), |i: int| grid.cells[i / 4][i % 4] as u32),
    }
}

/// The largest number of bytes that the samples of a loaded picture take up.
pub const LOAD_LIMIT: u32 = 0x2000_0000;

/// Up to this length of the scaled side, shrinking finds its pixels with single-precision
/// numbers.
pub const SHORT_SIDE: u32 = 0x20_0000;

/// Up to this length, enlarging a side finds its pixels with single-precision numbers.
pub const LONG_SIDE: u32 = 0x100_0000;

/// Up to this length, doubling a side finds its pixels with single-precision numbers.
pub const DOUBLED_SIDE: u32 = 0x200_0000;

/// The decoded picture of the `image` crate, carried through unopened.
#[verifier::external_type_specification]
#[verifier::external_body]
pub struct ExDynamicImage(DynamicImage);

/// The error of the `image` crate, carried through unopened.
#[verifier::external_type_specification]
#[verifier::external_body]
pub struct ExImageError(ImageError);

/// What a decoded picture holds: the variant of `DynamicImage` is the kind of pixel, and the
/// container of its buffer holds the samples.
pub uninterp spec fn contents(image: DynamicImage) -> Picture;

/// Whether `image::load_from_memory` may give `outcome` for the file `bytes`: a picture, or
/// `None` where it reports an error.
pub uninterp spec fn load_outcome(bytes: Seq<u8>, outcome: Option<Picture>) -> bool;

/// Whether `DynamicImage::to_luma8` may give `plane` for `picture`.
pub uninterp spec fn luma8_outcome(picture: Picture, plane: Grid<u8>) -> bool;

/// Whether `DynamicImage::to_rgba8` may give `plane` for `picture`.
pub uninterp spec fn rgba8_outcome(picture: Picture, plane: Grid<[u8; 4]>) -> bool;

/// Whether `DynamicImage::resize` with the Lanczos filter may give `scaled` for `picture`
/// and the bounds `width` and `height`.
pub uninterp spec fn fit_outcome(picture: Picture, width: u32, height: u32, scaled: Picture) -> bool;

/// Whether `image::imageops::resize` with the Lanczos filter may give `scaled` for `plane`.
/// The size that was asked for is that of `scaled`.
pub uninterp spec fn scale_outcome(plane: Grid<u8>, scaled: Grid<u8>) -> bool;

/// The PNG file that the `image` crate writes for `picture`.
pub uninterp spec fn png_file(picture: Picture) -> Seq<u8>;

/// Loading the file `bytes` may give `picture`, which has no padding behind its samples and
/// whose samples take up no more than [`LOAD_LIMIT`] bytes.
pub open spec fn loads_as(bytes: Seq<u8>, picture: Picture) -> bool {
    &&& load_outcome(bytes, Some(picture))
    &&& picture.exact()
    &&& picture.byte_size() <= LOAD_LIMIT
    &&& picture.width <= u32::MAX
    &&& picture.height <= u32::MAX
}

/// Loading the file `bytes` gives `picture` and nothing else.
pub open spec fn reads_back(bytes: Seq<u8>, picture: Picture) -> bool {
    forall|outcome: Option<Picture>| #[trigger]
        load_outcome(bytes, outcome) ==> outcome == Some(picture)
}

/// The file is the PNG file of `picture`. One that is not too large to be loaded loads again
/// as `picture`.
pub open spec fn encodes(file: Seq<u8>, picture: Picture) -> bool {
    &&& file == png_file(picture)
    &&& picture.byte_size() <= LOAD_LIMIT ==> reads_back(file, picture)
}

/// `plane` is what `picture` may turn grey as: it has its size, and is the picture itself
/// where that is grey with eight bits already.
pub open spec fn grays_to(picture: Picture, plane: Grid<u8>) -> bool {
    &&& luma8_outcome(picture, plane)
    &&& plane.wf()
    &&& plane.width == picture.width
    &&& plane.height == picture.height
    &&& picture.kind is Luma8 && picture.exact() ==> gray_picture(plane) == picture
}

/// The pixel of three samples with the alpha of an opaque one behind them.
pub open spec fn opaque_pixel(samples: Seq<u32>, i: int, pixel: [u8; 4]) -> bool {
    &&& pixel[0] == samples[3 * i]
    &&& pixel[1] == samples[3 * i + 1]
    &&& pixel[2] == samples[3 * i + 2]
    &&& pixel[3] == 255
}

/// `plane` is what `picture` may become with four channels of eight bits: it has its size,
/// is the picture itself where that has such channels, and adds an opaque alpha where three
/// such channels are all.
pub open spec fn expands_to(picture: Picture, plane: Grid<[u8; 4]>) -> bool {
    &&& rgba8_outcome(picture, plane)
    &&& plane.wf()
    &&& plane.width == picture.width
    &&& plane.height == picture.height
    &&& picture.kind is Rgba8 && picture.exact() ==> rgba_picture(plane) == picture
    &&& picture.kind is Rgb8 && picture.exact() ==> forall|i: int|
        0 <= i < plane.cells.len() ==> opaque_pixel(picture.samples, i, #[trigger] plane.cells[i])
}

/// A picture of this size can be given four channels of eight bits: its bytes then still
/// have an address.
pub open spec fn can_expand(width: nat, height: nat) -> bool {
    4 * width * height <= isize::MAX
}

/// The larger of a requested side and one pixel.
pub open spec fn at_least_one(side: u32) -> int {
    if side == 0 {
        1
    } else {
        side as int
    }
}

/// A quotient, rounded up.
pub open spec fn rounded_up(a: int, b: int) -> int {
    (a + b - 1) / b
}

/// The largest size that a picture of `width` by `height` pixels can have when it was scaled
/// into the bounds `new_width` and `new_height`: it reaches the bound that leaves less room
/// and keeps its shape. A side that is zero counts as one pixel, and two bounds of which one
/// is zero leave room for one pixel.
pub open spec fn fit_bounds(width: nat, height: nat, new_width: u32, new_height: u32) -> (int, int) {
    if width == 0 || height == 0 {
        (
            if width == 0 {
                1
            } else {
                at_least_one(new_width)
            },
            if height == 0 {
                1
            } else {
                at_least_one(new_height)
            },
        )
    } else if new_width == 0 || new_height == 0 {
        (1, 1)
    } else if new_width * height <= new_height * width {
        (new_width as int, rounded_up(height * new_width, width as int))
    } else {
        (rounded_up(width * new_height, height as int), new_height as int)
    }
}

/// The distance between two neighbouring single-precision numbers at an integer below
/// [`LOAD_LIMIT`].
pub open spec fn single_spacing(x: int) -> int {
    if x < 0x100_0000 {
        1
    } else if x < 0x200_0000 {
        2
    } else if x < 0x400_0000 {
        4
    } else if x < 0x800_0000 {
        8
    } else if x < 0x1000_0000 {
        16
    } else {
        32
    }
}

/// A side can be scaled to twice its length: for every pixel of the doubled side, one of the
/// side is found. On a side longer than [`DOUBLED_SIDE`], positions are rounded to multiples
/// of four pixels or more. The last position of the doubled side lies half a pixel behind the
/// last pixel of the side, and the two are rounded apart where that pixel stands in the middle
/// between two multiples of which the lower is even.
pub open spec fn can_double(len: int) -> bool {
    ||| len <= DOUBLED_SIDE
    ||| {
        &&& len <= LOAD_LIMIT
        &&& (len - 1) % (2 * single_spacing(len - 1)) != single_spacing(len - 1) / 2
    }
}

/// A side of `len` pixels can be scaled to one of up to `new_len` pixels: it is not too long
/// where it grows, or becomes short.
pub open spec fn can_sample(len: int, new_len: int, grows: bool) -> bool {
    ||| grows && len <= LONG_SIDE
    ||| new_len <= SHORT_SIDE
}

/// A picture of `width` by `height` pixels can be scaled into the bounds `new_width` and
/// `new_height`: its size stays as it is, or its sides can be scaled, where there is anything
/// to scale, and the buffers have an address.
pub open spec fn can_fit(width: nat, height: nat, new_width: u32, new_height: u32) -> bool {
    let (columns, rows) = fit_bounds(width, height, new_width, new_height);
    let grows = width <= new_width && height <= new_height;
    ||| width == new_width && height == new_height
    ||| columns == width && rows == height
    ||| {
        &&& 16 * columns * rows <= isize::MAX
        &&& 16 * width * rows <= isize::MAX
        &&& width > 0 && height > 0 ==> can_sample(width as int, columns, grows) && can_sample(
            height as int,
            rows,
            grows,
        )
    }
}

/// Up to this product of a length and a bound, a proportional side is rounded as if it were
/// computed exactly, apart from some of the lengths in the middle between two integers.
pub const ROUNDED_PRODUCT: u64 = 0x4_0000_0000_0000;

/// The length that is to `bound` as `len` is to `along`, rounded to the nearest integer, a
/// half upwards, and no less than one.
pub open spec fn rounded_side(len: int, bound: int, along: int) -> int {
    let nearest = (2 * (len * bound) + along) / (2 * along);
    if nearest < 1 {
        1
    } else {
        nearest
    }
}

/// The length that is to `bound` as `len` is to `along` lies in the middle between two
/// integers.
pub open spec fn is_halfway(len: int, bound: int, along: int) -> bool {
    (2 * (len * bound)) % (2 * along) == along
}

/// The ratio of `bound` to `along` is a multiple of a negative power of two, which a
/// double-precision number holds exactly.
pub open spec fn is_exact_ratio(bound: int, along: int) -> bool {
    (bound * 0x1_0000_0000) % along == 0
}

/// `side` is to `bound` as `len` is to `along`. It is the proportional length rounded to the
/// nearest integer, a half upwards, and no less than one, unless the sides are very long, or
/// the length lies in the middle between two integers and the ratio is inexact in double
/// precision: then the middle may be missed on either side. In any case `side` misses the
/// proportional length by less than one pixel, and where it is more than one pixel, by no more
/// than a half and the rounding errors of double precision.
pub open spec fn proportional(side: int, len: int, bound: int, along: int) -> bool {
    let missed = side * along - len * bound;
    let most = 0x4_0000_0000_0000 * along + len * bound;
    &&& side >= 1
    &&& -along < missed < along
    &&& side == 1 || -most <= 0x8_0000_0000_0000 * missed <= most
    &&& len * bound <= ROUNDED_PRODUCT && (is_exact_ratio(bound, along) || !is_halfway(
        len,
        bound,
        along,
    )) ==> side == rounded_side(len, bound, along)
}

/// The size of a picture of `width` by `height` pixels that was scaled into the bounds
/// `new_width` and `new_height`: it reaches the bound that leaves less room, and its other
/// side is proportional.
pub open spec fn size_fitted(
    width: nat,
    height: nat,
    new_width: u32,
    new_height: u32,
    columns: nat,
    rows: nat,
) -> bool {
    if width == 0 || height == 0 || new_width == 0 || new_height == 0 {
        (columns as int, rows as int) == fit_bounds(width, height, new_width, new_height)
    } else if new_width * height <= new_height * width {
        columns == new_width && proportional(
            rows as int,
            height as int,
            new_width as int,
            width as int,
        )
    } else {
        rows == new_height && proportional(
            columns as int,
            width as int,
            new_height as int,
            height as int,
        )
    }
}

/// `scaled` is `picture` with its shape kept and as large as the bounds `width` and `height`
/// allow. It is `picture` itself where its size is that of the bounds, or stays as it is. An
/// empty picture that is scaled at all becomes a blank one.
pub open spec fn fitted(picture: Picture, width: u32, height: u32, scaled: Picture) -> bool {
    if picture.width == width && picture.height == height {
        scaled == picture
    } else {
        &&& scaled.kind == picture.kind
        &&& scaled.exact()
        &&& size_fitted(picture.width, picture.height, width, height, scaled.width, scaled.height)
        &&& scaled.width == picture.width && scaled.height == picture.height ==> scaled == picture
        &&& !picture.nonempty() ==> forall|i: int|
            0 <= i < scaled.samples.len() ==> #[trigger] scaled.samples[i] == 0
    }
}

/// A picture that was scaled into bounds lies inside the largest size that it can have there.
pub proof fn lemma_inside_fit_bounds(picture: Picture, width: u32, height: u32, scaled: Picture)
    requires
        fitted(picture, width, height, scaled),
        !(picture.width == width && picture.height == height),
    ensures
        scaled.kind == picture.kind,
        scaled.exact(),
        1 <= scaled.width <= fit_bounds(picture.width, picture.height, width, height).0,
        1 <= scaled.height <= fit_bounds(picture.width, picture.height, width, height).1,
        scaled.width <= at_least_one(width),
        scaled.height <= at_least_one(height),
{
    let w = picture.width as int;
    let h = picture.height as int;
    let nw = width as int;
    let nh = height as int;
    if w > 0 && h > 0 && nw > 0 && nh > 0 {
        if nw * h <= nh * w {
            lemma_proportional(scaled.height as int, h, nw, w, nh);
        } else {
            lemma_proportional(scaled.width as int, w, nh, h, nw);
        }
    }
}

/// A proportional side is no longer than the proportional length rounded up, nor than the
/// room that is left.
proof fn lemma_proportional(side: int, len: int, bound: int, along: int, room: int)
    requires
        proportional(side, len, bound, along),
        0 < along,
        len * bound <= room * along || bound * len <= room * along,
    ensures
        side <= rounded_up(len * bound, along),
        side <= room,
{
    let v = len * bound;
    assert(v == bound * len) by (nonlinear_arith)
        requires
            v == len * bound,
    ;
    assert(side <= room) by (nonlinear_arith)
        requires
            side * along - v < along,
            v <= room * along,
            0 < along,
    ;
    assert(side <= (v + along - 1) / along) by (nonlinear_arith)
        requires
            side * along - v < along,
            0 < along,
    ;
}

/// Calls `image::load_from_memory`, which guesses the format from the first bytes and
/// decodes the file. A picture that it gives has no padding behind its samples, and its
/// samples take up no more than the default allocation limit of the crate.
///
/// Some decoders choose their arithmetic by what the processor offers: which picture a file
/// gives is left to [`load_outcome`].
#[verifier::external_body]
pub(crate) fn load_from_memory(bytes: &[u8]) -> (loaded: Result<DynamicImage, ImageError>)
    ensures
        (match loaded {
            Ok(image) => load_outcome(bytes@, Some(contents(image))) && loads_as(
                bytes@,
                contents(image),
            ),
            Err(_) => load_outcome(bytes@, None),
        }),
{
    image::load_from_memory(bytes)
}

/// Calls `DynamicImage::width`, which gives the number of columns.
#[verifier::external_body]
pub(crate) fn image_width(image: &DynamicImage) -> (width: u32)
    ensures
        width == contents(*image).width,
{
    image.width()
}

/// Calls `DynamicImage::height`, which gives the number of rows.
#[verifier::external_body]
pub(crate) fn image_height(image: &DynamicImage) -> (height: u32)
    ensures
        height == contents(*image).height,
{
    image.height()
}

/// Calls `DynamicImage::as_bytes` for its length: the samples, with any padding behind them,
/// as bytes.
#[verifier::external_body]
fn byte_count(image: &DynamicImage) -> (count: usize)
    ensures
        count == contents(*image).samples.len() * contents(*image).kind.sample_bytes(),
{
    image.as_bytes().len()
}

/// Calls `ColorType::bytes_per_pixel` on the colour type of a picture.
#[verifier::external_body]
fn pixel_bytes(image: &DynamicImage) -> (count: u8)
    ensures
        count == contents(*image).kind.bytes(),
{
    image.color().bytes_per_pixel()
}

/// Tells whether a picture has no padding behind its samples.
pub(crate) fn is_exact(image: &DynamicImage) -> (exact: bool)
    ensures
        exact == contents(*image).exact(),
{
    let width: u32 = image_width(image);
    let height: u32 = image_height(image);
    let bytes: u8 = pixel_bytes(image);
    let count: usize = byte_count(image);
    proof {
        let picture = contents(*image);
        let c = picture.kind.channels() as int;
        let s = picture.kind.sample_bytes() as int;
        let pixels = width * height;
        assert(pixels <= 0xffff_ffff * 0xffff_ffff) by (nonlinear_arith)
            requires
                pixels == width * height,
                0 <= width <= 0xffff_ffff,
                0 <= height <= 0xffff_ffff,
        ;
        assert(pixels * bytes <= 0xffff_ffff * 0xffff_ffff * 16) by (nonlinear_arith)
            requires
                0 <= pixels <= 0xffff_ffff * 0xffff_ffff,
                0 <= bytes <= 16,
        ;
        assert(pixels * (c * s) == (pixels * c) * s) by (nonlinear_arith);
        assert((picture.samples.len() * s == (pixels * c) * s) == (picture.samples.len() == pixels
            * c)) by (nonlinear_arith)
            requires
                s > 0,
        ;
    }
    width as u128 * height as u128 * bytes as u128 == count as u128
}

/// Calls `DynamicImage::to_luma8`: a grey plane of the same size. A picture that is grey
/// with eight bits already is copied.
///
/// Other kinds of pixel are weighted in floating point, with fused operations where the
/// target has them: the grey that they give is left to [`luma8_outcome`].
#[verifier::external_body]
pub(crate) fn to_luma8(image: &DynamicImage) -> (plane: Plane<u8>)
    ensures
        luma8_outcome(contents(*image), plane@),
        grays_to(contents(*image), plane@),
{
    let buffer = image.to_luma8();
    Plane {
        width: buffer.width(),
        height: buffer.height(),
        pixels: buffer.pixels().map(|pixel| pixel.0[0]).collect(),
    }
}

/// Calls `DynamicImage::to_rgba8`: a plane of the same size with four channels. A picture
/// with four channels of eight bits is copied, and one with three gets the alpha of an
/// opaque pixel.
///
/// How other kinds of pixel are converted is left to [`rgba8_outcome`].
#[verifier::external_body]
pub(crate) fn to_rgba8(image: &DynamicImage) -> (plane: Plane<[u8; 4]>)
    requires
        can_expand(contents(*image).width, contents(*image).height),
    ensures
        rgba8_outcome(contents(*image), plane@),
        expands_to(contents(*image), plane@),
{
    let buffer = image.to_rgba8();
    Plane {
        width: buffer.width(),
        height: buffer.height(),
        pixels: buffer.pixels().map(|pixel| pixel.0).collect(),
    }
}

/// Calls `DynamicImage::resize` with `FilterType::Lanczos3`, which scales a picture to the
/// largest size of the same shape inside the bounds. The size is computed in double
/// precision. The pixels around a sample are found in single precision: where the sides are
/// too long for it, the weights of the last sample may vanish or cancel out, and the call
/// would not return.
///
/// The samples are weighted with sines, whose precision the platform decides: which picture
/// comes out is left to [`fit_outcome`].
#[verifier::external_body]
pub(crate) fn fit(image: &DynamicImage, width: u32, height: u32) -> (scaled: DynamicImage)
    requires
        contents(*image).exact(),
        can_fit(contents(*image).width, contents(*image).height, width, height),
    ensures
        fit_outcome(contents(*image), width, height, contents(scaled)),
        fitted(contents(*image), width, height, contents(scaled)),
{
    image.resize(width, height, FilterType::Lanczos3)
}

/// Calls `image::imageops::resize` with `FilterType::Lanczos3` for twice the sides of a grey
/// plane. The pixels around a sample are found in single precision: where that finds none
/// for the last sample, no weight is left, and the call would not return.
///
/// The samples are weighted with sines, whose precision the platform decides: which plane
/// comes out is left to [`scale_outcome`].
#[verifier::external_body]
pub(crate) fn scale(plane: &Plane<u8>, width: u32, height: u32) -> (scaled: Plane<u8>)
    requires
        plane.wf(),
        0 < plane.width,
        0 < plane.height,
        can_double(plane.width as int),
        can_double(plane.height as int),
        width == 2 * plane.width,
        height == 2 * plane.height,
        32 * plane.width * plane.height <= isize::MAX,
    ensures
        scaled.wf(),
        scaled.width == width,
        scaled.height == height,
        scale_outcome(plane@, scaled@),
{
    let buffer = GrayImage::from_raw(plane.width, plane.height, plane.pixels.clone()).unwrap();
    let resized = image::imageops::resize(&buffer, width, height, FilterType::Lanczos3);
    Plane { width, height, pixels: resized.into_raw() }
}

/// Calls `DynamicImage::write_to` for `ImageFormat::Png`. It fails for an empty picture and
/// for floating-point samples, and for no other; a file whose samples do not pass the
/// allocation limit of loading loads again as the picture that was written.
#[verifier::external_body]
pub(crate) fn image_to_png(image: &DynamicImage) -> (written: Result<Vec<u8>, ImageError>)
    requires
        contents(*image).exact(),
    ensures
        (match written {
            Ok(file) => {
                &&& contents(*image).nonempty() && !contents(*image).kind.is_float()
                &&& file@ == png_file(contents(*image))
                &&& encodes(file@, contents(*image))
            },
            Err(_) => !contents(*image).nonempty() || contents(*image).kind.is_float(),
        }),
{
    let mut file = Cursor::new(Vec::new());
    image.write_to(&mut file, ImageFormat::Png)?;
    Ok(file.into_inner())
}

/// Calls `ImageBuffer::write_to` for `ImageFormat::Png` on a grey plane. It fails for an
/// empty plane and for no other; a file whose samples do not pass the allocation limit of
/// loading loads again as the plane that was written.
#[verifier::external_body]
pub(crate) fn gray_to_png(plane: &Plane<u8>) -> (written: Result<Vec<u8>, ImageError>)
    requires
        plane.wf(),
    ensures
        (match written {
            Ok(file) => {
                &&& plane.width > 0 && plane.height > 0
                &&& file@ == png_file(gray_picture(plane@))
                &&& encodes(file@, gray_picture(plane@))
            },
            Err(_) => plane.width == 0 || plane.height == 0,
        }),
{
    let buffer = GrayImage::from_raw(plane.width, plane.height, plane.pixels.clone()).unwrap();
    let mut file = Cursor::new(Vec::new());
    buffer.write_to(&mut file, ImageFormat::Png)?;
    Ok(file.into_inner())
}

/// Calls `ImageBuffer::write_to` for `ImageFormat::Png` on a plane of red, green and blue.
/// It fails for an empty plane and for no other; a file whose samples do not pass the
/// allocation limit of loading loads again as the plane that was written.
#[verifier::external_body]
pub(crate) fn rgb_to_png(plane: &Plane<[u8; 3]>) -> (written: Result<Vec<u8>, ImageError>)
    requires
        plane.wf(),
    ensures
        (match written {
            Ok(file) => {
                &&& plane.width > 0 && plane.height > 0
                &&& file@ == png_file(rgb_picture(plane@))
                &&& encodes(file@, rgb_picture(plane@))
            },
            Err(_) => plane.width == 0 || plane.height == 0,
        }),
{
    let buffer = RgbImage::from_raw(plane.width, plane.height, plane.pixels.concat()).unwrap();
    let mut file = Cursor::new(Vec::new());
    buffer.write_to(&mut file, ImageFormat::Png)?;
    Ok(file.into_inner())
}

/// Tells whether a picture can be given four channels of eight bits.
pub(crate) fn size_can_expand(image: &DynamicImage) -> (expandable: bool)
    requires
        contents(*image).byte_size() <= LOAD_LIMIT,
    ensures
        expandable == can_expand(contents(*image).width, contents(*image).height),
{
    let width: u32 = image_width(image);
    let height: u32 = image_height(image);
    proof {
        let b = contents(*image).kind.bytes() as int;
        assert(width * height <= width * height * b) by (nonlinear_arith)
            requires
                0 <= width,
                0 <= height,
                1 <= b,
        ;
        assert(4 * width * height == 4 * (width * height)) by (nonlinear_arith);
    }
    4 * (width as u64 * height as u64) <= isize::MAX as u64
}

/// Calls `ImageBuffer::from_raw` and makes the buffer a `DynamicImage`: a picture with the
/// pixels of a plane.
#[verifier::external_body]
pub(crate) fn rgba_image(plane: &Plane<[u8; 4]>) -> (image: DynamicImage)
    requires
        plane.wf(),
    ensures
        contents(image) == rgba_picture(plane@),
{
    let buffer = RgbaImage::from_raw(plane.width, plane.height, plane.pixels.concat()).unwrap();
    DynamicImage::ImageRgba8(buffer)
}

} // verus!
