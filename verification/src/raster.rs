//! Cutting one image to one size: decode, resize to fill, encode.
//!
//! Decoding, resampling and encoding are the `image` crate's work. What this
//! module adds is the order of the steps, the errors, and the bounds within
//! which the crate is asked to work.

use vstd::prelude::*;
use vstd::string::*;
use image::{DynamicImage, GenericImageView, ImageError, ImageFormat};

verus! {

/// A decoded image of the `image` crate. Nothing of its content is known here.
#[verifier::external_type_specification]
#[verifier::external_body]
pub struct ExDynamicImage(image::DynamicImage);

/// An error of the `image` crate.
#[verifier::external_type_specification]
#[verifier::external_body]
pub struct ExImageError(image::ImageError);

/// Why the decoder's result is refused when it holds no pixel.
pub const EMPTY_IMAGE: &'static str = "the image has no pixels";

/// The widest and the highest that a JPEG file can be.
pub const MAX_SIDE: u32 = 65535;

/// Why a size beyond `MAX_SIDE` is refused.
pub const TOO_LARGE: &'static str = "the size asked for is more than a JPEG file can hold";

/// The longest side, of a source or of a source scaled to cover the size
/// asked for, that the resampler is handed.
pub const MAX_EDGE: u32 = 1048576;

/// Why an image beyond `MAX_EDGE` is refused.
pub const TOO_LONG: &'static str = "the image, or the image scaled to cover the size asked for, has a side too long to resample";

/// Why one image could not be cut.
#[derive(Debug)]
pub enum TransformError {
    /// The source is not an image that can be decoded; holds the reason.
    DecodeFailed(String),
    /// The image is too long on one side to be resampled; holds the reason.
    ResizeFailed(String),
    /// The result cannot be written in the output format; holds the reason.
    EncodeFailed(String),
}

impl TransformError {
    /// The reason that the error holds.
    pub open spec fn reason(self) -> Seq<char> {
        match self {
            TransformError::DecodeFailed(reason) => reason@,
            TransformError::ResizeFailed(reason) => reason@,
            TransformError::EncodeFailed(reason) => reason@,
        }
    }
}

/// An image in memory together with its width and height.
pub struct Raster {
    width: u32,
    height: u32,
    image: DynamicImage,
}

impl View for Raster {
    type V = (u32, u32);

    /// A raster is seen as its width and height. What it holds beside them
    /// is told by `picture`, `layout` and `samples`.
    closed spec fn view(&self) -> (u32, u32) {
        (self.width, self.height)
    }
}

impl Raster {
    /// The raster holds at least one pixel.
    pub open spec fn has_pixels(&self) -> bool {
        self@.0 >= 1 && self@.1 >= 1
    }

    /// The width in pixels.
    pub fn width(&self) -> (w: u32)
        ensures
            w == self@.0,
    {
        self.width
    }

    /// The height in pixels.
    pub fn height(&self) -> (h: u32)
        ensures
            h == self@.1,
    {
        self.height
    }

    /// The image itself.
    pub fn image(&self) -> (image: &DynamicImage)
        ensures
            *image == self.picture(),
    {
        &self.image
    }

    /// The image that the raster holds: the one that `image` hands out and
    /// that `encoding` speaks of.
    pub closed spec fn picture(&self) -> DynamicImage {
        self.image
    }

    /// The colour type of the raster, as a number.
    pub open spec fn layout(&self) -> u8 {
        layout_of(self.picture())
    }

    /// The samples of the raster's pixels.
    pub open spec fn samples(&self) -> Seq<u8> {
        samples_of(self.picture())
    }

    /// The bytes of the JPEG file of the raster, where it has one: what the
    /// `image` crate writes for its size, colour type and samples.
    pub open spec fn encoding(&self) -> Option<Seq<u8>> {
        jpeg_of(self@.0, self@.1, self.layout(), self.samples())
    }
}

/// An image of the size `source` can be resampled to cover `width` by
/// `height`: no side of it is longer than `MAX_EDGE`, and none is once it is
/// scaled, in its own proportions, until it covers the size asked for.
pub open spec fn resizable(source: (u32, u32), width: u32, height: u32) -> bool {
    &&& source.0 <= MAX_EDGE
    &&& source.1 <= MAX_EDGE
    &&& source.0 * height <= MAX_EDGE * source.1
    &&& source.1 * width <= MAX_EDGE * source.0
}

/// The size of the image that `bytes` hold in the format that the extension
/// of `path` names. There is none where the extension names no format that
/// the `image` crate reads, or where the bytes do not decode in it.
pub uninterp spec fn decoded_size(path: Seq<char>, bytes: Seq<u8>) -> Option<(u32, u32)>;

/// The colour type, as a number, of the image that `bytes` hold in the format
/// that the extension of `path` names.
pub uninterp spec fn decoded_layout(path: Seq<char>, bytes: Seq<u8>) -> u8;

/// The samples of the image that `bytes` hold in the format that the
/// extension of `path` names.
pub uninterp spec fn decoded_samples(path: Seq<char>, bytes: Seq<u8>) -> Seq<u8>;

/// The samples of what the `image` crate's resize-to-fill, with the triangle
/// filter, makes of an image of that colour type, size and samples when asked
/// for `width` by `height`: the source scaled until it covers the size asked
/// for, and cropped about its centre.
pub uninterp spec fn filled_samples(
    layout: u8,
    source: (u32, u32),
    samples: Seq<u8>,
    width: u32,
    height: u32,
) -> Seq<u8>;

/// What `image` holds: the samples of its pixels, row by row, in the byte
/// order of the machine, as the `image` crate hands them to an encoder.
pub uninterp spec fn samples_of(image: DynamicImage) -> Seq<u8>;

/// Which of the `image` crate's colour types `image` has, as a number.
pub uninterp spec fn layout_of(image: DynamicImage) -> u8;

/// The bytes of the JPEG file that the `image` crate writes, at its default
/// quality, for an image of that size, colour type and samples. There is none
/// where the crate refuses to write one.
pub uninterp spec fn jpeg_of(width: u32, height: u32, layout: u8, samples: Seq<u8>) -> Option<
    Seq<u8>,
>;

/// `ImageFormat::from_path`, then `image::load_from_memory_with_format`: the
/// image that `bytes` hold in the format that the extension of `path` names,
/// with its size beside it, or the crate's error. The claim is that the same
/// path and bytes always decode alike: to an image of the size
/// `decoded_size`, the colour type `decoded_layout` and the samples
/// `decoded_samples`, or to an error where `decoded_size` is `None`.
#[verifier::external_body]
fn decode(path: &str, bytes: &[u8]) -> (out: Result<Raster, ImageError>)
    ensures
        match out {
            Ok(raster) => {
                &&& decoded_size(path@, bytes@) == Some(raster@)
                &&& layout_of(raster.image) == decoded_layout(path@, bytes@)
                &&& samples_of(raster.image) == decoded_samples(path@, bytes@)
            },
            Err(_) => decoded_size(path@, bytes@) is None,
        },
{
    let image = image::load_from_memory_with_format(bytes, ImageFormat::from_path(path)?)?;
    let (width, height) = image.dimensions();
    Ok(Raster { width, height, image })
}

/// `DynamicImage::resize_to_fill` with the triangle filter: the image scaled
/// to cover `width` by `height` and cropped about its centre, with its size
/// beside it.
///
/// What is asked of the caller, and why. The source must hold a pixel: the
/// crate divides by the source's size. The size asked for must be positive
/// and within `MAX_SIDE`. And the pair must be `resizable`: the crate scales
/// the source in its own proportions until it covers the size asked for, and
/// resamples it row by row and column by column with positions held in
/// 32-bit floating point. Within `MAX_EDGE`, a side, the positions along it
/// and the halves between them are all held exactly or rounded by far less
/// than a pixel, so the pixel under each position lies on the source and
/// weighs at least a half; beyond, a position can round off the source, all
/// weights are nought, and the crate panics on their sum.
///
/// The claims. The result has exactly the size asked for: the crate scales
/// one side to the side asked for and the other to no less, neither near its
/// own limit on a side, and the crop cuts both to the size asked for. The
/// colour type is that of the source. The samples depend on the source's
/// colour type, size and samples and on the size asked for alone
/// (`filled_samples`).
#[verifier::external_body]
fn resize_to_fill(source: &Raster, width: u32, height: u32) -> (out: Raster)
    requires
        source.has_pixels(),
        1 <= width <= MAX_SIDE,
        1 <= height <= MAX_SIDE,
        resizable(source@, width, height),
    ensures
        out@ == (width, height),
        layout_of(out.image) == layout_of(source.image),
        samples_of(out.image) == filled_samples(
            layout_of(source.image),
            source@,
            samples_of(source.image),
            width,
            height,
        ),
{
    let image = source.image.resize_to_fill(width, height, image::imageops::FilterType::Triangle);
    let (width, height) = image.dimensions();
    Raster { width, height, image }
}

/// `DynamicImage::write_to` with `ImageFormat::Jpeg`: the image as a JPEG
/// file's bytes, or the crate's error. The crate hands the encoder the
/// image's size, colour type and samples and nothing else, so the claim is
/// that those alone decide what is written: the bytes `jpeg_of`, or an error
/// where that is `None`.
#[verifier::external_body]
fn encode_jpeg(raster: &Raster) -> (out: Result<Vec<u8>, ImageError>)
    ensures
        match out {
            Ok(bytes) => jpeg_of(
                raster.width,
                raster.height,
                layout_of(raster.image),
                samples_of(raster.image),
            ) == Some(bytes@),
            Err(_) => jpeg_of(
                raster.width,
                raster.height,
                layout_of(raster.image),
                samples_of(raster.image),
            ) is None,
        },
{
    let mut out = std::io::Cursor::new(Vec::new());
    match raster.image.write_to(&mut out, ImageFormat::Jpeg) {
        Ok(()) => Ok(out.into_inner()),
        Err(e) => Err(e),
    }
}

/// `ImageError`'s `Display`: the error in words. Nothing is claimed of the
/// result.
#[verifier::external_body]
fn error_text(error: &ImageError) -> String {
    error.to_string()
}

/// Whether the image that `bytes` hold at `path` is cut to `width` by
/// `height`: it decodes, it holds a pixel, a JPEG file can hold the size, and
/// it can be resampled to cover that size.
pub open spec fn cuts(path: Seq<char>, bytes: Seq<u8>, width: u32, height: u32) -> bool {
    &&& decoded_size(path, bytes) matches Some(source)
    &&& source.0 >= 1
    &&& source.1 >= 1
    &&& width <= MAX_SIDE
    &&& height <= MAX_SIDE
    &&& resizable(source, width, height)
}

/// The samples of the image that `bytes` hold at `path`, cut to `width` by
/// `height`: the source scaled until it covers that size and cropped about
/// its centre.
pub open spec fn cut_samples(path: Seq<char>, bytes: Seq<u8>, width: u32, height: u32) -> Seq<u8> {
    filled_samples(
        decoded_layout(path, bytes),
        decoded_size(path, bytes)->0,
        decoded_samples(path, bytes),
        width,
        height,
    )
}

/// The bytes of the JPEG file of the image that `bytes` hold at `path`, cut
/// to `width` by `height`, where the cut image has one.
pub open spec fn rendering(path: Seq<char>, bytes: Seq<u8>, width: u32, height: u32) -> Option<
    Seq<u8>,
> {
    jpeg_of(width, height, decoded_layout(path, bytes), cut_samples(path, bytes, width, height))
}

/// The step at which cutting fails, for an image that is not cut: decoding,
/// for bytes that do not decode or hold no pixel; encoding, for a size that a
/// JPEG file cannot hold; else resizing, for an image too long to resample.
pub open spec fn fails_as(
    e: TransformError,
    path: Seq<char>,
    bytes: Seq<u8>,
    width: u32,
    height: u32,
) -> bool {
    match decoded_size(path, bytes) {
        None => e is DecodeFailed,
        Some(source) => if source.0 == 0 || source.1 == 0 {
            e is DecodeFailed && e.reason() == EMPTY_IMAGE@
        } else if width > MAX_SIDE || height > MAX_SIDE {
            e is EncodeFailed && e.reason() == TOO_LARGE@
        } else {
            e is ResizeFailed && e.reason() == TOO_LONG@
        },
    }
}

/// Admits a decoded image if it holds a pixel.
pub fn admit_decoded(decoded: Raster) -> (out: Result<Raster, TransformError>)
    ensures
        match out {
            Ok(raster) => decoded.has_pixels() && raster == decoded,
            Err(e) => !decoded.has_pixels() && e is DecodeFailed && e.reason() == EMPTY_IMAGE@,
        },
{
    if decoded.width == 0 || decoded.height == 0 {
        Err(TransformError::DecodeFailed(EMPTY_IMAGE.to_owned()))
    } else {
        Ok(decoded)
    }
}

/// Admits a size if a JPEG file can hold it.
pub fn admit_size(width: u32, height: u32) -> (out: Result<(), TransformError>)
    ensures
        match out {
            Ok(_) => width <= MAX_SIDE && height <= MAX_SIDE,
            Err(e) => {
                &&& width > MAX_SIDE || height > MAX_SIDE
                &&& e is EncodeFailed
                &&& e.reason() == TOO_LARGE@
            },
        },
{
    if width > MAX_SIDE || height > MAX_SIDE {
        Err(TransformError::EncodeFailed(TOO_LARGE.to_owned()))
    } else {
        Ok(())
    }
}

/// Admits a source and a size if the source can be resampled to cover the
/// size.
pub fn admit_scale(source: &Raster, width: u32, height: u32) -> (out: Result<(), TransformError>)
    ensures
        match out {
            Ok(_) => resizable(source@, width, height),
            Err(e) => {
                &&& !resizable(source@, width, height)
                &&& e is ResizeFailed
                &&& e.reason() == TOO_LONG@
            },
        },
{
    if source.width > MAX_EDGE || source.height > MAX_EDGE {
        return Err(TransformError::ResizeFailed(TOO_LONG.to_owned()));
    }
    let edge: u64 = MAX_EDGE as u64;
    let source_width: u64 = source.width as u64;
    let source_height: u64 = source.height as u64;
    let asked_width: u64 = width as u64;
    let asked_height: u64 = height as u64;
    proof {
        assert(source_width * asked_height <= 0x10_0000 * 0xffff_ffff) by (nonlinear_arith)
            requires
                source_width <= 0x10_0000,
                asked_height <= 0xffff_ffff,
        ;
        assert(source_height * asked_width <= 0x10_0000 * 0xffff_ffff) by (nonlinear_arith)
            requires
                source_height <= 0x10_0000,
                asked_width <= 0xffff_ffff,
        ;
        assert(edge * source_height <= 0x10_0000 * 0x10_0000) by (nonlinear_arith)
            requires
                edge == 0x10_0000,
                source_height <= 0x10_0000,
        ;
        assert(edge * source_width <= 0x10_0000 * 0x10_0000) by (nonlinear_arith)
            requires
                edge == 0x10_0000,
                source_width <= 0x10_0000,
        ;
    }
    if source_width * asked_height <= edge * source_height && source_height * asked_width <= edge
        * source_width {
        Ok(())
    } else {
        Err(TransformError::ResizeFailed(TOO_LONG.to_owned()))
    }
}

/// Cuts the image that `bytes` hold to exactly `width` by `height`: decoded in
/// the format that the extension of `path` names, scaled until it covers the
/// size asked for, and cropped about its centre.
///
/// A raster comes back exactly where the image cuts: for every source that
/// decodes and holds a pixel and every size from one pixel up that a JPEG
/// file can hold, as long as no side grows beyond `MAX_EDGE` on the way. It has
/// the size asked for, the colour type of the source and the samples of the
/// source so scaled and cropped. Where none comes back, the error names the
/// first step that failed: decoding, the size being more than a JPEG file can
/// hold, or the image being too long to resample.
pub fn transform_image(path: &str, bytes: &[u8], width: u32, height: u32) -> (out: Result<
    Raster,
    TransformError,
>)
    requires
        width >= 1,
        height >= 1,
    ensures
        out is Ok <==> cuts(path@, bytes@, width, height),
        out matches Ok(raster) ==> {
            &&& raster@ == (width, height)
            &&& raster.layout() == decoded_layout(path@, bytes@)
            &&& raster.samples() == cut_samples(path@, bytes@, width, height)
            &&& raster.encoding() == rendering(path@, bytes@, width, height)
        },
        out matches Err(e) ==> fails_as(e, path@, bytes@, width, height),
{
    let decoded = match decode(path, bytes) {
        Ok(raster) => raster,
        Err(e) => {
            return Err(TransformError::DecodeFailed(error_text(&e)));
        },
    };
    let source = match admit_decoded(decoded) {
        Ok(source) => source,
        Err(e) => {
            return Err(e);
        },
    };
    match admit_size(width, height) {
        Ok(_) => {},
        Err(e) => {
            return Err(e);
        },
    }
    match admit_scale(&source, width, height) {
        Ok(_) => {},
        Err(e) => {
            return Err(e);
        },
    }
    Ok(resize_to_fill(&source, width, height))
}

/// The bytes of `raster` as a JPEG file: its encoding where it has one, and
/// `EncodeFailed` with the encoder's reason where it has none.
pub fn encode_image(raster: &Raster) -> (out: Result<Vec<u8>, TransformError>)
    ensures
        match out {
            Ok(bytes) => raster.encoding() == Some(bytes@),
            Err(e) => raster.encoding() is None && e is EncodeFailed,
        },
{
    match encode_jpeg(raster) {
        Ok(bytes) => Ok(bytes),
        Err(e) => Err(TransformError::EncodeFailed(error_text(&e))),
    }
}

/// One unit's work from bytes to bytes: cuts the image that `bytes` hold to
/// `width` by `height` and encodes the result as a JPEG file. Bytes come back
/// exactly where the image cuts and the cut image has an encoding, and they
/// are that encoding. Where the image cuts and has none, the error is
/// `EncodeFailed`; where it does not cut, the error is that of the cut.
pub fn render(path: &str, bytes: &[u8], width: u32, height: u32) -> (out: Result<
    Vec<u8>,
    TransformError,
>)
    requires
        width >= 1,
        height >= 1,
    ensures
        out is Ok <==> cuts(path@, bytes@, width, height) && rendering(
            path@,
            bytes@,
            width,
            height,
        ) is Some,
        out matches Ok(encoded) ==> rendering(path@, bytes@, width, height) == Some(encoded@),
        out matches Err(e) ==> if cuts(path@, bytes@, width, height) {
            e is EncodeFailed
        } else {
            fails_as(e, path@, bytes@, width, height)
        },
{
    match transform_image(path, bytes, width, height) {
        Ok(raster) => encode_image(&raster),
        Err(e) => Err(e),
    }
}

} // verus!
