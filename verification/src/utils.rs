//! Pixel buffers as the library sees them, and the decisions taken before an
//! image is handed to a backend.

use vstd::prelude::*;
use crate::bytes::{matches_at, same_text};
use crate::graphic::TerminalSize;

verus! {

/// How the samples of a pixel are laid out.
#[derive(Debug, Clone, Copy, PartialEq, Eq, Structural)]
pub enum ColorModel {
    /// 8-bit luminance.
    L8,
    /// 8-bit luminance and alpha.
    La8,
    /// 8-bit red, green, blue.
    Rgb8,
    /// 8-bit red, green, blue and alpha.
    Rgba8,
    /// 16-bit luminance.
    L16,
    /// 16-bit luminance and alpha.
    La16,
    /// 16-bit red, green, blue.
    Rgb16,
    /// 16-bit red, green, blue and alpha.
    Rgba16,
    /// 8-bit blue, green, red.
    Bgr8,
    /// 8-bit blue, green, red and alpha.
    Bgra8,
}

impl ColorModel {
    /// The layout carries an alpha channel.
    pub open spec fn carries_alpha(self) -> bool {
        self == ColorModel::La8 || self == ColorModel::Rgba8 || self == ColorModel::La16 || self
            == ColorModel::Rgba16 || self == ColorModel::Bgra8
    }

    /// Bytes that one pixel takes.
    pub open spec fn pixel_bytes(self) -> nat {
        match self {
            ColorModel::L8 => 1,
            ColorModel::La8 => 2,
            ColorModel::L16 => 2,
            ColorModel::Rgb8 => 3,
            ColorModel::Bgr8 => 3,
            ColorModel::Rgba8 => 4,
            ColorModel::Bgra8 => 4,
            ColorModel::La16 => 4,
            ColorModel::Rgb16 => 6,
            ColorModel::Rgba16 => 8,
        }
    }

    /// Bytes that one pixel takes.
    pub fn bytes_per_pixel(self) -> (n: u8)
        ensures
            n == self.pixel_bytes(),
    {
        match self {
            ColorModel::L8 => 1,
            ColorModel::La8 => 2,
            ColorModel::L16 => 2,
            ColorModel::Rgb8 => 3,
            ColorModel::Bgr8 => 3,
            ColorModel::Rgba8 => 4,
            ColorModel::Bgra8 => 4,
            ColorModel::La16 => 4,
            ColorModel::Rgb16 => 6,
            ColorModel::Rgba16 => 8,
        }
    }
}

/// A decoded raster image: its dimensions, its layout and its raw samples,
/// row by row.
pub struct PixelBuffer {
    pub width: u32,
    pub height: u32,
    pub color: ColorModel,
    pub samples: Vec<u8>,
}

impl PixelBuffer {
    /// The samples cover the image exactly.
    pub open spec fn complete(&self) -> bool {
        self.samples@.len() == self.width * self.height * self.color.pixel_bytes()
    }
}

/// Whether the image carries an alpha channel.
pub fn has_alpha(img: &PixelBuffer) -> (alpha: bool)
    ensures
        alpha == img.color.carries_alpha(),
{
    match img.color {
        ColorModel::La8 => true,
        ColorModel::Rgba8 => true,
        ColorModel::La16 => true,
        ColorModel::Rgba16 => true,
        ColorModel::Bgra8 => true,
        ColorModel::L8 => false,
        ColorModel::Rgb8 => false,
        ColorModel::L16 => false,
        ColorModel::Rgb16 => false,
        ColorModel::Bgr8 => false,
    }
}

/// What has to happen to an image's samples before a backend takes them.
#[derive(Debug, Clone, Copy, PartialEq, Eq, Structural)]
pub enum Conversion {
    /// Already 8-bit RGB or RGBA.
    Keep,
    /// Convert to 8-bit RGBA.
    ToRgba8,
    /// Convert to 8-bit RGB.
    ToRgb8,
}

/// The conversion that brings an image of the given layout to 8-bit RGB or
/// RGBA: none for those two, RGBA for every other layout with alpha, RGB
/// for the rest.
pub open spec fn conversion_for(color: ColorModel) -> Conversion {
    if color == ColorModel::Rgb8 || color == ColorModel::Rgba8 {
        Conversion::Keep
    } else if color.carries_alpha() {
        Conversion::ToRgba8
    } else {
        Conversion::ToRgb8
    }
}

/// Decides how an image is brought to 8-bit RGB or RGBA.
pub fn convert_to_rgb_rgba(img: &PixelBuffer) -> (conversion: Conversion)
    ensures
        conversion == conversion_for(img.color),
{
    match img.color {
        ColorModel::Rgb8 => Conversion::Keep,
        ColorModel::Rgba8 => Conversion::Keep,
        _ => {
            if has_alpha(img) {
                Conversion::ToRgba8
            } else {
                Conversion::ToRgb8
            }
        },
    }
}

/// Largest height that a resize may ask for.
pub open spec fn capped(height: int) -> int {
    if height > u32::MAX {
        u32::MAX as int
    } else {
        height
    }
}

/// The box an image is shrunk into before display: none when the terminal
/// size is unknown or has a zero pixel dimension, or when the image is not
/// wider than the terminal; else the terminal's pixel width, and the
/// terminal's pixel height scaled by image width over terminal width,
/// rounded down and capped at `u32::MAX`.
pub open spec fn resize_box(img_width: u32, size: Option<TerminalSize>) -> Option<(u32, u32)> {
    match size {
        Some(s) => if s.width == 0 || s.height == 0 || img_width <= s.width {
            None
        } else {
            Some((s.width as u32, capped((img_width * s.height) / (s.width as int)) as u32))
        },
        None => None,
    }
}

/// Decides whether an image is shrunk before display, and into which box.
pub fn prepare_img(img_width: u32, size: &Option<TerminalSize>) -> (target: Option<(u32, u32)>)
    ensures
        target == resize_box(img_width, *size),
{
    match size {
        Some(s) => {
            if s.width == 0 || s.height == 0 || img_width <= s.width as u32 {
                None
            } else {
                assert(img_width * s.height <= 0xffff_ffff * 0xffff) by (nonlinear_arith)
                    requires
                        img_width <= 0xffff_ffff,
                        s.height <= 0xffff,
                ;
                let scaled: u64 = (img_width as u64 * s.height as u64) / (s.width as u64);
                let height: u32 = if scaled > u32::MAX as u64 {
                    u32::MAX
                } else {
                    scaled as u32
                };
                Some((s.width as u32, height))
            }
        },
        None => None,
    }
}

/// The image file formats that can be decoded from a stream.
#[derive(Debug, Clone, Copy, PartialEq, Eq, Structural)]
pub enum ImageKind {
    Jpeg,
    Png,
    Gif,
    WebP,
    Tiff,
    Bmp,
}

/// Why a stream was not taken for an image.
#[derive(Debug, Clone, Copy, PartialEq, Eq, Structural)]
pub enum StreamError {
    /// The content's type could not be told.
    UnknownFormat,
    /// The content's type is not one of the image formats.
    NotAnImage,
}

impl StreamError {
    /// The text shown for the error.
    pub fn message(self) -> (text: &'static str)
        ensures
            text@ == match self {
                StreamError::UnknownFormat => "Unknow date format from stdin"@,
                StreamError::NotAnImage => "Failed to decode Image"@,
            },
    {
        match self {
            StreamError::UnknownFormat => "Unknow date format from stdin",
            StreamError::NotAnImage => "Failed to decode Image",
        }
    }
}

/// The MIME type that content sniffing gives for `data`, if it knows the
/// content.
pub uninterp spec fn sniffed_mime(data: Seq<u8>) -> Option<Seq<char>>;

/// Calls `infer::get` and, on a match, `Type::mime_type`.
///
/// Trusted: the result depends on the bytes alone, and is named
/// `sniffed_mime`. The crate tries its built-in matchers in a fixed order
/// on the buffer and hands back the first that matches.
#[verifier::external_body]
fn sniff_mime(data: &[u8]) -> (mime: Option<String>)
    ensures
        match mime {
            Some(m) => sniffed_mime(data@) == Some(m@),
            None => sniffed_mime(data@) is None,
        },
{
    match infer::get(data) {
        Some(kind) => Some(kind.mime_type().to_string()),
        None => None,
    }
}

/// The image format that a MIME type stands for, if it is one of the six.
pub open spec fn kind_of_mime(mime: Seq<char>) -> Option<ImageKind> {
    if mime == "image/jpeg"@ {
        Some(ImageKind::Jpeg)
    } else if mime == "image/png"@ {
        Some(ImageKind::Png)
    } else if mime == "image/gif"@ {
        Some(ImageKind::Gif)
    } else if mime == "image/webp"@ {
        Some(ImageKind::WebP)
    } else if mime == "image/tiff"@ {
        Some(ImageKind::Tiff)
    } else if mime == "image/bmp"@ {
        Some(ImageKind::Bmp)
    } else {
        None
    }
}

/// Maps a MIME type to the image format it stands for.
pub fn get_image_format(mime: &str) -> (kind: Option<ImageKind>)
    ensures
        kind == kind_of_mime(mime@),
{
    if same_text(mime, "image/jpeg") {
        Some(ImageKind::Jpeg)
    } else if same_text(mime, "image/png") {
        Some(ImageKind::Png)
    } else if same_text(mime, "image/gif") {
        Some(ImageKind::Gif)
    } else if same_text(mime, "image/webp") {
        Some(ImageKind::WebP)
    } else if same_text(mime, "image/tiff") {
        Some(ImageKind::Tiff)
    } else if same_text(mime, "image/bmp") {
        Some(ImageKind::Bmp)
    } else {
        None
    }
}

/// What a sniffed MIME type says about a stream: without one the format
/// is unknown; with one that is no image format the stream is no image;
/// else the stream is an image of that format.
pub open spec fn stream_kind(mime: Option<Seq<char>>) -> Result<ImageKind, StreamError> {
    match mime {
        Some(m) => match kind_of_mime(m) {
            Some(kind) => Ok(kind),
            None => Err(StreamError::NotAnImage),
        },
        None => Err(StreamError::UnknownFormat),
    }
}

/// Decides from a sniffed MIME type how a stream is decoded.
pub fn kind_of_sniffed(mime: Option<&str>) -> (kind: Result<ImageKind, StreamError>)
    ensures
        kind == stream_kind(
            match mime {
                Some(m) => Some(m@),
                None => None,
            },
        ),
{
    match mime {
        Some(m) => match get_image_format(m) {
            Some(kind) => Ok(kind),
            None => Err(StreamError::NotAnImage),
        },
        None => Err(StreamError::UnknownFormat),
    }
}

/// Decides how the bytes read from a stream are decoded: by the image
/// format that content sniffing finds in them.
pub fn read_img_from_stdio(buffer: &[u8]) -> (kind: Result<ImageKind, StreamError>)
    ensures
        kind == stream_kind(sniffed_mime(buffer@)),
{
    match sniff_mime(buffer) {
        Some(m) => kind_of_sniffed(Some(m.as_str())),
        None => kind_of_sniffed(None),
    }
}

/// The text ends with the suffix.
pub open spec fn ends_with(text: Seq<u8>, suffix: Seq<u8>) -> bool {
    suffix.len() <= text.len() && text.subrange(text.len() - suffix.len(), text.len() as int)
        == suffix
}

/// How a file is turned into pixels.
#[derive(Debug, Clone, Copy, PartialEq, Eq, Structural)]
pub enum Source {
    /// A vector drawing, to be rasterised at the given width.
    Vector { width: u32 },
    /// A raster image, to be decoded.
    Raster,
}

/// Width, in pixels, at which vector drawings are rasterised.
pub const VECTOR_WIDTH: u32 = 1000;

/// Decides from a file's path how it is turned into pixels: a path whose
/// UTF-8 form ends in `.svg` is a vector drawing, any other a raster image.
pub fn get_image(path: &str) -> (source: Source)
    ensures
        source == if ends_with(
            vstd::utf8::encode_utf8(path@),
            vstd::utf8::encode_utf8(".svg"@),
        ) {
            Source::Vector { width: VECTOR_WIDTH }
        } else {
            Source::Raster
        },
{
    let text: &[u8] = path.as_bytes();
    let suffix: &[u8] = ".svg".as_bytes();
    if suffix.len() <= text.len() && matches_at(text, suffix, text.len() - suffix.len()) {
        Source::Vector { width: VECTOR_WIDTH }
    } else {
        Source::Raster
    }
}

} // verus!
