//! Pictures: what the `image` crate makes of the bytes of a file, and what the
//! window shows of it.

use crate::path::{FilePath, PathView};
use vstd::prelude::*;

verus! {

/// A picture: four bytes for each pixel, its red, green, blue and opacity, row
/// after row.
#[derive(Debug)]
pub struct Pixels {
    pub width: u32,
    pub height: u32,
    pub rgba: Vec<u8>,
}

/// A picture as a value.
pub struct PixelsView {
    pub width: nat,
    pub height: nat,
    pub rgba: Seq<u8>,
}

impl View for Pixels {
    type V = PixelsView;

    open spec fn view(&self) -> PixelsView {
        PixelsView { width: self.width as nat, height: self.height as nat, rgba: self.rgba@ }
    }
}

/// An optional picture as a value.
pub open spec fn pixels_opt(p: Option<Pixels>) -> Option<PixelsView> {
    match p {
        Some(q) => Some(q@),
        None => None,
    }
}

impl PixelsView {
    /// Whether there are four bytes for each pixel.
    pub open spec fn complete(self) -> bool {
        self.rgba.len() == 4 * (self.width * self.height)
    }

    /// Whether the picture fills a square of that size as far as its shape
    /// lets it: no side is longer, and one is as long.
    pub open spec fn fills(self, size: nat) -> bool {
        &&& 1 <= self.width <= size
        &&& 1 <= self.height <= size
        &&& self.width == size || self.height == size
    }
}

// ---------------------------------------------------------------------------
// Decoding
// ---------------------------------------------------------------------------

/// The picture that `ImageReader::decode` makes of bytes whose format a file
/// extension names, as RGBA.
pub uninterp spec fn decoded(bytes: Seq<u8>, ext: Seq<char>) -> Option<PixelsView>;

/// Whether `image::load_from_memory` makes a picture of bytes, whose format it
/// guesses.
pub uninterp spec fn recognised(bytes: Seq<u8>) -> bool;

/// Calls `ImageFormat::from_extension`, `ImageReader::decode` and `into_rgba8`.
/// What they make of the bytes depends on them and on the extension alone and
/// is not written out here: it is `decoded` of both, and holds four bytes for
/// each pixel. There is nothing where the extension names no format that can
/// be read, or the bytes are not of that format.
#[verifier::external_body]
fn cover_pixels(bytes: &[u8], ext: &str) -> (p: Option<Pixels>)
    ensures
        pixels_opt(p) == decoded(bytes@, ext@),
        p matches Some(q) ==> q@.complete(),
{
    let format = image::ImageFormat::from_extension(ext)?;
    let reader = image::ImageReader::with_format(std::io::Cursor::new(bytes), format);
    let rgba = reader.decode().ok()?.into_rgba8();
    Some(Pixels { width: rgba.width(), height: rgba.height(), rgba: rgba.into_raw() })
}

/// The picture of a cover: what its bytes, if the file could be read, hold as
/// a file of its extension.
pub open spec fn cover_picture(path: PathView, bytes: Option<Seq<u8>>) -> Option<PixelsView> {
    match (bytes, path.extension()) {
        (Some(b), Some(ext)) => decoded(b, ext),
        _ => None,
    }
}

/// A file of a cover, and its bytes if it could be read.
#[derive(Debug)]
pub struct CoverFile {
    pub path: FilePath,
    pub bytes: Option<Vec<u8>>,
}

/// A file of a cover as a value.
pub struct CoverView {
    pub path: PathView,
    pub bytes: Option<Seq<u8>>,
}

impl View for CoverFile {
    type V = CoverView;

    open spec fn view(&self) -> CoverView {
        CoverView {
            path: self.path@,
            bytes: match self.bytes {
                Some(b) => Some(b@),
                None => None,
            },
        }
    }
}

/// The picture of a cover, if it can be shown.
pub fn load_color_image(cover: &CoverFile) -> (p: Option<Pixels>)
    ensures
        pixels_opt(p) == cover_picture(cover@.path, cover@.bytes),
        p matches Some(q) ==> q@.complete(),
{
    match (&cover.bytes, cover.path.extension()) {
        (Some(bytes), Some(ext)) => cover_pixels(bytes.as_slice(), ext.as_str()),
        _ => None,
    }
}

// ---------------------------------------------------------------------------
// Scaling
// ---------------------------------------------------------------------------

/// Whether `png` is a file that decoding a PNG file of those bytes, scaling it
/// into a square with `DynamicImage::resize` and encoding it as PNG may give.
pub uninterp spec fn may_scale_to_png(bytes: Seq<u8>, size: u32, png: Seq<u8>) -> bool;

/// Whether `pixels` are what loading those bytes and scaling them into a square
/// with `DynamicImage::resize` may give, as RGBA.
pub uninterp spec fn may_scale_to(bytes: Seq<u8>, size: u32, pixels: PixelsView) -> bool;

/// Whether `png`, read again, is a picture that fills the square, and the same
/// as before if that had the size already.
pub open spec fn reads_scaled(bytes: Seq<u8>, size: u32, png: Seq<u8>) -> bool {
    let before = decoded(bytes, "png"@);
    let after = decoded(png, "png"@);
    &&& after matches Some(p) && p.complete() && p.fills(size as nat)
    &&& (before matches Some(p) && p.width == size && p.height == size) ==> after == before
}

/// Whether `png` is a PNG file of the picture scaled into a square.
pub open spec fn scaled_to_png(bytes: Seq<u8>, size: u32, png: Seq<u8>) -> bool {
    may_scale_to_png(bytes, size, png) && reads_scaled(bytes, size, png)
}

/// Calls `ImageReader::decode` on bytes as a PNG file, then
/// `DynamicImage::resize` with the filter `Lanczos3`, then
/// `DynamicImage::write_to` for PNG. There is a result exactly if the bytes can
/// be decoded: every picture that the decoder gives can be encoded. The result
/// is one that the three may give of the bytes and the size, and can itself be
/// decoded; the sides of the picture then keep their ratio within the square,
/// and a picture of that size is the same as before. That two calls give the
/// same bytes is not claimed: the weights of the filter come from `f32::sin`,
/// whose precision differs between machines.
#[verifier::external_body]
pub(crate) fn scaled_png(bytes: &[u8], size: u32) -> (png: Option<Vec<u8>>)
    requires
        1 <= size <= 256,
    ensures
        png is Some <==> decoded(bytes@, "png"@) is Some,
        png matches Some(f) ==> may_scale_to_png(bytes@, size, f@),
        png matches Some(f) ==> reads_scaled(bytes@, size, f@),
{
    let format = image::ImageFormat::Png;
    let reader = image::ImageReader::with_format(std::io::Cursor::new(bytes), format);
    let image = reader.decode().ok()?;
    let scaled = image.resize(size, size, image::imageops::FilterType::Lanczos3);
    let mut png = Vec::new();
    scaled.write_to(&mut std::io::Cursor::new(&mut png), format).ok()?;
    Some(png)
}

/// Calls `image::load_from_memory`, `DynamicImage::resize` with the filter
/// `Lanczos3` and `into_rgba8`. There is a result exactly if the first makes a
/// picture of the bytes. It is one that the three may give of the bytes and the
/// size, holds four bytes for each pixel, and its sides keep their ratio within
/// the square. That two calls give the same pixels is not claimed: the weights
/// of the filter come from `f32::sin`, whose precision differs between
/// machines.
#[verifier::external_body]
fn icon_pixels(bytes: &[u8], size: u32) -> (p: Option<Pixels>)
    requires
        1 <= size <= 256,
    ensures
        p is Some <==> recognised(bytes@),
        p matches Some(q) ==> may_scale_to(bytes@, size, q@),
        p matches Some(q) ==> q@.complete() && q@.fills(size as nat),
{
    let image = image::load_from_memory(bytes).ok()?;
    let rgba = image.resize(size, size, image::imageops::FilterType::Lanczos3).into_rgba8();
    Some(Pixels { width: rgba.width(), height: rgba.height(), rgba: rgba.into_raw() })
}

/// The size of the icon of the window.
pub const WINDOW_ICON_SIZE: u32 = 64;

/// The icon of the window: the picture that the bytes hold, scaled into its
/// square; there is one exactly if they hold a picture.
pub fn load_png_icon(bytes: &[u8]) -> (p: Option<Pixels>)
    ensures
        p is Some <==> recognised(bytes@),
        p matches Some(q) ==> may_scale_to(bytes@, WINDOW_ICON_SIZE, q@) && q@.complete()
            && q@.fills(WINDOW_ICON_SIZE as nat),
{
    icon_pixels(bytes, WINDOW_ICON_SIZE)
}

} // verus!
