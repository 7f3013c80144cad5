//! Decoding the bytes of an image: as a raster image where they are one,
//! and as a vector image otherwise.

use vstd::prelude::*;
use std::sync::Arc;
use crate::fetch::FetchErr;

verus! {

/// `image::DynamicImage`, taken as it is.
#[verifier::external_type_specification]
#[verifier::external_body]
pub struct ExDynamicImage(image::DynamicImage);

/// `image::ImageError`, taken as it is.
#[verifier::external_type_specification]
#[verifier::external_body]
pub struct ExImageError(image::ImageError);

/// `usvg::Tree`, taken as it is.
#[verifier::external_type_specification]
#[verifier::external_body]
pub struct ExSvgTree(usvg::Tree);

/// `usvg::Error`, taken as it is.
#[verifier::external_type_specification]
#[verifier::external_body]
pub struct ExSvgError(usvg::Error);

/// `usvg::fontdb::Database`, taken as it is.
#[verifier::external_type_specification]
#[verifier::external_body]
pub struct ExFontDatabase(usvg::fontdb::Database);

/// A decoded image.
pub enum ImageOrSvg {
    Image(image::DynamicImage),
    Svg(usvg::Tree),
}

/// Why an image could not be had: one of the ways in which fetching its
/// bytes can fail, or one of the two decoders' errors.
#[derive(Debug)]
pub enum ImageFetchErr {
    DataUrl,
    UrlParse(url::ParseError),
    Ureq(Box<ureq::Error>),
    FileIo(std::io::Error),
    ImageParse(image::ImageError),
    SvgParse(usvg::Error),
}

/// A failure to fetch the bytes of an image, as a failure to have the
/// image: the same kind with the same cause.
pub fn image_fetch_err(e: FetchErr) -> (r: ImageFetchErr)
    ensures
        r == match e {
            FetchErr::DataUrl => ImageFetchErr::DataUrl,
            FetchErr::UrlParse(cause) => ImageFetchErr::UrlParse(cause),
            FetchErr::Ureq(cause) => ImageFetchErr::Ureq(cause),
            FetchErr::FileIo(cause) => ImageFetchErr::FileIo(cause),
        },
{
    match e {
        FetchErr::DataUrl => ImageFetchErr::DataUrl,
        FetchErr::UrlParse(cause) => ImageFetchErr::UrlParse(cause),
        FetchErr::Ureq(cause) => ImageFetchErr::Ureq(cause),
        FetchErr::FileIo(cause) => ImageFetchErr::FileIo(cause),
    }
}

/// `image::ImageReader::new` on the bytes, then `with_guessed_format` and
/// `decode`: the raster image that the bytes hold, if the decoder finds
/// one. The decoder consults the hooks that are registered with it in the
/// running process, so nothing is promised of what it finds.
#[verifier::external_body]
pub(crate) fn decode_raster(blob: &[u8]) -> (r: Result<image::DynamicImage, image::ImageError>) {
    match image::ImageReader::new(std::io::Cursor::new(blob)).with_guessed_format() {
        Ok(reader) => reader.decode(),
        Err(e) => Err(image::ImageError::IoError(e)),
    }
}

/// `usvg::Tree::from_data` with default options but for the fonts: the
/// vector image that the bytes hold, if they hold one.
#[verifier::external_body]
pub(crate) fn decode_vector(blob: &[u8], fonts: &Arc<usvg::fontdb::Database>) -> (r: Result<
    usvg::Tree,
    usvg::Error,
>) {
    let options = usvg::Options { fontdb: fonts.clone(), ..Default::default() };
    usvg::Tree::from_data(blob, &options)
}

/// The image to use where the raster decoder found one: that very image.
/// Its error is dropped, since the vector decoder is tried next.
pub fn raster_or_none(raster: Result<image::DynamicImage, image::ImageError>) -> (r: Option<ImageOrSvg>)
    ensures
        match raster {
            Ok(image) => r == Some(ImageOrSvg::Image(image)),
            Err(_) => r is None,
        },
{
    match raster {
        Ok(image) => Some(ImageOrSvg::Image(image)),
        Err(_) => None,
    }
}

/// The image to use once the bytes turned out to hold no raster image:
/// the vector image, or the error of the vector decoder.
pub fn vector_or_error(vector: Result<usvg::Tree, usvg::Error>) -> (r: Result<ImageOrSvg, usvg::Error>)
    ensures
        match vector {
            Ok(tree) => r == Ok::<ImageOrSvg, usvg::Error>(ImageOrSvg::Svg(tree)),
            Err(e) => r == Err::<ImageOrSvg, usvg::Error>(e),
        },
{
    match vector {
        Ok(tree) => Ok(ImageOrSvg::Svg(tree)),
        Err(e) => Err(e),
    }
}

/// Decodes the bytes of an image, with `fonts` for the text of a vector
/// image: what [`raster_or_none`] makes of the raster decoder's answer,
/// and where that is nothing, what [`vector_or_error`] makes of the
/// vector decoder's. The vector decoder is only tried where the raster
/// decoder failed. Both decoders depend on more than the bytes, so which
/// of the three outcomes comes is theirs to say.
pub fn decode_image(blob: &[u8], fonts: &Arc<usvg::fontdb::Database>) -> (r: Result<
    ImageOrSvg,
    usvg::Error,
>) {
    match raster_or_none(decode_raster(blob)) {
        Some(image) => Ok(image),
        None => vector_or_error(decode_vector(blob, fonts)),
    }
}

} // verus!
