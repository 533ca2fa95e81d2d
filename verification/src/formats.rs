use vstd::prelude::*;

verus! {

/// Image format as detected from a payload's magic bytes. Only the four
/// supported formats are distinguished; every other detectable format is
/// `Other` and is rejected by ingest and validation alike.
#[derive(Debug, Clone, Copy, PartialEq, Eq, Structural)]
pub enum ImgKind {
    Png,
    Jpeg,
    Webp,
    Gif,
    Other,
}

/// The format that magic-byte sniffing detects for these bytes: `None`
/// when no known format matches. A pure function of the bytes.
pub uninterp spec fn kind_of(data: Seq<u8>) -> Option<ImgKind>;

/// Whether these bytes decode as an image of the given supported kind.
/// A pure function of the bytes and the kind.
pub uninterp spec fn decodes_as(data: Seq<u8>, kind: ImgKind) -> bool;

/// Relies on image::guess_format: detection reads only the magic bytes at
/// the start of the buffer, so the result depends on the bytes alone.
#[verifier::external_body]
pub(crate) fn detect_format(data: &Vec<u8>) -> (r: Option<ImgKind>)
    ensures
        r == kind_of(data@),
{
    match image::guess_format(data.as_slice()) {
        Ok(image::ImageFormat::Png) => Some(ImgKind::Png),
        Ok(image::ImageFormat::Jpeg) => Some(ImgKind::Jpeg),
        Ok(image::ImageFormat::WebP) => Some(ImgKind::Webp),
        Ok(image::ImageFormat::Gif) => Some(ImgKind::Gif),
        Ok(_) => Some(ImgKind::Other),
        Err(_) => None,
    }
}

/// Relies on image::load_from_memory_with_format: whether a buffer decodes
/// with a given format depends on the bytes and the format alone.
#[verifier::external_body]
pub(crate) fn decode_ok(data: &Vec<u8>, kind: ImgKind) -> (r: bool)
    requires
        is_supported(kind),
    ensures
        r == decodes_as(data@, kind),
{
    let format = match kind {
        ImgKind::Png => image::ImageFormat::Png,
        ImgKind::Jpeg => image::ImageFormat::Jpeg,
        ImgKind::Webp => image::ImageFormat::WebP,
        ImgKind::Gif => image::ImageFormat::Gif,
        ImgKind::Other => return false,
    };
    image::load_from_memory_with_format(data.as_slice(), format).is_ok()
}

/// The allow-listed set of accepted upload formats.
pub open spec fn is_supported(kind: ImgKind) -> bool {
    kind != ImgKind::Other
}

/// Executable mirror of `is_supported`.
pub fn supported(kind: ImgKind) -> (r: bool)
    ensures
        r == is_supported(kind),
{
    kind != ImgKind::Other
}

/// File extension of a supported format, as ASCII bytes.
pub open spec fn ext_of(kind: ImgKind) -> Seq<u8> {
    match kind {
        ImgKind::Png => seq![112u8, 110u8, 103u8],
        ImgKind::Jpeg => seq![106u8, 112u8, 103u8],
        ImgKind::Webp => seq![119u8, 101u8, 98u8, 112u8],
        ImgKind::Gif => seq![103u8, 105u8, 102u8],
        ImgKind::Other => seq![],
    }
}

/// File extension of a supported format ("png", "jpg", "webp", "gif"),
/// as ASCII bytes.
pub fn extension(kind: ImgKind) -> (r: Vec<u8>)
    requires
        is_supported(kind),
    ensures
        r@ == ext_of(kind),
{
    let mut r: Vec<u8> = Vec::new();
    match kind {
        ImgKind::Png => {
            r.push(112);
            r.push(110);
            r.push(103);
        }
        ImgKind::Jpeg => {
            r.push(106);
            r.push(112);
            r.push(103);
        }
        ImgKind::Webp => {
            r.push(119);
            r.push(101);
            r.push(98);
            r.push(112);
        }
        ImgKind::Gif => {
            r.push(103);
            r.push(105);
            r.push(102);
        }
        ImgKind::Other => {}
    }
    proof {
        assert(r@ =~= ext_of(kind));
    }
    r
}

/// A payload is a valid picture when a supported format is detected and
/// the bytes decode as that format.
pub open spec fn valid_picture(data: Seq<u8>) -> bool {
    match kind_of(data) {
        Some(k) => is_supported(k) && decodes_as(data, k),
        None => false,
    }
}

/// Full validation for a single picture upload: detect the format, require
/// it supported, and decode the payload with the detected format.
pub fn validate_picture(data: &Vec<u8>) -> (r: Result<ImgKind, crate::errors::UploadError>)
    ensures
        r is Ok <==> valid_picture(data@),
        r is Ok ==> kind_of(data@) == Some(r->Ok_0),
        r is Err ==> r->Err_0 == crate::errors::UploadError::UnsupportedFormat,
{
    match detect_format(data) {
        Some(kind) => {
            if supported(kind) {
                if decode_ok(data, kind) {
                    Ok(kind)
                } else {
                    Err(crate::errors::UploadError::UnsupportedFormat)
                }
            } else {
                Err(crate::errors::UploadError::UnsupportedFormat)
            }
        }
        None => Err(crate::errors::UploadError::UnsupportedFormat),
    }
}

} // verus!
