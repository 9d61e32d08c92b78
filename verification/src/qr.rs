//! The connection URL as a QR code in SVG, so that a phone's camera can open it.
use vstd::prelude::*;
use qrcode::render::svg;
use qrcode::types::QrError;
use qrcode::QrCode;

verus! {

/// Why no QR code could be made (the kinds of `qrcode`'s `QrError`).
#[derive(Debug, Clone, Copy, PartialEq, Eq)]
pub enum QrFailure {
    DataTooLong,
    InvalidVersion,
    UnsupportedCharacterSet,
    InvalidEciDesignator,
    InvalidCharacter,
}

impl QrFailure {
    /// The failure in words, as `qrcode` words it.
    pub fn to_text(self) -> (r: &'static str)
        ensures
            r@ == match self {
                QrFailure::DataTooLong => "data too long"@,
                QrFailure::InvalidVersion => "invalid version"@,
                QrFailure::UnsupportedCharacterSet => "unsupported character set"@,
                QrFailure::InvalidEciDesignator => "invalid ECI designator"@,
                QrFailure::InvalidCharacter => "invalid character"@,
            },
    {
        match self {
            QrFailure::DataTooLong => "data too long",
            QrFailure::InvalidVersion => "invalid version",
            QrFailure::UnsupportedCharacterSet => "unsupported character set",
            QrFailure::InvalidEciDesignator => "invalid ECI designator",
            QrFailure::InvalidCharacter => "invalid character",
        }
    }
}

/// The SVG text of the QR code that `qrcode` makes for `data` (smallest symbol, medium
/// error correction), drawn at least `min_size` pixels wide and high with dark modules
/// in colour `dark` on `light`; or why it could not make one.
pub uninterp spec fn qr_svg(data: Seq<u8>, min_size: u32, dark: Seq<char>, light: Seq<char>) -> Result<Seq<char>, QrFailure>;

/// Makes the QR code of `data` with `qrcode::QrCode::new` and renders it as SVG with
/// `min_dimensions(min_size, min_size)`, `dark_color(dark)` and `light_color(light)`.
/// The contract names the result; it claims nothing of its shape.
#[verifier::external_body]
fn render_qr_svg(data: &[u8], min_size: u32, dark: &str, light: &str) -> (r: Result<String, QrFailure>)
    requires
        min_size <= 4096,
    ensures
        match qr_svg(data@, min_size, dark@, light@) {
            Ok(s) => r matches Ok(t) && t@ == s,
            Err(f) => r == Err::<String, QrFailure>(f),
        },
{
    match QrCode::new(data) {
        Ok(code) => Ok(
            code.render().min_dimensions(min_size, min_size).dark_color(svg::Color(dark)).light_color(
                svg::Color(light),
            ).build(),
        ),
        Err(QrError::DataTooLong) => Err(QrFailure::DataTooLong),
        Err(QrError::InvalidVersion) => Err(QrFailure::InvalidVersion),
        Err(QrError::UnsupportedCharacterSet) => Err(QrFailure::UnsupportedCharacterSet),
        Err(QrError::InvalidEciDesignator) => Err(QrFailure::InvalidEciDesignator),
        Err(QrError::InvalidCharacter) => Err(QrFailure::InvalidCharacter),
    }
}

/// The QR code of `url` (its UTF-8 bytes) as SVG, at least 220 pixels square, in the
/// landing page's dark blue on white.
pub fn svg_for_url(url: &str) -> (r: Result<String, QrFailure>)
    ensures
        match qr_svg(vstd::utf8::encode_utf8(url@), 220, "#101526"@, "#ffffff"@) {
            Ok(s) => r matches Ok(t) && t@ == s,
            Err(f) => r == Err::<String, QrFailure>(f),
        },
{
    render_qr_svg(url.as_bytes(), 220, "#101526", "#ffffff")
}

} // verus!
