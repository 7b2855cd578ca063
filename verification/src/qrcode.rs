//! QR codes of clipboard content, as SVG.
use vstd::prelude::*;
use vstd::utf8::encode_utf8;
use ::qrcode::types::QrError;

verus! {

/// What `qrcode::QrCode::new` followed by the SVG renderer, with minimum and
/// maximum square sizes `min_side` and `max_side`, produces for the bytes:
/// the failure of `QrCode::new`, or the SVG text. A function of its arguments
/// alone.
pub uninterp spec fn qr_svg(data: Seq<u8>, min_side: u32, max_side: u32) -> Result<Seq<char>, QrFailure>;

/// Why no QR code could be made (the variants of `qrcode::types::QrError`).
#[derive(Clone, Copy, Debug, PartialEq, Eq, Structural)]
pub enum QrFailure {
    DataTooLong,
    InvalidVersion,
    UnsupportedCharacterSet,
    InvalidEciDesignator,
    InvalidCharacter,
}

impl QrFailure {
    /// The text of the failure, as `QrError`'s `Display` writes it.
    pub open spec fn text(self) -> Seq<char> {
        match self {
            QrFailure::DataTooLong => "data too long"@,
            QrFailure::InvalidVersion => "invalid version"@,
            QrFailure::UnsupportedCharacterSet => "unsupported character set"@,
            QrFailure::InvalidEciDesignator => "invalid ECI designator"@,
            QrFailure::InvalidCharacter => "invalid character"@,
        }
    }

    /// The text of the failure.
    pub fn message(&self) -> (r: String)
        ensures
            r@ == self.text(),
    {
        match self {
            QrFailure::DataTooLong => "data too long".to_owned(),
            QrFailure::InvalidVersion => "invalid version".to_owned(),
            QrFailure::UnsupportedCharacterSet => "unsupported character set".to_owned(),
            QrFailure::InvalidEciDesignator => "invalid ECI designator".to_owned(),
            QrFailure::InvalidCharacter => "invalid character".to_owned(),
        }
    }
}

/// A result with its text taken by its view.
pub open spec fn text_result(r: Result<String, QrFailure>) -> Result<Seq<char>, QrFailure> {
    match r {
        Ok(s) => Ok(s@),
        Err(f) => Err(f),
    }
}

/// `qrcode::QrCode::new`, then `render::<svg::Color>()` with
/// `min_dimensions(min_side, min_side)`, `max_dimensions(max_side, max_side)`
/// and `build()`: the SVG text, or the variant of `QrError` that `QrCode::new`
/// returned, as `qr_svg` names them. The sizes are bounded so that the
/// renderer's `u32` arithmetic cannot overflow.
#[verifier::external_body]
fn render_qr_svg(data: &[u8], min_side: u32, max_side: u32) -> (r: Result<String, QrFailure>)
    requires
        min_side <= 100_000,
    ensures
        text_result(r) == qr_svg(data@, min_side, max_side),
{
    match ::qrcode::QrCode::new(data) {
        Ok(code) => Ok(code.render::<::qrcode::render::svg::Color>()
            .min_dimensions(min_side, min_side).max_dimensions(max_side, max_side).build()),
        Err(QrError::DataTooLong) => Err(QrFailure::DataTooLong),
        Err(QrError::InvalidVersion) => Err(QrFailure::InvalidVersion),
        Err(QrError::UnsupportedCharacterSet) => Err(QrFailure::UnsupportedCharacterSet),
        Err(QrError::InvalidEciDesignator) => Err(QrFailure::InvalidEciDesignator),
        Err(QrError::InvalidCharacter) => Err(QrFailure::InvalidCharacter),
    }
}

/// An SVG QR code, at least 200 and at most 400 pixels square, of the content's
/// UTF-8 bytes; or the text of the reason none could be made.
pub fn generate_qr_code(content: String) -> (r: Result<String, String>)
    ensures
        r is Ok <==> qr_svg(encode_utf8(content@), 200, 400) is Ok,
        r matches Ok(svg) ==> qr_svg(encode_utf8(content@), 200, 400) == Ok::<Seq<char>, QrFailure>(
            svg@,
        ),
        r matches Err(e) ==> qr_svg(encode_utf8(content@), 200, 400) matches Err(f) && e@
            == f.text(),
{
    match render_qr_svg(content.as_str().as_bytes(), 200, 400) {
        Ok(svg) => Ok(svg),
        Err(e) => Err(e.message()),
    }
}

} // verus!
