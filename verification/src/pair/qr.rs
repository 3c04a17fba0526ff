//! A string as a terminal QR code (Unicode half blocks, with quiet zone).
use vstd::prelude::*;

verus! {

/// What `qrcode` renders for `s` (`Dense1x2`, quiet zone on), or `None`
/// when `QrCode::new` refuses the data (too long).
pub uninterp spec fn qr_dense_text(s: Seq<char>) -> Option<Seq<char>>;

/// `QrCode::new(s)` rendered with `Dense1x2` and a quiet zone.
#[verifier::external_body]
fn qr_dense(s: &str) -> (r: Option<String>)
    ensures
        match r {
            Some(q) => qr_dense_text(s@) == Some(q@),
            None => qr_dense_text(s@) is None,
        },
{
    match qrcode::QrCode::new(s.as_bytes()) {
        Ok(code) => Some(code.render::<qrcode::render::unicode::Dense1x2>().quiet_zone(true).build()),
        Err(_) => None,
    }
}

/// The QR code of `s`, or `None` when the text does not fit in one.
pub fn try_render(s: &str) -> (r: Option<String>)
    ensures
        match r {
            Some(q) => qr_dense_text(s@) == Some(q@),
            None => qr_dense_text(s@) is None,
        },
{
    match qr_dense(s) {
        Some(_) => Some(render(s)),
        None => None,
    }
}

/// The QR code of `s`, which must fit in one.
pub fn render(s: &str) -> (q: String)
    requires
        qr_dense_text(s@) is Some,
    ensures
        qr_dense_text(s@) == Some(q@),
{
    match qr_dense(s) {
        Some(q) => q,
        None => {
            assert(false);
            String::new()
        },
    }
}

} // verus!
