//! The size of the QR codes shown for the phone-as-keyboard and Drop links.

use vstd::prelude::*;

verus! {

/// The side, in modules, of the QR code that qrcodegen makes for `text` at medium error
/// correction (the smallest version that fits), or None when no version holds the text.
pub uninterp spec fn qr_side(text: Seq<char>) -> Option<int>;

/// `qrcodegen::QrCode::encode_text` at `QrCodeEcc::Medium`, then `QrCode::size`: the
/// side in modules, which qrcodegen documents to be 21 to 177, or None when the text is
/// too long for any version. The side is named, not stated: which version fits is
/// qrcodegen's own computation.
#[verifier::external_body]
fn encoded_side(text: &str) -> (r: Option<i32>)
    ensures
        r matches Some(n) ==> 21 <= n <= 177 && qr_side(text@) == Some(n as int),
        r is None ==> qr_side(text@) is None,
{
    match qrcodegen::QrCode::encode_text(text, qrcodegen::QrCodeEcc::Medium) {
        Ok(qr) => Some(qr.size()),
        Err(_) => None,
    }
}

/// The pixels across a QR code of side `n` modules at `module` px, with its quiet zone
/// of four modules on each side.
pub open spec fn drawn_size(n: int, module: int) -> int {
    (n + 8) * module
}

/// The size fits in an `i32`.
pub open spec fn size_fits(text: Seq<char>, module: int) -> bool {
    qr_side(text) matches Some(n) ==> i32::MIN <= drawn_size(n, module) <= i32::MAX
}

/// Pixel size a QR code for `text` would take at `module` px, or None when the text is
/// too long.
pub fn size(text: &str, module: i32) -> (r: Option<i32>)
    requires
        size_fits(text@, module as int),
    ensures
        r == (match qr_side(text@) {
            Some(n) => Some(drawn_size(n, module as int) as i32),
            None => None,
        }),
{
    match encoded_side(text) {
        Some(n) => Some((n + 8) * module),
        None => None,
    }
}

/// `size`, where the size may not fit in an `i32`: None then too.
pub fn size_checked(text: &str, module: i32) -> (r: Option<i32>)
    ensures
        size_fits(text@, module as int) ==> r == (match qr_side(text@) {
            Some(n) => Some(drawn_size(n, module as int) as i32),
            None => None,
        }),
        !size_fits(text@, module as int) ==> r is None,
{
    match encoded_side(text) {
        Some(n) => {
            let a = n as i64 + 8;
            let b = module as i64;
            assert(-(185 * 2147483648) <= a * b <= 185 * 2147483648) by (nonlinear_arith)
                requires
                    29 <= a <= 185,
                    -2147483648 <= b <= 2147483647,
            ;
            let wide = a * b;
            if wide < i32::MIN as i64 || wide > i32::MAX as i64 {
                None
            } else {
                size(text, module)
            }
        },
        None => None,
    }
}

} // verus!
