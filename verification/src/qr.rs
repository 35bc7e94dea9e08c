//! QR code pictures of the connection signals.

use vstd::prelude::*;
use qrcodegen::QrCode;
use crate::text::{decimal, push_decimal};

verus! {

/// A QR code of the `qrcodegen` crate.
#[verifier::external_type_specification]
#[verifier::external_body]
pub struct ExQrCode(qrcodegen::QrCode);

/// The symbol `QrCode::encode_text` makes of `text` at the low error correction level:
/// its side length and its modules row by row (`true` for dark), or none when the text
/// does not fit in any version.
pub uninterp spec fn qr_symbol(text: Seq<char>) -> Option<(int, Seq<bool>)>;

/// The side length of a QR code, in modules.
pub uninterp spec fn qr_side(code: QrCode) -> int;

/// The modules of a QR code, row by row, `true` for dark.
pub uninterp spec fn qr_modules(code: QrCode) -> Seq<bool>;

/// Encodes text at the low error correction level with `QrCode::encode_text`; its error
/// (the text is too long) becomes `None`. Trusted: the code is the symbol the function
/// makes of `text`, a code comes back for any text of at most 738 characters, as its
/// documentation guarantees, and every code has a side between 21 and 177.
#[verifier::external_body]
fn qr_encode_text(text: &str) -> (r: Option<QrCode>)
    ensures
        r is Some <==> qr_symbol(text@) is Some,
        r matches Some(c) ==> qr_symbol(text@) == Some((qr_side(c), qr_modules(c))),
        r matches Some(c) ==> 21 <= qr_side(c) <= 177,
        text@.len() <= 738 ==> r is Some,
{
    match QrCode::encode_text(text, qrcodegen::QrCodeEcc::Low) {
        Ok(code) => Some(code),
        Err(_) => None,
    }
}

/// The side length of a QR code: `QrCode::size`, documented to lie between 21 and 177.
#[verifier::external_body]
fn qr_size(code: &QrCode) -> (n: i32)
    ensures
        n == qr_side(*code),
        21 <= n <= 177,
{
    code.size()
}

/// One module of a QR code: `QrCode::get_module`, which is light (`false`) outside the code.
#[verifier::external_body]
fn qr_module(code: &QrCode, x: i32, y: i32) -> (dark: bool)
    ensures
        dark == (0 <= x < qr_side(*code) && 0 <= y < qr_side(*code) && qr_modules(*code)[y
            * qr_side(*code) + x]),
{
    code.get_module(x, y)
}

/// How many light modules surround the code.
pub const QR_BORDER: i32 = 4;

/// The path segment that paints the module at (`x`, `y`) when it is dark.
pub open spec fn module_segment(side: int, modules: Seq<bool>, x: int, y: int) -> Seq<char> {
    if 0 <= x < side && 0 <= y < side && modules[y * side + x] {
        "M"@ + decimal((x + QR_BORDER) as nat) + " "@ + decimal((y + QR_BORDER) as nat)
            + "h1v1h-1z"@
    } else {
        Seq::empty()
    }
}

/// The path segments of the first `count` modules of row `y`.
pub open spec fn row_path(side: int, modules: Seq<bool>, y: int, count: nat) -> Seq<char>
    decreases count,
{
    if count == 0 {
        Seq::empty()
    } else {
        row_path(side, modules, y, (count - 1) as nat) + module_segment(side, modules, count - 1, y)
    }
}

/// The path segments of the first `rows` rows.
pub open spec fn rows_path(side: int, modules: Seq<bool>, rows: nat) -> Seq<char>
    decreases rows,
{
    if rows == 0 {
        Seq::empty()
    } else {
        rows_path(side, modules, (rows - 1) as nat) + row_path(side, modules, rows - 1, side as nat)
    }
}

/// The SVG picture of a code: a white square with the border around the code, and one
/// black path with a unit square for every dark module.
pub open spec fn svg_markup(side: int, modules: Seq<bool>) -> Seq<char> {
    let view = decimal((side + 2 * QR_BORDER) as nat);
    "<svg viewBox=\"0 0 "@ + view + " "@ + view
        + "\" role=\"img\" aria-label=\"Connection QR\" xmlns=\"http://www.w3.org/2000/svg\"><rect width=\"100%\" height=\"100%\" fill=\"#fff\"/><path d=\""@
        + rows_path(side, modules, side as nat) + "\" fill=\"#111\"/></svg>"@
}

/// The SVG picture of a QR code.
pub fn qr_code_svg(code: &QrCode) -> (svg: String)
    ensures
        svg@ == svg_markup(qr_side(*code), qr_modules(*code)),
{
    let size = qr_size(code);
    let ghost side = size as int;
    let ghost modules = qr_modules(*code);
    let mut path = String::new();
    let mut y: i32 = 0;
    while y < size
        invariant
            21 <= size <= 177,
            side == size,
            side == qr_side(*code),
            modules == qr_modules(*code),
            0 <= y <= size,
            path@ == rows_path(side, modules, y as nat),
        decreases size - y,
    {
        let ghost before = path@;
        let mut x: i32 = 0;
        while x < size
            invariant
                21 <= size <= 177,
                side == size,
                side == qr_side(*code),
                modules == qr_modules(*code),
                0 <= y < size,
                0 <= x <= size,
                path@ == before + row_path(side, modules, y as int, x as nat),
            decreases size - x,
        {
            if qr_module(code, x, y) {
                path.append("M");
                push_decimal(&mut path, (x + QR_BORDER) as u32);
                path.append(" ");
                push_decimal(&mut path, (y + QR_BORDER) as u32);
                path.append("h1v1h-1z");
            }
            proof {
                assert(path@ =~= before + row_path(side, modules, y as int, (x + 1) as nat));
            }
            x = x + 1;
        }
        y = y + 1;
    }
    let view = (size + 2 * QR_BORDER) as u32;
    let mut svg = String::from_str("<svg viewBox=\"0 0 ");
    push_decimal(&mut svg, view);
    svg.append(" ");
    push_decimal(&mut svg, view);
    svg.append(
        "\" role=\"img\" aria-label=\"Connection QR\" xmlns=\"http://www.w3.org/2000/svg\"><rect width=\"100%\" height=\"100%\" fill=\"#fff\"/><path d=\"",
    );
    svg.append(path.as_str());
    svg.append("\" fill=\"#111\"/></svg>");
    proof {
        assert(svg@ =~= svg_markup(side, modules));
    }
    svg
}

/// The SVG picture of the QR code of `text`, or `None` when the text is too long for one.
pub fn qr_svg(text: &str) -> (svg: Option<String>)
    ensures
        svg is Some <==> qr_symbol(text@) is Some,
        svg matches Some(s) ==> s@ == svg_markup(qr_symbol(text@).unwrap().0, qr_symbol(text@).unwrap().1),
        text@.len() <= 738 ==> svg is Some,
{
    match qr_encode_text(text) {
        Some(code) => Some(qr_code_svg(&code)),
        None => None,
    }
}

} // verus!
