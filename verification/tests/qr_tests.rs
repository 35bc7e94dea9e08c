use qrcodegen::{QrCode, QrCodeEcc};
use schnake::qr::{qr_code_svg, qr_svg};

fn expected_svg(text: &str) -> String {
    let qr = QrCode::encode_text(text, QrCodeEcc::Low).unwrap();
    let border = 4;
    let size = qr.size();
    let view_size = size + border * 2;
    let mut path = String::new();
    for y in 0..size {
        for x in 0..size {
            if qr.get_module(x, y) {
                path.push_str(&format!("M{} {}h1v1h-1z", x + border, y + border));
            }
        }
    }
    format!(
        r##"<svg viewBox="0 0 {view_size} {view_size}" role="img" aria-label="Connection QR" xmlns="http://www.w3.org/2000/svg"><rect width="100%" height="100%" fill="#fff"/><path d="{path}" fill="#111"/></svg>"##
    )
}

#[test]
fn qr_picture_of_short_text() {
    let svg = qr_svg("hello").unwrap();
    assert!(svg.starts_with("<svg viewBox=\"0 0 29 29\""));
    assert!(svg.contains("M4 4h1v1h-1z"));
    assert_eq!(svg, expected_svg("hello"));
}

#[test]
fn qr_picture_of_longer_text() {
    let text = "{\"sdp_type\":\"offer\",\"sdp\":\"v=0 o=- 46117 2 IN IP4 127.0.0.1 s=- t=0 0\"}";
    assert_eq!(qr_svg(text).unwrap(), expected_svg(text));
    let code = QrCode::encode_text(text, QrCodeEcc::Low).unwrap();
    assert_eq!(qr_code_svg(&code), expected_svg(text));
}

#[test]
fn qr_of_text_that_does_not_fit() {
    let text: String = std::iter::repeat("é").take(3000).collect();
    assert_eq!(qr_svg(&text), None);
    let fits: String = std::iter::repeat("é").take(738).collect();
    assert!(qr_svg(&fits).is_some());
}
