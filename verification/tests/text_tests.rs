use schnake::text::{chars_of, decimal_string, display_name, escape_html, is_white_space, str_eq, string_of, trim_chars};

#[test]
fn escape_html_replaces_markup_characters() {
    assert_eq!(escape_html("a<b>&\"c\""), "a&lt;b&gt;&amp;&quot;c&quot;");
    assert_eq!(escape_html("plain"), "plain");
    assert_eq!(escape_html(""), "");
    assert_eq!(escape_html("&amp;"), "&amp;amp;");
}

#[test]
fn escaped_text_has_no_raw_markup() {
    let out = escape_html("<script>alert(\"x\")</script>");
    assert!(!out.contains('<'));
    assert!(!out.contains('>'));
    assert!(!out.contains('"'));
}

#[test]
fn display_name_trims_and_cuts() {
    assert_eq!(display_name("  Ann  "), Some("Ann".to_string()));
    assert_eq!(display_name("   "), None);
    assert_eq!(display_name(""), None);
    assert_eq!(display_name("\u{3000}Zoë\t\n"), Some("Zoë".to_string()));
    assert_eq!(display_name("abcdefghijklmnopqrstuvwxyz"), Some("abcdefghijklmnopqr".to_string()));
    assert_eq!(display_name(" abcdefghijklmnopq rst"), Some("abcdefghijklmnopq ".to_string()));
    let eighteen = "ééééééééééééééééééé";
    assert_eq!(display_name(eighteen).unwrap().chars().count(), 18);
}

#[test]
fn white_space_matches_std() {
    for c in ['\t', '\n', '\u{b}', '\u{c}', '\r', ' ', '\u{85}', '\u{a0}', '\u{1680}', '\u{2000}', '\u{200a}', '\u{2028}', '\u{2029}', '\u{202f}', '\u{205f}', '\u{3000}', 'a', '\u{200b}', '\u{180e}', 'x', '\u{feff}'] {
        assert_eq!(is_white_space(c), c.is_whitespace(), "{:?}", c);
    }
}

#[test]
fn trim_matches_std() {
    for s in ["", "  ", " a b ", "\u{3000}x\u{2029}", "xy", "\ta\t"] {
        assert_eq!(string_of(&trim_chars(s)), s.trim());
    }
}

#[test]
fn decimal_strings() {
    assert_eq!(decimal_string(0), "0");
    assert_eq!(decimal_string(7), "7");
    assert_eq!(decimal_string(10), "10");
    assert_eq!(decimal_string(1234567), "1234567");
    assert_eq!(decimal_string(u32::MAX), "4294967295");
}

#[test]
fn string_helpers() {
    assert!(str_eq("héllo", "héllo"));
    assert!(!str_eq("hello", "hell"));
    assert!(!str_eq("a", "b"));
    assert_eq!(chars_of("hé"), vec!['h', 'é']);
    assert_eq!(string_of(&['x', 'y']), "xy");
}

#[test]
fn every_ampersand_starts_an_entity() {
    let out = escape_html("a & b < c > d \" e &amp;");
    for (k, _) in out.match_indices('&') {
        let rest = &out[k..];
        assert!(rest.starts_with("&amp;") || rest.starts_with("&lt;") || rest.starts_with("&gt;") || rest.starts_with("&quot;"));
    }
}
