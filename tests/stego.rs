use erdfa::stego::visual;
use erdfa::stego::{generate_visual_stego, select_strategy, ERdfaStego, HostilityLevel, StegoEncoder, StegoStrategy};

#[test]
fn test_html_escape() {
    let stego = ERdfaStego;
    let data = r#"<div property="name">Test</div>"#;
    let encoded = stego.encode(data, StegoStrategy::HtmlEscape);
    let decoded = stego.decode(&encoded, StegoStrategy::HtmlEscape).unwrap();
    assert_eq!(data, decoded);
}

#[test]
fn test_zero_width() {
    let stego = ERdfaStego;
    let data = "Hi";
    let encoded = stego.encode(data, StegoStrategy::ZeroWidth);
    assert!(encoded.contains('\u{200B}') || encoded.contains('\u{200C}'));
    let decoded = stego.decode(&encoded, StegoStrategy::ZeroWidth).unwrap();
    assert_eq!(data, decoded);
}

#[test]
fn test_hostility_levels() {
    let stego = ERdfaStego;
    assert_eq!(stego.max_hostility(StegoStrategy::HtmlEscape), HostilityLevel::Aggressive);
    assert_eq!(stego.max_hostility(StegoStrategy::ZeroWidth), HostilityLevel::MaximumHostile);
}

#[test]
fn test_strategy_selection() {
    assert_eq!(select_strategy(HostilityLevel::Friendly), StegoStrategy::HtmlEscape);
    assert_eq!(select_strategy(HostilityLevel::MaximumHostile), StegoStrategy::ZeroWidth);
}

#[test]
fn test_position_encoding() {
    let data = b"Hi";
    let positions = visual::encode_position(data);
    let decoded = visual::decode_position(&positions);
    assert_eq!(data[0], decoded[0]);
}

#[test]
fn test_color_encoding() {
    let data = b"RGB";
    let colors = visual::encode_color(data);
    let decoded = visual::decode_color(&colors);
    assert_eq!(data.to_vec(), decoded);
}

#[test]
fn test_bitmap_lsb() {
    let data = b"Secret";
    let mut carrier = vec![0u8; 64];
    visual::encode_bitmap_lsb(data, &mut carrier);
    let decoded = visual::decode_bitmap_lsb(&carrier, data.len());
    assert_eq!(data.to_vec(), decoded);
}

#[test]
fn test_visual_stego_generation() {
    let html = generate_visual_stego("Test");
    assert!(html.contains("position:absolute"));
    assert!(html.contains("color:rgb"));
    assert!(html.contains("font-size"));
}

#[test]
fn comment_embed_returns_escaped_body() {
    let stego = ERdfaStego;
    let encoded = stego.encode("<div>Secret</div>", StegoStrategy::CommentEmbed);
    assert_eq!(encoded, "<!-- &lt;div&gt;Secret&lt;/div&gt; -->");
    assert!(encoded.starts_with("<!--"));
    let decoded = stego.decode(&encoded, StegoStrategy::CommentEmbed).unwrap();
    assert_eq!(decoded, "&lt;div&gt;Secret&lt;/div&gt;");
    assert_eq!(stego.decode("<!-- x", StegoStrategy::CommentEmbed), None);
}

#[test]
fn wrapped_strategies_round_trip() {
    let stego = ERdfaStego;
    let data = "a<b>&\"c\"";
    for s in [StegoStrategy::HiddenDiv, StegoStrategy::DataAttribute, StegoStrategy::MultiLayer, StegoStrategy::QrCode, StegoStrategy::Unicode] {
        let encoded = stego.encode(data, s);
        assert_eq!(stego.decode(&encoded, s).unwrap(), data);
    }
    assert_eq!(stego.encode("x", StegoStrategy::HiddenDiv), "<div style=\"display:none\">x</div>");
    assert_eq!(stego.encode("x", StegoStrategy::DataAttribute), "<div data-erdfa=\"x\">");
    assert_eq!(stego.encode("&", StegoStrategy::MultiLayer), "<!-- &amp;amp; -->");
}

#[test]
fn homoglyphs_replace_latin_letters() {
    let stego = ERdfaStego;
    let encoded = stego.encode("cap box", StegoStrategy::Unicode);
    assert_eq!(encoded, "\u{0441}\u{0430}\u{0440} b\u{043E}\u{0445}");
    assert_ne!(encoded, "cap box");
}

#[test]
fn whitespace_encoding_is_spaces_only() {
    let stego = ERdfaStego;
    // 'A' = 65 is odd, 'B' = 66 is even
    assert_eq!(stego.encode("AB", StegoStrategy::Whitespace), "   ");
    // pieces between spaces: "xy" is long (bit 0), "z" is short, "ab" is long (bit 2)
    assert_eq!(stego.decode("xy z  ab", StegoStrategy::Whitespace), Some("\u{1}\u{0}\u{4}".to_string()));
    assert_eq!(stego.decode("   ", StegoStrategy::Whitespace), Some(String::new()));
}

#[test]
fn zero_width_bits_lowest_first() {
    let stego = ERdfaStego;
    let encoded = stego.encode("\u{1}", StegoStrategy::ZeroWidth);
    let chars: Vec<char> = encoded.chars().collect();
    assert_eq!(chars.len(), 8);
    assert_eq!(chars[0], '\u{200B}');
    assert!(chars[1..].iter().all(|c| *c == '\u{200C}'));
    assert_eq!(stego.decode("\u{200B}\u{200B}", StegoStrategy::ZeroWidth), Some("\u{3}".to_string()));
    // 0xFF alone is not UTF-8
    assert_eq!(stego.decode(&"\u{200B}".repeat(8), StegoStrategy::ZeroWidth), None);
}

#[test]
fn visual_strategies_share_span_encoding() {
    let stego = ERdfaStego;
    assert_eq!(stego.encode("Hi", StegoStrategy::Color), generate_visual_stego("Hi"));
    assert_eq!(stego.decode("anything", StegoStrategy::Bitmap), None);
    assert_eq!(stego.max_hostility(StegoStrategy::Position), HostilityLevel::Cautious);
    assert_eq!(select_strategy(HostilityLevel::Restrictive), StegoStrategy::DataAttribute);
    assert_eq!(select_strategy(HostilityLevel::Paranoid), StegoStrategy::Whitespace);
}

#[test]
fn visual_html_exact() {
    // 'A' = 65: left 65, top 0, colour (65, 0, 0), font size 8 + 1
    let html = generate_visual_stego("A");
    assert_eq!(
        html,
        "<div>\n  <span style=\"position:absolute;left:65px;top:0px;color:rgb(65,0,0);font-size:9pt\">\u{B7}</span>\n</div>"
    );
    assert_eq!(generate_visual_stego(""), "<div>\n</div>");
}

#[test]
fn visual_helpers_values() {
    assert_eq!(visual::encode_position(&[250]), vec![(50, 2)]);
    assert_eq!(visual::decode_position(&[(50, 2), (-7, 1)]), vec![250, 93]);
    assert_eq!(visual::encode_ordering(&[255, 1]), vec![255, 2]);
    assert_eq!(visual::encode_color(&[1, 2, 3, 4]), vec![(1, 2, 3), (4, 0, 0)]);
    assert_eq!(visual::encode_css(&[0, 255]), vec!["0px".to_string(), "255px".to_string()]);
    assert_eq!(visual::encode_font_size(&[15, 16]), vec!["23pt".to_string(), "8pt".to_string()]);
    assert_eq!(visual::encode_qr_code("q"), "data:image/svg+xml,<svg><!-- q --></svg>");
    let mut carrier = vec![0xFFu8; 10];
    visual::encode_bitmap_lsb(&[0b0000_0010], &mut carrier);
    assert_eq!(carrier, vec![0xFE, 0xFF, 0xFE, 0xFE, 0xFE, 0xFE, 0xFE, 0xFE, 0xFF, 0xFF]);
}
