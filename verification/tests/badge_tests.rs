use naive::boring_face::{BoringFace, SVG_BORDER, SVG_FOOTER, SVG_HEADER};
use naive::text::{chars_of, decimal, push_decimal, push_natural, replace};

fn expected_badge(
    fill_white: &str,
    fill_black: &str,
    with_border: bool,
    name: &str,
    uv: i64,
    rv: i64,
    rank: i64,
) -> String {
    let mut content = SVG_HEADER
        .replace("#fill_white#", fill_white)
        .replace("#fill_black#", fill_black);
    for i in 0..10 {
        content.push_str(&format!(
            "<rect {} x=\"{}\" y=\"72.5\" width=\"3\" height=\"6\" rx=\"1\" />",
            if i < rank { "class=\"fill-black\"" } else { "fill=\"#d55f6f\"" },
            35.5 + (i as f64) * 4f64
        ));
    }
    content.push_str(SVG_FOOTER);
    content = content.replace(
        "#svg_viewport#",
        if with_border { "viewBox=\"-3.412 -2.5 584.261 115.604\"" } else { "viewBox=\"6 6.1 98 97\"" },
    );
    if with_border {
        content = content.replace(
            "#svg_border#",
            &SVG_BORDER
                .replace("#site_name#", name)
                .replace("#site_uv#", &uv.to_string())
                .replace("#site_referrer#", &rv.to_string())
                .replace("#site_rank#", &rank.to_string()),
        );
    }
    content
}

#[test]
fn decimal_numerals() {
    assert_eq!(decimal(0), "0");
    assert_eq!(decimal(7), "7");
    assert_eq!(decimal(10), "10");
    assert_eq!(decimal(1999), "1999");
    assert_eq!(decimal(-1), "-1");
    assert_eq!(decimal(-120), "-120");
    assert_eq!(decimal(i64::MAX), "9223372036854775807");
    assert_eq!(decimal(i64::MIN), "-9223372036854775808");
}

#[test]
fn decimal_numerals_are_appended() {
    let mut text = String::from("x=");
    push_decimal(&mut text, -45);
    text.push(',');
    push_natural(&mut text, u64::MAX);
    assert_eq!(text, "x=-45,18446744073709551615");
}

#[test]
fn decimal_agrees_with_the_standard_library() {
    for n in -1500..1500 {
        assert_eq!(decimal(n), n.to_string());
    }
    for shift in 0..63 {
        let n = 1i64 << shift;
        assert_eq!(decimal(n), n.to_string());
        assert_eq!(decimal(-n), (-n).to_string());
        assert_eq!(decimal(n - 1), (n - 1).to_string());
    }
}

#[test]
fn bordered_badge_is_drawn_as_specified() {
    let face = BoringFace::new("#d0273e".to_string(), "#f5acb9".to_string(), true);
    for rank in 1..=10 {
        let svg = face.render_svg("Example Site", 12, 34, rank);
        assert_eq!(svg, expected_badge("#d0273e", "#f5acb9", true, "Example Site", 12, 34, rank));
    }
}

#[test]
fn bare_face_is_drawn_as_specified() {
    let face = BoringFace::new("#f5acb9".to_string(), "#d0273e".to_string(), false);
    for rank in 1..=10 {
        let svg = face.render_svg("ignored", 1, 2, rank);
        assert_eq!(svg, expected_badge("#f5acb9", "#d0273e", false, "ignored", 1, 2, rank));
    }
}

#[test]
fn badge_shows_the_name_and_the_figures() {
    let face = BoringFace::new("#d0273e".to_string(), "#f5acb9".to_string(), true);
    let svg = face.render_svg("Blog of A", 7, 5, 6);
    assert!(svg.contains(">Blog of A \u{1F971}</text>"));
    assert!(svg.contains(">UV: 7  Referrer: 5  Level: 6</text>"));
    assert!(svg.contains("viewBox=\"-3.412 -2.5 584.261 115.604\""));
    assert!(svg.contains("fill: #f5acb9;"));
    assert!(!svg.contains("#fill_white#"));
    assert!(!svg.contains("#fill_black#"));
    assert!(!svg.contains("#svg_viewport#"));
    assert!(!svg.contains("#svg_border#"));
    assert!(!svg.contains("#site_name#"));
    assert!(svg.starts_with("<?xml version=\"1.0\" encoding=\"utf-8\"?>"));
    assert!(svg.ends_with("</svg>"));
}

#[test]
fn badge_fills_as_many_bars_as_the_level() {
    let face = BoringFace::new("#d0273e".to_string(), "#f5acb9".to_string(), false);
    for rank in 1..=10usize {
        let svg = face.render_svg("", 0, 0, rank as i64);
        assert_eq!(svg.matches("<rect class=\"fill-black\" x=").count(), rank);
        assert_eq!(svg.matches("<rect fill=\"#d55f6f\" x=").count(), 10 - rank);
    }
    let svg = face.render_svg("", 0, 0, 3);
    assert!(svg.contains(
        "<rect class=\"fill-black\" x=\"35.5\" y=\"72.5\" width=\"3\" height=\"6\" rx=\"1\" />"
    ));
    assert!(svg.contains(
        "<rect class=\"fill-black\" x=\"43.5\" y=\"72.5\" width=\"3\" height=\"6\" rx=\"1\" />"
    ));
    assert!(svg.contains(
        "<rect fill=\"#d55f6f\" x=\"47.5\" y=\"72.5\" width=\"3\" height=\"6\" rx=\"1\" />"
    ));
    assert!(svg.contains(
        "<rect fill=\"#d55f6f\" x=\"71.5\" y=\"72.5\" width=\"3\" height=\"6\" rx=\"1\" />"
    ));
}

#[test]
fn marks_in_a_name_are_filled_in_turn() {
    let face = BoringFace::new("#d0273e".to_string(), "#f5acb9".to_string(), true);
    let svg = face.render_svg("#site_uv# & #site_rank#", 12, 34, 2);
    assert_eq!(svg, expected_badge("#d0273e", "#f5acb9", true, "#site_uv# & #site_rank#", 12, 34, 2));
    assert!(svg.contains(">12 & 2 \u{1F971}</text>"));
}

#[test]
fn negative_figures_are_drawn_with_their_sign() {
    let face = BoringFace::new("a".to_string(), "b".to_string(), true);
    let svg = face.render_svg("n", -3, i64::MIN, 1);
    assert!(svg.contains(">UV: -3  Referrer: -9223372036854775808  Level: 1</text>"));
}

#[test]
fn replace_takes_occurrences_from_the_left_without_overlap() {
    assert_eq!(replace("aaaa", "aa", "b"), "bb");
    assert_eq!(replace("aaa", "aa", "b"), "ba");
    assert_eq!(replace("abcabc", "bc", ""), "aa");
    assert_eq!(replace("abcabc", "abc", "abcabc"), "abcabcabcabc");
    assert_eq!(replace("#a##a#", "#a#", "x"), "xx");
    assert_eq!(replace("no match here", "xyz", "!"), "no match here");
}

#[test]
fn replace_leaves_short_and_empty_texts() {
    assert_eq!(replace("", "a", "b"), "");
    assert_eq!(replace("a", "ab", "c"), "a");
    assert_eq!(replace("ab", "ab", "c"), "c");
    assert_eq!(replace("abc", "", "x"), "abc");
}

#[test]
fn replace_works_on_characters_and_not_on_bytes() {
    assert_eq!(replace("na\u{ef}ve \u{1F971} caf\u{e9}", "\u{1F971}", "zz"), "na\u{ef}ve zz caf\u{e9}");
    assert_eq!(replace("\u{e9}\u{e9}\u{e9}", "\u{e9}\u{e9}", "e"), "e\u{e9}");
    assert_eq!(replace("a\u{1F971}b", "a", "\u{1F971}"), "\u{1F971}\u{1F971}b");
    assert_eq!(chars_of("a\u{e9}\u{1F971}"), vec!['a', '\u{e9}', '\u{1F971}']);
}

#[test]
fn replace_agrees_with_the_standard_library() {
    let texts = ["", "a", "abab", "xxabxxabxx", "ababab", "aXbXc", "\u{e9}ab\u{e9}"];
    let patterns = ["a", "ab", "abab", "x", "xx", "X", "\u{e9}", "zz"];
    for text in texts {
        for pattern in patterns {
            for to in ["", "-", "ab", pattern] {
                assert_eq!(replace(text, pattern, to), text.replace(pattern, to));
            }
        }
    }
}
