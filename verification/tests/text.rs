use router_core::text::{
    chars_of, decimal_text, find, matches_at, same_text, starts_with, string_of, text_eq, trim,
};

fn chars(s: &str) -> Vec<char> {
    s.chars().collect()
}

#[test]
fn chars_and_back() {
    assert_eq!(chars_of("héllo"), vec!['h', 'é', 'l', 'l', 'o']);
    assert_eq!(string_of(&chars("héllo")), "héllo");
    assert_eq!(chars_of(""), Vec::<char>::new());
    assert_eq!(string_of(&[]), "");
}

#[test]
fn equality_of_texts() {
    assert!(text_eq("up", "up"));
    assert!(!text_eq("up", "UP"));
    assert!(!text_eq("up", "upp"));
    assert!(text_eq("", ""));
    assert!(same_text(&chars("abc"), &chars("abc")));
    assert!(!same_text(&chars("abc"), &chars("abd")));
}

#[test]
fn prefix_test() {
    assert!(starts_with(&chars("http://x"), &chars("http")));
    assert!(starts_with(&chars("http"), &chars("http")));
    assert!(!starts_with(&chars("htt"), &chars("http")));
    assert!(starts_with(&chars("abc"), &chars("")));
    assert!(!starts_with(&chars("xhttp"), &chars("http")));
}

#[test]
fn match_at_index() {
    assert!(matches_at(&chars("a://b"), &chars("://"), 1));
    assert!(!matches_at(&chars("a://b"), &chars("://"), 0));
    assert!(!matches_at(&chars("a://b"), &chars("://"), 3));
    assert!(!matches_at(&chars("ab"), &chars("b"), 7));
    assert!(matches_at(&chars("ab"), &chars(""), 2));
}

#[test]
fn find_first_occurrence() {
    assert_eq!(find(&chars("a://b://c"), &chars("://")), Some(1));
    assert_eq!(find(&chars("abc"), &chars("/")), None);
    assert_eq!(find(&chars("abc"), &chars("")), Some(0));
    assert_eq!(find(&chars(""), &chars("")), Some(0));
    assert_eq!(find(&chars(""), &chars("a")), None);
    assert_eq!(find(&chars("aab"), &chars("ab")), Some(1));
    assert_eq!(find(&chars("ab"), &chars("abc")), None);
    assert_eq!(find(&chars("xyz"), &chars("z")), Some(2));
}

#[test]
fn trim_matches_the_standard_library() {
    for s in [
        "",
        " ",
        "  a  ",
        "a",
        "\t\n a b \r\n",
        "\u{85}x\u{a0}",
        "\u{1680}x\u{2000}\u{200a}",
        "\u{2028}\u{2029}x\u{202f}\u{205f}\u{3000}",
        "\u{200b}x\u{200b}",
        "\u{1c}x\u{1f}",
        "\u{b}\u{c}x",
        "  inner space kept  ",
    ] {
        assert_eq!(string_of(&trim(&chars(s))), s.trim(), "trimming {:?}", s);
    }
}

#[test]
fn white_space_agrees_with_the_standard_library() {
    for code in 0u32..=0x10ffff {
        if let Some(c) = char::from_u32(code) {
            let kept = trim(&[c]);
            assert_eq!(kept.is_empty(), c.is_whitespace(), "code point {:x}", code);
        }
    }
}

#[test]
fn decimal_of_numbers() {
    assert_eq!(string_of(&decimal_text(0)), "0");
    assert_eq!(string_of(&decimal_text(9)), "9");
    assert_eq!(string_of(&decimal_text(10)), "10");
    assert_eq!(string_of(&decimal_text(401)), "401");
    assert_eq!(string_of(&decimal_text(u32::MAX)), "4294967295");
}

#[test]
fn lower_casing_leaves_plain_ascii_as_it_is() {
    for code in 0u8..128 {
        let c = code as char;
        if !c.is_ascii_uppercase() {
            let s = format!("a{}:{}0", c, c);
            assert_eq!(router_core::text::to_lowercase(&s), s, "code {}", code);
        }
    }
    assert_eq!(router_core::text::to_lowercase("aa:bb:cc:dd:ee:ff"), "aa:bb:cc:dd:ee:ff");
    assert_eq!(router_core::text::to_lowercase(""), "");
}

#[test]
fn lower_casing_maps_capitals() {
    assert_eq!(router_core::text::to_lowercase("AA:BB:0c"), "aa:bb:0c");
    assert_eq!(router_core::text::to_lowercase("WLAN0"), "wlan0");
    assert_eq!(router_core::text::to_lowercase("ÄÖ"), "äö");
}
