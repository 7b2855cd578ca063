use yoink::text::{
    chars_of, contains_exec, decimal_chars, hex_lower_exec, like_exec, starts_with_exec, text_less,
    trim_chars,
};

fn cs(s: &str) -> Vec<char> {
    s.chars().collect()
}

#[test]
fn like_matches_substring_ignoring_ascii_case() {
    assert!(like_exec(&cs("%abc%"), &cs("xxABCyy")));
    assert!(like_exec(&cs("%abc%"), &cs("abc")));
    assert!(!like_exec(&cs("%abd%"), &cs("xxABCyy")));
}

#[test]
fn like_wildcards_in_the_search_text() {
    assert!(like_exec(&cs("%a_c%"), &cs("zzabc")));
    assert!(like_exec(&cs("%a%c%"), &cs("a long c")));
    assert!(!like_exec(&cs("%a_c%"), &cs("ac")));
    assert!(like_exec(&cs("%%"), &cs("")));
}

#[test]
fn like_folds_only_ascii_letters() {
    assert!(!like_exec(&cs("%é%"), &cs("É")));
    assert!(like_exec(&cs("%é%"), &cs("café")));
}

#[test]
fn like_without_wildcards_is_whole_match() {
    assert!(like_exec(&cs("Hello"), &cs("hELLO")));
    assert!(!like_exec(&cs("Hello"), &cs("hello!")));
}

#[test]
fn trim_removes_unicode_white_space() {
    assert_eq!(trim_chars(&cs("  \t hi there \n")), cs("hi there"));
    assert_eq!(trim_chars(&cs("\u{3000}x\u{a0}")), cs("x"));
    assert_eq!(trim_chars(&cs("   ")), cs(""));
}

#[test]
fn substring_search() {
    assert!(contains_exec(&cs("hello world"), &cs("o w")));
    assert!(contains_exec(&cs("abc"), &cs("")));
    assert!(!contains_exec(&cs("abc"), &cs("abcd")));
    assert!(starts_with_exec(&cs("https://x"), &cs("https://")));
    assert!(!starts_with_exec(&cs("http"), &cs("https://")));
}

#[test]
fn text_order_is_code_point_order() {
    assert!(text_less("Apple", "apple"));
    assert!(text_less("app", "apple"));
    assert!(!text_less("apple", "app"));
    assert!(!text_less("same", "same"));
    assert!(text_less("z", "é"));
}

#[test]
fn hex_and_decimal_renderings() {
    assert_eq!(hex_lower_exec(&[0x0a, 0x14, 0x1e, 0xff]), "0a141eff");
    assert_eq!(hex_lower_exec(&[]), "");
    let d: String = decimal_chars(1920).into_iter().collect();
    assert_eq!(d, "1920");
    let z: String = decimal_chars(0).into_iter().collect();
    assert_eq!(z, "0");
}

#[test]
fn chars_of_keeps_every_character() {
    assert_eq!(chars_of("añb"), vec!['a', 'ñ', 'b']);
}
