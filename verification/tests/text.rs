use epic_asset_manager::text::{
    chars_of, concat3, has_text, i64_text, join_texts, markup_escape, string_of, strip_ue,
    to_ascii_lower, u64_text,
};
use epic_asset_manager::str_map::StrMap;

#[test]
fn numbers_in_decimal() {
    assert_eq!(u64_text(0), "0");
    assert_eq!(u64_text(1234567890), "1234567890");
    assert_eq!(u64_text(u64::MAX), "18446744073709551615");
    assert_eq!(i64_text(-42), "-42");
    assert_eq!(i64_text(i64::MIN), "-9223372036854775808");
}

#[test]
fn text_building() {
    assert_eq!(concat3("a", "b", "c"), "abc");
    assert_eq!(string_of(&chars_of("héllo")), "héllo");
    assert!(has_text(&chars_of("hello"), &chars_of("ell")));
    assert!(has_text(&chars_of("hello"), &chars_of("")));
    assert!(!has_text(&chars_of("hello"), &chars_of("elo")));
    assert_eq!(string_of(&to_ascii_lower(&chars_of("AbÇ"))), "abÇ");
}

#[test]
fn joining_and_stripping() {
    assert_eq!(join_texts(&vec!["a".to_string(), "b".to_string()], ", "), "a, b");
    assert_eq!(join_texts(&vec![], ", "), "");
    assert_eq!(strip_ue("UE_5.1, UE_5.2"), "5.1, 5.2");
    assert_eq!(strip_ue("UUE_E_"), "UE_");
}

#[test]
fn string_map() {
    let mut m: StrMap<u32> = StrMap::new();
    m.insert("a".to_string(), 1);
    m.insert("b".to_string(), 2);
    m.insert("a".to_string(), 3);
    assert_eq!(m.len(), 2);
    assert_eq!(m.get(&"a".to_string()), Some(&3));
    assert_eq!(m.remove(&"a".to_string()), Some(3));
    assert_eq!(m.remove(&"a".to_string()), None);
    assert!(!m.contains_key(&"a".to_string()));
}

#[test]
fn markup_escaped_verbatim() {
    assert_eq!(markup_escape("Tom & Jerry <b>"), "Tom &amp; Jerry &lt;b&gt;");
    assert_eq!(markup_escape("it's \"quoted\""), "it&#39;s &quot;quoted&quot;");
    assert_eq!(markup_escape("a\u{1}b\u{1f}c\u{7f}\u{9f}"), "a&#x1;b&#x1f;c&#x7f;&#x9f;");
    assert_eq!(markup_escape("tab\tline\nret\r\u{85}é"), "tab\tline\nret\r\u{85}é");
    assert_eq!(markup_escape(""), "");
}
