use herdr_freeze::json::{parse_json, Json};
use herdr_freeze::label::{add_freeze_marker, name_of, strip_freeze_marker};
use herdr_freeze::string_map::StringMap;
use herdr_freeze::text::{
    decimal, parse_u16, parse_u32, parse_u64, to_lower, trim, trim_line_end, words_of,
};

#[test]
fn numbers_are_read_in_decimal() {
    assert_eq!(parse_u64("0"), Some(0));
    assert_eq!(parse_u64("+12"), Some(12));
    assert_eq!(parse_u64("007"), Some(7));
    assert_eq!(parse_u64("18446744073709551615"), Some(u64::MAX));
    assert_eq!(parse_u64("18446744073709551616"), None);
    assert_eq!(parse_u64(""), None);
    assert_eq!(parse_u64("+"), None);
    assert_eq!(parse_u64("-1"), None);
    assert_eq!(parse_u64(" 1"), None);
    assert_eq!(parse_u64("1a"), None);
    assert_eq!(parse_u32("4294967295"), Some(u32::MAX));
    assert_eq!(parse_u32("4294967296"), None);
    assert_eq!(parse_u16("65535"), Some(u16::MAX));
    assert_eq!(parse_u16("65536"), None);
}

#[test]
fn numbers_are_written_as_they_are_read() {
    for n in [0u64, 9, 10, 180, 86_400_000, u64::MAX] {
        assert_eq!(decimal(n), n.to_string());
        assert_eq!(parse_u64(&decimal(n)), Some(n));
    }
}

#[test]
fn white_space_is_cut_off() {
    assert_eq!(trim("  a b\t\r\n"), "a b");
    assert_eq!(trim("\u{3000}x\u{a0}"), "x");
    assert_eq!(trim(" \n "), "");
    assert_eq!(trim_line_end("yes \r\n"), "yes ");
    assert_eq!(trim_line_end("yes\n\r\n"), "yes");
    assert_eq!(trim_line_end("\r"), "");
}

#[test]
fn only_ascii_letters_are_lowered() {
    assert_eq!(to_lower("Yes ÄZ"), "yes Äz");
}

#[test]
fn words_are_split_at_white_space() {
    assert_eq!(words_of("  R 12\t34 \n"), vec!["R", "12", "34"]);
    assert!(words_of(" ").is_empty());
}

#[test]
fn marks_are_stripped() {
    assert_eq!(strip_freeze_marker("build"), "build");
    assert_eq!(strip_freeze_marker("❄ build"), "build");
    assert_eq!(strip_freeze_marker(" ❄❄ ❄ build ❄"), "build ❄");
    assert_eq!(strip_freeze_marker("❄"), "");
    assert_eq!(strip_freeze_marker(""), "");
}

#[test]
fn a_mark_is_set_once() {
    assert_eq!(add_freeze_marker("build"), "❄ build");
    let twice = add_freeze_marker(strip_freeze_marker(&add_freeze_marker("build")));
    assert_eq!(twice, "❄ build");
    assert_eq!(name_of("build"), Some("build".to_string()));
    assert_eq!(name_of(""), None);
}

#[test]
fn maps_keep_the_last_value() {
    let mut map: StringMap<u64> = StringMap::new();
    assert_eq!(map.get("a"), None);
    map.insert("a", 1);
    map.insert("b", 2);
    map.insert("a", 3);
    assert_eq!(map.get("a"), Some(&3));
    assert_eq!(map.get("b"), Some(&2));
    assert!(map.contains_key("b"));
    map.remove("a");
    assert_eq!(map.get("a"), None);
    assert_eq!(map.get("b"), Some(&2));
}

#[test]
fn documents_are_read() {
    let document = parse_json(r#"{"a":"x","n":7,"f":1.5,"b":true,"l":[1,null],"a2":{"k":"v"}}"#)
        .unwrap();
    assert_eq!(document.text_at("a"), Some("x".to_string()));
    assert_eq!(document.number_at("n"), Some(7));
    assert_eq!(document.number_at("f"), None);
    assert_eq!(document.boolean_at("b"), Some(true));
    assert_eq!(document.items_at("l").unwrap().len(), 2);
    assert_eq!(document.get("a2").unwrap().text_at("k"), Some("v".to_string()));
    assert!(document.get("z").is_none());
    assert_eq!(document.text_at("n"), None);
    assert!(matches!(document.as_object(), Some(fields) if fields.len() == 6));
    assert!(matches!(parse_json("[\"x\"]"), Ok(Json::Array(items)) if items.len() == 1));
}

#[test]
fn what_is_no_document_has_a_reason() {
    let reason = parse_json("{").unwrap_err();
    assert!(reason.contains("EOF"));
}
