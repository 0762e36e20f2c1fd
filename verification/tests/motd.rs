use mcscan::motd::{get_field, parse_extra, parse_motd, strip_color_codes, Json};

fn text(s: &str) -> Json {
    Json::Text(s.to_string())
}

fn object(fields: Vec<(&str, Json)>) -> Json {
    Json::Object(fields.into_iter().map(|(k, v)| (k.to_string(), v)).collect())
}

#[test]
fn color_codes_are_stripped() {
    assert_eq!(strip_color_codes("\u{a7}cRed \u{a7}lbold"), "Red bold");
    assert_eq!(strip_color_codes("plain"), "plain");
    assert_eq!(strip_color_codes(""), "");
}

#[test]
fn color_code_at_the_end_is_dropped() {
    assert_eq!(strip_color_codes("end\u{a7}"), "end");
    assert_eq!(strip_color_codes("\u{a7}"), "");
}

#[test]
fn section_sign_can_be_the_code() {
    assert_eq!(strip_color_codes("\u{a7}\u{a7}x"), "x");
    assert_eq!(strip_color_codes("\u{a7}\u{1f600}\u{e9}"), "\u{e9}");
}

#[test]
fn stripping_twice_changes_nothing() {
    let once = strip_color_codes("\u{a7}\u{a7}\u{a7}ab\u{a7}");
    assert!(!once.contains('\u{a7}'));
    assert_eq!(strip_color_codes(&once), once);
}

#[test]
fn motd_of_plain_text() {
    assert_eq!(parse_motd(&text("\u{a7}aA Minecraft Server")), "A Minecraft Server");
}

#[test]
fn motd_of_an_object() {
    let desc = object(vec![
        ("color", text("red")),
        ("extra", Json::Array(vec![
            object(vec![("text", text("\u{a7}bextra "))]),
            text("\u{a7}rplain"),
            object(vec![("text", Json::Other)]),
            Json::Other,
            Json::Array(vec![text("nested")]),
            object(vec![("bold", Json::Other)]),
        ])),
        ("text", text("\u{a7}6Hello ")),
    ]);
    assert_eq!(parse_motd(&desc), "Hello extra plain");
}

#[test]
fn motd_of_an_object_without_text() {
    assert_eq!(parse_motd(&object(vec![])), "");
    assert_eq!(parse_motd(&object(vec![("text", Json::Other)])), "");
    assert_eq!(parse_motd(&object(vec![("extra", text("not an array"))])), "");
    assert_eq!(parse_motd(&object(vec![("extra", Json::Array(vec![text("x")]))])), "x");
}

#[test]
fn motd_of_an_array() {
    let desc = Json::Array(vec![
        object(vec![("text", text("one "))]),
        text("plain texts do not count here"),
        object(vec![("text", text("\u{a7}ctwo")), ("extra", Json::Array(vec![text("no")]))]),
        object(vec![("text", Json::Array(vec![]))]),
        Json::Other,
    ]);
    assert_eq!(parse_motd(&desc), "one two");
}

#[test]
fn motd_of_anything_else_is_empty() {
    assert_eq!(parse_motd(&Json::Other), "");
}

#[test]
fn motd_forms_agree() {
    let plain = parse_motd(&text("\u{a7}4same"));
    let as_object = parse_motd(&object(vec![("text", text("\u{a7}4same"))]));
    let as_array = parse_motd(&Json::Array(vec![object(vec![("text", text("\u{a7}4same"))])]));
    assert_eq!(plain, "same");
    assert_eq!(as_object, "same");
    assert_eq!(as_array, "same");
}

#[test]
fn extra_must_be_an_array() {
    assert_eq!(parse_extra(&text("x")), "");
    assert_eq!(parse_extra(&object(vec![("text", text("x"))])), "");
    assert_eq!(parse_extra(&Json::Array(vec![])), "");
    assert_eq!(parse_extra(&Json::Array(vec![text("a"), text("b")])), "ab");
}

#[test]
fn field_is_found_wherever_it_stands() {
    let fields = vec![("a".to_string(), text("1")), ("b".to_string(), text("2"))];
    assert!(matches!(get_field(&fields, "a"), Some(Json::Text(s)) if s == "1"));
    assert!(matches!(get_field(&fields, "b"), Some(Json::Text(s)) if s == "2"));
    assert!(get_field(&fields, "c").is_none());
}

#[test]
fn text_is_stripped_piece_by_piece() {
    let (before, after) = ("\u{a7}ared \u{a7}\u{a7}x", "\u{a7}bblue\u{a7}");
    let alone = strip_color_codes(before) + &strip_color_codes(after);
    assert_eq!(alone, "red xblue");
    assert_eq!(strip_color_codes(&format!("{}{}", before, after)), alone);
    assert_eq!(strip_color_codes(&format!("{}\u{a7}c{}", before, after)), alone);
}

#[test]
fn motd_of_one_text_in_every_form() {
    let s = "\u{a7}6A \u{a7}lserver";
    let carrier = || object(vec![("text", text(s))]);
    for desc in [
        text(s),
        carrier(),
        Json::Array(vec![carrier()]),
        object(vec![("extra", Json::Array(vec![text(s)]))]),
        object(vec![("extra", Json::Array(vec![carrier()]))]),
    ] {
        assert_eq!(parse_motd(&desc), "A server");
    }
}

#[test]
fn extra_parts_keep_their_order() {
    let parts = vec![text("a"), object(vec![("text", text("b"))]), text("c")];
    assert_eq!(parse_extra(&Json::Array(parts)), "abc");
}
