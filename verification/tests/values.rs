use perry_hermes_agent::json::{Json, JsonNumber};
use perry_hermes_agent::order::sort_distinct;
use perry_hermes_agent::path::{
    components_of, extension_text, file_name_text, join_paths, parent_text, same_paths, within,
};
use perry_hermes_agent::tool::ToolOutput;
use perry_hermes_agent::text::{
    byte_len, count_text, decimal_text, find_chars, chars_of, join_text, lines_text, lower_text,
    replace_first_text, replace_text, signed_decimal_text, skip_text, split_inclusive_text,
    split_text, strip_prefix_text, take_text, trim_text,
};

fn strings(items: &[&str]) -> Vec<String> {
    items.iter().map(|s| s.to_string()).collect()
}

#[test]
fn json_text_is_read_and_written() {
    let v = Json::parse("{\"b\":[1,-2,2.5,null,true],\"a\":\"x\\n\"}").unwrap();
    assert_eq!(v.render(), "{\"a\":\"x\\n\",\"b\":[1,-2,2.5,null,true]}");
    assert_eq!(v.text_at("a"), Some("x\n"));
    assert!(v.get("c").is_none());
    assert!(Json::parse("{").is_none());
    assert!(Json::parse("1 2").is_none());
}

#[test]
fn json_values_go_both_ways() {
    let v = Json::object()
        .with("n", Json::unsigned(7))
        .with("m", Json::integer(-7))
        .with("f", Json::boolean(true))
        .with("l", Json::texts(&strings(&["x", "y"])))
        .with("n", Json::unsigned(8));
    let back = Json::from_value(v.to_value());
    assert_eq!(back.render(), "{\"f\":true,\"l\":[\"x\",\"y\"],\"m\":-7,\"n\":8}");
    assert_eq!(back.number_at("n"), Some(8));
    assert_eq!(back.number_at("m"), None);
    assert!(back.flag_at("f"));
    assert_eq!(v.copy().render(), v.render());
    match Json::parse("1.5") {
        Some(Json::Number(JsonNumber::Other(n))) => {
            assert_eq!(n.to_string(), "1.5");
            assert_eq!(Json::Number(JsonNumber::Other(n)).as_u64(), None);
        }
        _ => panic!("a number with a fraction"),
    }
    let seven = Json::Number(JsonNumber::Other(serde_json::Number::from(7u64)));
    assert_eq!(seven.as_u64(), Some(7));
    assert_eq!(seven.copy().render(), "7");
}

#[test]
fn tool_output_holds_json_text() {
    let out = ToolOutput::of_json(&Json::object().with("error", Json::text("no")));
    assert_eq!(out.content, "{\"error\":\"no\"}");
}

#[test]
fn texts_are_split_and_joined() {
    let parts = split_text("a,b,,c", ',');
    assert_eq!(parts, strings(&["a", "b", "", "c"]));
    assert_eq!(join_text(&parts, ","), "a,b,,c");
    assert_eq!(lines_text("a\r\nb\n\nc"), strings(&["a", "b", "", "c"]));
    assert_eq!(split_inclusive_text("a\nb"), strings(&["a\n", "b"]));
}

#[test]
fn texts_are_searched_and_changed() {
    assert_eq!(count_text("aaaa", "aa"), 2);
    assert_eq!(replace_text("a-b-c", "-", "+"), "a+b+c");
    assert_eq!(replace_first_text("a-b-c", "-", "+"), "a+b-c");
    assert_eq!(find_chars(&chars_of("xaby"), &chars_of("ab"), 0), Some(1));
    assert_eq!(trim_text(" \t\u{3000}x y\n"), "x y");
    assert_eq!(strip_prefix_text("abc", "ab").as_deref(), Some("c"));
    assert_eq!(lower_text("AbÉ"), "abÉ");
    assert_eq!(skip_text("añb", 1), "ñb");
    assert_eq!(take_text("añb", 2), "añ");
    assert_eq!(byte_len("añ"), 3);
}

#[test]
fn numbers_are_written_in_decimal() {
    assert_eq!(decimal_text(0), "0");
    assert_eq!(decimal_text(u64::MAX), u64::MAX.to_string());
    assert_eq!(signed_decimal_text(i64::MIN), i64::MIN.to_string());
}

#[test]
fn paths_are_taken_apart() {
    assert_eq!(join_paths("/a/", "b"), "/a/b");
    assert_eq!(join_paths("/a", "/b"), "/b");
    assert_eq!(join_paths("", "b"), "b");
    assert_eq!(parent_text("/a/b/").as_deref(), Some("/a"));
    assert_eq!(parent_text("/"), None);
    assert_eq!(file_name_text("/a/b.txt").as_deref(), Some("b.txt"));
    assert_eq!(file_name_text("/a/.."), None);
    assert_eq!(extension_text("/a/b.tar.gz").as_deref(), Some("gz"));
    assert_eq!(extension_text("/a/.hidden"), None);
    assert!(same_paths("/a//b/", "/a/./b"));
    assert!(within("/a/b/c", "/a/b"));
    assert!(!within("/a/bc", "/a/b"));
    assert_eq!(components_of("/a/./b").len(), 3);
    for p in ["/a/b/", "a", "a/b//c", "/", "x/.", "./x", "a/./b", "..", "/.."] {
        let std_path = std::path::Path::new(p);
        assert_eq!(
            parent_text(p),
            std_path.parent().map(|q| q.to_str().unwrap().to_string()),
            "parent of {p}"
        );
        assert_eq!(
            file_name_text(p),
            std_path.file_name().map(|q| q.to_str().unwrap().to_string()),
            "name of {p}"
        );
        assert_eq!(
            extension_text(p),
            std_path.extension().map(|q| q.to_str().unwrap().to_string()),
            "extension of {p}"
        );
    }
}

#[test]
fn sorting_drops_repeats() {
    assert_eq!(
        sort_distinct(&strings(&["b", "a", "b", "B", ""])),
        strings(&["", "B", "a", "b"])
    );
}
