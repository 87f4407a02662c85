use cys_app::json::{parse, parse_bytes, Json};
use cys_app::number::{decimal_text, hex_text, parse_u64, signed_decimal_text};
use cys_app::order::{order_by, sort_texts};
use cys_app::path::{components, file_name, join, parent, same_path};
use cys_app::text::{
    before, contains, lines, replace, split, starts_with, strip_prefix, trim, words,
};

#[test]
fn numbers_are_written_and_read() {
    for n in [0, 7, 10, 65_535, u64::MAX] {
        assert_eq!(decimal_text(n), n.to_string());
        assert_eq!(parse_u64(&decimal_text(n)), Some(n));
    }
    assert_eq!(signed_decimal_text(-42), "-42");
    assert_eq!(signed_decimal_text(i32::MIN), i32::MIN.to_string());
    assert_eq!(hex_text(255, 16), "00000000000000ff");
    for s in ["", "+", "-1", "x", "18446744073709551616", "1 "] {
        assert_eq!(parse_u64(s), s.parse::<u64>().ok(), "{s:?}");
    }
    assert_eq!(parse_u64("+5"), "+5".parse::<u64>().ok());
}

#[test]
fn text_pieces_match_the_standard_library() {
    for s in ["", "a", " a b ", "a\nb\r\nc", "\u{3000}x\u{3000}", "a//b/", "\r\n\n"] {
        assert_eq!(trim(s), s.trim());
        assert_eq!(lines(s), s.lines().collect::<Vec<_>>());
        assert_eq!(words(s), s.split_whitespace().collect::<Vec<_>>());
        assert_eq!(split(s, '/'), s.split('/').collect::<Vec<_>>());
        assert_eq!(replace(s, 'a', "xy"), s.replace('a', "xy"));
        assert_eq!(contains(s, "a"), s.contains("a"));
        assert_eq!(starts_with(s, " a"), s.starts_with(" a"));
        assert_eq!(strip_prefix(s, "a"), s.strip_prefix("a"));
    }
    assert!(before("a", "b") && before("a", "aa") && !before("b", "a") && !before("a", "a"));
}

#[test]
fn paths_match_the_standard_library() {
    for s in ["", "/", "a", "/a", "/a/", "a/b", "/a//b/./c", "./a", "..", "/a/..", "a/.", "//x//"] {
        let p = std::path::Path::new(s);
        assert_eq!(
            file_name(s).as_deref(),
            p.file_name().map(|n| n.to_str().unwrap()),
            "{s:?}"
        );
        assert_eq!(parent(s).as_deref(), p.parent().map(|n| n.to_str().unwrap()), "{s:?}");
        assert_eq!(
            components(s),
            p.components()
                .map(|c| c.as_os_str().to_str().unwrap().to_string())
                .collect::<Vec<_>>(),
            "{s:?}"
        );
        for name in ["x", "/y", ""] {
            assert_eq!(join(s, name), p.join(name).to_str().unwrap(), "{s:?} {name:?}");
        }
        assert_eq!(same_path(s, "/a"), p == std::path::Path::new("/a"), "{s:?}");
    }
}

#[test]
fn texts_are_sorted_stably() {
    let items: Vec<String> = ["b", "a", "가", "B"].iter().map(|s| s.to_string()).collect();
    let mut want = items.clone();
    want.sort();
    assert_eq!(sort_texts(items), want);
    let keys: Vec<(String, String)> = [("b", "1"), ("a", "2"), ("b", "0"), ("a", "2")]
        .iter()
        .map(|(x, y)| (x.to_string(), y.to_string()))
        .collect();
    assert_eq!(order_by(&keys), vec![1, 3, 2, 0]);
}

#[test]
fn json_is_read_with_its_numbers_and_order() {
    let j = parse(r#"{"b":[1,-2,2.5,true,null],"a":"\u00e9"}"#).unwrap();
    assert_eq!(
        j,
        Json::Object(vec![
            ("a".to_string(), Json::Text("é".to_string())),
            (
                "b".to_string(),
                Json::Array(vec![
                    Json::Unsigned(1),
                    Json::Negative(-2),
                    Json::Fraction("2.5".to_string()),
                    Json::Bool(true),
                    Json::Null,
                ])
            ),
        ])
    );
    assert_eq!(parse_bytes(b"[1]"), Some(Json::Array(vec![Json::Unsigned(1)])));
    assert_eq!(parse_bytes(b"\xff"), None);
    assert!(parse("{").is_err());
    assert_eq!(j.duplicate(), j);
}
