use tyclaw::json::{hexadecimal, Json};
use tyclaw::order::{sort_pairs, str_before};
use tyclaw::table::{Table, TextTable};
use tyclaw::text::{
    char_is_white, char_width, decimal, eq_but_case, fits_bytes, parse_u64, str_byte_len,
    str_contains, str_ellipsis, str_floor_prefix, str_join, str_lines, str_replace, str_split,
    str_split_str, str_starts_with, str_strip_ends, str_take_chars, str_trim, str_trim_end,
    str_words,
};

#[test]
fn white_space_is_that_of_std() {
    for n in 0..0x11_0000u32 {
        if let Some(c) = char::from_u32(n) {
            assert_eq!(char_is_white(c), c.is_whitespace(), "{n:x}");
        }
    }
}

#[test]
fn widths_are_those_of_std() {
    for c in ['a', 'é', '中', '😀', '\u{7f}', '\u{80}', '\u{7ff}', '\u{800}', '\u{ffff}'] {
        assert_eq!(char_width(c), c.len_utf8());
    }
    assert_eq!(str_byte_len("aé中😀"), "aé中😀".len());
}

#[test]
fn texts_are_taken_apart_as_std_does() {
    for s in ["", "a", "a\n", "a\r\nb", "\n\n", "x\ny\r", " \t a b \u{3000}", "a,b,,c", ",,"] {
        assert_eq!(str_lines(s), s.lines().map(|l| l.to_string()).collect::<Vec<_>>());
        assert_eq!(str_split(s, ','), s.split(',').map(|l| l.to_string()).collect::<Vec<_>>());
        assert_eq!(
            str_split_str(s, ",,"),
            s.split(",,").map(|l| l.to_string()).collect::<Vec<_>>()
        );
        assert_eq!(
            str_words(s),
            s.split_whitespace().map(|l| l.to_string()).collect::<Vec<_>>()
        );
        assert_eq!(str_trim(s), s.trim());
        assert_eq!(str_trim_end(s), s.trim_end());
        assert_eq!(str_contains(s, "b"), s.contains('b'));
        assert_eq!(str_starts_with(s, "a"), s.starts_with('a'));
        assert_eq!(str_replace(s, "a", "zz"), s.replace("a", "zz"));
        assert_eq!(eq_but_case(s, "A"), s.eq_ignore_ascii_case("A"));
        assert_eq!(str_take_chars(s, 2), s.chars().take(2).collect::<String>());
        assert_eq!(parse_u64(s), s.parse::<u64>().ok());
    }
    assert_eq!(str_strip_ends("[x.txt]", "[]"), "[x.txt]".trim_end_matches("[]"));
    assert_eq!(parse_u64("18446744073709551615"), Some(u64::MAX));
    assert_eq!(parse_u64("18446744073709551616"), None);
    assert_eq!(parse_u64("+7"), None);
    assert_eq!(decimal(u128::MAX), u128::MAX.to_string());
    assert_eq!(str_join(&vec!["a".into(), "b".into()], ", "), "a, b");
}

#[test]
fn cuts_fall_between_characters() {
    assert_eq!(str_floor_prefix("a中b", 3), "a");
    assert_eq!(str_floor_prefix("a中b", 4), "a中");
    assert!(fits_bytes("中", 3) && !fits_bytes("中", 2));
    assert_eq!(str_ellipsis("abc", 3), "abc");
    assert!(str_ellipsis("abcdef", 3).starts_with("abc"));
}

#[test]
fn tables_keep_the_last_value() {
    let mut t = TextTable::new();
    t.insert("k".into(), "1".into());
    t.insert("k".into(), "2".into());
    assert_eq!(t.get("k"), Some("2"));
    assert_eq!(t.get("x"), None);
    let mut u: Table<u8> = Table::new();
    u.insert("a".into(), 1);
    u.insert("b".into(), 2);
    u.insert("a".into(), 3);
    assert_eq!(u.len(), 2);
    assert_eq!(u.get("a"), Some(&3));
    assert_eq!(u.remove("a"), Some(3));
    assert_eq!(u.remove("a"), None);
    assert_eq!(u.keys(), vec!["b".to_string()]);
}

#[test]
fn texts_are_ordered_as_std_does() {
    let samples = ["", "a", "ab", "b", "中", "z", "A", "_x", "aa"];
    for a in samples {
        for b in samples {
            assert_eq!(str_before(a, b), a < b);
        }
    }
    let pairs = vec![
        ("b".to_string(), "1".to_string()),
        ("a".to_string(), "2".to_string()),
        ("b".to_string(), "0".to_string()),
    ];
    let sorted = sort_pairs(&pairs);
    assert_eq!(sorted[0].0, "a");
    assert_eq!(sorted[1].1, "1");
    assert_eq!(sorted[2].1, "0");
}

#[test]
fn json_is_written_as_usual() {
    let v = Json::Object(vec![
        ("t".to_string(), Json::Text("a\"b\\c\n\t\u{1}中".to_string())),
        ("l".to_string(), Json::List(vec![Json::Null, Json::Bool(true), Json::Number("1.5".to_string())])),
    ]);
    assert_eq!(
        v.render(),
        "{\"t\":\"a\\\"b\\\\c\\n\\t\\u0001中\",\"l\":[null,true,1.5]}"
    );
    let parsed: serde_json::Value = serde_json::from_str(&v.render()).unwrap();
    assert_eq!(parsed["t"], "a\"b\\c\n\t\u{1}中");
    assert_eq!(v.get_text("t"), Some("a\"b\\c\n\t\u{1}中"));
    assert_eq!(hexadecimal(0xdeadbeef), "deadbeef");
    assert_eq!(hexadecimal(0), "0");
}
