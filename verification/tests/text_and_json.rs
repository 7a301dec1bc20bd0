use fastsl::json::{
    copy_list, json_count, json_ints, json_real, json_slices, json_text, json_texts, Json, JsonMap,
};
use fastsl::order::{order_by, sort_texts, text_at_most};
use fastsl::text::{
    copy_texts, drop_leading, first_part, has_prefix, has_suffix, has_text, hex8, joined,
    same_text, signed_text, space, split_lines, split_text, text_of, to_chars, trim_text,
    unsigned_text,
};
use fastsl::tails::read_last_line;

#[test]
fn splitting_agrees_with_std() {
    for s in ["", "a", "a\n", "\n", "a\r\nb\n\nc", "\r", "a\r", "x\ny\r\n"] {
        assert_eq!(split_text(s, '\n'), s.split('\n').collect::<Vec<_>>());
        assert_eq!(split_text(s, '\n').join("\n"), s);
        assert_eq!(split_lines(s), s.lines().collect::<Vec<_>>());
    }
    assert_eq!(first_part("2024 x y", ' '), "2024");
    assert_eq!(first_part("", ' '), "");
}

fn last_line_by_std(bytes: &[u8]) -> Option<String> {
    let text = String::from_utf8_lossy(bytes);
    let line = text.lines().rev().find(|l| !l.is_empty()).map(|l| l.to_string());
    line
}

#[test]
fn last_lines_agree_with_std() {
    let alphabet = [b'a', b'\n', b'\r', 0xc3, 0xa9, 0xe2, 0x82, 0xf0, 0xff];
    for len in 0..6u32 {
        for n in 0..alphabet.len().pow(len) {
            let bytes: Vec<u8> =
                (0..len).map(|k| alphabet[n / alphabet.len().pow(k) % alphabet.len()]).collect();
            assert_eq!(read_last_line(&bytes), last_line_by_std(&bytes), "{bytes:?}");
        }
    }
}

#[test]
fn the_last_line_is_found_from_every_place_before_it() {
    let file = "one\nzwölf €\r\nlast: é\r\n\n".as_bytes();
    let first = file.iter().rposition(|b| *b == b'l').unwrap();
    assert_eq!(file[first - 1], b'\n');
    for start in 0..=first {
        let tail = &file[start..];
        assert_eq!(read_last_line(tail).as_deref(), Some("last: é"), "{start}");
    }
    assert_eq!(read_last_line(&file[file.len() - 1..]), None);
}

#[test]
fn trimming_agrees_with_std() {
    for s in ["", "  a b ", "\u{a0}x\u{3000}", "\t\n", "é ", "\u{200b}x"] {
        assert_eq!(trim_text(s), s.trim());
    }
    for n in 0..0x3100u32 {
        if let Some(c) = char::from_u32(n) {
            assert_eq!(space(c), c.is_whitespace(), "{n:x}");
        }
    }
    assert_eq!(drop_leading("//a/", '/'), "a/");
    assert_eq!(drop_leading("//", '/'), "");
}

#[test]
fn prefixes_and_suffixes() {
    assert!(has_prefix("assets/x", "assets/") && !has_prefix("asset", "assets/"));
    assert!(has_suffix("1.log", ".log") && !has_suffix("log", ".log"));
    assert!(same_text("a", "a") && !same_text("a", "b"));
    assert_eq!(joined("a", "b"), "ab");
    let list = vec!["x".to_string(), "y".to_string()];
    assert!(has_text(&list, "y") && !has_text(&list, "z"));
    assert_eq!(copy_texts(&list), list);
    assert_eq!(to_chars("aé"), vec!['a', 'é']);
    assert_eq!(text_of(&to_chars("abcd"), 1, 3), "bc");
}

#[test]
fn numbers_as_text() {
    for i in [0, 7, -1, 10, -1234567890, i64::MAX, i64::MIN] {
        assert_eq!(signed_text(i), i.to_string());
    }
    assert_eq!(unsigned_text(u128::MAX), u128::MAX.to_string());
    assert_eq!(hex8(0), "00000000");
    assert_eq!(hex8(0xdead_beef), "deadbeef");
}

#[test]
fn sorting_is_stable() {
    assert_eq!(order_by(&vec![3i64, 1, 2, 1, 3]), vec![1, 3, 2, 0, 4]);
    assert_eq!(order_by(&Vec::<i64>::new()), Vec::<usize>::new());
    let names: Vec<String> = ["b", "a\u{10000}", "a\u{ffff}", "", "ab", "a"]
        .iter()
        .map(|s| s.to_string())
        .collect();
    let mut expected = names.clone();
    expected.sort();
    assert_eq!(sort_texts(&names), expected);
    assert!(text_at_most("a", "ab") && text_at_most("a", "a") && !text_at_most("b", "ab"));
}

#[test]
fn members_are_kept_in_order() {
    let mut m = JsonMap::new();
    m.set("a", Json::Int(1));
    m.set("b", Json::Int(2));
    m.set("a", Json::Int(3));
    assert_eq!(m.entries[0], ("a".to_string(), Json::Int(3)));
    assert_eq!(m.entries.len(), 2);
    assert_eq!(m.get("b"), Some(&Json::Int(2)));
    assert_eq!(m.get("c"), None);
    assert_eq!(m.i64_at("b", 0), 2);
    assert_eq!(m.i64_at("c", 9), 9);
    assert_eq!(m.str_at("a"), "");
    assert_eq!(m.copy_at("c", Json::Null), Json::Null);
    assert_eq!(m.copy(), m);
    let o = Json::Object(m);
    assert_eq!(o.clone(), o);
    assert_eq!(o.i64_at("a", 0), 3);
    assert_eq!(o.copy_at("a", Json::Null), Json::Int(3));
    assert_eq!(Json::Null.i64_at("a", 4), 4);
    assert_eq!(Json::Null.get("a"), None);
}

#[test]
fn values_are_read_and_made() {
    assert_eq!(Json::UInt(5).as_i64(), Some(5));
    assert_eq!(Json::UInt(u64::MAX).as_i64(), None);
    assert_eq!(Json::Real(1.0f64.to_bits()).as_i64(), None);
    assert_eq!(Json::Str("x".to_string()).as_str(), Some("x"));
    assert_eq!(Json::Null.as_str(), None);
    assert_eq!(json_text("x"), Json::Str("x".to_string()));
    assert_eq!(json_texts(&vec!["x".to_string()]), Json::Array(vec![json_text("x")]));
    assert_eq!(json_slices(&vec!["x"]), Json::Array(vec![json_text("x")]));
    assert_eq!(json_ints(&vec![1, -2]), Json::Array(vec![Json::Int(1), Json::Int(-2)]));
    assert_eq!(json_count(3), Json::Int(3));
    assert_eq!(json_real(0.5f64.to_bits()), Json::Real(0.5f64.to_bits()));
    assert_eq!(json_real(f64::NAN.to_bits()), Json::Null);
    assert_eq!(copy_list(&vec![Json::Null]), vec![Json::Null]);
}
