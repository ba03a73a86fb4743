use localhost::table::StrMap;
use localhost::text::{
    chars_of, decimal_chars, find_bytes, find_bytes_from, find_chars, lines_of, parse_usize_chars,
    split_chars, trim_chars, utf8_bytes, words_of,
};

fn s(v: &[char]) -> String {
    v.iter().collect()
}

fn strs(v: &[Vec<char>]) -> Vec<String> {
    v.iter().map(|x| s(x)).collect()
}

#[test]
fn decimal_chars_writes_digits() {
    assert_eq!(s(&decimal_chars(0)), "0");
    assert_eq!(s(&decimal_chars(7)), "7");
    assert_eq!(s(&decimal_chars(1234)), "1234");
    assert_eq!(s(&decimal_chars(u64::MAX)), "18446744073709551615");
}

#[test]
fn parse_usize_reads_digits_with_optional_plus() {
    assert_eq!(parse_usize_chars(&chars_of("42")), Some(42));
    assert_eq!(parse_usize_chars(&chars_of("+42")), Some(42));
    assert_eq!(parse_usize_chars(&chars_of("007")), Some(7));
    assert_eq!(parse_usize_chars(&chars_of("")), None);
    assert_eq!(parse_usize_chars(&chars_of("+")), None);
    assert_eq!(parse_usize_chars(&chars_of("-1")), None);
    assert_eq!(parse_usize_chars(&chars_of("12a")), None);
    assert_eq!(parse_usize_chars(&chars_of("99999999999999999999999")), None);
}

#[test]
fn decimal_round_trip_law() {
    for n in [0u64, 1, 9, 10, 99, 100, 65535, 2097152, 4294967296] {
        let d = decimal_chars(n);
        assert_eq!(parse_usize_chars(&d), Some(n as usize));
    }
}

#[test]
fn trim_chars_drops_unicode_whitespace() {
    assert_eq!(s(&trim_chars(&chars_of("  a b \t\r\n"))), "a b");
    assert_eq!(s(&trim_chars(&chars_of("\u{3000}x\u{a0}"))), "x");
    assert_eq!(s(&trim_chars(&chars_of("   "))), "");
}

#[test]
fn split_chars_keeps_empty_pieces() {
    assert_eq!(strs(&split_chars(&chars_of("a;b;;c"), ';')), vec!["a", "b", "", "c"]);
    assert_eq!(strs(&split_chars(&chars_of(""), ';')), vec![""]);
    assert_eq!(strs(&split_chars(&chars_of(";"), ';')), vec!["", ""]);
}

#[test]
fn lines_and_words_follow_std() {
    let text = "GET / HTTP/1.1\r\nHost: x\n\nend";
    let expected: Vec<String> = text.lines().map(|l| l.to_string()).collect();
    assert_eq!(strs(&lines_of(&chars_of(text))), expected);
    assert_eq!(strs(&lines_of(&chars_of("a\r\n"))), vec!["a"]);
    for t in ["x\r", "\n\n", "a\nb\r\n\r\n", ""] {
        let expected: Vec<String> = t.lines().map(|l| l.to_string()).collect();
        assert_eq!(strs(&lines_of(&chars_of(t))), expected);
    }
    assert_eq!(
        strs(&words_of(&chars_of("  GET   /x\tHTTP/1.1 "))),
        vec!["GET", "/x", "HTTP/1.1"]
    );
    assert!(words_of(&chars_of(" \t ")).is_empty());
}

#[test]
fn searching_finds_first_match() {
    let hay = chars_of("abcabc");
    assert_eq!(find_chars(&hay, &chars_of("bc"), 0), Some(1));
    assert_eq!(find_chars(&hay, &chars_of("bc"), 2), Some(4));
    assert_eq!(find_chars(&hay, &chars_of("x"), 0), None);
    assert_eq!(find_bytes_from(b"ab\r\n\r\ncd", b"\r\n\r\n", 0), Some(2));
    assert_eq!(find_bytes_from(b"ab", b"abc", 0), None);
    assert_eq!(find_bytes(b"xx--Byy--B", b"--B"), Some(2));
    assert_eq!(find_bytes(b"xx", b"--B"), None);
}

#[test]
fn utf8_bytes_encodes() {
    assert_eq!(utf8_bytes("é"), vec![0xC3, 0xA9]);
    assert_eq!(utf8_bytes("ok"), b"ok".to_vec());
}

#[test]
fn table_insert_then_get() {
    let mut t = StrMap::new();
    assert_eq!(t.len(), 0);
    assert_eq!(t.get("Host"), None);
    t.insert("Host".to_string(), "a".to_string());
    t.insert("Accept".to_string(), "*/*".to_string());
    assert_eq!(t.get("Host").map(|v| v.as_str()), Some("a"));
    assert_eq!(t.get("Accept").map(|v| v.as_str()), Some("*/*"));
    assert_eq!(t.get("host"), None);
    assert_eq!(t.index_of("Accept"), Some(1));
}

#[test]
fn table_insert_replaces_and_keeps_keys_unique() {
    let mut t = StrMap::new();
    t.insert("k".to_string(), "1".to_string());
    t.insert("j".to_string(), "2".to_string());
    t.insert("k".to_string(), "3".to_string());
    assert_eq!(t.len(), 2);
    assert_eq!(t.get("k").map(|v| v.as_str()), Some("3"));
    assert_eq!(t.get("j").map(|v| v.as_str()), Some("2"));
    assert_eq!(t.key_at(0).as_str(), "k");
    assert_eq!(t.value_at(0).as_str(), "3");
}
