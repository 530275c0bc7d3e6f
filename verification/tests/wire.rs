use ffsend_api::wire::ascii_bytes;
use ffsend_api::wire::find_text;
use ffsend_api::wire::read_member;
use ffsend_api::wire::read_members;
use ffsend_api::wire::read_object;
use ffsend_api::wire::read_three;
use ffsend_api::wire::read_value;
use ffsend_api::wire::skip_value;
use ffsend_api::wire::read_string;
use ffsend_api::wire::same_bytes;
use ffsend_api::wire::skip_space;
use ffsend_api::wire::write_object;
use ffsend_api::wire::write_string;
use ffsend_api::wire::Entry;
use ffsend_api::wire::Member;

fn member(key: &str, value: &str) -> Member {
    Member { key: key.as_bytes().to_vec(), value: value.as_bytes().to_vec() }
}

#[test]
fn strings_are_written_between_quotes() {
    let mut out = b"x".to_vec();
    write_string(&mut out, b"ab");
    assert_eq!(out, b"x\"ab\"".to_vec());
    let mut out = Vec::new();
    write_string(&mut out, b"");
    assert_eq!(out, b"\"\"".to_vec());
}

#[test]
fn every_byte_reads_back() {
    let all: Vec<u8> = (0..=255u8).collect();
    let mut out = Vec::new();
    write_string(&mut out, &all);
    let (text, next) = read_string(&out, 0).unwrap();
    assert_eq!(text, all);
    assert_eq!(next, out.len());
}

#[test]
fn control_characters_are_written_as_escapes() {
    let mut out = Vec::new();
    write_string(&mut out, &[0x00, 0x0a, 0x1f, 0x20, 0x7f]);
    assert_eq!(out, b"\"\\u0000\\u000a\\u001f \x7f\"".to_vec());
}

#[test]
fn escapes_are_read() {
    let (text, next) = read_string(br#""\"\\\/\b\f\n\r\t\u0041\u00E9\u20ac" tail"#, 0).unwrap();
    assert_eq!(text, "\"\\/\u{8}\u{c}\n\r\tAé€".as_bytes().to_vec());
    assert_eq!(next, 36);
}

#[test]
fn strings_are_read_where_they_stand() {
    let bytes = br#"xx"ab"yy"#;
    assert_eq!(read_string(bytes, 2), Some((b"ab".to_vec(), 6)));
    assert_eq!(read_string(bytes, 0), None);
    assert_eq!(read_string(bytes, 5), None);
    assert_eq!(read_string(bytes, bytes.len()), None);
    assert_eq!(read_string(bytes, bytes.len() + 1), None);
}

#[test]
fn broken_strings_are_not_read() {
    for text in [r#""abc"#, r#""a\"#, r#""\q""#, r#""\u12g4""#, r#""\udc00""#, r#""\u123"#, "\"a\tb\""] {
        assert_eq!(read_string(text.as_bytes(), 0), None, "{}", text);
    }
}

#[test]
fn escaped_surrogate_pairs_are_read() {
    let (text, next) = read_string(br#""a\ud83e\udd80b""#, 0).unwrap();
    assert_eq!(text, "a🦀b".as_bytes().to_vec());
    assert_eq!(next, 16);
    let (text, _) = read_string(br#""\uD800\uDC00\udbff\udfff""#, 0).unwrap();
    assert_eq!(text, "\u{10000}\u{10ffff}".as_bytes().to_vec());
    for text in [
        r#""\ud83e""#,
        r#""\ud83eA""#,
        r#""\ud83e\u0041""#,
        r#""\ud83e\ud83e""#,
        r#""\udd80\ud83e""#,
        r#""\ud83e\n""#,
        r#""\ud83e\udd8""#,
    ] {
        assert_eq!(read_string(text.as_bytes(), 0), None, "{}", text);
    }
}

#[test]
fn values_that_are_no_strings_are_passed_over() {
    assert_eq!(skip_value(b"12.5e3,", 0), Some(6));
    assert_eq!(skip_value(b"true}", 0), Some(4));
    assert_eq!(skip_value(b"null", 0), Some(4));
    assert_eq!(skip_value(b"-1 ,", 0), Some(2));
    assert_eq!(skip_value(br#"[1,"]",{"a":[2]}] x"#, 0), Some(17));
    assert_eq!(skip_value(br#"{"a":"}","b":{}}x"#, 0), Some(16));
    assert_eq!(skip_value(b"[]", 0), Some(2));
    assert_eq!(skip_value(b"x[1]", 1), Some(4));
    for text in ["", "\"s\"", ",", ":", "}", "]", " 1", "[1", "{\"a\":[}", "[\"open", "[[]"] {
        assert_eq!(skip_value(text.as_bytes(), 0), None, "{}", text);
    }
    assert_eq!(skip_value(b"1", 5), None);
    assert_eq!(read_value(br#""s" "#, 0), Some((Some(b"s".to_vec()), 3)));
    assert_eq!(read_value(b"17,", 0), Some((None, 2)));
    assert_eq!(read_value(b"[17] ", 0), Some((None, 4)));
    assert_eq!(read_value(b",", 0), None);
    assert_eq!(read_value(b"\"open", 0), None);
}

#[test]
fn space_is_skipped() {
    assert_eq!(skip_space(b" \t\r\n x ", 0), 5);
    assert_eq!(skip_space(b"x", 0), 0);
    assert_eq!(skip_space(b"   ", 1), 3);
    assert_eq!(skip_space(b"", 0), 0);
    assert_eq!(skip_space(b"  ", 5), 5);
}

#[test]
fn members_are_read() {
    let (found, next) = read_member(br#""k" : "v","#, 0).unwrap();
    assert_eq!(found.key, b"k".to_vec());
    assert_eq!(found.value, Some(b"v".to_vec()));
    assert_eq!(next, 9);
    assert!(read_member(br#""k" "v""#, 0).is_none());
    let (found, next) = read_member(br#""k":1"#, 0).unwrap();
    assert_eq!(found.key, b"k".to_vec());
    assert_eq!(found.value, None);
    assert_eq!(next, 5);
    assert!(read_member(br#""k":"#, 0).is_none());
    assert!(read_member(br#"1:"v""#, 0).is_none());
    assert!(read_member(br#""k":"v""#, 100).is_none());
    assert!(read_members(br#""k":"v"}"#, 100).is_none());
    let (all, end) = read_members(br#""a":"1" , "b":"2" } rest"#, 0).unwrap();
    assert_eq!(all.len(), 2);
    assert_eq!(all[1].key, b"b".to_vec());
    assert_eq!(end, 19);
    assert!(read_members(br#""a":"1" "b":"2"}"#, 0).is_none());
    assert!(read_members(br#""a":"1","#, 0).is_none());
}

#[test]
fn objects_are_written_without_space() {
    assert_eq!(write_object(&vec![]), b"{}".to_vec());
    assert_eq!(write_object(&vec![member("a", "1")]), br#"{"a":"1"}"#.to_vec());
    assert_eq!(
        write_object(&vec![member("a", "1"), member("b\"", ""), member("", "c")]),
        br#"{"a":"1","b\"":"","":"c"}"#.to_vec()
    );
}

#[test]
fn objects_read_back() {
    let members = vec![member("id", "abc"), member("k\n", "\\v\""), member("", ""), member("id", "again")];
    let back = read_object(&write_object(&members)).unwrap();
    assert_eq!(back.len(), members.len());
    for (a, b) in members.iter().zip(back.iter()) {
        assert_eq!(a.key, b.key);
        assert_eq!(Some(&a.value), b.value.as_ref());
    }
    assert_eq!(read_object(b"{}").unwrap().len(), 0);
    assert_eq!(read_object(b" { } ").unwrap().len(), 0);
}

#[test]
fn what_is_no_object_is_not_read() {
    for text in ["", " ", "{", "}", "{,}", r#"{"a"}"#, r#"{"a":}"#, r#"{"a":"b"}}"#, r#"{"a":"b"}{"#, r#"["a"]"#, r#"{"a":{"b":"c"}"#, r#"{"a":[}"#, r#"{"a":true,}"#, r#"{a:"b"}"#, r#"{"a":1 2}"#] {
        assert!(read_object(text.as_bytes()).is_none(), "{}", text);
    }
}

#[test]
fn members_of_any_value_are_read() {
    let found = read_object(br#" { "n" : 1.5, "s":"text", "o":{"s":"}"}, "a":[1,[2]], "t":true, "z":null } "#).unwrap();
    let keys: Vec<&[u8]> = found.iter().map(|entry| entry.key.as_slice()).collect();
    assert_eq!(keys, vec![&b"n"[..], b"s", b"o", b"a", b"t", b"z"]);
    for entry in &found {
        assert_eq!(entry.value.is_some(), entry.key == b"s");
    }
    assert_eq!(found[1].value, Some(b"text".to_vec()));
}

#[test]
fn members_are_found_by_key() {
    let entry = |key: &str, value: Option<&[u8]>| Entry {
        key: key.as_bytes().to_vec(),
        value: value.map(|text| text.to_vec()),
    };
    let members = vec![
        entry("a", Some(b"1")),
        entry("b", Some(b"2")),
        entry("a", Some(b"3")),
        entry("n", None),
        entry("x", Some(b"\xff")),
        entry("", Some(b"empty")),
    ];
    assert_eq!(find_text(&members, b"b"), Some("2".to_string()));
    assert_eq!(find_text(&members, b""), Some("empty".to_string()));
    assert_eq!(find_text(&members, b"a"), None);
    assert_eq!(find_text(&members, b"n"), None);
    assert_eq!(find_text(&members, b"x"), None);
    assert_eq!(find_text(&members, b"c"), None);
    assert_eq!(find_text(&vec![], b"a"), None);
}

#[test]
fn three_texts_are_read_from_an_object() {
    let body = br#"{"extra":[1,2],"c":"3","a":"1","more":{"a":"no"},"b":"2"}"#;
    assert_eq!(
        read_three(body, b"a", b"b", b"c"),
        Some(("1".to_string(), "2".to_string(), "3".to_string()))
    );
    assert_eq!(read_three(body, b"a", b"b", b"d"), None);
    assert_eq!(read_three(body, b"a", b"b", b"extra"), None);
    assert_eq!(read_three(br#"{"a":"1","b":"2","c":"3","a":"1"}"#, b"a", b"b", b"c"), None);
    assert_eq!(read_three(br#"{"a":1,"a":"1","b":"2","c":"3"}"#, b"a", b"b", b"c"), None);
    assert_eq!(
        read_three(br#"{"a":"1","b":"2","c":"3","d":1,"d":2}"#, b"a", b"b", b"c"),
        Some(("1".to_string(), "2".to_string(), "3".to_string()))
    );
}

#[test]
fn bytes_are_compared() {
    assert!(same_bytes(b"", b""));
    assert!(same_bytes(b"abc", b"abc"));
    assert!(!same_bytes(b"abc", b"abd"));
    assert!(!same_bytes(b"abc", b"ab"));
}

#[test]
fn ascii_text_gives_its_bytes() {
    assert_eq!(ascii_bytes("type"), b"type".to_vec());
    assert_eq!(ascii_bytes(""), Vec::<u8>::new());
    assert_eq!(ascii_bytes("é"), vec![0xc3, 0xa9]);
}
