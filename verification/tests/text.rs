use e_lib::bytes::{cut_at, lossy, window_of};
use e_lib::json::{parse, render, Json};
use e_lib::text::{
    before, contains, decimal, ends_with, find, hex, join, signed, sorted, split, starts_with,
    strip_prefix, to_ascii_lowercase, trim, trim_end,
};

#[test]
fn whitespace_is_trimmed_as_unicode_has_it() {
    assert_eq!(trim(" \u{2003}\ta b\u{a0}\r\n"), "a b");
    assert_eq!(trim("\u{3000}"), "");
    assert_eq!(trim_end(" a "), " a");
    for c in ['\u{b}', '\u{85}', '\u{1680}', '\u{2028}', '\u{202f}', '\u{205f}', '\u{200b}', 'x'] {
        let s = c.to_string();
        assert_eq!(trim(&s), s.trim(), "{c:?}");
    }
}

#[test]
fn numbers_are_written_as_people_write_them() {
    assert_eq!(decimal(0), "0");
    assert_eq!(decimal(18_446_744_073_709_551_615), "18446744073709551615");
    assert_eq!(signed(-2_147_483_648), "-2147483648");
    assert_eq!(signed(7), "7");
    assert_eq!(hex(0x1f00ab), "1f00ab");
    assert_eq!(hex(0), "0");
}

#[test]
fn searching_and_cutting() {
    assert_eq!(find("héllo", "llo"), Some(2));
    assert_eq!(find("abc", ""), Some(0));
    assert_eq!(find("abc", "d"), None);
    assert!(contains("abc", "bc"));
    assert!(starts_with("data: x", "data:") && !starts_with("dat", "data:"));
    assert!(ends_with("e-snapshot-s1", "s1") && !ends_with("e-snapshot-s12", "s1"));
    assert_eq!(strip_prefix("name: x", "name:"), Some(" x".to_string()));
    assert_eq!(split("a\n\nb", '\n'), vec!["a", "", "b"]);
    assert_eq!(join(&vec!["a".to_string(), "b".to_string()], ", "), "a, b");
    assert_eq!(to_ascii_lowercase("ABC É z"), "abc É z");
}

#[test]
fn texts_are_ordered_by_code_points() {
    assert!(before("Z", "a") && before("a", "ab") && !before("b", "a") && !before("a", "a"));
    let list: Vec<String> = ["b", "a", "é", "B", "aa"].iter().map(|s| s.to_string()).collect();
    assert_eq!(sorted(list), vec!["B", "a", "aa", "b", "é"]);
}

#[test]
fn invalid_bytes_become_replacement_characters() {
    assert_eq!(lossy("héllo".as_bytes()), "héllo");
    assert_eq!(lossy(&[b'a', 0xff, b'b']), "a\u{fffd}b");
    assert_eq!(lossy(&[b'a', 0xe2, 0x82]), "a\u{fffd}");
    let mixed = [0xf0, 0x9f, 0x98, b'x', 0xc3, 0x28, 0x80, 0x80];
    assert_eq!(lossy(&mixed), String::from_utf8_lossy(&mixed));
}

#[test]
fn cuts_fall_between_characters() {
    assert_eq!(cut_at("aé", 2), "a");
    assert_eq!(cut_at("aé", 3), "aé");
    assert_eq!(cut_at("aé", 99), "aé");
    assert_eq!(window_of("éaé", 1, 4), "éaé");
    assert_eq!(window_of("abc", 1, 2), "b");
}

#[test]
fn json_is_read_and_written() {
    let v = parse("{\"b\": [1, -2, 2.5, true, null], \"a\": \"x\"}").unwrap();
    assert_eq!(v.get("a").unwrap().as_str().unwrap(), "x");
    assert_eq!(v.get("b").unwrap().as_array().unwrap()[0].as_u64(), Some(1));
    assert_eq!(v.get("b").unwrap().as_array().unwrap()[1], Json::Negative(-2));
    assert_eq!(
        v.get("b").unwrap().as_array().unwrap()[2],
        Json::Fraction { text: "2.5".into(), whole: 2 }
    );
    assert!(parse("{ oops").is_none());
    assert_eq!(render(&v), "{\"a\":\"x\",\"b\":[1,-2,2.5,true,null]}");
    let unordered = Json::Object(vec![
        ("z".to_string(), Json::Unsigned(1)),
        ("a".to_string(), Json::Text("q\"".into())),
        ("z".to_string(), Json::Unsigned(2)),
    ]);
    assert_eq!(render(&unordered), "{\"a\":\"q\\\"\",\"z\":2}");
}

#[test]
fn invalid_bytes_are_replaced_as_the_standard_library_does() {
    let bytes: [u8; 24] = [
        0x00, b'x', 0x7f, 0x80, 0x8f, 0x90, 0x9f, 0xa0, 0xbf, 0xc0, 0xc1, 0xc2, 0xdf, 0xe0, 0xe1, 0xec,
        0xed, 0xef, 0xf0, 0xf1, 0xf3, 0xf4, 0xf5, 0xff,
    ];
    for a in bytes {
        for b in bytes {
            for c in bytes {
                for d in bytes {
                    let all = [a, b, c, d];
                    for n in 0..=4 {
                        assert_eq!(lossy(&all[..n]), String::from_utf8_lossy(&all[..n]), "{:x?}", &all[..n]);
                    }
                }
            }
        }
    }
}
