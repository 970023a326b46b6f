use rust_proxy::address_text::{host_with_port, parse_ip, parse_ipv4, parse_ipv6, parse_socket};
use rust_proxy::text::{
    eq_ignore_ascii_case, find_chars, from_chars, lines, parse_number, push_decimal, remove_all,
    split, split_by, split_once, split_whitespace, to_chars, to_hex, trim,
};
use rust_proxy::text_map::{text_precedes, TextMap};

fn chars(text: &str) -> Vec<char> {
    text.chars().collect()
}

fn strings(parts: Vec<&[char]>) -> Vec<String> {
    parts.into_iter().map(|part| part.iter().collect()).collect()
}

#[test]
fn addresses_read_back() {
    for text in [
        "0.0.0.0",
        "192.0.2.255",
        "::",
        "::1",
        "1::",
        "2001:db8::1",
        "2001:db8:0:1:1:1:1:1",
        "1:0:0:2::3",
        "::ffff:192.0.2.1",
        "fe80::1:2:3:4",
    ] {
        assert_eq!(parse_ip(&chars(text)).unwrap().to_text(), text);
    }
    for text in ["192.0.2.1:80", "[2001:db8::1]:443", "[fe80::1%3]:1"] {
        assert_eq!(parse_socket(&chars(text)).unwrap().to_text(), text);
    }
}

#[test]
fn addresses_are_read_strictly() {
    for text in ["", "1.2.3", "1.2.3.4.5", "256.0.0.1", "01.2.3.4", "1.2.3.4 ", "a.b.c.d"] {
        assert!(parse_ipv4(&chars(text)).is_none(), "{text}");
    }
    for text in [":", "1:2:3", "::1::2", "1:2:3:4:5:6:7:8:9", "12345::", "::g", "1::2:3:4:5:6:7:8"] {
        assert!(parse_ipv6(&chars(text)).is_none(), "{text}");
    }
    for text in ["1.2.3.4", "1.2.3.4:", "1.2.3.4:65536", "::1:80", "[::1]", "[::1]:"] {
        assert!(parse_socket(&chars(text)).is_none(), "{text}");
    }
    assert_eq!(host_with_port("example.com", 443), "example.com:443");
}

#[test]
fn texts_are_taken_apart() {
    assert_eq!(from_chars(trim(&chars(" \t a b \u{3000}"))), "a b");
    assert_eq!(strings(split(&chars("a,,b"), ',')), vec!["a", "", "b"]);
    assert_eq!(strings(lines(&chars("a\r\nb\n\nc"))), vec!["a", "b", "", "c"]);
    assert_eq!(strings(split_whitespace(&chars("  a  b\t"))), vec!["a", "b"]);
    assert_eq!(strings(split_by(&chars("a\r\nb\r\n"), &chars("\r\n"))), vec!["a", "b", ""]);
    let cut = chars("k=v=w");
    let (key, value) = split_once(&cut, '=').unwrap();
    assert_eq!((from_chars(key), from_chars(value)), ("k".to_string(), "v=w".to_string()));
    assert_eq!(find_chars(&chars("abcabc"), &chars("ca")), Some(2));
    assert_eq!(from_chars(&remove_all(&chars("http://a"), &chars("http://"))), "a");
    assert!(eq_ignore_ascii_case(&chars("Basic"), &chars("bASIC")));
    assert!(!eq_ignore_ascii_case(&chars("\u{e9}"), &chars("\u{c9}")));
}

#[test]
fn numbers_are_read_and_written() {
    let mut text = String::from("n=");
    push_decimal(&mut text, 0);
    push_decimal(&mut text, u128::MAX);
    assert_eq!(text, format!("n=0{}", u128::MAX));
    assert_eq!(parse_number(&chars("+00042"), 65535), Some(42));
    assert_eq!(parse_number(&chars("65536"), 65535), None);
    assert_eq!(parse_number(&chars("18446744073709551615"), u64::MAX), Some(u64::MAX));
    assert_eq!(parse_number(&chars("18446744073709551616"), u64::MAX), None);
    for text in ["", "+", "-1", "1a", " 1"] {
        assert_eq!(parse_number(&chars(text), u64::MAX), None, "{text}");
    }
    assert_eq!(to_hex(&[0, 15, 255]), "000fff");
    assert_eq!(to_chars("ab"), vec!['a', 'b']);
}

#[test]
fn maps_keep_their_texts_in_order() {
    let mut map = TextMap::new();
    for key in ["b", "a", "ab", "\u{e9}", ""] {
        map.insert(key.to_string(), key.len() as u64);
    }
    map.insert("a".to_string(), 9);
    assert_eq!(map.len(), 5);
    assert_eq!(map.get("a"), Some(9));
    assert_eq!(map.get("x"), None);
    assert_eq!(map.sorted_keys(), vec!["", "a", "ab", "b", "\u{e9}"]);
    assert!(map.remove("ab"));
    assert!(!map.remove("ab"));
    assert!(text_precedes("a", "ab"));
    assert!(!text_precedes("b", "ab"));
}
