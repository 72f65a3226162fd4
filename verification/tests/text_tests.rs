use hop::text::{
    chars_of, is_whitespace, last_segment_of, lines_of, pad_to, parse_u32, push_decimal,
    split_at_first_space, starts_with, str_eq, trim, words_of,
};

fn chars(s: &str) -> Vec<char> {
    s.chars().collect()
}

fn strings(v: Vec<Vec<char>>) -> Vec<String> {
    v.into_iter().map(|w| w.into_iter().collect()).collect()
}

#[test]
fn trim_removes_surrounding_whitespace() {
    assert_eq!(trim("  12345\n"), "12345");
    assert_eq!(trim("\t%3 \r\n"), "%3");
    assert_eq!(trim("a b"), "a b");
    assert_eq!(trim("   "), "");
    assert_eq!(trim(""), "");
    assert_eq!(trim("\u{3000}x\u{a0}"), "x");
}

#[test]
fn whitespace_is_the_unicode_property() {
    for c in [' ', '\t', '\n', '\r', '\u{b}', '\u{c}', '\u{85}', '\u{a0}', '\u{2003}', '\u{3000}'] {
        assert!(is_whitespace(c));
        assert_eq!(is_whitespace(c), c.is_whitespace());
    }
    for c in ['a', '0', '_', '\u{200b}', '/'] {
        assert!(!is_whitespace(c));
        assert_eq!(is_whitespace(c), c.is_whitespace());
    }
}

#[test]
fn last_segment_is_what_follows_the_last_slash() {
    assert_eq!(last_segment_of("/Users/me/Projects/api"), "api");
    assert_eq!(last_segment_of("plain"), "plain");
    assert_eq!(last_segment_of("/trailing/"), "");
    assert_eq!(last_segment_of(""), "");
    assert_eq!(last_segment_of("/"), "");
}

#[test]
fn parse_u32_follows_str_parse() {
    for s in ["0", "42", "+7", "007", "4294967295", "4294967296", "-1", "", "+", "1 ", " 1", "12a", "99999999999999999999", "+-1", "١"] {
        assert_eq!(parse_u32(s), s.parse::<u32>().ok(), "input {:?}", s);
    }
    assert_eq!(parse_u32("35667"), Some(35667));
    assert_eq!(parse_u32("4294967296"), None);
}

#[test]
fn decimal_writes_numbers() {
    for n in [0usize, 7, 10, 42, 100, 12345, usize::MAX] {
        let mut s = String::from("n=");
        push_decimal(&mut s, n);
        assert_eq!(s, format!("n={}", n));
    }
}

#[test]
fn words_split_at_whitespace() {
    let w = strings(words_of(&chars("1234 (bash) S 1 1234 ")));
    assert_eq!(w, vec!["1234", "(bash)", "S", "1", "1234"]);
    assert!(words_of(&chars("   ")).is_empty());
    let text = "  a\tb \n c  ";
    let expected: Vec<&str> = text.split_whitespace().collect();
    assert_eq!(strings(words_of(&chars(text))), expected);
}

#[test]
fn lines_follow_str_lines() {
    for text in ["", "a", "a\n", "a\nb", "a\r\nb\r\n", "\n", "\n\n", "a\r", "x\ry\n z"] {
        let expected: Vec<&str> = text.lines().collect();
        assert_eq!(strings(lines_of(&chars(text))), expected, "input {:?}", text);
    }
}

#[test]
fn split_at_first_space_keeps_the_rest_whole() {
    let (a, b) = split_at_first_space(&chars("123 main:0.1 extra"));
    assert_eq!(a.into_iter().collect::<String>(), "123");
    assert_eq!(b.map(|v| v.into_iter().collect::<String>()), Some("main:0.1 extra".to_string()));
    let (a, b) = split_at_first_space(&chars("nospace"));
    assert_eq!(a.into_iter().collect::<String>(), "nospace");
    assert!(b.is_none());
    let (a, b) = split_at_first_space(&chars(" lead"));
    assert_eq!(a.into_iter().collect::<String>(), "");
    assert_eq!(b.map(|v| v.into_iter().collect::<String>()), Some("lead".to_string()));
}

#[test]
fn padding_fills_to_the_width() {
    assert_eq!(pad_to("api", 6), "api   ");
    assert_eq!(pad_to("exactly", 7), "exactly");
    assert_eq!(pad_to("longer than", 4), "longer than");
    assert_eq!(pad_to("é", 3), format!("{:<3}", "é"));
}

#[test]
fn prefixes_and_equality() {
    assert!(starts_with(&chars("/home/me/x"), &chars("/home/me")));
    assert!(!starts_with(&chars("/home"), &chars("/home/me")));
    assert!(starts_with(&chars("abc"), &chars("")));
    assert!(str_eq("idle", "idle"));
    assert!(!str_eq("idle", "Idle"));
    assert_eq!(chars_of("héllo"), chars("héllo"));
}
