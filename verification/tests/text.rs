use cargo_vet::text::{
    before, chars_of, decimal, is_white_space, lines, parse_u64, same_text, split, starts_with,
    starts_with_char, trim,
};

#[test]
fn decimal_writes_what_std_writes() {
    for n in [0u64, 1, 9, 10, 19, 100, 12345678901, u64::MAX - 1, u64::MAX] {
        assert_eq!(decimal(n), n.to_string());
        assert_eq!(parse_u64(&decimal(n)), Some(n));
    }
    assert_eq!(decimal(407), "407");
}

#[test]
fn white_space_is_the_unicode_property() {
    let mut code: u32 = 0;
    while code <= 0x10ffff {
        if let Some(c) = char::from_u32(code) {
            assert_eq!(is_white_space(c), c.is_whitespace(), "{:?}", c);
        }
        code += 1;
    }
}

#[test]
fn trim_removes_what_std_removes() {
    for s in [
        "",
        " ",
        " \t\r\n ",
        "a",
        "  a b  ",
        "\u{a0}x\u{3000}",
        "\u{200b}x",
        " \u{2028}é ü\u{85}\n",
        "no space",
    ] {
        assert_eq!(trim(s), s.trim());
    }
    assert_eq!(trim("  9 insertions(+)\n"), "9 insertions(+)");
}

#[test]
fn lines_are_those_of_std() {
    for s in [
        "",
        "\n",
        "a",
        "a\n",
        "a\nb",
        "a\r\nb\r\n",
        "a\r",
        "\r\n\r\n",
        "a\r\r\nb",
        "\n\nend\n\n",
        "é\nü",
    ] {
        let expected: Vec<&str> = s.lines().collect();
        assert_eq!(lines(s), expected, "{:?}", s);
    }
    assert_eq!(lines("one\r\ntwo\n"), vec!["one", "two"]);
}

#[test]
fn split_gives_the_pieces_of_std() {
    for s in ["", ",", "a", "a,b", ",a,", "a,,b", " 3 files changed, 9 insertions(+)\n"] {
        let expected: Vec<&str> = s.split(',').collect();
        assert_eq!(split(s, ','), expected, "{:?}", s);
    }
    assert_eq!(split("x,,y", ','), vec!["x", "", "y"]);
}

#[test]
fn before_stops_at_the_first() {
    for s in ["", " ", "a", "a b", " a b", "a  b", "é ü"] {
        assert_eq!(before(s, ' '), s.split_once(' ').map(|p| p.0), "{:?}", s);
    }
    assert_eq!(before("9 insertions(+)", ' '), Some("9"));
    assert_eq!(before("9", ' '), None);
}

#[test]
fn numbers_are_read_as_std_reads_them() {
    for s in [
        "",
        "+",
        "-",
        "0",
        "00",
        "+7",
        "++7",
        "-7",
        "7x",
        " 7",
        "18446744073709551615",
        "18446744073709551616",
        "00018446744073709551615",
        "99999999999999999999999",
        "٣",
    ] {
        assert_eq!(parse_u64(s), s.parse::<u64>().ok(), "{:?}", s);
    }
    assert_eq!(parse_u64("+42"), Some(42));
}

#[test]
fn beginnings_of_texts() {
    assert!(starts_with("github.com-1ecc", "github.com-"));
    assert!(starts_with("abc", ""));
    assert!(starts_with("abc", "abc"));
    assert!(!starts_with("ab", "abc"));
    assert!(!starts_with("xabc", "abc"));
    assert!(starts_with_char("-a", '-'));
    assert!(!starts_with_char("", '-'));
    assert!(!starts_with_char("a-", '-'));
}

#[test]
fn texts_and_characters() {
    assert!(same_text("a", "a"));
    assert!(!same_text("a", "b"));
    assert_eq!(chars_of("aé"), vec!['a', 'é']);
}
