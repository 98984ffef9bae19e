use diffitrust::text::{is_whitespace, split_lines, str_chars, trim};

#[test]
fn lines_like_str_lines() {
    for s in ["", "a", "a\n", "a\n\n", "\n", "a\r\nb", "a\rb\n", "x\r", "a\nb\r\n\r\nc"] {
        let expected: Vec<String> = s.lines().map(|l| l.to_string()).collect();
        assert_eq!(split_lines(s), expected, "input {:?}", s);
    }
}

#[test]
fn trim_like_str_trim() {
    for s in ["", "  ", " a ", "\t\nNord\u{3000}", "\u{a0}x y\u{2009}", "plain"] {
        assert_eq!(trim(s), s.trim(), "input {:?}", s);
    }
}

#[test]
fn whitespace_like_char_is_whitespace() {
    for c in ['\u{0}', ' ', '\t', '\n', '\u{b}', '\u{c}', '\r', '\u{85}', '\u{a0}', '\u{1680}',
              '\u{2000}', '\u{200a}', '\u{200b}', '\u{2028}', '\u{2029}', '\u{202f}', '\u{205f}',
              '\u{3000}', 'a', '#', '\u{feff}'] {
        assert_eq!(is_whitespace(c), c.is_whitespace(), "char {:?}", c);
    }
}

#[test]
fn chars_in_order() {
    assert_eq!(str_chars("héllo"), vec!['h', 'é', 'l', 'l', 'o']);
}
