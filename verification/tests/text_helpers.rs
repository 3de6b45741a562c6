use discord_server::text::{is_whitespace, split_on_char, split_once, starts_with, trim};

#[test]
fn trim_matches_std() {
    for s in ["", "  ", " a ", "\t\nab c\r\n", "x", "\u{3000}y\u{85}", "\u{200b}z"] {
        assert_eq!(trim(s), s.trim());
    }
}

#[test]
fn whitespace_matches_std() {
    for c in ['\t', '\n', ' ', 'a', '\u{a0}', '\u{2009}', '\u{200b}', '\u{3000}', '\u{feff}'] {
        assert_eq!(is_whitespace(c), c.is_whitespace());
    }
}

#[test]
fn split_matches_std() {
    for s in ["", "a", "a b", " a  b ", "LOGIN", "LOGIN x y"] {
        let expected: Vec<String> = s.split(' ').map(|p| p.to_string()).collect();
        assert_eq!(split_on_char(s, ' '), expected);
    }
}

#[test]
fn split_once_matches_std() {
    for s in ["", "a", "a\nb", "\n", "ab\ncd\nef"] {
        let expected = s.split_once('\n').map(|(a, b)| (a.to_string(), b.to_string()));
        assert_eq!(split_once(s, '\n'), expected);
    }
}

#[test]
fn starts_with_matches_std() {
    for (s, p) in [("REGISTER x", "REGISTER"), ("REG", "REGISTER"), ("", ""), ("abc", "")] {
        assert_eq!(starts_with(s, p), s.starts_with(p));
    }
}
