use nymx_mail::text::{char_is_whitespace, compare_text, is_blank, same_text, split_lines, TextOrder};

#[test]
fn lines_like_std() {
    for s in ["", "\n", "a", "a\n", "a\r\nb\n\nc\r", "x\r", "\r\n\r\n", "one\ntwo"] {
        let ours = split_lines(s);
        let std_lines: Vec<String> = s.lines().map(String::from).collect();
        assert_eq!(ours, std_lines, "input {:?}", s);
    }
}

#[test]
fn lines_exact() {
    assert_eq!(split_lines("a\r\nb\n\nc\r"), vec!["a", "b", "", "c\r"]);
    assert!(split_lines("").is_empty());
    assert_eq!(split_lines("\n"), vec![""]);
}

#[test]
fn blank_text() {
    assert!(is_blank(""));
    assert!(is_blank(" \t\n\u{3000}"));
    assert!(!is_blank("  x "));
}

#[test]
fn text_order_like_string_order() {
    let words = ["", "a", "ab", "b", "B", "é", "z", "aa"];
    for a in words {
        for b in words {
            let expected = match a.cmp(b) {
                std::cmp::Ordering::Less => TextOrder::Before,
                std::cmp::Ordering::Equal => TextOrder::Same,
                std::cmp::Ordering::Greater => TextOrder::After,
            };
            assert_eq!(compare_text(a, b), expected, "{:?} vs {:?}", a, b);
            assert_eq!(same_text(a, b), a == b);
        }
    }
}

#[test]
fn whitespace_like_std() {
    for code in 0u32..0x3100 {
        if let Some(c) = char::from_u32(code) {
            assert_eq!(char_is_whitespace(c), c.is_whitespace(), "{:?}", c);
        }
    }
    assert!(!char_is_whitespace('\u{feff}'));
    assert!(!char_is_whitespace('\u{10ffff}'));
}
