use omni_ingest::text::{is_whitespace, split_lines, tokenize};

fn strs(v: &[&str]) -> Vec<String> {
    v.iter().map(|s| s.to_string()).collect()
}

#[test]
fn whitespace_is_the_unicode_property() {
    let mut c: u32 = 0;
    while c < 0x11_0000 {
        if let Some(ch) = char::from_u32(c) {
            assert_eq!(is_whitespace(ch), ch.is_whitespace(), "U+{:04X}", c);
        }
        c += 1;
    }
}

#[test]
fn tokenize_splits_on_runs_of_whitespace() {
    assert_eq!(tokenize("1995  15\t3 \u{3000}42"), strs(&["1995", "15", "3", "42"]));
    assert_eq!(tokenize("  a  "), strs(&["a"]));
    assert_eq!(tokenize("a"), strs(&["a"]));
    assert_eq!(tokenize("-0.3 1e5\r"), strs(&["-0.3", "1e5"]));
}

#[test]
fn tokenize_of_blank_text_is_empty() {
    assert!(tokenize("").is_empty());
    assert!(tokenize(" \t \r\n").is_empty());
}

#[test]
fn tokenize_agrees_with_split_whitespace() {
    let samples = [
        "",
        " ",
        "a b",
        " a\u{00A0}b\u{2003}c ",
        "x\ty\nz",
        "\u{1680}q\u{205F}",
        "é ü  ß",
    ];
    for s in samples {
        let expected: Vec<String> = s.split_whitespace().map(|t| t.to_string()).collect();
        assert_eq!(tokenize(s), expected, "{:?}", s);
    }
}

#[test]
fn split_lines_ends_lines_at_line_feeds() {
    assert_eq!(split_lines("a\nb\nc"), strs(&["a", "b", "c"]));
    assert_eq!(split_lines("a\nb\n"), strs(&["a", "b"]));
    assert_eq!(split_lines("a\n\nb"), strs(&["a", "", "b"]));
    assert_eq!(split_lines("\n"), strs(&[""]));
    assert!(split_lines("").is_empty());
}

#[test]
fn split_lines_drops_a_carriage_return_before_a_line_feed() {
    assert_eq!(split_lines("a\r\nb\r\n"), strs(&["a", "b"]));
    assert_eq!(split_lines("a\r"), strs(&["a\r"]));
    assert_eq!(split_lines("a\r\r\nb"), strs(&["a\r", "b"]));
    assert_eq!(split_lines("\r\n"), strs(&[""]));
}

#[test]
fn split_lines_agrees_with_lines() {
    let samples = ["", "\n", "\r\n", "a", "a\n", "a\r\nb", "a\n\n", "x\r", "x\ry\n", "é\nü"];
    for s in samples {
        let expected: Vec<String> = s.lines().map(|t| t.to_string()).collect();
        assert_eq!(split_lines(s), expected, "{:?}", s);
    }
}

#[test]
fn tokenize_undoes_joining_words() {
    let words = strs(&["1995", "15", "-0.3", "1e5", "é"]);
    for sep in [" ", "\t", "  \u{2003} ", "\r\n"] {
        assert_eq!(tokenize(&words.join(sep)), words, "{:?}", sep);
    }
    assert_eq!(tokenize(&strs(&["one"]).join(" ")), strs(&["one"]));
}

#[test]
fn tokens_are_never_empty_and_hold_no_whitespace() {
    for token in tokenize(" \u{0085}a\u{2028}bc\u{202F}\u{2029} d\u{000B}\u{000C}e ") {
        assert!(!token.is_empty());
        assert!(token.chars().all(|c| !c.is_whitespace()));
    }
}
