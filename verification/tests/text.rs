use soundsync::text::{ends_with, find, join, less, lines, parse_u8, parse_u32, parse_up_to, render, replace_char, rfind, split, split_once, split_once_at, splitn, strip_prefix, trim, words};

const SAMPLES: [&str; 9] = [
    "", " ", "a", " a b ", "a,b,,c", "one\r\ntwo\n\nthree", "\u{e9}\u{2003}x\u{85}", "k=v=w", ",,",
];

#[test]
fn text_functions_agree_with_str() {
    for s in SAMPLES {
        assert_eq!(trim(s), s.trim());
        assert_eq!(words(s), s.split_whitespace().collect::<Vec<_>>());
        assert_eq!(lines(s), s.lines().collect::<Vec<_>>());
        assert_eq!(split(s, ','), s.split(',').collect::<Vec<_>>());
        assert_eq!(splitn(s, 2, ','), s.splitn(2, ',').collect::<Vec<_>>());
        assert_eq!(
            split_once(s, '='),
            s.split_once('=').map(|(a, b)| (a.to_string(), b.to_string()))
        );
        assert_eq!(
            split_once_at(s, "b,"),
            s.split_once("b,").map(|(a, b)| (a.to_string(), b.to_string()))
        );
        assert_eq!(strip_prefix(s, "a"), s.strip_prefix("a").map(|t| t.to_string()));
        assert_eq!(ends_with(s, "c"), s.ends_with("c"));
        assert_eq!(replace_char(s, ',', ';'), s.replace(',', ";"));
        for t in SAMPLES {
            assert_eq!(less(s, t), s < t, "{s:?} {t:?}");
        }
    }
}

#[test]
fn positions_are_counted_in_characters() {
    assert_eq!(find("\u{e9}ab", "ab"), Some(1));
    assert_eq!(rfind("ab\u{e9}ab", "ab"), Some(3));
    assert_eq!(find("abc", ""), Some(0));
    assert_eq!(find("abc", "d"), None);
}

#[test]
fn numbers_are_read_as_the_standard_library_does() {
    for s in ["0", "7", "+7", "007", "255", "256", "-1", "", "+", "1 ", "0x1", "4294967295", "4294967296"] {
        assert_eq!(parse_u8(s), s.parse::<u8>().ok(), "{s}");
        assert_eq!(parse_u32(s), s.parse::<u32>().ok(), "{s}");
        assert_eq!(parse_up_to(s, u64::MAX), s.parse::<u64>().ok(), "{s}");
    }
    for n in [0u64, 9, 10, 1234567890, u64::MAX] {
        assert_eq!(render(n), n.to_string());
    }
}

#[test]
fn joining_puts_separators_between() {
    assert_eq!(join(&[], ", "), "");
    assert_eq!(join(&["a"], ", "), "a");
    assert_eq!(join(&["a", "", "b"], ", "), "a, , b");
}
