use mc_tui::text::{
    contains_chars, has_prefix, has_suffix, parse_u32, split_lines, split_words, str_chars,
    string_from_chars, to_lower_chars, trim_chars, u32_to_string,
};
use mc_tui::width::{char_cols, truncate_cols};

fn chars(s: &str) -> Vec<char> {
    s.chars().collect()
}

#[test]
fn trimming_matches_str_trim() {
    for s in ["  a b  ", "\u{3000}x\t", "", "   ", "abc"] {
        let t: String = trim_chars(&chars(s)).into_iter().collect();
        assert_eq!(t, s.trim());
    }
}

#[test]
fn words_match_split_whitespace() {
    for s in [" a  bb\tc\n", "", "one", "\u{A0}x\u{2003}y"] {
        let w = split_words(&chars(s));
        let expected: Vec<String> = s.split_whitespace().map(str::to_string).collect();
        assert_eq!(w, expected);
    }
}

#[test]
fn lines_match_str_lines() {
    for s in ["a\nb", "a\r\nb\n", "", "\n\n", "x\r"] {
        let ls: Vec<String> =
            split_lines(&chars(s)).into_iter().map(|l| l.into_iter().collect()).collect();
        let expected: Vec<String> = s.lines().map(str::to_string).collect();
        assert_eq!(ls, expected, "input {s:?}");
    }
}

#[test]
fn numbers_round_trip() {
    for n in [0u32, 7, 10, 512, 4096, 99999, u32::MAX] {
        let s = u32_to_string(n);
        assert_eq!(s, n.to_string());
        assert_eq!(parse_u32(&chars(&s)), Some(n));
    }
    assert_eq!(parse_u32(&chars("+12")), Some(12));
    assert_eq!(parse_u32(&chars("")), None);
    assert_eq!(parse_u32(&chars("-1")), None);
    assert_eq!(parse_u32(&chars("4294967296")), None);
    assert_eq!(parse_u32(&chars("007")), Some(7));
}

#[test]
fn searching_and_case() {
    assert!(contains_chars(&chars("fabric-loader"), &chars("loader")));
    assert!(!contains_chars(&chars("fab"), &chars("fabric")));
    assert!(has_prefix(&chars("```rust"), &chars("```")));
    assert!(has_suffix(&chars("a.jar"), &chars(".jar")));
    let low: String = to_lower_chars(&chars("MiXeD 1.2")).into_iter().collect();
    assert_eq!(low, "mixed 1.2");
    assert_eq!(string_from_chars(&str_chars("héllo")), "héllo");
}

#[test]
fn column_widths() {
    assert_eq!(char_cols('a'), 1);
    assert_eq!(char_cols('日'), 2);
    assert_eq!(char_cols('\u{7}'), 1);
    let cut: String = truncate_cols(&chars("日志ab"), 3).into_iter().collect();
    assert_eq!(cut, "日");
    let cut: String = truncate_cols(&chars("ab日"), 3).into_iter().collect();
    assert_eq!(cut, "ab");
    assert!(truncate_cols(&chars("abc"), 0).is_empty());
}
