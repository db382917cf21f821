use arch_package_tui::display::{focus_title, truncate};
use arch_package_tui::fields::{lines_of, parse_decimal_i64, split_chars, trim_chars, words_of};

fn chars(s: &str) -> Vec<char> {
    s.chars().collect()
}

fn rows(v: Vec<Vec<char>>) -> Vec<String> {
    v.into_iter().map(|r| r.into_iter().collect()).collect()
}

#[test]
fn decimal_parsing_follows_i64_from_str() {
    assert_eq!(parse_decimal_i64(&chars("+42")), Some(42));
    assert_eq!(parse_decimal_i64(&chars("-9223372036854775808")), Some(i64::MIN));
    assert_eq!(parse_decimal_i64(&chars("9223372036854775807")), Some(i64::MAX));
    assert_eq!(parse_decimal_i64(&chars("9223372036854775808")), None);
    assert_eq!(parse_decimal_i64(&chars("")), None);
    assert_eq!(parse_decimal_i64(&chars("-")), None);
    assert_eq!(parse_decimal_i64(&chars("12a")), None);
    assert_eq!(parse_decimal_i64(&chars(" 1")), None);
    for s in ["0", "-0", "007", "123456789", "-77"] {
        assert_eq!(parse_decimal_i64(&chars(s)), s.parse::<i64>().ok());
    }
}

#[test]
fn lines_follow_str_lines() {
    for s in ["a\r\nb\n\nc", "a\n", "", "\n", "x\r", "a\n\n", "one"] {
        let expected: Vec<String> = s.lines().map(|l| l.to_string()).collect();
        assert_eq!(rows(lines_of(&chars(s))), expected, "input {:?}", s);
    }
}

#[test]
fn words_and_trim_follow_std() {
    for s in ["  a  b\tc ", "", "   ", "x"] {
        let expected: Vec<String> = s.split_whitespace().map(|w| w.to_string()).collect();
        assert_eq!(rows(words_of(&chars(s))), expected);
        assert_eq!(trim_chars(&chars(s)).into_iter().collect::<String>(), s.trim());
    }
    assert_eq!(rows(split_chars(&chars("a\t\tb"), '\t')), vec!["a", "", "b"]);
}

#[test]
fn truncation_keeps_short_text_and_marks_cuts() {
    assert_eq!(truncate("hello world", 8), "hello w…");
    assert_eq!(truncate("hello", 5), "hello");
    assert_eq!(truncate("hi", 3), "");
}

#[test]
fn focused_titles_are_marked() {
    assert_eq!(focus_title("Queue", true), "> Queue");
    assert_eq!(focus_title("Queue", false), "Queue");
}
