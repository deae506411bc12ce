use log_book_git::details::build_note_details;
use log_book_git::text::{
    lines_of, parse_i32, parse_u32, text_eq, text_less, trim, truncate_diff, truncate_text,
};

#[test]
fn truncate_text_keeps_short_text() {
    assert_eq!(truncate_text("hello", 10), "hello");
    assert_eq!(truncate_text("hello", 5), "hello");
    assert_eq!(truncate_text("", 0), "");
}

#[test]
fn truncate_text_cuts_long_text() {
    assert_eq!(truncate_text("hello world", 5), "hello...");
    assert_eq!(truncate_text("abc", 0), "...");
}

#[test]
fn truncate_text_counts_characters_not_bytes() {
    assert_eq!(truncate_text("héllo", 2), "hé...");
    assert_eq!(truncate_text("\u{1F680}\u{1F680}\u{1F680}", 3), "\u{1F680}\u{1F680}\u{1F680}");
    assert_eq!(truncate_text("\u{1F680}\u{1F680}\u{1F680}", 1), "\u{1F680}...");
}

#[test]
fn truncate_diff_keeps_short_diff() {
    assert_eq!(truncate_diff("a\nb\nc", 5), "a\nb\nc");
    assert_eq!(truncate_diff("a\nb\nc\n", 3), "a\nb\nc\n");
    assert_eq!(truncate_diff("", 0), "");
}

#[test]
fn truncate_diff_cuts_long_diff() {
    assert_eq!(truncate_diff("a\nb\nc\nd", 2), "a\nb\n... (2 more lines truncated)");
    assert_eq!(truncate_diff("a\r\nb\r\nc\n", 1), "a\n... (2 more lines truncated)");
    assert_eq!(truncate_diff("x\n", 0), "\n... (1 more lines truncated)");
}

#[test]
fn truncate_diff_at_the_limit_of_one_hundred_lines() {
    let hundred: Vec<String> = (0..100).map(|i| format!("+line {i}")).collect();
    let diff = hundred.join("\n");
    assert_eq!(truncate_diff(&diff, 100), diff);
    let longer = format!("{diff}\n+extra\n+more");
    let expected = format!("{diff}\n... (2 more lines truncated)");
    assert_eq!(truncate_diff(&longer, 100), expected);
}

#[test]
fn lines_follow_str_lines() {
    let cases = ["", "a", "a\n", "a\n\nb\r\n", "x\r", "\n", "\r\n\r\n", "a\rb\nc"];
    for case in cases {
        let expected: Vec<String> = case.lines().map(|l| l.to_string()).collect();
        assert_eq!(lines_of(case), expected, "case {case:?}");
    }
}

#[test]
fn trim_follows_str_trim() {
    let cases = ["  hi \n", "\u{3000}x\u{a0}", "", "   ", "a b", "\t\r\nq\u{2028}", "\u{85}z\u{200b}"];
    for case in cases {
        assert_eq!(trim(case), case.trim(), "case {case:?}");
    }
}

#[test]
fn parse_u32_follows_std() {
    let cases = ["12", "+12", "-1", "", "+", "4294967295", "4294967296", "007", " 1", "1a"];
    for case in cases {
        assert_eq!(parse_u32(case), case.parse::<u32>().ok(), "case {case:?}");
    }
}

#[test]
fn parse_i32_follows_std() {
    let cases = [
        "-2147483648", "2147483647", "2147483648", "-2147483649", "+5", "-", "+", "", "--1", "-0",
        "12x",
    ];
    for case in cases {
        assert_eq!(parse_i32(case), case.parse::<i32>().ok(), "case {case:?}");
    }
}

#[test]
fn text_comparisons() {
    assert!(text_eq("abc", "abc"));
    assert!(!text_eq("abc", "abd"));
    assert!(!text_eq("abc", "ab"));
    assert!(text_less("2025-01-06", "2025-01-13"));
    assert!(!text_less("2025-01-13", "2025-01-06"));
    assert!(text_less("ab", "abc"));
    assert!(!text_less("abc", "abc"));
}

#[test]
fn note_details_show_a_preview() {
    assert_eq!(
        build_note_details("Fix bug", "Looks good", "https://gitlab.com/g/p/-/issues/1"),
        "**Fix bug**\n\nLooks good\n\n[Open Thread](https://gitlab.com/g/p/-/issues/1)"
    );
    let long = "x".repeat(600);
    let expected = format!("**T**\n\n{}...\n\n[Open Thread](u)", "x".repeat(500));
    assert_eq!(build_note_details("T", &long, "u"), expected);
    let exact = "y".repeat(500);
    assert_eq!(build_note_details("T", &exact, "u"), format!("**T**\n\n{exact}\n\n[Open Thread](u)"));
}
