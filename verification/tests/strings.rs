use grep::strings::{contains, lines};

#[test]
fn lines_of_empty_text() {
    assert!(lines("").is_empty());
}

#[test]
fn lines_without_final_line_feed() {
    assert_eq!(vec!["one", "two"], lines("one\ntwo"));
    assert_eq!(vec!["alone"], lines("alone"));
}

#[test]
fn lines_with_final_line_feed() {
    assert_eq!(vec!["one", "two"], lines("one\ntwo\n"));
    assert_eq!(vec!["alone"], lines("alone\n"));
}

#[test]
fn lines_that_are_empty() {
    assert_eq!(vec![""], lines("\n"));
    assert_eq!(vec!["", ""], lines("\n\n"));
    assert_eq!(vec!["a", "", "b", ""], lines("a\n\nb\n\n"));
}

#[test]
fn lines_with_carriage_returns() {
    assert_eq!(vec!["one", "two"], lines("one\r\ntwo\r\n"));
    assert_eq!(vec!["one\r", "two"], lines("one\r\r\ntwo"));
    assert_eq!(vec!["one", "two\r"], lines("one\ntwo\r"));
    assert_eq!(vec!["a\rb"], lines("a\rb\n"));
    assert_eq!(vec!["", "\r"], lines("\r\n\r"));
}

#[test]
fn lines_are_what_std_hands_out() {
    let texts = [
        "",
        "\n",
        "\r",
        "\r\n",
        "a",
        "a\n",
        "a\r\nb",
        "a\n\rb\r",
        "\n\n\r\n\n",
        "caf\u{e9}\r\n\u{65e5}\u{672c}\n\u{1f980}",
        " lead\ntrail \n\ttab",
    ];
    for text in texts {
        let expected: Vec<&str> = text.lines().collect();
        assert_eq!(expected, lines(text));
    }
}

#[test]
fn lines_of_text_with_several_bytes_per_character() {
    assert_eq!(
        vec!["caf\u{e9}", "\u{65e5}\u{672c}", "\u{1f980}"],
        lines("caf\u{e9}\r\n\u{65e5}\u{672c}\n\u{1f980}\n")
    );
}

#[test]
fn contains_finds_a_run_anywhere() {
    assert!(contains("safe, fast, productive.", "safe"));
    assert!(contains("safe, fast, productive.", "fast"));
    assert!(contains("safe, fast, productive.", "ive."));
    assert!(contains("safe, fast, productive.", "safe, fast, productive."));
    assert!(!contains("safe, fast, productive.", "safe, fast, productive.."));
    assert!(!contains("safe, fast, productive.", "Safe"));
    assert!(!contains("safe, fast, productive.", "sf"));
}

#[test]
fn contains_the_empty_string_always() {
    assert!(contains("", ""));
    assert!(contains("abc", ""));
    assert!(!contains("", "a"));
}

#[test]
fn contains_agrees_with_std() {
    let haystacks = ["", "a", "aaab", "abcabd", "caf\u{e9} \u{65e5}\u{672c}", "\u{1f980}x"];
    let needles =
        ["", "a", "b", "ab", "aab", "abd", "\u{e9}", "\u{672c}", "\u{1f980}", "x", "abcabdx"];
    for haystack in haystacks {
        for needle in needles {
            assert_eq!(haystack.contains(needle), contains(haystack, needle));
        }
    }
}
