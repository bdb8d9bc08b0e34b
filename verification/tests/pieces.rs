use minigrep::{contains, split_first_line};

#[test]
fn contains_finds_a_run_anywhere() {
    assert!(contains("haystack", "hay"));
    assert!(contains("haystack", "yst"));
    assert!(contains("haystack", "stack"));
    assert!(contains("haystack", "haystack"));
    assert!(!contains("haystack", "hey"));
    assert!(!contains("haystack", "haystacks"));
    assert!(!contains("haystack", "Hay"));
    assert!(!contains("abab", "abb"));
    assert!(contains("aaab", "aab"));
}

#[test]
fn contains_with_empty_strings() {
    assert!(contains("", ""));
    assert!(contains("x", ""));
    assert!(!contains("", "x"));
}

#[test]
fn contains_agrees_with_the_standard_library() {
    let words = ["", "a", "aa", "ab", "ba", "aba", "é", "e", "café", "fé", "日本", "本", "🦀", "a🦀b"];
    for hay in words {
        for needle in words {
            assert_eq!(hay.contains(needle), contains(hay, needle));
        }
    }
}

#[test]
fn first_line_ends_at_the_line_feed() {
    assert_eq!(split_first_line("one\ntwo\nthree"), ("one", "two\nthree"));
    assert_eq!(split_first_line("one\n"), ("one", ""));
    assert_eq!(split_first_line("\nrest"), ("", "rest"));
    assert_eq!(split_first_line("\n"), ("", ""));
}

#[test]
fn first_line_without_a_line_feed_is_the_whole_text() {
    assert_eq!(split_first_line("only"), ("only", ""));
    assert_eq!(split_first_line("only\r"), ("only\r", ""));
    assert_eq!(split_first_line(""), ("", ""));
}

#[test]
fn first_line_drops_one_carriage_return_before_the_line_feed() {
    assert_eq!(split_first_line("one\r\ntwo"), ("one", "two"));
    assert_eq!(split_first_line("\r\ntwo"), ("", "two"));
    assert_eq!(split_first_line("one\r\r\ntwo"), ("one\r", "two"));
    assert_eq!(split_first_line("o\rne\ntwo"), ("o\rne", "two"));
}

#[test]
fn first_line_of_multibyte_text() {
    assert_eq!(split_first_line("日本語\nテキスト"), ("日本語", "テキスト"));
    assert_eq!(split_first_line("é\r\n🦀"), ("é", "🦀"));
}

#[test]
fn repeated_cuts_give_the_lines_of_the_standard_library() {
    let documents = ["", "\n", "a", "a\n", "a\r\n\nb\r", "\r\n\r\n", "x\ny\nz\n", "é\nü\r\n"];
    for document in documents {
        let mut lines: Vec<&str> = Vec::new();
        let mut rest = document;
        while !rest.is_empty() {
            let (line, tail) = split_first_line(rest);
            lines.push(line);
            rest = tail;
        }
        let expected: Vec<&str> = document.lines().collect();
        assert_eq!(expected, lines);
    }
}
