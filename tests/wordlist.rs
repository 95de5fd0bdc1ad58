use kioku::{answer_is_no, declines_install, parse_wordlist, WordlistErr};

fn words(text: &str) -> Vec<String> {
    match parse_wordlist(text) {
        Ok(v) => v,
        Err(e) => panic!("unexpected error: {}", e.message()),
    }
}

#[test]
fn strict_policy_rejects_inner_whitespace() {
    assert!(matches!(parse_wordlist("foo\nbar baz\nqux"), Err(WordlistErr::NotWordList)));
}

#[test]
fn lines_are_trimmed() {
    assert_eq!(words("alpha\n  beta \r\ngamma\n"), vec!["alpha", "beta", "gamma"]);
}

#[test]
fn final_line_ending_is_optional() {
    assert_eq!(words("one\ntwo"), words("one\ntwo\n"));
    assert_eq!(words("one\r\ntwo\r\n"), vec!["one", "two"]);
}

#[test]
fn empty_text_is_no_wordlist() {
    assert!(matches!(parse_wordlist(""), Err(WordlistErr::NotWordList)));
    assert!(matches!(parse_wordlist("\n"), Err(WordlistErr::NotWordList)));
}

#[test]
fn blank_line_is_rejected() {
    assert!(matches!(parse_wordlist("foo\n\nqux"), Err(WordlistErr::NotWordList)));
    assert!(matches!(parse_wordlist("foo\n   \nqux"), Err(WordlistErr::NotWordList)));
}

#[test]
fn unicode_whitespace_is_rejected() {
    assert!(matches!(parse_wordlist("a\u{a0}b"), Err(WordlistErr::NotWordList)));
    assert!(matches!(parse_wordlist("a\tb\nc"), Err(WordlistErr::NotWordList)));
    assert_eq!(words("\u{3000}wide\u{2003}"), vec!["wide"]);
}

#[test]
fn non_ascii_words_are_kept() {
    assert_eq!(words("ünïcode\nwörd"), vec!["ünïcode", "wörd"]);
}

#[test]
fn strip_filename_drops_the_name() {
    let e = WordlistErr::FileErr("/tmp/list.txt".to_string(), "not found".to_string());
    assert_eq!(e.message(), "/tmp/list.txt: not found");
    let s = e.strip_filename();
    assert!(matches!(&s, WordlistErr::FileErrStripped(c) if c == "not found"));
    assert_eq!(s.message(), "not found");
}

#[test]
fn strip_filename_keeps_other_errors() {
    let e = WordlistErr::NotWordList.strip_filename();
    assert!(matches!(e, WordlistErr::NotWordList));
    assert_eq!(e.message(), "Wordlist badly formatted");
}

#[test]
fn answers_that_decline() {
    assert!(declines_install("n"));
    assert!(declines_install("  No\n"));
    assert!(declines_install("NOPE"));
    assert!(!declines_install(""));
    assert!(!declines_install("y"));
    assert!(!declines_install("yes, not now"));
}

#[test]
fn lowered_answers() {
    assert!(answer_is_no("nah"));
    assert!(!answer_is_no("N"));
    assert!(!answer_is_no(""));
}
