use minigrep::cli::pattern_from;
use minigrep::cli::searchable_from;
use minigrep::cli::Cli;
use minigrep::error::SearchError;
use regex::Regex;
use std::path::PathBuf;

fn options(pattern: &str, ignore_case: bool, whole_word: bool, whole_line: bool) -> Cli {
    Cli { pattern: pattern.to_string(), path: None, ignore_case, whole_word, whole_line }
}

fn compiled_text(cli: &Cli) -> String {
    cli.build_pattern().expect("the pattern compiles").as_str().to_string()
}

#[test]
fn no_flag_leaves_the_pattern_alone() {
    assert_eq!(compiled_text(&options("foo", false, false, false)), "foo");
}

#[test]
fn whole_line_anchors_the_pattern() {
    assert_eq!(compiled_text(&options("foo", false, false, true)), "^foo$");
}

#[test]
fn whole_word_puts_boundaries_around_the_pattern() {
    assert_eq!(compiled_text(&options("foo", false, true, false)), r"\bfoo\b");
}

#[test]
fn ignore_case_puts_the_flag_in_front() {
    assert_eq!(compiled_text(&options("foo", true, false, false)), "(?i)foo");
}

#[test]
fn word_boundaries_go_around_the_line_anchors() {
    assert_eq!(compiled_text(&options("foo", false, true, true)), r"\b^foo$\b");
}

#[test]
fn case_flag_goes_in_front_of_everything() {
    assert_eq!(compiled_text(&options("foo", true, true, true)), r"(?i)\b^foo$\b");
    assert_eq!(compiled_text(&options("foo", true, false, true)), "(?i)^foo$");
    assert_eq!(compiled_text(&options("foo", true, true, false)), r"(?i)\bfoo\b");
}

#[test]
fn each_step_changes_only_the_pattern() {
    let cli = Cli {
        pattern: "a.c".to_string(),
        path: Some(PathBuf::from("notes.txt")),
        ignore_case: true,
        whole_word: true,
        whole_line: true,
    };
    let line = cli.whole_line();
    assert_eq!(line.pattern, "^a.c$");
    let word = cli.whole_word();
    assert_eq!(word.pattern, r"\ba.c\b");
    let case = cli.ignore_case();
    assert_eq!(case.pattern, "(?i)a.c");
    for step in [line, word, case] {
        assert_eq!(step.path, Some(PathBuf::from("notes.txt")));
        assert!(step.ignore_case);
        assert!(step.whole_word);
        assert!(step.whole_line);
    }
    assert_eq!(cli.pattern, "a.c");
}

#[test]
fn a_step_without_its_flag_is_a_copy() {
    let cli = options("a.c", false, false, false);
    assert_eq!(cli.whole_line().pattern, "a.c");
    assert_eq!(cli.whole_word().pattern, "a.c");
    assert_eq!(cli.ignore_case().pattern, "a.c");
}

#[test]
fn pattern_modifier_applies_the_modifier_only_on_demand() {
    let cli = Cli {
        pattern: "x".to_string(),
        path: Some(PathBuf::from("in")),
        ignore_case: false,
        whole_word: true,
        whole_line: false,
    };
    let changed = cli.pattern_modifier(true, |p: &str| format!("<{p}>"));
    assert_eq!(changed.pattern, "<x>");
    assert_eq!(changed.path, Some(PathBuf::from("in")));
    assert!(!changed.ignore_case);
    assert!(changed.whole_word);
    assert!(!changed.whole_line);
    let kept = cli.pattern_modifier(false, |p: &str| format!("<{p}>"));
    assert_eq!(kept.pattern, "x");
    assert!(kept.whole_word);
}

#[test]
fn unbalanced_group_is_an_invalid_pattern() {
    let cli = options("(foo", false, false, false);
    match cli.build_pattern() {
        Err(SearchError::InvalidPattern(why)) => {
            assert_eq!(why, Regex::new("(foo").unwrap_err().to_string());
            assert!(!why.is_empty());
        }
        other => panic!("expected an invalid pattern, got {:?}", other.map(|re| re.to_string())),
    }
}

#[test]
fn invalid_pattern_fails_before_any_scanning() {
    let cli = options("a)", true, true, true);
    let result = cli.to_searchable(Ok("a)\nb\n".to_string()));
    assert!(matches!(result, Err(SearchError::InvalidPattern(_))));
}

#[test]
fn invalid_pattern_comes_before_unreadable_input() {
    let cli = options("[", false, false, false);
    let result = cli.to_searchable(Err("no such file".to_string()));
    assert!(matches!(result, Err(SearchError::InvalidPattern(_))));
}

#[test]
fn unreadable_input_is_reported_with_its_reason() {
    let cli = options("foo", false, false, false);
    match cli.to_searchable(Err("no such file".to_string())) {
        Err(SearchError::InputUnavailable(why)) => assert_eq!(why, "no such file"),
        _ => panic!("expected an unavailable input"),
    }
}

#[test]
fn to_searchable_keeps_the_text_and_compiles_the_composed_pattern() {
    let cli = options("foo", true, true, false);
    let searchable = cli.to_searchable(Ok("one\ntwo\n".to_string())).ok().expect("a searchable");
    assert_eq!(searchable.buffer, "one\ntwo\n");
    assert_eq!(searchable.re.as_str(), r"(?i)\bfoo\b");
}

#[test]
fn pattern_from_keeps_a_compiled_pattern() {
    let re = pattern_from(Regex::new("a+b")).ok().expect("compiled");
    assert_eq!(re.as_str(), "a+b");
    assert!(re.is_match("xaab"));
}

#[test]
fn pattern_from_turns_a_refusal_into_an_invalid_pattern() {
    let refusal = Regex::new(r"\w{1000000}").unwrap_err();
    let text = refusal.to_string();
    match pattern_from(Err(refusal)) {
        Err(SearchError::InvalidPattern(why)) => assert_eq!(why, text),
        _ => panic!("expected an invalid pattern"),
    }
}

#[test]
fn searchable_from_prefers_the_pattern_error() {
    let result = searchable_from(
        Err(SearchError::InvalidPattern("bad".to_string())),
        Err("gone".to_string()),
    );
    match result {
        Err(SearchError::InvalidPattern(why)) => assert_eq!(why, "bad"),
        _ => panic!("expected the pattern error"),
    }
    let result = searchable_from(
        Err(SearchError::InvalidPattern("bad".to_string())),
        Ok("text".to_string()),
    );
    assert!(matches!(result, Err(SearchError::InvalidPattern(_))));
}

#[test]
fn searchable_from_joins_pattern_and_text() {
    let re = Regex::new("b").unwrap();
    let searchable = searchable_from(Ok(re), Ok("abc".to_string())).ok().expect("a searchable");
    assert_eq!(searchable.re.as_str(), "b");
    assert_eq!(searchable.buffer, "abc");
    let re = Regex::new("b").unwrap();
    match searchable_from(Ok(re), Err("gone".to_string())) {
        Err(SearchError::InputUnavailable(why)) => assert_eq!(why, "gone"),
        _ => panic!("expected an unavailable input"),
    }
}

#[test]
fn message_is_the_text_that_the_error_carries() {
    assert_eq!(SearchError::InvalidPattern("bad group".to_string()).message(), "bad group");
    assert_eq!(SearchError::InputUnavailable("no file".to_string()).message(), "no file");
}

#[test]
fn empty_input_with_a_valid_pattern_is_searchable() {
    let cli = options("foo", false, false, false);
    let searchable = cli.to_searchable(Ok(String::new())).ok().expect("a searchable");
    assert_eq!(searchable.buffer, "");
    assert_eq!(searchable.re.as_str(), "foo");
    assert!(searchable.search().is_empty());
}

#[test]
fn to_searchable_keeps_the_input_byte_for_byte() {
    let text = "  first \r\nsecond\t\n\nlast without feed";
    let cli = options("s", false, false, false);
    let searchable = cli.to_searchable(Ok(text.to_string())).ok().expect("a searchable");
    assert_eq!(searchable.buffer, text);
    let kept: Vec<&str> = searchable.buffer.lines().collect();
    let given: Vec<&str> = text.lines().collect();
    assert_eq!(kept, given);
}

#[test]
fn invalid_pattern_carries_the_message_of_the_engine() {
    for (pattern, ignore_case, whole_word, whole_line, composed) in [
        ("(", false, false, false, "("),
        ("(", true, true, true, r"(?i)\b^($\b"),
        ("a{2,1}", false, false, true, "^a{2,1}$"),
    ] {
        let expected = Regex::new(composed).unwrap_err().to_string();
        let cli = options(pattern, ignore_case, whole_word, whole_line);
        match cli.to_searchable(Ok("text".to_string())) {
            Err(SearchError::InvalidPattern(why)) => assert_eq!(why, expected),
            _ => panic!("expected an invalid pattern"),
        }
        match cli.to_searchable(Err("unreadable".to_string())) {
            Err(SearchError::InvalidPattern(why)) => assert_eq!(why, expected),
            _ => panic!("expected an invalid pattern"),
        }
    }
}

#[test]
fn build_pattern_succeeds_exactly_when_the_engine_accepts_the_composed_text() {
    for (pattern, whole_word) in [("a+", false), ("a+", true), ("a(", false), ("[z-a]", true), ("", true)] {
        let cli = options(pattern, false, whole_word, false);
        let composed = if whole_word { format!(r"\b{pattern}\b") } else { pattern.to_string() };
        assert_eq!(cli.build_pattern().is_ok(), Regex::new(&composed).is_ok(), "for {:?}", composed);
    }
}
