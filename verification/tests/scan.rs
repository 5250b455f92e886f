use minigrep::cli::Cli;
use minigrep::search::Grepped;
use minigrep::search::Searchable;
use regex::Regex;

const INPUT: &str = "foo bar\nbar baz\nfoo baz";

fn scan(pattern: &str, ignore_case: bool, whole_word: bool, whole_line: bool, text: &str) -> Vec<(usize, String)> {
    let cli = Cli { pattern: pattern.to_string(), path: None, ignore_case, whole_word, whole_line };
    let searchable = cli.to_searchable(Ok(text.to_string())).ok().expect("the pattern compiles");
    searchable.search().iter().map(|g| (g.line_number(), g.matched().to_string())).collect()
}

fn record(number: usize, text: &str) -> (usize, String) {
    (number, text.to_string())
}

#[test]
fn scanning_yields_the_matching_lines_with_their_numbers() {
    assert_eq!(
        scan("foo", false, false, false, INPUT),
        vec![record(1, "foo bar"), record(3, "foo baz")]
    );
}

#[test]
fn scanning_without_a_match_yields_nothing() {
    assert_eq!(scan("xyz", false, false, false, INPUT), vec![]);
}

#[test]
fn scanning_an_empty_text_yields_nothing() {
    assert_eq!(scan("", false, false, false, ""), vec![]);
    assert_eq!(scan("a", false, false, false, ""), vec![]);
}

#[test]
fn ignore_case_matches_every_spelling() {
    assert_eq!(
        scan("foo", true, false, false, "Foo\nbar\nFOO\nfoo\nfOo bar"),
        vec![record(1, "Foo"), record(3, "FOO"), record(4, "foo"), record(5, "fOo bar")]
    );
    assert_eq!(
        scan("foo", false, false, false, "Foo\nbar\nFOO\nfoo\nfOo bar"),
        vec![record(4, "foo")]
    );
}

#[test]
fn whole_word_does_not_match_inside_a_word() {
    assert_eq!(
        scan("cat", false, true, false, "the cat sat\ncategory\nconcat\ncat"),
        vec![record(1, "the cat sat"), record(4, "cat")]
    );
    assert_eq!(
        scan("cat", false, false, false, "the cat sat\ncategory"),
        vec![record(1, "the cat sat"), record(2, "category")]
    );
}

#[test]
fn whole_line_matches_only_the_exact_line() {
    assert_eq!(
        scan("abc", false, false, true, "abc\nabcd\nxabc\n abc\nabc \nabc"),
        vec![record(1, "abc"), record(6, "abc")]
    );
}

#[test]
fn flags_work_together() {
    assert_eq!(
        scan("abc", true, true, true, "ABC\nabc d\nAbC\nxabc"),
        vec![record(1, "ABC"), record(3, "AbC")]
    );
}

#[test]
fn a_line_with_several_matches_is_reported_once() {
    assert_eq!(scan("o", false, false, false, "foo boo\nbar\nzoo"), vec![
        record(1, "foo boo"),
        record(3, "zoo")
    ]);
}

#[test]
fn equal_lines_are_reported_each_with_its_number() {
    assert_eq!(scan("a", false, false, false, "a\na\nb\na"), vec![
        record(1, "a"),
        record(2, "a"),
        record(4, "a")
    ]);
}

#[test]
fn lines_are_matched_without_their_line_ending() {
    assert_eq!(scan("bar$", false, false, false, "foo bar\r\nbar\nbar \n"), vec![
        record(1, "foo bar"),
        record(2, "bar")
    ]);
    assert_eq!(scan("^$", false, false, false, "a\n\nb\n\r\n"), vec![record(2, ""), record(4, "")]);
}

#[test]
fn blanks_around_a_line_are_kept() {
    assert_eq!(scan("abc", false, false, false, "  abc  \nabc"), vec![
        record(1, "  abc  "),
        record(2, "abc")
    ]);
    assert_eq!(scan("abc", false, false, true, "  abc  \nabc"), vec![record(2, "abc")]);
}

#[test]
fn search_can_be_run_again() {
    let searchable = Searchable { re: Regex::new("ba").unwrap(), buffer: INPUT.to_string() };
    let first: Vec<String> = searchable.search().iter().map(|g| g.to_non_colored()).collect();
    let second: Vec<String> = searchable.search().iter().map(|g| g.to_non_colored()).collect();
    assert_eq!(first, vec!["1: foo bar\n", "2: bar baz\n", "3: foo baz\n"]);
    assert_eq!(first, second);
    assert_eq!(searchable.buffer, INPUT);
}

#[test]
fn text_beyond_ascii_is_searched_by_character() {
    assert_eq!(scan("β.", false, false, false, "αβγ\nβ\nxβy z"), vec![
        record(1, "αβγ"),
        record(3, "xβy z")
    ]);
    assert_eq!(scan("straße", true, false, false, "STRASSE\nStraße\n"), vec![record(2, "Straße")]);
}

#[test]
fn a_record_holds_what_it_was_made_of() {
    let g = Grepped::new(12, "some text");
    assert_eq!(g.line_number(), 12);
    assert_eq!(g.matched(), "some text");
    assert_eq!(format!("{:?}", g), "Grepped { line_number: 12, matched: \"some text\" }");
}

#[test]
fn every_reported_line_has_a_match_to_paint() {
    for pattern in ["o", "ba.", "^", "", "z*"] {
        let cli = Cli {
            pattern: pattern.to_string(),
            path: None,
            ignore_case: false,
            whole_word: false,
            whole_line: false,
        };
        let searchable = cli.to_searchable(Ok(INPUT.to_string())).ok().expect("the pattern compiles");
        for g in searchable.search() {
            assert!(searchable.re.find_iter(g.matched()).count() > 0);
            assert!(g.to_colored(&searchable.re).contains("\x1b[31m"), "for {:?}", pattern);
        }
    }
}
