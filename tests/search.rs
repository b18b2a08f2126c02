use minigrep::matcher::contains_text;
use minigrep::lines::split_lines;
use minigrep::{search, search_case_insensitive};

#[test]
fn case_sensitive() {
    let query = "duct";
    let contents = "\
Rust:
safe, fast, productive.
Pick three.
Duct tape.";

    assert_eq!(vec![(1, "safe, fast, productive.")], search(query, contents));
}

#[test]
fn case_insensitive() {
    let query = "rUsT";
    let contents = "\
Rust:
safe, fast, productive.
Pick three.
Trust me.";

    assert_eq!(
        vec![(0, "Rust:"), (3, "Trust me.")],
        search_case_insensitive(query, contents)
    );
}

#[test]
fn search_results_ascend_and_contain_query() {
    let contents = "ab\nxx\nab ab\n\nzab";
    let found = search("ab", contents);
    assert_eq!(vec![(0, "ab"), (2, "ab ab"), (4, "zab")], found);
    for w in found.windows(2) {
        assert!(w[0].0 < w[1].0);
    }
}

#[test]
fn insensitive_includes_exact_matches() {
    let contents = "Rust\nrust\nRUST\nnothing";
    let exact = search("Rust", contents);
    let folded = search_case_insensitive("Rust", contents);
    assert_eq!(vec![(0, "Rust")], exact);
    assert_eq!(vec![(0, "Rust"), (1, "rust"), (2, "RUST")], folded);
    for m in &exact {
        assert!(folded.contains(m));
    }
}

#[test]
fn empty_query_matches_every_line() {
    assert_eq!(vec![(0, "a"), (1, ""), (2, "b")], search("", "a\n\nb"));
}

#[test]
fn empty_contents_have_no_lines() {
    assert!(search("", "").is_empty());
    assert!(split_lines("").is_empty());
}

#[test]
fn lines_drop_crlf_and_final_newline() {
    assert_eq!(vec!["one", "two", "three\r"], split_lines("one\r\ntwo\nthree\r"));
    assert_eq!(vec!["a", ""], split_lines("a\n\n"));
    assert_eq!(vec!["é ü", "ß"], split_lines("é ü\nß\n"));
}

#[test]
fn insensitive_lowercases_non_ascii() {
    assert_eq!(vec![(1, "ÉCOLE")], search_case_insensitive("école", "rien\nÉCOLE"));
}

#[test]
fn query_longer_than_line_never_matches() {
    assert!(search("longer query", "short\nx").is_empty());
}

#[test]
fn contains_text_on_given_values() {
    assert!(contains_text("safe, fast, productive.", "duct"));
    assert!(contains_text("abc", ""));
    assert!(contains_text("", ""));
    assert!(!contains_text("Duct tape.", "duct"));
    assert!(!contains_text("ab", "abc"));
    assert!(contains_text("aaab", "aab"));
    assert!(contains_text("ünïcödé", "ïcö"));
}
