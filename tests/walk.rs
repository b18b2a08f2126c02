use minigrep::report::{file_report, format_count, format_match, format_numbered, report_lines};
use minigrep::walk::Walker;
use minigrep::{find_hidden_files, Config};

fn args(v: &[&str]) -> Vec<String> {
    v.iter().map(|s| s.to_string()).collect()
}

fn strings(v: &[&str]) -> Vec<String> {
    args(v)
}

#[test]
fn hidden_segments() {
    assert!(!find_hidden_files(".git"));
    assert!(!find_hidden_files("some/dir/.git"));
    assert!(!find_hidden_files("./.cache"));
    assert!(find_hidden_files("report.txt"));
    assert!(find_hidden_files("some/dir/report.txt"));
    assert!(find_hidden_files("a/.hidden/visible"));
    assert!(!find_hidden_files(""));
    assert!(find_hidden_files("dir/"));
}

#[test]
fn build_rejects_too_few_arguments() {
    assert_eq!(Err("not enough arguments"), Config::build(&args(&["prog"]), false).map(|_| ()));
    assert_eq!(
        Err("not enough arguments"),
        Config::build(&args(&["prog", "onlyquery"]), false).map(|_| ())
    );
}

#[test]
fn build_rejects_unknown_flag() {
    assert_eq!(
        Err("Unknown flag or parameter"),
        Config::build(&args(&["prog", "q", "path", "-x"]), false).map(|_| ())
    );
    assert_eq!(
        Err("Unknown flag or parameter"),
        Config::build(&args(&["prog", "q", "path", "-r", "-ri"]), false).map(|_| ())
    );
}

#[test]
fn build_reads_flags() {
    let c = Config::build(&args(&["prog", "needle", "dir", "-r", "-c", "-r"]), false).unwrap();
    assert_eq!("needle", c.query);
    assert_eq!("dir", c.file_path);
    assert!(c.recursive && c.count);
    assert!(!c.ignore_case && !c.hidden);
    let c = Config::build(&args(&["prog", "n", "d", "-a", "-i"]), false).unwrap();
    assert!(c.hidden && c.ignore_case && !c.recursive && !c.count);
}

#[test]
fn environment_forces_ignore_case() {
    let c = Config::build(&args(&["prog", "n", "d"]), true).unwrap();
    assert!(c.ignore_case);
    let c = Config::build(&args(&["prog", "n", "d"]), false).unwrap();
    assert!(!c.ignore_case);
}

#[test]
fn match_lines_are_padded_and_trimmed() {
    assert_eq!("l.001: x", format_match(0, "  x \t"));
    assert_eq!("l.010: ten", format_match(9, "ten"));
    assert_eq!("l.100: a b", format_match(99, " a b"));
    assert_eq!("l.12345: y", format_match(12344, "y"));
}

#[test]
fn count_lines() {
    assert_eq!("Found: 2 occurrences", format_count(2));
    assert_eq!("Found: 0 occurrences", format_count(0));
    assert_eq!("Found: 1024 occurrences", format_count(1024));
}

#[test]
fn report_of_a_file_with_two_matches() {
    let mut config = Config::build(&args(&["prog", "needle", "dir"]), false).unwrap();
    let contents = "a needle here\nnothing\n  needle again  \n";
    assert_eq!(
        strings(&["l.001: a needle here", "l.003: needle again"]),
        file_report(&config, contents)
    );
    config.count = true;
    assert_eq!(strings(&["Found: 2 occurrences"]), file_report(&config, contents));
    assert!(file_report(&config, "no match").is_empty());
    assert!(report_lines(&vec![], false).is_empty());
}

#[test]
fn non_recursive_walk_never_enters_subdirectories() {
    let config = Config::build(&args(&["prog", "q", "root"]), false).unwrap();
    let mut w = Walker::new(&config);
    assert_eq!(None, w.advance(strings(&["root/sub", "root/other"])));
}

#[test]
fn recursive_walk_skips_hidden_directories() {
    let config = Config::build(&args(&["prog", "q", "root", "-r"]), false).unwrap();
    let mut w = Walker::new(&config);
    assert_eq!(
        Some("root/b".to_string()),
        w.advance(strings(&["root/a", "root/.cache", "root/b"]))
    );
    assert_eq!(Some("root/b/c".to_string()), w.advance(strings(&["root/b/.git", "root/b/c"])));
    assert_eq!(Some("root/a".to_string()), w.advance(vec![]));
    assert_eq!(None, w.advance(vec![]));
    assert_eq!(
        strings(&["x", "y"]),
        w.visible(strings(&["x", ".hidden", "y", "d/.z"]))
    );
}

#[test]
fn walk_with_hidden_entries_enters_them() {
    let config = Config::build(&args(&["prog", "q", "root", "-r", "-a"]), false).unwrap();
    let mut w = Walker::new(&config);
    assert_eq!(Some("root/.cache".to_string()), w.advance(strings(&["root/a", "root/.cache"])));
    assert_eq!(Some("root/a".to_string()), w.advance(vec![]));
}

#[test]
fn numbered_lines_keep_their_text() {
    assert_eq!("l.001:  kept as is ", format_numbered(0, " kept as is "));
    assert_eq!("l.099: x", format_numbered(98, "x"));
    assert_eq!("l.1000: ", format_numbered(999, ""));
}
