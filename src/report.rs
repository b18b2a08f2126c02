use vstd::prelude::*;
use vstd::string::StringExecFns;

use crate::config::{string_views, Config};
use crate::matcher::{matches_of, results_view, search, search_case_insensitive};

verus! {

/// The decimal digit `d`.
pub open spec fn digit(d: nat) -> char {
    "0123456789"@[d as int]
}

/// The decimal notation of `n`, without leading zeros.
pub open spec fn decimal(n: nat) -> Seq<char>
    decreases n,
{
    if n < 10 {
        seq![digit(n)]
    } else {
        decimal(n / 10).push(digit(n % 10))
    }
}

/// The decimal notation of `n`, padded with zeros to at least three digits.
pub open spec fn padded3(n: nat) -> Seq<char> {
    if n < 10 {
        seq!['0', '0'] + decimal(n)
    } else if n < 100 {
        seq!['0'] + decimal(n)
    } else {
        decimal(n)
    }
}

/// What `str::trim` makes of a text.
pub uninterp spec fn trim_of(s: Seq<char>) -> Seq<char>;

/// A text under the 1-based number of the line at 0-based `index`.
pub open spec fn numbered_line(index: int, text: Seq<char>) -> Seq<char> {
    "l."@ + padded3((index + 1) as nat) + ": "@ + text
}

/// The printed form of a match: its 1-based line number and the trimmed line.
pub open spec fn match_line(index: int, line: Seq<char>) -> Seq<char> {
    numbered_line(index, trim_of(line))
}

/// The printed form of a count of matches.
pub open spec fn count_line(n: nat) -> Seq<char> {
    "Found: "@ + decimal(n) + " occurrences"@
}

/// The lines printed under a file's name: nothing without matches, the count
/// alone in count-only mode, else one line per match.
pub open spec fn report(results: Seq<(int, Seq<char>)>, count_only: bool) -> Seq<Seq<char>> {
    if results.len() == 0 {
        seq![]
    } else if count_only {
        seq![count_line(results.len())]
    } else {
        results.map_values(|p: (int, Seq<char>)| match_line(p.0, p.1))
    }
}

/// Relies on `str::trim`: its result depends on the characters alone.
#[verifier::external_body]
fn trimmed<'a>(s: &'a str) -> (r: &'a str)
    ensures
        r@ == trim_of(s@),
{
    s.trim()
}

fn digit_str(d: u8) -> (r: &'static str)
    requires
        d < 10,
    ensures
        r@ == seq![digit(d as nat)],
{
    proof {
        reveal_strlit("0123456789");
    }
    let r = match d {
        0 => "0",
        1 => "1",
        2 => "2",
        3 => "3",
        4 => "4",
        5 => "5",
        6 => "6",
        7 => "7",
        8 => "8",
        _ => "9",
    };
    proof {
        reveal_strlit("0");
        reveal_strlit("1");
        reveal_strlit("2");
        reveal_strlit("3");
        reveal_strlit("4");
        reveal_strlit("5");
        reveal_strlit("6");
        reveal_strlit("7");
        reveal_strlit("8");
        reveal_strlit("9");
        assert(r@ =~= seq![digit(d as nat)]);
    }
    r
}

/// Appends the decimal notation of `n`.
fn push_decimal(out: &mut String, n: u128)
    ensures
        final(out)@ == old(out)@ + decimal(n as nat),
    decreases n,
{
    if n >= 10 {
        push_decimal(out, n / 10);
    }
    out.append(digit_str((n % 10) as u8));
    proof {
        if n >= 10 {
            assert(final(out)@ =~= old(out)@ + decimal(n as nat));
        } else {
            assert(final(out)@ =~= old(out)@ + decimal(n as nat));
        }
    }
}

/// The line printed for the match at 0-based `index`.
pub fn format_match(index: usize, line: &str) -> (r: String)
    ensures
        r@ == match_line(index as int, line@),
{
    format_numbered(index, trimmed(line))
}

/// `text` after the 1-based number, padded to three digits, of the line at
/// 0-based `index`.
pub fn format_numbered(index: usize, text: &str) -> (r: String)
    ensures
        r@ == numbered_line(index as int, text@),
{
    let n: u128 = index as u128 + 1;
    let mut s = String::from_str("l.");
    if n < 10 {
        s.append("00");
    } else if n < 100 {
        s.append("0");
    }
    push_decimal(&mut s, n);
    s.append(": ");
    s.append(text);
    proof {
        reveal_strlit("l.");
        reveal_strlit("00");
        reveal_strlit("0");
        reveal_strlit(": ");
        assert(s@ =~= numbered_line(index as int, text@));
    }
    s
}

/// The line printed for `n` matches.
pub fn format_count(n: usize) -> (r: String)
    ensures
        r@ == count_line(n as nat),
{
    let mut s = String::from_str("Found: ");
    push_decimal(&mut s, n as u128);
    s.append(" occurrences");
    proof {
        reveal_strlit("Found: ");
        reveal_strlit(" occurrences");
        assert(s@ =~= count_line(n as nat));
    }
    s
}

/// The lines to print under a file's name for its matches.
pub fn report_lines(results: &Vec<(usize, &str)>, count_only: bool) -> (r: Vec<String>)
    ensures
        string_views(r@) == report(results_view(results@), count_only),
{
    let mut out: Vec<String> = Vec::new();
    if results.len() == 0 {
        assert(string_views(out@) =~= report(results_view(results@), count_only));
        return out;
    }
    if count_only {
        out.push(format_count(results.len()));
        assert(string_views(out@) =~= report(results_view(results@), count_only));
        return out;
    }
    let mut i: usize = 0;
    while i < results.len()
        invariant
            !count_only,
            results@.len() > 0,
            i <= results@.len(),
            string_views(out@) == report(results_view(results@), false).take(i as int),
        decreases results@.len() - i,
    {
        let (index, line) = results[i];
        let s = format_match(index, line);
        proof {
            let rep = report(results_view(results@), false);
            assert(results_view(results@)[i as int] == (index as int, line@));
            assert(rep[i as int] == match_line(index as int, line@));
            assert(rep.len() == results@.len());
            assert(rep.take(i + 1) =~= rep.take(i as int).push(rep[i as int]));
            assert(string_views(out@.push(s)) =~= string_views(out@).push(s@));
            assert(string_views(out@.push(s)) =~= report(results_view(results@), false).take(i + 1));
        }
        out.push(s);
        i = i + 1;
    }
    assert(report(results_view(results@), false).take(i as int) =~= report(results_view(results@), count_only));
    out
}

/// The lines to print under a file's name, given its contents and the run's
/// configuration.
pub fn file_report(config: &Config, contents: &str) -> (r: Vec<String>)
    ensures
        string_views(r@) == report(
            matches_of(contents@, config.query@, config.ignore_case),
            config.count,
        ),
{
    let results = if config.ignore_case {
        search_case_insensitive(config.query.as_str(), contents)
    } else {
        search(config.query.as_str(), contents)
    };
    report_lines(&results, config.count)
}

} // verus!
