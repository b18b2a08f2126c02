use vstd::prelude::*;

use crate::lines::{lines_of, split_lines, views_of};

verus! {

/// `needle` occurs in `hay` as a contiguous run of characters.
pub open spec fn contains_seq(hay: Seq<char>, needle: Seq<char>) -> bool {
    exists|i: int|
        0 <= i && i + needle.len() <= hay.len() && #[trigger] hay.subrange(i, i + needle.len())
            == needle
}

/// What `str::to_lowercase` makes of a text.
pub uninterp spec fn lower_of(s: Seq<char>) -> Seq<char>;

/// Whether a line is selected for a query, compared exactly or after lowercasing both.
pub open spec fn line_matches(line: Seq<char>, query: Seq<char>, ignore_case: bool) -> bool {
    if ignore_case {
        contains_seq(lower_of(line), lower_of(query))
    } else {
        contains_seq(line, query)
    }
}

/// The selected lines among the first `n`, each with its 0-based index, in order.
pub open spec fn matches_upto(
    lines: Seq<Seq<char>>,
    query: Seq<char>,
    ignore_case: bool,
    n: int,
) -> Seq<(int, Seq<char>)>
    decreases n,
{
    if n <= 0 {
        seq![]
    } else {
        let prev = matches_upto(lines, query, ignore_case, n - 1);
        if line_matches(lines[n - 1], query, ignore_case) {
            prev.push((n - 1, lines[n - 1]))
        } else {
            prev
        }
    }
}

/// The selected lines of a whole text.
pub open spec fn matches_of(contents: Seq<char>, query: Seq<char>, ignore_case: bool) -> Seq<
    (int, Seq<char>),
> {
    let lines = lines_of(contents);
    matches_upto(lines, query, ignore_case, lines.len() as int)
}

/// The indices and texts of search results.
pub open spec fn results_view<'a>(r: Seq<(usize, &'a str)>) -> Seq<(int, Seq<char>)> {
    r.map_values(|p: (usize, &'a str)| (p.0 as int, p.1@))
}

/// Relies on `str::to_lowercase`: its result depends on the characters alone.
#[verifier::external_body]
fn lowercase(s: &str) -> (r: String)
    ensures
        r@ == lower_of(s@),
{
    s.to_lowercase()
}

/// The characters of a text, in order.
fn chars_of(s: &str) -> (v: Vec<char>)
    ensures
        v@ == s@,
{
    let mut v: Vec<char> = Vec::new();
    for c in it: s.chars()
        invariant
            v@ == it.seq().take(it.index() as int),
    {
        v.push(c);
    }
    v
}

/// Naive substring test over characters.
fn contains_chars(hay: &Vec<char>, needle: &Vec<char>) -> (r: bool)
    ensures
        r == contains_seq(hay@, needle@),
{
    let n = needle.len();
    if n > hay.len() {
        return false;
    }
    let last = hay.len() - n;
    let mut i: usize = 0;
    loop
        invariant
            n == needle@.len(),
            last + n == hay@.len(),
            last + n <= usize::MAX,
            i <= last,
            forall|j: int| 0 <= j < i ==> #[trigger] hay@.subrange(j, j + n) != needle@,
        decreases last + 1 - i,
    {
        let mut k: usize = 0;
        while k < n && hay[i + k] == needle[k]
            invariant
                n == needle@.len(),
                last + n == hay@.len(),
                last + n <= usize::MAX,
                i <= last,
                k <= n,
                forall|t: int| 0 <= t < k ==> hay@[i + t] == needle@[t],
            decreases n - k,
        {
            k = k + 1;
        }
        if k == n {
            assert(hay@.subrange(i as int, i + n) =~= needle@);
            return true;
        }
        assert(hay@.subrange(i as int, i + n)[k as int] != needle@[k as int]);
        if i == last {
            return false;
        }
        i = i + 1;
    }
}

/// Whether `needle` occurs in `hay`.
pub fn contains_text(hay: &str, needle: &str) -> (r: bool)
    ensures
        r == contains_seq(hay@, needle@),
{
    contains_chars(&chars_of(hay), &chars_of(needle))
}

/// Collects the lines of `contents` that contain `query`, compared exactly or
/// after lowercasing both.
fn select<'a>(query: &str, contents: &'a str, ignore_case: bool) -> (r: Vec<(usize, &'a str)>)
    ensures
        results_view(r@) == matches_of(contents@, query@, ignore_case),
{
    let lines = split_lines(contents);
    let ghost ls = lines_of(contents@);
    let folded_query = lowercase(query);
    let mut out: Vec<(usize, &'a str)> = Vec::new();
    let mut i: usize = 0;
    while i < lines.len()
        invariant
            views_of(lines@) == ls,
            i <= lines@.len(),
            folded_query@ == lower_of(query@),
            results_view(out@) == matches_upto(ls, query@, ignore_case, i as int),
        decreases lines@.len() - i,
    {
        let line = lines[i];
        assert(line@ == ls[i as int]);
        let selected = if ignore_case {
            let folded_line = lowercase(line);
            contains_text(folded_line.as_str(), folded_query.as_str())
        } else {
            contains_text(line, query)
        };
        if selected {
            proof {
                assert(results_view(out@.push((i, line))) =~= results_view(out@).push(
                    (i as int, line@),
                ));
            }
            out.push((i, line));
        }
        i = i + 1;
    }
    out
}

/// The lines of `contents` that contain `query` exactly, with their 0-based
/// indices, in file order.
pub fn search<'a>(query: &str, contents: &'a str) -> (r: Vec<(usize, &'a str)>)
    ensures
        results_view(r@) == matches_of(contents@, query@, false),
{
    select(query, contents, false)
}

/// The lines of `contents` that contain `query` once both are lowercased, with
/// their 0-based indices, in file order.
pub fn search_case_insensitive<'a>(query: &str, contents: &'a str) -> (r: Vec<(usize, &'a str)>)
    ensures
        results_view(r@) == matches_of(contents@, query@, true),
{
    select(query, contents, true)
}

proof fn lemma_matches_upto_sound(
    lines: Seq<Seq<char>>,
    query: Seq<char>,
    ignore_case: bool,
    n: int,
)
    requires
        0 <= n <= lines.len(),
    ensures
        ({
            let m = matches_upto(lines, query, ignore_case, n);
            &&& forall|k: int|
                0 <= k < m.len() ==> 0 <= #[trigger] m[k].0 < n && m[k].1 == lines[m[k].0]
                    && line_matches(m[k].1, query, ignore_case)
            &&& forall|k1: int, k2: int| 0 <= k1 < k2 < m.len() ==> #[trigger] m[k1].0 < #[trigger] m[k2].0
        }),
    decreases n,
{
    if n > 0 {
        lemma_matches_upto_sound(lines, query, ignore_case, n - 1);
        let prev = matches_upto(lines, query, ignore_case, n - 1);
        let m = matches_upto(lines, query, ignore_case, n);
        if line_matches(lines[n - 1], query, ignore_case) {
            assert forall|k1: int, k2: int| 0 <= k1 < k2 < m.len() implies #[trigger] m[k1].0
                < #[trigger] m[k2].0 by {
                assert(m[k1] == prev[k1]);
                if k2 < prev.len() {
                    assert(m[k2] == prev[k2]);
                }
            }
            assert forall|k: int| 0 <= k < m.len() implies 0 <= #[trigger] m[k].0 < n && m[k].1
                == lines[m[k].0] && line_matches(m[k].1, query, ignore_case) by {
                if k < prev.len() {
                    assert(m[k] == prev[k]);
                }
            }
        }
    }
}

/// Every line that `search` returns contains the query, is the line of the
/// text at its 0-based index, and the indices rise strictly.
pub proof fn lemma_search_sound(contents: Seq<char>, query: Seq<char>)
    ensures
        ({
            let m = matches_of(contents, query, false);
            let lines = lines_of(contents);
            &&& forall|k: int|
                0 <= k < m.len() ==> 0 <= #[trigger] m[k].0 < lines.len() && m[k].1 == lines[m[k].0]
                    && contains_seq(m[k].1, query)
            &&& forall|k1: int, k2: int| 0 <= k1 < k2 < m.len() ==> #[trigger] m[k1].0 < #[trigger] m[k2].0
        }),
{
    let lines = lines_of(contents);
    lemma_matches_upto_sound(lines, query, false, lines.len() as int);
}

proof fn lemma_matches_upto_subset(lines: Seq<Seq<char>>, query: Seq<char>, n: int)
    requires
        0 <= n <= lines.len(),
        forall|j: int|
            0 <= j < lines.len() && contains_seq(#[trigger] lines[j], query) ==> contains_seq(
                lower_of(lines[j]),
                lower_of(query),
            ),
    ensures
        forall|k: int|
            0 <= k < matches_upto(lines, query, false, n).len() ==> matches_upto(
                lines,
                query,
                true,
                n,
            ).contains(#[trigger] matches_upto(lines, query, false, n)[k]),
    decreases n,
{
    if n > 0 {
        lemma_matches_upto_subset(lines, query, n - 1);
        let a = matches_upto(lines, query, false, n - 1);
        let b = matches_upto(lines, query, true, n - 1);
        let b2 = matches_upto(lines, query, true, n);
        let a2 = matches_upto(lines, query, false, n);
        assert forall|k: int| 0 <= k < a2.len() implies b2.contains(#[trigger] a2[k]) by {
            if k < a.len() {
                assert(b.contains(a[k]));
                let w = choose|w: int| 0 <= w < b.len() && b[w] == a[k];
                assert(b2[w] == a2[k]);
            } else {
                assert(b2[b2.len() - 1] == a2[k]);
            }
        }
    }
}

/// Whenever lowercasing keeps every exact occurrence of the query in a line,
/// each match of `search` is also a match of `search_case_insensitive`.
pub proof fn lemma_insensitive_superset(contents: Seq<char>, query: Seq<char>)
    requires
        forall|j: int|
            0 <= j < lines_of(contents).len() && contains_seq(#[trigger] lines_of(contents)[j], query)
                ==> contains_seq(lower_of(lines_of(contents)[j]), lower_of(query)),
    ensures
        forall|k: int|
            0 <= k < matches_of(contents, query, false).len() ==> matches_of(
                contents,
                query,
                true,
            ).contains(#[trigger] matches_of(contents, query, false)[k]),
{
    let lines = lines_of(contents);
    lemma_matches_upto_subset(lines, query, lines.len() as int);
}

} // verus!
