use vstd::prelude::*;

verus! {

/// The final segment of a path: the characters after its last `/`.
pub open spec fn last_segment(p: Seq<char>) -> Seq<char>
    decreases p.len(),
{
    if p.len() == 0 {
        p
    } else if p.last() == '/' {
        Seq::empty()
    } else {
        last_segment(p.drop_last()).push(p.last())
    }
}

/// A path is hidden when it is empty, or when its final segment is non-empty
/// and starts with `.`.
pub open spec fn is_hidden(p: Seq<char>) -> bool {
    p.len() == 0 || (last_segment(p).len() > 0 && last_segment(p)[0] == '.')
}

/// Tells whether an entry is visible, that is, not hidden by a leading dot
/// in its final path segment.
pub fn find_hidden_files(input: &str) -> (r: bool)
    ensures
        r == !is_hidden(input@),
{
    let n = input.unicode_len();
    if n == 0 {
        return false;
    }
    let mut start: usize = n;
    // walk back to the character after the last separator
    while start > 0 && input.get_char(start - 1) != '/'
        invariant
            n == input@.len(),
            start <= n,
            forall|k: int| start <= k < n ==> input@[k] != '/',
        decreases start,
    {
        start = start - 1;
    }
    proof {
        lemma_last_segment_from(input@, start as int);
    }
    if start < n {
        let c = input.get_char(start);
        assert(last_segment(input@)[0] == c);
        c != '.'
    } else {
        true
    }
}

proof fn lemma_last_segment_from(p: Seq<char>, start: int)
    requires
        0 <= start <= p.len(),
        start == 0 || p[start - 1] == '/',
        forall|k: int| start <= k < p.len() ==> p[k] != '/',
    ensures
        last_segment(p) == p.subrange(start, p.len() as int),
    decreases p.len(),
{
    if p.len() == 0 {
    } else if p.last() == '/' {
    } else {
        lemma_last_segment_from(p.drop_last(), start);
        assert(p.subrange(start, p.len() as int) =~= p.drop_last().subrange(start, p.len() - 1).push(p.last()));
    }
}

} // verus!
