use vstd::prelude::*;

use crate::config::{string_views, Config};
use crate::path_filter::{find_hidden_files, is_hidden};

verus! {

/// The entries of a listing that the walk takes up: all of them when hidden
/// entries are included, else those that are not hidden, in their order.
pub open spec fn kept(entries: Seq<Seq<char>>, include_hidden: bool) -> Seq<Seq<char>>
    decreases entries.len(),
{
    if entries.len() == 0 {
        entries
    } else {
        let prev = kept(entries.drop_last(), include_hidden);
        if include_hidden || !is_hidden(entries.last()) {
            prev.push(entries.last())
        } else {
            prev
        }
    }
}

/// The decisions of a directory walk: which entries of a listing count, and
/// which directory comes next. Directories wait on a stack, so the one found
/// last is entered first.
pub struct Walker {
    pending: Vec<String>,
    recursive: bool,
    include_hidden: bool,
}

impl Walker {
    /// The directories that wait to be entered, the next one last.
    pub closed spec fn pending(&self) -> Seq<Seq<char>> {
        string_views(self.pending@)
    }

    pub closed spec fn recursive(&self) -> bool {
        self.recursive
    }

    pub closed spec fn include_hidden(&self) -> bool {
        self.include_hidden
    }

    /// A walk that starts with nothing pending.
    pub fn new(config: &Config) -> (w: Walker)
        ensures
            w.pending() == Seq::<Seq<char>>::empty(),
            w.recursive() == config.recursive,
            w.include_hidden() == config.hidden,
    {
        let w = Walker { pending: Vec::new(), recursive: config.recursive, include_hidden: config.hidden };
        assert(w.pending() =~= Seq::<Seq<char>>::empty());
        w
    }

    /// The entries of a listing that the walk takes up.
    pub fn visible(&self, entries: Vec<String>) -> (r: Vec<String>)
        ensures
            string_views(r@) == kept(string_views(entries@), self.include_hidden()),
    {
        let ghost es = string_views(entries@);
        let mut out: Vec<String> = Vec::new();
        let mut i: usize = 0;
        let ghost all = entries@;
        while i < entries.len()
            invariant
                entries@ == all,
                es == string_views(all),
                i <= all.len(),
                string_views(out@) == kept(es.take(i as int), self.include_hidden),
            decreases all.len() - i,
        {
            let keep = self.include_hidden || find_hidden_files(entries[i].as_str());
            proof {
                assert(es.take(i + 1).drop_last() =~= es.take(i as int));
                assert(es.take(i + 1).last() == entries@[i as int]@);
            }
            if keep {
                let e = entries[i].clone();
                proof {
                    assert(string_views(out@.push(e)) =~= string_views(out@).push(e@));
                }
                out.push(e);
            }
            i = i + 1;
        }
        assert(es.take(all.len() as int) =~= es);
        out
    }

    /// Records the subdirectories found in the directory just searched, and
    /// names the directory to enter next: none when the walk is not recursive
    /// or nothing waits, else the one that was recorded last.
    pub fn advance(&mut self, dirs: Vec<String>) -> (next: Option<String>)
        ensures
            final(self).recursive() == old(self).recursive(),
            final(self).include_hidden() == old(self).include_hidden(),
            ({
                let all = old(self).pending() + kept(string_views(dirs@), old(self).include_hidden());
                if all.len() == 0 || !old(self).recursive() {
                    &&& next is None
                    &&& final(self).pending() == all
                } else {
                    &&& next is Some
                    &&& next->Some_0@ == all.last()
                    &&& final(self).pending() == all.drop_last()
                }
            }),
    {
        let found = self.visible(dirs);
        let ghost before = self.pending@;
        let mut i: usize = 0;
        while i < found.len()
            invariant
                self.recursive == old(self).recursive,
                self.include_hidden == old(self).include_hidden,
                i <= found@.len(),
                self.pending@ == before + found@.take(i as int),
            decreases found@.len() - i,
        {
            let d = found[i].clone();
            self.pending.push(d);
            assert(self.pending@ =~= before + found@.take(i + 1));
            i = i + 1;
        }
        proof {
            assert(found@.take(found@.len() as int) =~= found@);
            assert(string_views(before + found@) =~= string_views(before) + string_views(found@));
        }
        if self.pending.len() == 0 || !self.recursive {
            None
        } else {
            let next = self.pending.pop();
            proof {
                assert(string_views(self.pending@) =~= string_views(before + found@).drop_last());
            }
            next
        }
    }
}

proof fn lemma_kept_not_hidden(entries: Seq<Seq<char>>)
    ensures
        forall|k: int|
            0 <= k < kept(entries, false).len() ==> !is_hidden(#[trigger] kept(entries, false)[k]),
    decreases entries.len(),
{
    if entries.len() > 0 {
        lemma_kept_not_hidden(entries.drop_last());
        let prev = kept(entries.drop_last(), false);
        let cur = kept(entries, false);
        assert forall|k: int| 0 <= k < cur.len() implies !is_hidden(#[trigger] cur[k]) by {
            if k < prev.len() {
                assert(cur[k] == prev[k]);
            }
        }
    }
}

/// When hidden entries are left out, no hidden directory ever waits on the
/// stack: if none waited before a listing, none waits after it, so none is
/// ever entered.
pub proof fn lemma_hidden_never_pending(pending: Seq<Seq<char>>, dirs: Seq<Seq<char>>)
    requires
        forall|k: int| 0 <= k < pending.len() ==> !is_hidden(#[trigger] pending[k]),
    ensures
        forall|k: int|
            0 <= k < (pending + kept(dirs, false)).len() ==> !is_hidden(
                #[trigger] (pending + kept(dirs, false))[k],
            ),
{
    lemma_kept_not_hidden(dirs);
    let all = pending + kept(dirs, false);
    assert forall|k: int| 0 <= k < all.len() implies !is_hidden(#[trigger] all[k]) by {
        if k >= pending.len() {
            assert(all[k] == kept(dirs, false)[k - pending.len()]);
        }
    }
}

} // verus!
