//! A lazy, stack-based depth-first walk: a stack of frames, one open
//! directory listing per depth level. A directory's own path is yielded
//! before any of its descendants; the caller supplies each yielded
//! directory's listing before the walk continues.
use vstd::prelude::*;

use crate::paths::{join_rel, path_join};
use vstd::multiset::Multiset;

verus! {

/// One filesystem object as the walk sees it: its name within its directory,
/// and whether it is itself a directory.
pub struct EntryRec {
    pub name: String,
    pub is_dir: bool,
}

/// A directory entry name: nonempty and free of path separators.
pub open spec fn valid_name(n: Seq<char>) -> bool {
    n.len() > 0 && forall|k: int| 0 <= k < n.len() ==> n[k] != '/'
}

pub open spec fn valid_entries(es: Seq<EntryRec>) -> bool {
    forall|i: int| 0 <= i < es.len() ==> valid_name(#[trigger] es[i].name@)
}

struct Frame {
    rel: String,
    entries: Vec<EntryRec>,
    cursor: usize,
}

spec fn frame_rem(f: Frame) -> int {
    f.entries@.len() - f.cursor
}

spec fn frames_rem(fs: Seq<Frame>) -> int
    decreases fs.len(),
{
    if fs.len() == 0 {
        0
    } else {
        frames_rem(fs.drop_last()) + frame_rem(fs.last())
    }
}

/// The entries of one listing not yet yielded, each as the triple of its
/// directory's relative path, its name, and its kind.
pub open spec fn entries_ms(rel: Seq<char>, es: Seq<EntryRec>, c: int) -> Multiset<
    (Seq<char>, Seq<char>, bool),
>
    decreases es.len() - c,
{
    if c < 0 || c >= es.len() {
        Multiset::empty()
    } else {
        entries_ms(rel, es, c + 1).insert((rel, es[c].name@, es[c].is_dir))
    }
}

/// A whole listing as a multiset of entry triples.
pub open spec fn entries_multiset(rel: Seq<char>, es: Seq<EntryRec>) -> Multiset<
    (Seq<char>, Seq<char>, bool),
> {
    entries_ms(rel, es, 0)
}

spec fn frames_ms(fs: Seq<Frame>) -> Multiset<(Seq<char>, Seq<char>, bool)>
    decreases fs.len(),
{
    if fs.len() == 0 {
        Multiset::empty()
    } else {
        frames_ms(fs.drop_last()).add(
            entries_ms(fs.last().rel@, fs.last().entries@, fs.last().cursor as int),
        )
    }
}

/// The walk: a stack of frames, the paths yielded so far (ghost), and the
/// total number of entries supplied so far (ghost).
pub struct WalkDir {
    frames: Vec<Frame>,
    pending: Option<String>,
    yielded_paths: Ghost<Seq<Seq<char>>>,
    supplied_count: Ghost<int>,
}

impl WalkDir {
    /// Every path the walk has yielded, in order.
    pub closed spec fn yielded(&self) -> Seq<Seq<char>> {
        self.yielded_paths@
    }

    /// How many entries have been handed to the walk (the root listing plus
    /// every supplied directory listing).
    pub closed spec fn supplied(&self) -> int {
        self.supplied_count@
    }

    /// The supplied entries the walk has not yielded yet.
    pub closed spec fn remaining(&self) -> Multiset<(Seq<char>, Seq<char>, bool)> {
        frames_ms(self.frames@)
    }

    /// The directory whose listing the walk is waiting for, if any.
    pub closed spec fn awaiting(&self) -> Option<Seq<char>> {
        match self.pending {
            Some(p) => Some(p@),
            None => None,
        }
    }

    pub closed spec fn wf(&self) -> bool {
        &&& forall|i: int|
            0 <= i < self.frames@.len() ==> (#[trigger] self.frames@[i]).cursor
                <= self.frames@[i].entries@.len()
        &&& forall|i: int|
            0 <= i < self.frames@.len() ==> valid_entries((#[trigger] self.frames@[i]).entries@)
        &&& forall|i: int|
            0 <= i < self.frames@.len() ==> ((#[trigger] self.frames@[i]).rel@.len() == 0
                || self.yielded_paths@.contains(self.frames@[i].rel@))
        &&& match self.pending {
            Some(p) => self.yielded_paths@.contains(p@),
            None => true,
        }
        &&& self.supplied_count@ == self.yielded_paths@.len() + frames_rem(self.frames@)
    }

    /// Starts a walk from a root whose listing is `entries`.
    pub fn new(entries: Vec<EntryRec>) -> (w: WalkDir)
        requires
            valid_entries(entries@),
        ensures
            w.wf(),
            w.yielded() == Seq::<Seq<char>>::empty(),
            w.supplied() == entries@.len(),
            w.remaining() == entries_multiset(Seq::<char>::empty(), entries@),
            w.awaiting() is None,
    {
        let ghost n = entries@.len() as int;
        let ghost es = entries@;
        let mut frames: Vec<Frame> = Vec::new();
        frames.push(Frame { rel: String::new(), entries, cursor: 0 });
        proof {
            assert(frames@.drop_last() =~= Seq::<Frame>::empty());
            assert(frames_rem(Seq::<Frame>::empty()) == 0);
            assert(frame_rem(frames@.last()) == n);
            assert(frames_rem(frames@) == n);
            assert(frames@.last().rel@ =~= Seq::<char>::empty());
            assert(frames@.last().entries@ == es);
            assert(frames_ms(Seq::<Frame>::empty()) =~= Multiset::<
                (Seq<char>, Seq<char>, bool),
            >::empty());
            assert(frames_ms(frames@) == frames_ms(frames@.drop_last()).add(
                entries_ms(frames@.last().rel@, frames@.last().entries@, 0),
            ));
            assert(frames_ms(frames@) =~= entries_multiset(Seq::<char>::empty(), es));
        }
        WalkDir { frames, pending: None, yielded_paths: Ghost(Seq::empty()), supplied_count: Ghost(n) }
    }

    /// Yields the next path, depth first: a directory's own path comes
    /// before any of its descendants. Every yielded path joins an entry name
    /// onto the relative path of a directory yielded earlier (or onto the
    /// root). When the walk is done, as many paths were yielded as entries
    /// were supplied: each supplied entry exactly once.
    pub fn next(&mut self) -> (r: Option<(String, bool)>)
        requires
            old(self).wf(),
            old(self).awaiting() is None,
        ensures
            final(self).wf(),
            final(self).supplied() == old(self).supplied(),
            match r {
                None => {
                    &&& final(self).yielded() == old(self).yielded()
                    &&& final(self).awaiting() is None
                    &&& final(self).yielded().len() == final(self).supplied()
                    &&& final(self).remaining() == Multiset::<(Seq<char>, Seq<char>, bool)>::empty()
                },
                Some(p) => {
                    &&& final(self).yielded() == old(self).yielded().push(p.0@)
                    &&& exists|parent: Seq<char>, nm: Seq<char>|
                        {
                            &&& p.0@ == #[trigger] path_join(parent, nm)
                            &&& valid_name(nm)
                            &&& (parent.len() == 0 || old(self).yielded().contains(parent))
                            &&& old(self).remaining().count((parent, nm, p.1)) > 0
                            &&& final(self).remaining() == old(self).remaining().remove(
                                (parent, nm, p.1),
                            )
                        }
                    &&& final(self).awaiting() == (if p.1 {
                        Some(p.0@)
                    } else {
                        Option::<Seq<char>>::None
                    })
                },
            },
    {
        loop
            invariant
                self.wf(),
                self.pending is None,
                self.yielded_paths@ == old(self).yielded(),
                self.supplied_count@ == old(self).supplied(),
                frames_ms(self.frames@) == old(self).remaining(),
            decreases self.frames@.len(),
        {
            if self.frames.len() == 0 {
                proof {
                    assert(frames_rem(self.frames@) == 0);
                }
                return None;
            }
            let ghost fs0 = self.frames@;
            let mut fr = match self.frames.pop() {
                Some(fr) => fr,
                None => vstd::pervasive::unreached(),
            };
            proof {
                assert(fs0.drop_last() =~= self.frames@);
                assert(frames_rem(fs0) == frames_rem(self.frames@) + frame_rem(fr));
            }
            if fr.cursor == fr.entries.len() {
                // this listing is exhausted: drop the frame, resume above
                proof {
                    assert(entries_ms(fr.rel@, fr.entries@, fr.cursor as int) =~= Multiset::<
                        (Seq<char>, Seq<char>, bool),
                    >::empty());
                    assert(frames_ms(fs0) =~= frames_ms(self.frames@));
                }
                continue;
            }
            let name = fr.entries[fr.cursor].name.clone();
            let is_dir = fr.entries[fr.cursor].is_dir;
            assert(valid_name(name@));
            let path = join_rel(fr.rel.as_str(), name.as_str());
            let ghost relv = fr.rel@;
            fr.cursor = fr.cursor + 1;
            let ghost fs1 = self.frames@;
            self.frames.push(fr);
            proof {
                assert(self.frames@.drop_last() =~= fs1);
                assert(frames_rem(self.frames@) == frames_rem(fs1) + frame_rem(self.frames@.last()));
                // one supplied entry leaves the outstanding multiset
                let trip = (relv, name@, is_dir);
                assert(entries_ms(relv, self.frames@.last().entries@, self.frames@.last().cursor - 1)
                    == entries_ms(relv, self.frames@.last().entries@, self.frames@.last().cursor as int)
                        .insert(trip));
                assert(frames_ms(fs0) =~= frames_ms(self.frames@).insert(trip));
                assert(frames_ms(fs0).count(trip) > 0);
                assert(frames_ms(self.frames@) =~= frames_ms(fs0).remove(trip));
                self.yielded_paths@ = self.yielded_paths@.push(path@);
                self.supplied_count@ = self.supplied_count@;
                assert forall|i: int|
                    0 <= i < self.frames@.len() && (#[trigger] self.frames@[i]).rel@.len()
                        != 0 implies self.yielded_paths@.contains(self.frames@[i].rel@) by {
                    if i < self.frames@.len() - 1 {
                        assert(fs0.contains(fs0[i]));
                    }
                    let r = self.frames@[i].rel@;
                    assert(old(self).yielded().contains(r) ==> self.yielded_paths@.contains(r))
                        by {
                        if old(self).yielded().contains(r) {
                            let w = choose|w: int|
                                0 <= w < old(self).yielded().len() && old(self).yielded()[w] == r;
                            assert(self.yielded_paths@[w] == r);
                        }
                    }
                }
                assert(path@ == path_join(relv, name@));
                assert(relv.len() == 0 || old(self).yielded().contains(relv));
            }
            if is_dir {
                self.pending = Some(path.clone());
                proof {
                    assert(self.yielded_paths@.contains(path@)) by {
                        assert(self.yielded_paths@.last() == path@);
                    }
                }
                return Some((path, true));
            }
            return Some((path, false));
        }
    }

    /// Supplies the listing of the directory the walk is waiting for; its
    /// frame goes on top of the stack, so its entries come next.
    pub fn push_dir(&mut self, entries: Vec<EntryRec>)
        requires
            old(self).wf(),
            old(self).awaiting() is Some,
            valid_entries(entries@),
        ensures
            final(self).wf(),
            final(self).awaiting() is None,
            final(self).yielded() == old(self).yielded(),
            final(self).supplied() == old(self).supplied() + entries@.len(),
            final(self).remaining() == old(self).remaining().add(
                entries_multiset(old(self).awaiting()->Some_0, entries@),
            ),
    {
        let ghost n = entries@.len() as int;
        let ghost es = entries@;
        let p = match self.pending.take() {
            Some(p) => p,
            None => vstd::pervasive::unreached(),
        };
        let ghost fs1 = self.frames@;
        self.frames.push(Frame { rel: p, entries, cursor: 0 });
        proof {
            assert(self.frames@.drop_last() =~= fs1);
            assert(frames_rem(self.frames@) == frames_rem(fs1) + n);
            self.supplied_count@ = self.supplied_count@ + n;
            assert forall|i: int|
                0 <= i < fs1.len() implies self.frames@[i] == fs1[i] by {}
            assert(self.frames@.last().rel@ == old(self).awaiting()->Some_0);
            assert(frames_ms(self.frames@) == frames_ms(fs1).add(
                entries_multiset(old(self).awaiting()->Some_0, es),
            ));
        }
    }
}

} // verus!
