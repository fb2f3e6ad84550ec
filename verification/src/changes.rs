//! The changed lines of a run: for each touched file, the intervals that the
//! diff reported for it, in the order in which they were met.

use crate::intervals::{all_wf, LineInterval};
use crate::text::{bytes_equal, utf8};
use vstd::prelude::*;
use vstd::slice::slice_to_vec;

verus! {

/// The intervals recorded for one file.
#[derive(Debug)]
struct FileEntry {
    path: Vec<u8>,
    intervals: Vec<LineInterval>,
}

/// Whether entry `i` of `entries` is the one for `path`.
spec fn entry_for(entries: Seq<FileEntry>, i: int, path: Seq<u8>) -> bool {
    0 <= i < entries.len() && entries[i].path@ == path
}

/// A mapping from file path, as bytes, to the intervals changed in that file.
/// A file is present only once an interval has been recorded for it.
#[derive(Debug)]
pub struct FileChanges {
    entries: Vec<FileEntry>,
}

impl View for FileChanges {
    type V = Map<Seq<u8>, Seq<LineInterval>>;

    closed spec fn view(&self) -> Map<Seq<u8>, Seq<LineInterval>> {
        Map::new(
            |path: Seq<u8>| exists|i: int| entry_for(self.entries@, i, path),
            |path: Seq<u8>|
                self.entries@[choose|i: int| entry_for(self.entries@, i, path)].intervals@,
        )
    }
}

/// The list that `changes` holds for `path`; empty where it holds none.
pub open spec fn intervals_of(changes: Map<Seq<u8>, Seq<LineInterval>>, path: Seq<u8>) -> Seq<
    LineInterval,
> {
    if changes.contains_key(path) {
        changes[path]
    } else {
        Seq::empty()
    }
}

/// `changes` with `interval` appended to the list of `path`.
pub open spec fn with_interval(
    changes: Map<Seq<u8>, Seq<LineInterval>>,
    path: Seq<u8>,
    interval: LineInterval,
) -> Map<Seq<u8>, Seq<LineInterval>> {
    changes.insert(path, intervals_of(changes, path).push(interval))
}

impl FileChanges {
    #[verifier::type_invariant]
    spec fn inv(self) -> bool {
        &&& forall|i: int, j: int|
            0 <= i < j < self.entries@.len() ==> (#[trigger] self.entries@[i]).path@ != (
            #[trigger] self.entries@[j]).path@
        &&& forall|i: int|
            0 <= i < self.entries@.len() ==> (#[trigger] self.entries@[i]).intervals@.len() > 0
        &&& forall|i: int|
            0 <= i < self.entries@.len() ==> all_wf((#[trigger] self.entries@[i]).intervals@)
    }

    /// No file has changed.
    pub fn new() -> (r: FileChanges)
        ensures
            r@ == Map::<Seq<u8>, Seq<LineInterval>>::empty(),
    {
        let r = FileChanges { entries: Vec::new() };
        assert(r@ =~= Map::<Seq<u8>, Seq<LineInterval>>::empty()) by {
            assert(forall|path: Seq<u8>, i: int| !entry_for(r.entries@, i, path));
        }
        r
    }

    /// Whether no interval has been recorded for any file.
    pub fn is_empty(&self) -> (r: bool)
        ensures
            r == (self@ == Map::<Seq<u8>, Seq<LineInterval>>::empty()),
    {
        let r = self.entries.len() == 0;
        proof {
            if r {
                assert(forall|path: Seq<u8>, i: int| !entry_for(self.entries@, i, path));
                assert(self@ =~= Map::<Seq<u8>, Seq<LineInterval>>::empty());
            } else {
                assert(entry_for(self.entries@, 0, self.entries@[0].path@));
                assert(self@.contains_key(self.entries@[0].path@));
            }
        }
        r
    }

    fn find(&self, path: &[u8]) -> (r: Option<usize>)
        ensures
            match r {
                Some(i) => entry_for(self.entries@, i as int, path@),
                None => forall|i: int| !entry_for(self.entries@, i, path@),
            },
    {
        let mut i: usize = 0;
        while i < self.entries.len()
            invariant
                i <= self.entries@.len(),
                forall|j: int| 0 <= j < i ==> !entry_for(self.entries@, j, path@),
            decreases self.entries@.len() - i,
        {
            if bytes_equal(self.entries[i].path.as_slice(), path) {
                return Some(i);
            }
            i += 1;
        }
        None
    }

    /// The intervals recorded for the file whose path is `path`, if any.
    /// A list that is present holds at least one interval, and each of its
    /// intervals at least one line.
    pub fn get_bytes(&self, path: &[u8]) -> (r: Option<&Vec<LineInterval>>)
        ensures
            match r {
                Some(list) => self@.contains_key(path@) && list@ == self@[path@] && list@.len() > 0
                    && all_wf(list@),
                None => !self@.contains_key(path@),
            },
    {
        proof {
            use_type_invariant(self);
        }
        match self.find(path) {
            Some(i) => {
                proof {
                    let c = choose|c: int| entry_for(self.entries@, c, path@);
                    assert(c == i);
                }
                Some(&self.entries[i].intervals)
            },
            None => None,
        }
    }

    /// The intervals recorded for the file named `file`, compared byte for
    /// byte in UTF-8 with the paths of the diff.
    pub fn get(&self, file: &str) -> (r: Option<&Vec<LineInterval>>)
        ensures
            match r {
                Some(list) => self@.contains_key(utf8(file@)) && list@ == self@[utf8(file@)]
                    && list@.len() > 0 && all_wf(list@),
                None => !self@.contains_key(utf8(file@)),
            },
    {
        self.get_bytes(file.as_bytes())
    }

    /// Appends `interval` to the list of `path`, which is created if need be.
    pub fn push(&mut self, path: &[u8], interval: LineInterval)
        requires
            interval.wf(),
        ensures
            final(self)@ == with_interval(old(self)@, path@, interval),
    {
        proof {
            use_type_invariant(&*self);
        }
        let ghost before = self.entries@;
        let ghost target = with_interval(self@, path@, interval);
        let found = self.find(path);
        let mut entries: Vec<FileEntry> = Vec::new();
        core::mem::swap(&mut self.entries, &mut entries);
        match found {
            Some(i) => {
                entries[i].intervals.push(interval);
                core::mem::swap(&mut self.entries, &mut entries);
                proof {
                    let after = self.entries@;
                    assert(after.len() == before.len());
                    assert(forall|k: int|
                        0 <= k < before.len() ==> (#[trigger] after[k]).path@ == before[k].path@);
                    assert(forall|k: int|
                        0 <= k < before.len() && k != i ==> (#[trigger] after[k]).intervals@
                            == before[k].intervals@);
                    assert(after[i as int].intervals@ == before[i as int].intervals@.push(interval));
                    assert forall|q: Seq<u8>| #[trigger] self@.contains_key(q) implies target.contains_key(q)
                        && self@[q] == target[q] by {
                        let k = choose|k: int| entry_for(after, k, q);
                        assert(entry_for(before, k, q));
                        let c = choose|c: int| entry_for(before, c, q);
                        assert(c == k);
                        if q == path@ {
                            assert(k == i);
                        }
                    }
                    assert forall|q: Seq<u8>| #[trigger] target.contains_key(q) implies self@.contains_key(q) by {
                        if q == path@ {
                            assert(entry_for(after, i as int, q));
                        } else {
                            let c = choose|c: int| entry_for(before, c, q);
                            assert(entry_for(after, c, q));
                        }
                    }
                    assert(self@ =~= target);
                }
            },
            None => {
                let mut list: Vec<LineInterval> = Vec::new();
                list.push(interval);
                entries.push(FileEntry { path: slice_to_vec(path), intervals: list });
                proof {
                    let grown = entries@;
                    let last = before.len() as int;
                    assert(forall|k: int| 0 <= k < last ==> (#[trigger] grown[k]) == before[k]);
                    assert(grown[last].intervals@ =~= Seq::<LineInterval>::empty().push(interval));
                    assert(grown[last].path@ == path@);
                    assert forall|k: int| 0 <= k < last implies (#[trigger] before[k]).path@ != path@ by {
                        assert(!entry_for(before, k, path@));
                    }
                    assert(all_wf(grown[last].intervals@));
                    assert forall|a: int, b: int| 0 <= a < b < grown.len() implies (#[trigger] grown[a]).path@
                        != (#[trigger] grown[b]).path@ by {
                        if b == last {
                            assert(grown[a] == before[a]);
                        } else {
                            assert(grown[a] == before[a] && grown[b] == before[b]);
                        }
                    }
                    assert forall|a: int| 0 <= a < grown.len() implies (#[trigger] grown[a]).intervals@.len()
                        > 0 && all_wf(grown[a].intervals@) by {
                        if a < last {
                            assert(grown[a] == before[a]);
                        }
                    }
                }
                core::mem::swap(&mut self.entries, &mut entries);
                proof {
                    let after = self.entries@;
                    let last = before.len() as int;
                    assert(after[last].path@ == path@);
                    assert(after[last].intervals@ =~= Seq::<LineInterval>::empty().push(interval));
                    assert(forall|k: int| 0 <= k < last ==> (#[trigger] after[k]) == before[k]);
                    assert forall|q: Seq<u8>| #[trigger] self@.contains_key(q) implies target.contains_key(q)
                        && self@[q] == target[q] by {
                        let k = choose|k: int| entry_for(after, k, q);
                        if k == last {
                        } else {
                            assert(entry_for(before, k, q));
                            let c = choose|c: int| entry_for(before, c, q);
                            assert(c == k);
                        }
                    }
                    assert forall|q: Seq<u8>| #[trigger] target.contains_key(q) implies self@.contains_key(q) by {
                        if q == path@ {
                            assert(entry_for(after, last, q));
                        } else {
                            let c = choose|c: int| entry_for(before, c, q);
                            assert(entry_for(after, c, q));
                        }
                    }
                    assert(self@ =~= target);
                }
            },
        }
    }
}

} // verus!
