//! The file observer's logic: a known-files set and the translation of raw
//! filesystem notifications into the logical change stream.

use vstd::prelude::*;

use crate::batch::clone_string;
use crate::resolve::strs_contain;
use crate::structs::{FileChanged, strs_view};

verus! {

/// The set of paths the observer currently knows as regular files.
pub struct KnownFiles {
    files: Vec<String>,
}

impl KnownFiles {
    /// The known paths.
    pub closed spec fn paths(&self) -> Seq<Seq<char>> {
        strs_view(&self.files)
    }

    /// The known paths hold no duplicates.
    pub closed spec fn wf(&self) -> bool {
        self.paths().no_duplicates()
    }

    /// An empty known-files set.
    pub fn new() -> (r: KnownFiles)
        ensures
            r.wf(),
            r.paths() =~= Seq::<Seq<char>>::empty(),
    {
        let r = KnownFiles { files: Vec::new() };
        assert(r.paths() =~= Seq::<Seq<char>>::empty());
        r
    }

    /// Seeds the set with the given paths, dropping duplicates.
    pub fn seed(paths: Vec<String>) -> (r: KnownFiles)
        ensures
            r.wf(),
            forall|x: Seq<char>| r.paths().contains(x) <==> strs_view(&paths).contains(x),
    {
        let mut r = KnownFiles::new();
        let mut i: usize = 0;
        while i < paths.len()
            invariant
                i <= paths.len(),
                r.wf(),
                forall|x: Seq<char>|
                    r.paths().contains(x) <==> strs_view(&paths).take(i as int).contains(x),
            decreases paths.len() - i,
        {
            let ghost before = r.paths();
            r.insert(&paths[i]);
            proof {
                assert(strs_view(&paths)[i as int] == paths@[i as int]@);
                assert forall|x: Seq<char>| r.paths().contains(x) implies strs_view(
                    &paths,
                ).take(i as int + 1).contains(x) by {
                    if before.contains(x) {
                        let k = choose|k: int|
                            0 <= k < strs_view(&paths).take(i as int).len() && #[trigger] strs_view(
                                &paths,
                            ).take(i as int)[k] == x;
                        assert(strs_view(&paths).take(i as int + 1)[k] == x);
                    } else {
                        assert(x == paths@[i as int]@);
                        assert(strs_view(&paths).take(i as int + 1)[i as int] == x);
                    }
                }
                assert forall|x: Seq<char>|
                    strs_view(&paths).take(i as int + 1).contains(x) implies r.paths().contains(
                    x,
                ) by {
                    let k = choose|k: int|
                        0 <= k < strs_view(&paths).take(i as int + 1).len() && #[trigger] strs_view(
                            &paths,
                        ).take(i as int + 1)[k] == x;
                    if k < i {
                        assert(strs_view(&paths).take(i as int)[k] == x);
                    }
                }
            }
            i = i + 1;
        }
        proof {
            assert(strs_view(&paths).take(paths@.len() as int) =~= strs_view(&paths));
        }
        r
    }

    /// Whether a path is known.
    pub fn contains(&self, path: &String) -> (r: bool)
        ensures
            r == self.paths().contains(path@),
    {
        strs_contain(&self.files, path)
    }

    /// Makes a path known; a path already known stays known once.
    pub fn insert(&mut self, path: &String)
        requires
            old(self).wf(),
        ensures
            final(self).wf(),
            final(self).paths().contains(path@),
            forall|x: Seq<char>|
                final(self).paths().contains(x) <==> (old(self).paths().contains(x) || x
                    == path@),
    {
        if !strs_contain(&self.files, path) {
            let ghost before = self.paths();
            self.files.push(clone_string(path));
            proof {
                assert(self.paths() =~= before.push(path@));
                assert(self.paths()[before.len() as int] == path@);
                assert(self.paths().no_duplicates()) by {
                    assert(forall|a: int|
                        0 <= a < before.len() ==> self.paths()[a] == before[a]);
                }
                assert forall|x: Seq<char>|
                    final(self).paths().contains(x) implies (before.contains(x) || x
                    == path@) by {
                    let k = choose|k: int|
                        0 <= k < self.paths().len() && self.paths()[k] == x;
                    if k < before.len() {
                        assert(before[k] == x);
                    }
                }
                assert forall|x: Seq<char>|
                    before.contains(x) || x == path@ implies final(self).paths().contains(x) by {
                    if before.contains(x) {
                        let k = choose|k: int| 0 <= k < before.len() && before[k] == x;
                        assert(self.paths()[k] == x);
                    }
                }
            }
        }
    }

    /// Forgets a path; returns whether it was known.
    pub fn remove(&mut self, path: &String) -> (r: bool)
        requires
            old(self).wf(),
        ensures
            final(self).wf(),
            r == old(self).paths().contains(path@),
            !final(self).paths().contains(path@),
            forall|x: Seq<char>|
                final(self).paths().contains(x) <==> (old(self).paths().contains(x) && x
                    != path@),
    {
        let mut i: usize = 0;
        while i < self.files.len()
            invariant
                i <= self.files.len(),
                self == old(self),
                old(self).wf(),
                forall|j: int| 0 <= j < i ==> strs_view(&self.files)[j] != path@,
            decreases self.files.len() - i,
        {
            if self.files[i].eq(path) {
                let ghost before = self.paths();
                assert(before[i as int] == path@);
                self.files.remove(i);
                proof {
                    assert(self.paths() =~= before.remove(i as int));
                    assert(before.remove(i as int) =~= before.take(i as int) + before.skip(
                        i as int + 1,
                    ));
                    assert(forall|a: int| 0 <= a < i ==> self.paths()[a] == before[a]);
                    assert(forall|a: int|
                        i <= a < self.paths().len() ==> self.paths()[a] == before[a + 1]);
                    assert(self.paths().no_duplicates()) by {
                        assert forall|a: int, b: int|
                            0 <= a < b < self.paths().len() implies self.paths()[a]
                            != self.paths()[b] by {
                            let a0: int = if a < i { a } else { a + 1 };
                            let b0: int = if b < i { b } else { b + 1 };
                            assert(self.paths()[a] == before[a0]);
                            assert(self.paths()[b] == before[b0]);
                        }
                    }
                    assert forall|x: Seq<char>|
                        final(self).paths().contains(x) implies (before.contains(x) && x
                        != path@) by {
                        let k = choose|k: int|
                            0 <= k < self.paths().len() && self.paths()[k] == x;
                        let k0: int = if k < i {
                            k
                        } else {
                            k + 1
                        };
                        assert(before[k0] == x);
                        assert(x != path@) by {
                            if x == path@ {
                                assert(before[k0] == before[i as int]);
                            }
                        }
                    }
                    assert forall|x: Seq<char>|
                        before.contains(x) && x != path@ implies final(self).paths().contains(
                        x,
                    ) by {
                        let k = choose|k: int| 0 <= k < before.len() && before[k] == x;
                        if k < i {
                            assert(self.paths()[k] == x);
                        } else {
                            assert(k != i);
                            assert(self.paths()[k - 1] == x);
                        }
                    }
                    assert(!final(self).paths().contains(path@));
                }
                return true;
            }
            i = i + 1;
        }
        false
    }
}

/// The kind of a raw filesystem notification, as the observer reads it.
#[derive(Clone, Copy, PartialEq, Eq, Structural)]
pub enum RawEventKind {
    Create,
    Modify,
    Remove,
    Other,
}

/// Translates one raw filesystem notification about one path into the
/// logical change stream: a created regular file becomes known and emits a
/// change; a modification emits a change only for a known path; a removal of
/// a known path forgets it and emits a deletion; anything else is dropped.
pub fn observer_step(
    known: &mut KnownFiles,
    kind: RawEventKind,
    path: &String,
    is_regular_file: bool,
) -> (r: Option<FileChanged>)
    requires
        old(known).wf(),
    ensures
        final(known).wf(),
        kind == RawEventKind::Create && is_regular_file ==> (r matches Some(
            FileChanged::Changed { path: p },
        ) && p@ == path@) && (forall|x: Seq<char>|
            final(known).paths().contains(x) <==> (old(known).paths().contains(x) || x
                == path@)),
        kind == RawEventKind::Create && !is_regular_file ==> r is None && final(known).paths()
            =~= old(known).paths(),
        kind == RawEventKind::Modify ==> final(known).paths() =~= old(known).paths() && (if old(
            known,
        ).paths().contains(path@) {
            r matches Some(FileChanged::Changed { path: p }) && p@ == path@
        } else {
            r is None
        }),
        kind == RawEventKind::Remove ==> (forall|x: Seq<char>|
            final(known).paths().contains(x) <==> (old(known).paths().contains(x) && x
                != path@)) && (if old(known).paths().contains(path@) {
            r matches Some(FileChanged::Deleted { path: p }) && p@ == path@
        } else {
            r is None
        }),
        kind == RawEventKind::Other ==> r is None && final(known).paths() =~= old(known).paths(),
{
    match kind {
        RawEventKind::Create => {
            if is_regular_file {
                known.insert(path);
                Some(FileChanged::Changed { path: clone_string(path) })
            } else {
                None
            }
        },
        RawEventKind::Modify => {
            if known.contains(path) {
                Some(FileChanged::Changed { path: clone_string(path) })
            } else {
                None
            }
        },
        RawEventKind::Remove => {
            if known.remove(path) {
                Some(FileChanged::Deleted { path: clone_string(path) })
            } else {
                None
            }
        },
        RawEventKind::Other => None,
    }
}

} // verus!
