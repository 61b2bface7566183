//! The two memo tables of a discovery run. An entry, once written, stays as it is.

use vstd::prelude::*;
use crate::marker::{MarkerModel, MarkerType};
use crate::path::{PathModel, ProjectPath};

verus! {

/// The map that a list of entries stands for: each key with the value of its
/// first entry.
pub open spec fn assoc_map<K, V>(entries: Seq<(K, V)>) -> Map<K, V>
    decreases entries.len(),
{
    if entries.len() == 0 {
        Map::empty()
    } else {
        let earlier = assoc_map(entries.drop_last());
        if earlier.contains_key(entries.last().0) {
            earlier
        } else {
            earlier.insert(entries.last().0, entries.last().1)
        }
    }
}

/// A key is in the map exactly if some entry has it, and its value is that of
/// the first such entry.
pub proof fn lemma_assoc_map<K, V>(entries: Seq<(K, V)>, key: K)
    ensures
        assoc_map(entries).contains_key(key) <==> exists|i: int|
            0 <= i < entries.len() && (#[trigger] entries[i]).0 == key,
        forall|i: int|
            0 <= i < entries.len() && (#[trigger] entries[i]).0 == key && (forall|j: int|
                0 <= j < i ==> (#[trigger] entries[j]).0 != key) ==> assoc_map(entries)[key]
                == entries[i].1,
    decreases entries.len(),
{
    if entries.len() > 0 {
        let front = entries.drop_last();
        lemma_assoc_map(front, key);
        let last = entries.len() - 1;
        if assoc_map(front).contains_key(key) {
            let i = choose|i: int| 0 <= i < front.len() && (#[trigger] front[i]).0 == key;
            assert(entries[i] == front[i]);
            lemma_assoc_map(front, entries.last().0);
        } else {
            assert forall|i: int| 0 <= i < last implies (#[trigger] entries[i]).0 != key by {
                assert(entries[i] == front[i]);
            }
        }
        assert forall|i: int|
            0 <= i < entries.len() && (#[trigger] entries[i]).0 == key && (forall|j: int|
                0 <= j < i ==> (#[trigger] entries[j]).0 != key) implies assoc_map(entries)[key]
            == entries[i].1 by {
            if i < last {
                assert(front[i] == entries[i]);
                assert forall|j: int| 0 <= j < i implies (#[trigger] front[j]).0 != key by {
                    assert(front[j] == entries[j]);
                }
            }
        }
    }
}

/// Which directories are known to be workspace roots, and which are known not to be.
#[derive(Debug, Clone)]
pub struct WorkspaceCache {
    entries: Vec<(ProjectPath, bool)>,
}

/// The roots already resolved, by the marker's directory and its category.
#[derive(Debug, Clone)]
pub struct RootCache {
    entries: Vec<(ProjectPath, MarkerType, ProjectPath)>,
}

impl View for WorkspaceCache {
    type V = Map<PathModel, bool>;

    closed spec fn view(&self) -> Map<PathModel, bool> {
        assoc_map(self.pairs())
    }
}

impl View for RootCache {
    type V = Map<(PathModel, MarkerModel), PathModel>;

    closed spec fn view(&self) -> Map<(PathModel, MarkerModel), PathModel> {
        assoc_map(self.pairs())
    }
}

impl WorkspaceCache {
    spec fn pairs(&self) -> Seq<(PathModel, bool)> {
        Seq::new(self.entries@.len(), |i: int| (self.entries@[i].0@, self.entries@[i].1))
    }

    /// A cache without entries.
    pub fn new() -> (cache: WorkspaceCache)
        ensures
            cache@ == Map::<PathModel, bool>::empty(),
    {
        let cache = WorkspaceCache { entries: Vec::new() };
        assert(cache.pairs() =~= Seq::empty());
        cache
    }

    /// What is recorded for `dir`, if anything.
    pub fn get(&self, dir: &ProjectPath) -> (known: Option<bool>)
        ensures
            known == if self@.contains_key(dir@) {
                Some(self@[dir@])
            } else {
                None
            },
    {
        let mut i: usize = 0;
        while i < self.entries.len()
            invariant
                i <= self.entries.len(),
                forall|j: int| 0 <= j < i ==> (#[trigger] self.pairs()[j]).0 != dir@,
            decreases self.entries.len() - i,
        {
            if self.entries[i].0.same_as(dir) {
                proof {
                    lemma_assoc_map(self.pairs(), dir@);
                    assert(self.pairs()[i as int].0 == dir@);
                }
                return Some(self.entries[i].1);
            }
            i += 1;
        }
        proof {
            lemma_assoc_map(self.pairs(), dir@);
        }
        None
    }

    /// Records `verdict` for `dir` unless something is recorded for it already.
    pub fn record(&mut self, dir: ProjectPath, verdict: bool)
        ensures
            final(self)@ == if old(self)@.contains_key(dir@) {
                old(self)@
            } else {
                old(self)@.insert(dir@, verdict)
            },
    {
        if self.get(&dir).is_none() {
            let ghost before = self.pairs();
            self.entries.push((dir, verdict));
            assert(self.pairs().drop_last() =~= before);
        }
    }
}

impl RootCache {
    spec fn pairs(&self) -> Seq<((PathModel, MarkerModel), PathModel)> {
        Seq::new(
            self.entries@.len(),
            |i: int| ((self.entries@[i].0@, self.entries@[i].1@), self.entries@[i].2@),
        )
    }

    /// A cache without entries.
    pub fn new() -> (cache: RootCache)
        ensures
            cache@ == Map::<(PathModel, MarkerModel), PathModel>::empty(),
    {
        let cache = RootCache { entries: Vec::new() };
        assert(cache.pairs() =~= Seq::empty());
        cache
    }

    /// The root recorded for a marker of category `marker` in `dir`, if any.
    pub fn get(&self, dir: &ProjectPath, marker: &MarkerType) -> (known: Option<ProjectPath>)
        ensures
            known is Some <==> self@.contains_key((dir@, marker@)),
            known matches Some(root) ==> root@ == self@[(dir@, marker@)],
    {
        let ghost key = (dir@, marker@);
        let mut i: usize = 0;
        while i < self.entries.len()
            invariant
                i <= self.entries.len(),
                key == (dir@, marker@),
                forall|j: int| 0 <= j < i ==> (#[trigger] self.pairs()[j]).0 != key,
            decreases self.entries.len() - i,
        {
            if self.entries[i].0.same_as(dir) && self.entries[i].1.same_as(marker) {
                proof {
                    lemma_assoc_map(self.pairs(), key);
                    assert(self.pairs()[i as int].0 == key);
                }
                return Some(self.entries[i].2.duplicate());
            }
            i += 1;
        }
        proof {
            lemma_assoc_map(self.pairs(), key);
        }
        None
    }

    /// Records `root` for a marker of category `marker` in `dir` unless a root
    /// is recorded for them already.
    pub fn record(&mut self, dir: ProjectPath, marker: MarkerType, root: ProjectPath)
        ensures
            final(self)@ == if old(self)@.contains_key((dir@, marker@)) {
                old(self)@
            } else {
                old(self)@.insert((dir@, marker@), root@)
            },
    {
        if self.get(&dir, &marker).is_none() {
            let ghost before = self.pairs();
            self.entries.push((dir, marker, root));
            assert(self.pairs().drop_last() =~= before);
        }
    }
}

/// Both memo tables of a run.
#[derive(Debug, Clone)]
pub struct Caches {
    pub workspace: WorkspaceCache,
    pub roots: RootCache,
}

/// The two tables as maps.
pub struct CachesModel {
    pub workspace: Map<PathModel, bool>,
    pub roots: Map<(PathModel, MarkerModel), PathModel>,
}

impl CachesModel {
    /// These tables after `root` is noted for a marker of category `marker` in
    /// `dir`; a root noted earlier stays.
    pub open spec fn with_root(self, dir: PathModel, marker: MarkerModel, root: PathModel) -> CachesModel {
        CachesModel {
            workspace: self.workspace,
            roots: if self.roots.contains_key((dir, marker)) {
                self.roots
            } else {
                self.roots.insert((dir, marker), root)
            },
        }
    }
}

impl View for Caches {
    type V = CachesModel;

    open spec fn view(&self) -> CachesModel {
        CachesModel { workspace: self.workspace@, roots: self.roots@ }
    }
}

impl Caches {
    /// Two tables without entries.
    pub fn new() -> (caches: Caches)
        ensures
            caches@.workspace == Map::<PathModel, bool>::empty(),
            caches@.roots == Map::<(PathModel, MarkerModel), PathModel>::empty(),
    {
        Caches { workspace: WorkspaceCache::new(), roots: RootCache::new() }
    }
}

} // verus!
