//! Mapping from URL path to media descriptor plus, for shared
//! descriptors, the index of the currently live media entry.

use vstd::prelude::*;
use crate::descriptor::MediaDescriptor;
use crate::errors::MediaError;

verus! {

/// One mount point: the registered descriptor and, while a shared
/// pipeline is up for it, the index of that live entry.
#[derive(Clone, Debug)]
pub struct Mount {
    pub descriptor: MediaDescriptor,
    /// Index of the live shared entry, if one exists. Never used for
    /// non-shared descriptors: each of their sessions owns its own
    /// entry exclusively.
    pub live: Option<usize>,
}

/// The table of mount points, keyed by path (unique).
#[derive(Debug)]
pub struct MountRegistry {
    pub mounts: Vec<Mount>,
}

impl MountRegistry {
    /// No two mounts answer to the same path.
    pub open spec fn paths_unique(self) -> bool {
        forall|i: int, j: int|
            0 <= i < j < self.mounts@.len() ==> self.mounts@[i].descriptor.path@ != self.mounts@[j].descriptor.path@
    }

    /// Some mount is registered at path `p`.
    pub open spec fn has_path(self, p: Seq<char>) -> bool {
        exists|i: int| 0 <= i < self.mounts@.len() && self.mounts@[i].descriptor.path@ == p
    }

    /// The index of the mount registered at path `p`.
    pub open spec fn index_of(self, p: Seq<char>) -> int {
        choose|i: int| 0 <= i < self.mounts@.len() && self.mounts@[i].descriptor.path@ == p
    }

    /// With unique paths, any mount matching `p` is the one index_of
    /// names.
    pub proof fn lemma_index_of_unique(self, p: Seq<char>, i: int)
        requires
            self.paths_unique(),
            0 <= i < self.mounts@.len(),
            self.mounts@[i].descriptor.path@ == p,
        ensures
            self.index_of(p) == i,
            self.has_path(p),
    {
        assert(self.has_path(p));
        let j = self.index_of(p);
        if i < j {
            assert(self.mounts@[i].descriptor.path@ != self.mounts@[j].descriptor.path@);
        } else if j < i {
            assert(self.mounts@[j].descriptor.path@ != self.mounts@[i].descriptor.path@);
        }
    }

    /// An empty table.
    pub fn new() -> (r: MountRegistry)
        ensures
            r.mounts@.len() == 0,
            r.paths_unique(),
    {
        MountRegistry { mounts: Vec::new() }
    }

    /// Register a descriptor under its path. Used once per mount
    /// point at startup. Fails if and only if the path is taken.
    pub fn register(&mut self, descriptor: MediaDescriptor) -> (r: Result<(), MediaError>)
        requires
            old(self).paths_unique(),
        ensures
            final(self).paths_unique(),
            match r {
                Ok(()) => !old(self).has_path(descriptor.path@) && final(self).mounts@ == old(
                    self,
                ).mounts@.push(Mount { descriptor, live: None }),
                Err(e) => e == MediaError::DuplicatePath && old(self).has_path(descriptor.path@)
                    && *final(self) == *old(self),
            },
    {
        let n = self.mounts.len();
        for i in 0..n
            invariant
                *self == *old(self),
                self.paths_unique(),
                n == self.mounts@.len(),
                forall|j: int| 0 <= j < i ==> self.mounts@[j].descriptor.path@ != descriptor.path@,
        {
            if self.mounts[i].descriptor.path == descriptor.path {
                return Err(MediaError::DuplicatePath);
            }
        }
        self.mounts.push(Mount { descriptor, live: None });
        Ok(())
    }

    /// Install or clear the live-entry slot of mount `m`. The
    /// descriptor is untouched, so path uniqueness survives.
    pub fn set_live(&mut self, m: usize, live: Option<usize>)
        requires
            m < old(self).mounts@.len(),
        ensures
            final(self).mounts@ == old(self).mounts@.update(
                m as int,
                Mount { descriptor: old(self).mounts@[m as int].descriptor, live },
            ),
            old(self).paths_unique() ==> final(self).paths_unique(),
    {
        self.mounts[m].live = live;
        proof {
            assert(self.mounts@ =~= old(self).mounts@.update(
                m as int,
                Mount { descriptor: old(self).mounts@[m as int].descriptor, live },
            ));
            if old(self).paths_unique() {
                assert forall|i: int, j: int| 0 <= i < j < self.mounts@.len() implies self.mounts@[i].descriptor.path@ != self.mounts@[j].descriptor.path@ by {
                    assert(self.mounts@[i].descriptor == old(self).mounts@[i].descriptor);
                    assert(self.mounts@[j].descriptor == old(self).mounts@[j].descriptor);
                }
            }
        }
    }

    /// Look the path up; `None` exactly when nothing is mounted
    /// there.
    pub fn find(&self, path: &String) -> (r: Option<usize>)
        requires
            self.paths_unique(),
        ensures
            match r {
                Some(i) => i < self.mounts@.len() && self.mounts@[i as int].descriptor.path@
                    == path@ && self.has_path(path@) && self.index_of(path@) == i,
                None => !self.has_path(path@),
            },
    {
        let n = self.mounts.len();
        for i in 0..n
            invariant
                n == self.mounts@.len(),
                self.paths_unique(),
                forall|j: int| 0 <= j < i ==> self.mounts@[j].descriptor.path@ != path@,
        {
            if self.mounts[i].descriptor.path == *path {
                proof {
                    self.lemma_index_of_unique(path@, i as int);
                }
                return Some(i);
            }
        }
        None
    }
}

} // verus!
