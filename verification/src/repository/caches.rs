//! The stores that commands of one process share.
//!
//! A store is known by a number, and kept by the path of the directory that it
//! belongs to.

use vstd::prelude::*;
use vstd::string::*;

use dashmap::DashMap;

use crate::registry::held_numbers;
use crate::registry::no_numbers;
use crate::registry::number_map_get;
use crate::registry::number_map_insert;
use crate::registry::number_map_new;
use crate::registry::number_map_remove;
use crate::registry::number_of;

verus! {

/// The stores that are open, and those that live in memory.
pub struct StoreCaches {
    immutable: DashMap<String, u64>,
    mutable: DashMap<String, u64>,
    memory_immutable: DashMap<String, u64>,
    memory_mutable: DashMap<String, u64>,
}

/// The stores by path, as contracts speak of them.
#[verifier::ext_equal]
pub struct StoreCachesView {
    pub immutable: Map<Seq<char>, u64>,
    pub mutable: Map<Seq<char>, u64>,
    pub memory_immutable: Map<Seq<char>, u64>,
    pub memory_mutable: Map<Seq<char>, u64>,
}

impl StoreCachesView {
    /// The stores without those of a directory.
    pub open spec fn without(self, path: Seq<char>) -> StoreCachesView {
        StoreCachesView {
            immutable: self.immutable.remove(path),
            mutable: self.mutable.remove(path),
            memory_immutable: self.memory_immutable.remove(path),
            memory_mutable: self.memory_mutable.remove(path),
        }
    }

    /// The stores in memory of a directory, if it has both.
    pub open spec fn in_memory(self, path: Seq<char>) -> Option<(u64, u64)> {
        match (number_of(self.memory_immutable, path), number_of(self.memory_mutable, path)) {
            (Some(immutable), Some(mutable)) => Some((immutable, mutable)),
            _ => None,
        }
    }
}

impl View for StoreCaches {
    type V = StoreCachesView;

    closed spec fn view(&self) -> StoreCachesView {
        StoreCachesView {
            immutable: held_numbers(self.immutable),
            mutable: held_numbers(self.mutable),
            memory_immutable: held_numbers(self.memory_immutable),
            memory_mutable: held_numbers(self.memory_mutable),
        }
    }
}

impl StoreCaches {
    /// No stores.
    pub fn new() -> (caches: StoreCaches)
        ensures
            caches@ == (StoreCachesView {
                immutable: no_numbers(),
                mutable: no_numbers(),
                memory_immutable: no_numbers(),
                memory_mutable: no_numbers(),
            }),
    {
        StoreCaches {
            immutable: number_map_new(),
            mutable: number_map_new(),
            memory_immutable: number_map_new(),
            memory_mutable: number_map_new(),
        }
    }

    /// The immutable store of a directory, if it was kept.
    pub fn get_cached_immutable_store(&self, path: &str) -> (store: Option<u64>)
        ensures
            store == number_of(self@.immutable, path@),
    {
        number_map_get(&self.immutable, path)
    }

    /// Keeps the immutable store of a directory.
    pub fn cache_immutable_store(&mut self, path: &str, store: u64)
        ensures
            final(self)@ == (StoreCachesView {
                immutable: old(self)@.immutable.insert(path@, store),
                ..old(self)@
            }),
    {
        number_map_insert(&mut self.immutable, path.to_owned(), store);
    }

    /// The mutable store of a directory, if it was kept.
    pub fn get_cached_mutable_store(&self, path: &str) -> (store: Option<u64>)
        ensures
            store == number_of(self@.mutable, path@),
    {
        number_map_get(&self.mutable, path)
    }

    /// Keeps the mutable store of a directory.
    pub fn cache_mutable_store(&mut self, path: &str, store: u64)
        ensures
            final(self)@ == (StoreCachesView {
                mutable: old(self)@.mutable.insert(path@, store),
                ..old(self)@
            }),
    {
        number_map_insert(&mut self.mutable, path.to_owned(), store);
    }

    /// The stores in memory of a directory: the immutable and the mutable one.
    pub fn get_cached_in_memory_stores(&self, path: &str) -> (stores: Option<(u64, u64)>)
        ensures
            stores == self@.in_memory(path@),
    {
        match (
            number_map_get(&self.memory_immutable, path),
            number_map_get(&self.memory_mutable, path),
        ) {
            (Some(immutable), Some(mutable)) => Some((immutable, mutable)),
            _ => None,
        }
    }

    /// Keeps the stores in memory of a directory.
    pub fn cache_in_memory_stores(&mut self, path: &str, immutable: u64, mutable: u64)
        ensures
            final(self)@ == (StoreCachesView {
                memory_immutable: old(self)@.memory_immutable.insert(path@, immutable),
                memory_mutable: old(self)@.memory_mutable.insert(path@, mutable),
                ..old(self)@
            }),
    {
        number_map_insert(&mut self.memory_immutable, path.to_owned(), immutable);
        number_map_insert(&mut self.memory_mutable, path.to_owned(), mutable);
    }

    fn release_directory(&mut self, path: &str)
        ensures
            final(self)@ == old(self)@.without(path@),
    {
        number_map_remove(&mut self.immutable, path);
        number_map_remove(&mut self.mutable, path);
        number_map_remove(&mut self.memory_immutable, path);
        number_map_remove(&mut self.memory_mutable, path);
    }

    /// Release all cached store references for the given repository: those of its
    /// directory in either format. Commands that hold a store keep it. Subsequent
    /// opens will create fresh stores.
    pub fn repository_release(&mut self, urc_path: &str, lore_path: &str)
        ensures
            final(self)@ == old(self)@.without(urc_path@).without(lore_path@),
    {
        self.release_directory(urc_path);
        self.release_directory(lore_path);
    }
}

/// Stores in memory that are kept for a directory are found again.
pub proof fn law_kept_memory_stores_are_found(
    caches: StoreCachesView,
    path: Seq<char>,
    immutable: u64,
    mutable: u64,
)
    ensures
        (StoreCachesView {
            memory_immutable: caches.memory_immutable.insert(path, immutable),
            memory_mutable: caches.memory_mutable.insert(path, mutable),
            ..caches
        }).in_memory(path) == Some((immutable, mutable)),
{
}

/// Nothing of a repository is found once it was released, in either format, and
/// nothing of another one is lost.
pub proof fn law_released_stores_are_gone(
    caches: StoreCachesView,
    urc_path: Seq<char>,
    lore_path: Seq<char>,
    path: Seq<char>,
)
    ensures
        ({
            let after = caches.without(urc_path).without(lore_path);
            if path == urc_path || path == lore_path {
                &&& number_of(after.immutable, path) is None
                &&& number_of(after.mutable, path) is None
                &&& after.in_memory(path) is None
            } else {
                &&& number_of(after.immutable, path) == number_of(caches.immutable, path)
                &&& number_of(after.mutable, path) == number_of(caches.mutable, path)
                &&& after.in_memory(path) == caches.in_memory(path)
            }
        }),
{
}

} // verus!
