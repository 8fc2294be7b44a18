//! The process-wide collection cache.
//!
//! Looking a collection up takes a shared read lock and must not block on
//! construction; on a miss the handle is built with no lock held, and the
//! write lock is taken only for an insert-if-absent step: when a racing
//! caller inserted a handle under the same name first, that handle wins and
//! the redundant one is discarded. The cache therefore never holds two
//! handles for one name.

use vstd::prelude::*;
use vstd::rwlock::{RwLock, RwLockPredicate};

use std::sync::Arc;

use crate::error::AppError;
use crate::vectorizer::SqliteVector;

verus! {

/// One collection's initialized storage handle, shared read-only by every
/// caller that looked it up.
pub struct CollectionHandle {
    /// The collection this handle serves.
    pub collection_name: String,
    /// The store opened for it.
    pub store: SqliteVector,
    /// The collection's vector dimension.
    pub dimension: usize,
}

/// What always holds of the cached entries: every entry's handle carries the
/// entry's name, and no name occurs twice.
pub open spec fn entries_wf(entries: Seq<(String, Arc<CollectionHandle>)>) -> bool {
    &&& forall|i: int|
        0 <= i < entries.len() ==> (#[trigger] entries[i]).1.collection_name@ == entries[i].0@
    &&& forall|i: int, j: int|
        0 <= i < j < entries.len() ==> (#[trigger] entries[i]).0@ != (#[trigger] entries[j]).0@
}

/// The lock predicate: every state of the guarded entry list is well-formed.
pub struct CacheInv {}

impl RwLockPredicate<Vec<(String, Arc<CollectionHandle>)>> for CacheInv {
    open spec fn inv(self, v: Vec<(String, Arc<CollectionHandle>)>) -> bool {
        entries_wf(v@)
    }
}

/// Law: the cache settles to at most one entry per name — two well-formed
/// entries with the same name are one and the same.
pub proof fn lemma_at_most_one_entry(
    entries: Seq<(String, Arc<CollectionHandle>)>,
    i: int,
    j: int,
)
    requires
        entries_wf(entries),
        0 <= i < entries.len(),
        0 <= j < entries.len(),
        entries[i].0@ == entries[j].0@,
    ensures
        i == j,
{
}

/// Relies on std's `Arc::clone`: the clone is a reference to the same
/// underlying handle.
#[verifier::external_body]
fn arc_clone(a: &Arc<CollectionHandle>) -> (r: Arc<CollectionHandle>)
    ensures
        r == *a,
{
    Arc::clone(a)
}

/// The cached entry for `name`, if one is present.
fn find_entry(entries: &Vec<(String, Arc<CollectionHandle>)>, name: &String) -> (r: Option<
    Arc<CollectionHandle>,
>)
    ensures
        match r {
            Some(h) => exists|i: int|
                0 <= i < entries@.len() && (#[trigger] entries@[i]).0@ == name@ && h
                    == entries@[i].1,
            None => forall|i: int| 0 <= i < entries@.len() ==> (#[trigger] entries@[i]).0@ != name@,
        },
{
    let n = entries.len();
    let mut i: usize = 0;
    while i < n
        invariant
            i <= n,
            n == entries@.len(),
            forall|m: int| 0 <= m < i ==> (#[trigger] entries@[m]).0@ != name@,
        decreases n - i,
    {
        if entries[i].0 == *name {
            return Some(arc_clone(&entries[i].1));
        }
        i += 1;
    }
    None
}

/// A keyed cache of initialized per-collection handles behind a read/write
/// lock: concurrent lookups share the read lock, and at most one handle is
/// ever stored per collection name.
pub struct CollectionCache {
    entries: RwLock<Vec<(String, Arc<CollectionHandle>)>, CacheInv>,
}

impl CollectionCache {
    /// An empty cache.
    pub fn new() -> (c: Self) {
        Self { entries: RwLock::new(Vec::new(), Ghost(CacheInv {  })) }
    }

    /// The handle for `name`: the cached one when present (the fast path,
    /// which never blocks on construction); otherwise a handle is built with
    /// no lock held and inserted only if no racing caller inserted one
    /// meanwhile — every caller gets the one winning handle per name, and a
    /// redundant construction is discarded. A construction failure surfaces
    /// to this caller alone and is not cached, so the next call retries.
    pub fn get_or_create(&self, name: &str, db_path: &str, dimension: usize) -> (r: Result<
        Arc<CollectionHandle>,
        AppError,
    >)
        ensures
            match r {
                Ok(h) => h.collection_name@ == name@,
                Err(e) => e == AppError::CacheConstruction,
            },
    {
        let key: String = name.to_owned();
        let read_handle = self.entries.acquire_read();
        let found = find_entry(read_handle.borrow(), &key);
        read_handle.release_read();
        match found {
            Some(h) => {
                return Ok(h);
            },
            None => {},
        }
        // the expensive construction runs with no lock held
        let store = match SqliteVector::new(db_path) {
            Ok(s) => s,
            Err(_) => {
                return Err(AppError::CacheConstruction);
            },
        };
        let fresh = Arc::new(
            CollectionHandle { collection_name: name.to_owned(), store, dimension },
        );
        let (mut entries, write_handle) = self.entries.acquire_write();
        let existing = find_entry(&entries, &key);
        match existing {
            Some(h) => {
                // a racing caller won; keep its handle, drop the fresh one
                write_handle.release_write(entries);
                Ok(h)
            },
            None => {
                let h = arc_clone(&fresh);
                let ghost before = entries@;
                entries.push((key, fresh));
                proof {
                    assert forall|i: int|
                        0 <= i < entries@.len() implies (#[trigger] entries@[i]).1.collection_name@
                        == entries@[i].0@ by {
                        if i < before.len() {
                            assert(entries@[i] == before[i]);
                        }
                    }
                    assert forall|i: int, j: int|
                        0 <= i < j < entries@.len() implies (#[trigger] entries@[i]).0@ != (
                    #[trigger] entries@[j]).0@ by {
                        if j < before.len() {
                            assert(entries@[i] == before[i] && entries@[j] == before[j]);
                        } else {
                            assert(entries@[i] == before[i]);
                        }
                    }
                }
                write_handle.release_write(entries);
                Ok(h)
            },
        }
    }

    /// How many collections are cached at this moment.
    pub fn count(&self) -> usize {
        let read_handle = self.entries.acquire_read();
        let n = read_handle.borrow().len();
        read_handle.release_read();
        n
    }
}

} // verus!
