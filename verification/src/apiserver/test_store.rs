//! A store in memory, for tests: one revision for the whole store, a key has the
//! revision that last wrote it, and a write may depend on that.

use vstd::prelude::*;
use vstd::string::*;

use crate::apimachinery::error::Error;
use crate::apimachinery::watch::dup_bytes;
use crate::apiserver::apply::Conflict;
use crate::sorted::SortedMap;

verus! {

/// What a [`MemStore`] holds: a revision, and each key with its value and its
/// revision.
pub ghost struct StoreView {
    pub revision: u64,
    pub entries: Map<Seq<char>, (Seq<u8>, u64)>,
}

/// Values and revisions as views.
pub open spec fn stored_views(m: Map<Seq<char>, (Vec<u8>, u64)>) -> Map<
    Seq<char>,
    (Seq<u8>, u64),
> {
    m.map_values(|v: (Vec<u8>, u64)| (v.0@, v.1))
}

/// A store in memory.
pub struct MemStore {
    revision: u64,
    entries: SortedMap<(Vec<u8>, u64)>,
}

impl View for MemStore {
    type V = StoreView;

    closed spec fn view(&self) -> StoreView {
        StoreView { revision: self.revision, entries: stored_views(self.entries.map()) }
    }
}

impl StoreView {
    /// The revision of a key; 0 where it is not stored.
    pub open spec fn revision_of(self, key: Seq<char>) -> u64 {
        if self.entries.contains_key(key) {
            self.entries[key].1
        } else {
            0
        }
    }
}

impl MemStore {
    /// The entries are in order.
    pub closed spec fn wf(&self) -> bool {
        self.entries.wf()
    }

    /// A store without entries.
    pub fn new() -> (r: MemStore)
        ensures
            r.wf(),
            r@ == (StoreView { revision: 0, entries: Map::empty() }),
    {
        let r = MemStore { revision: 0, entries: SortedMap::new() };
        assert(r@.entries =~= Map::empty());
        r
    }

    /// The value of a key and its revision.
    pub fn get(&self, key: &str) -> (r: Option<(Vec<u8>, u64)>)
        requires
            self.wf(),
        ensures
            match r {
                Some(v) => self@.entries.contains_key(key@) && self@.entries[key@] == (v.0@, v.1),
                None => !self@.entries.contains_key(key@),
            },
    {
        match self.entries.get(key) {
            Some(v) => Some((dup_bytes(&v.0), v.1)),
            None => None,
        }
    }

    /// Writes a key. With a revision, the write fails where the key has another;
    /// the revision of a key that is not stored is 0.
    pub fn put(&mut self, key: &str, value: Vec<u8>, prev_revision: Option<u64>) -> (r: Result<
        u64,
        Error,
    >)
        requires
            old(self).wf(),
            old(self)@.revision < u64::MAX,
        ensures
            final(self).wf(),
            match r {
                Ok(rev) => (prev_revision is None || prev_revision == Some(
                    old(self)@.revision_of(key@),
                )) && rev == old(self)@.revision + 1 && final(self)@ == (StoreView {
                    revision: rev,
                    entries: old(self)@.entries.insert(key@, (value@, rev)),
                }),
                Err(e) => e is Conflict && prev_revision is Some && prev_revision != Some(
                    old(self)@.revision_of(key@),
                ) && final(self)@ == old(self)@,
            },
    {
        let have: u64 = match self.entries.get(key) {
            Some(v) => v.1,
            None => 0,
        };
        match prev_revision {
            Some(want) => {
                if have != want {
                    return Err(Error::Conflict);
                }
            },
            None => {},
        }
        let ghost was = self.entries.map();
        let ghost vv = value@;
        let rev = self.revision + 1;
        self.revision = rev;
        self.entries.insert(key, (value, rev));
        assert(stored_views(self.entries.map()) =~= stored_views(was).insert(key@, (vv, rev)));
        Ok(rev)
    }

    /// Removes a key. With a revision, it fails where the key has another, or is
    /// not stored.
    pub fn delete(&mut self, key: &str, prev_revision: Option<u64>) -> (r: Result<u64, Error>)
        requires
            old(self).wf(),
            old(self)@.revision < u64::MAX,
        ensures
            final(self).wf(),
            ({
                let may = match prev_revision {
                    Some(want) => old(self)@.entries.contains_key(key@)
                        && old(self)@.entries[key@].1 == want,
                    None => true,
                };
                match r {
                    Ok(rev) => may && rev == old(self)@.revision + 1 && final(self)@ == (StoreView {
                        revision: rev,
                        entries: old(self)@.entries.remove(key@),
                    }),
                    Err(e) => !may && e is Conflict && final(self)@ == old(self)@,
                }
            }),
    {
        match prev_revision {
            Some(want) => {
                let matches = match self.entries.get(key) {
                    Some(v) => v.1 == want,
                    None => false,
                };
                if !matches {
                    return Err(Error::Conflict);
                }
            },
            None => {},
        }
        let ghost was = self.entries.map();
        let rev = self.revision + 1;
        self.revision = rev;
        let gone = self.entries.remove(key);
        assert(stored_views(self.entries.map()) =~= stored_views(was).remove(key@));
        Ok(rev)
    }
}

} // verus!
