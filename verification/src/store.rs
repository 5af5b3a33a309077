use vstd::prelude::*;

use crate::errors::Error;

verus! {

/// A persistent ordered key/value store, kept on disk at the path it was
/// opened with.
#[verifier::external_body]
pub struct StoreDb {
    db: sled::Db,
}

/// The key/value pairs a store holds.
pub uninterp spec fn db_view(s: StoreDb) -> Map<Seq<u8>, Seq<u8>>;

/// A store with nothing in it.
pub open spec fn empty_store() -> Map<Seq<u8>, Seq<u8>> {
    Map::empty()
}

impl StoreDb {
    /// Relies on sled::open: opens (or creates) the tree at `path`. What it
    /// holds depends on the disk, so nothing is promised of the contents
    /// beyond their being finitely many.
    #[verifier::external_body]
    pub fn open(path: &str) -> (r: Result<StoreDb, Error>)
        ensures
            r matches Ok(s) ==> db_view(s).dom().finite(),
            r matches Err(e) ==> e == Error::IoError,
    {
        match sled::open(path) {
            Ok(db) => Ok(StoreDb { db }),
            Err(_) => Err(Error::IoError),
        }
    }

    /// Relies on sled::Tree::get: returns the value stored under the key,
    /// if the key is present.
    #[verifier::external_body]
    pub fn get(&self, key: &[u8]) -> (r: Result<Option<Vec<u8>>, Error>)
        ensures
            r matches Ok(o) ==> (o is Some <==> db_view(*self).contains_key(key@)) && (o matches
                Some(v) ==> db_view(*self)[key@] == v@),
            r matches Err(e) ==> e == Error::IoError,
    {
        match self.db.get(key) {
            Ok(Some(v)) => Ok(Some(v.to_vec())),
            Ok(None) => Ok(None),
            Err(_) => Err(Error::IoError),
        }
    }

    /// Relies on sled::Tree::insert: sets the key to the value.
    #[verifier::external_body]
    pub fn insert(&mut self, key: &[u8], value: &[u8]) -> (r: Result<(), Error>)
        ensures
            r is Ok ==> db_view(*final(self)) == db_view(*old(self)).insert(key@, value@),
            r matches Err(e) ==> e == Error::IoError,
    {
        match self.db.insert(key, value) {
            Ok(_) => Ok(()),
            Err(_) => Err(Error::IoError),
        }
    }

    /// Relies on sled::Tree::remove: deletes the key.
    #[verifier::external_body]
    pub fn remove(&mut self, key: &[u8]) -> (r: Result<(), Error>)
        ensures
            r is Ok ==> db_view(*final(self)) == db_view(*old(self)).remove(key@),
            r matches Err(e) ==> e == Error::IoError,
    {
        match self.db.remove(key) {
            Ok(_) => Ok(()),
            Err(_) => Err(Error::IoError),
        }
    }

    /// Relies on sled::Tree::clear: removes every key.
    #[verifier::external_body]
    pub fn clear(&mut self) -> (r: Result<(), Error>)
        ensures
            r is Ok ==> db_view(*final(self)) == empty_store(),
            r matches Err(e) ==> e == Error::IoError,
    {
        match self.db.clear() {
            Ok(()) => Ok(()),
            Err(_) => Err(Error::IoError),
        }
    }

    /// Relies on sled::Tree::flush: forces pending writes to disk; the
    /// contents are unchanged.
    #[verifier::external_body]
    pub fn flush(&self) -> (r: Result<(), Error>)
        ensures
            r matches Err(e) ==> e == Error::IoError,
    {
        match self.db.flush() {
            Ok(_) => Ok(()),
            Err(_) => Err(Error::IoError),
        }
    }

    /// Relies on sled::Tree::iter: yields every key/value pair exactly once.
    #[verifier::external_body]
    pub fn entries(&self) -> (r: Result<Vec<(Vec<u8>, Vec<u8>)>, Error>)
        ensures
            r matches Ok(es) ==> {
                &&& forall|i: int|
                    #![trigger es@[i]]
                    0 <= i < es@.len() ==> db_view(*self).contains_key(es@[i].0@) && db_view(
                        *self,
                    )[es@[i].0@] == es@[i].1@
                &&& forall|i: int, j: int|
                    #![trigger es@[i], es@[j]]
                    0 <= i < j < es@.len() ==> es@[i].0@ != es@[j].0@
                &&& forall|k: Seq<u8>|
                    #[trigger] db_view(*self).contains_key(k) ==> exists|i: int|
                        0 <= i < es@.len() && #[trigger] es@[i].0@ == k
            },
            r matches Err(e) ==> e == Error::IoError,
    {
        let mut out: Vec<(Vec<u8>, Vec<u8>)> = Vec::new();
        for kv in self.db.iter() {
            match kv {
                Ok((k, v)) => out.push((k.to_vec(), v.to_vec())),
                Err(_) => {
                    return Err(Error::IoError);
                },
            }
        }
        Ok(out)
    }
}

} // verus!
