//! The registry of open collections.
//!
//! The registry owns the handle of every collection that is open. A
//! collection is opened on first reference and stays open until it is
//! evicted: the registry never closes one by itself.
use crate::directory::Directory;
use vstd::prelude::*;

verus! {

/// The open handles, by collection id.
pub struct Registry<H> {
    open: Directory<H>,
}

impl<H> View for Registry<H> {
    type V = Map<Seq<char>, H>;

    closed spec fn view(&self) -> Map<Seq<char>, H> {
        self.open@
    }
}

impl<H> Registry<H> {
    /// A registry in which no collection is open.
    pub fn new() -> (registry: Registry<H>)
        ensures
            registry@ == Map::<Seq<char>, H>::empty(),
    {
        Registry { open: Directory::new() }
    }

    /// Whether `collection` is open.
    pub fn is_open(&self, collection: &str) -> (open: bool)
        ensures
            open == self@.contains_key(collection@),
    {
        self.open.contains(collection)
    }

    /// The handle of `collection`, if it is open.
    pub fn handle(&self, collection: &str) -> (handle: Option<&H>)
        ensures
            match handle {
                Some(h) => self@.contains_key(collection@) && *h == self@[collection@],
                None => !self@.contains_key(collection@),
            },
    {
        self.open.get(collection)
    }

    /// Opens `collection` with `handle` unless it is open already. The
    /// handle that is open stays: where the collection is open, `handle` is
    /// given back and nothing changes. No other collection is touched.
    pub fn open(&mut self, collection: &str, handle: H) -> (refused: Option<H>)
        ensures
            old(self)@.contains_key(collection@) ==> refused == Some(handle) && final(self)@ == old(
                self,
            )@,
            !old(self)@.contains_key(collection@) ==> refused is None && final(self)@ == old(
                self,
            )@.insert(collection@, handle),
    {
        if self.open.contains(collection) {
            Some(handle)
        } else {
            let previous = self.open.insert(collection, handle);
            None
        }
    }

    /// Closes `collection` and returns its handle, if it was open. Evicting
    /// a collection that is not open changes nothing. No other collection is
    /// touched.
    pub fn evict(&mut self, collection: &str) -> (handle: Option<H>)
        ensures
            final(self)@ == old(self)@.remove(collection@),
            !final(self)@.contains_key(collection@),
            handle == if old(self)@.contains_key(collection@) {
                Some(old(self)@[collection@])
            } else {
                None::<H>
            },
    {
        self.open.remove(collection)
    }
}

} // verus!
