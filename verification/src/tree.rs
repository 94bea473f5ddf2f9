//! A directory tree held in memory: the listing of each directory that can
//! be listed.

use vstd::prelude::*;
use vstd::string::StringExecFns;
use crate::entry::DirEntry;
use crate::table::Table;

verus! {

/// The directories that can be listed, each with its children, and the
/// description with which listing any other directory fails.
pub struct DirTree {
    listed: Table<Vec<u8>, Vec<DirEntry>>,
    missing: String,
}

impl View for DirTree {
    type V = Map<Seq<u8>, Seq<DirEntry>>;

    closed spec fn view(&self) -> Map<Seq<u8>, Seq<DirEntry>> {
        self.listed@.map_values(|entries: Vec<DirEntry>| entries@)
    }
}

impl DirTree {
    /// No directory is held twice.
    pub closed spec fn wf(&self) -> bool {
        self.listed.wf()
    }

    /// The description with which listing a directory outside the tree fails.
    pub closed spec fn failure(&self) -> Seq<char> {
        self.missing@
    }

    /// A tree in which no directory can be listed.
    pub fn new(failure: &str) -> (r: Self)
        ensures
            r.wf(),
            r@ == Map::<Seq<u8>, Seq<DirEntry>>::empty(),
            r.failure() == failure@,
    {
        let r = DirTree { listed: Table::new(), missing: String::from_str(failure) };
        assert(r@ =~= Map::<Seq<u8>, Seq<DirEntry>>::empty());
        r
    }

    /// Makes `entries` the listing of the directory `dir`.
    pub fn add(&mut self, dir: Vec<u8>, entries: Vec<DirEntry>)
        requires
            old(self).wf(),
        ensures
            final(self).wf(),
            final(self)@ == old(self)@.insert(dir@, entries@),
            final(self).failure() == old(self).failure(),
    {
        self.listed.insert(dir, entries);
        assert(self@ =~= old(self)@.insert(dir@, entries@));
    }

    /// The listing of `dir`, where it can be listed.
    pub fn list(&self, dir: &Vec<u8>) -> (r: Option<&Vec<DirEntry>>)
        requires
            self.wf(),
        ensures
            match r {
                Some(entries) => self@.dom().contains(dir@) && entries@ == self@[dir@],
                None => !self@.dom().contains(dir@),
            },
    {
        self.listed.get(dir)
    }

    /// The description with which listing a directory outside the tree fails.
    pub fn failure_text(&self) -> (r: String)
        ensures
            r@ == self.failure(),
    {
        self.missing.clone()
    }
}

} // verus!
