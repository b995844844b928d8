//! Lookup across the catalogs of one decode: the local tables first, then
//! the master tables.

use vstd::prelude::*;
use crate::catalog::{BUFRTableB, BUFRTableD};
use crate::fxy::FXY;
use crate::tables::{BTableEntry, DTableEntry};

verus! {

/// The catalogs a decode looks descriptors up in.
#[derive(Clone, Copy)]
pub struct Cache<'a> {
    pub master_b: &'a BUFRTableB,
    pub master_d: &'a BUFRTableD,
    pub local_b: Option<&'a BUFRTableB>,
    pub local_d: Option<&'a BUFRTableD>,
}

impl<'a> Cache<'a> {
    /// The element under a key in the local Table B, if there is a local
    /// table and it holds the key.
    pub open spec fn local_element(&self, key: FXY) -> Option<BTableEntry> {
        match self.local_b {
            Some(table) => table.spec_get(key),
            None => None,
        }
    }

    /// The element under a key in the master Table B.
    pub open spec fn master_element(&self, key: FXY) -> Option<BTableEntry> {
        self.master_b.spec_get(key)
    }

    /// The element a key stands for: the local one where there is one, else
    /// the master one.
    pub open spec fn element(&self, key: FXY) -> Option<BTableEntry> {
        match self.local_element(key) {
            Some(e) => Some(e),
            None => self.master_element(key),
        }
    }

    /// The sequence under a key in the local Table D.
    pub open spec fn local_sequence(&self, key: FXY) -> Option<DTableEntry> {
        match self.local_d {
            Some(table) => table.spec_get(key),
            None => None,
        }
    }

    /// The sequence under a key in the master Table D.
    pub open spec fn master_sequence(&self, key: FXY) -> Option<DTableEntry> {
        self.master_d.spec_get(key)
    }

    /// The sequence a key stands for: the local one where there is one,
    /// else the master one.
    pub open spec fn sequence(&self, key: FXY) -> Option<DTableEntry> {
        match self.local_sequence(key) {
            Some(e) => Some(e),
            None => self.master_sequence(key),
        }
    }

    pub fn new(
        master_b: &'a BUFRTableB,
        master_d: &'a BUFRTableD,
        local_b: Option<&'a BUFRTableB>,
        local_d: Option<&'a BUFRTableD>,
    ) -> (r: Self)
        ensures
            r.master_b == master_b,
            r.master_d == master_d,
            r.local_b == local_b,
            r.local_d == local_d,
    {
        Cache { master_b, master_d, local_b, local_d }
    }

    pub fn get_b(&self, fxy: &FXY) -> (r: Option<&'a BTableEntry>)
        ensures
            match r {
                Some(e) => self.element(*fxy) == Some(*e),
                None => self.element(*fxy) is None,
            },
    {
        self.lookup_b_descriptor(fxy)
    }

    pub fn get_d(&self, fxy: &FXY) -> (r: Option<&'a DTableEntry>)
        ensures
            match r {
                Some(e) => self.sequence(*fxy) == Some(*e),
                None => self.sequence(*fxy) is None,
            },
    {
        self.lookup_d_descriptor(fxy)
    }

    pub fn lookup_b_descriptor(&self, fxy: &FXY) -> (r: Option<&'a BTableEntry>)
        ensures
            match r {
                Some(e) => self.element(*fxy) == Some(*e),
                None => self.element(*fxy) is None,
            },
    {
        match self.lookup_local_b_descriptor(fxy) {
            Some(e) => Some(e),
            None => self.lookup_master_b_descriptor(fxy),
        }
    }

    pub fn lookup_local_b_descriptor(&self, fxy: &FXY) -> (r: Option<&'a BTableEntry>)
        ensures
            match r {
                Some(e) => self.local_element(*fxy) == Some(*e),
                None => self.local_element(*fxy) is None,
            },
    {
        match self.local_b {
            Some(table) => table.get(fxy),
            None => None,
        }
    }

    pub fn lookup_master_b_descriptor(&self, fxy: &FXY) -> (r: Option<&'a BTableEntry>)
        ensures
            match r {
                Some(e) => self.master_element(*fxy) == Some(*e),
                None => self.master_element(*fxy) is None,
            },
    {
        self.master_b.get(fxy)
    }

    pub fn lookup_master_d_descriptor(&self, fxy: &FXY) -> (r: Option<&'a DTableEntry>)
        ensures
            match r {
                Some(e) => self.master_sequence(*fxy) == Some(*e),
                None => self.master_sequence(*fxy) is None,
            },
    {
        self.master_d.get(fxy)
    }

    pub fn lookup_local_d_descriptor(&self, fxy: &FXY) -> (r: Option<&'a DTableEntry>)
        ensures
            match r {
                Some(e) => self.local_sequence(*fxy) == Some(*e),
                None => self.local_sequence(*fxy) is None,
            },
    {
        match self.local_d {
            Some(table) => table.get(fxy),
            None => None,
        }
    }

    pub fn lookup_d_descriptor(&self, fxy: &FXY) -> (r: Option<&'a DTableEntry>)
        ensures
            match r {
                Some(e) => self.sequence(*fxy) == Some(*e),
                None => self.sequence(*fxy) is None,
            },
    {
        match self.lookup_local_d_descriptor(fxy) {
            Some(e) => Some(e),
            None => self.lookup_master_d_descriptor(fxy),
        }
    }
}

} // verus!
