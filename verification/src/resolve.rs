//! Which tables a message asks for, and which version is loaded where the
//! requested one is not to be had.

use vstd::prelude::*;
use vstd::string::StringExecFns;
use crate::errors::Error;
use crate::structs::versions::TableInfo;
use crate::tables::TableType;
use crate::text::{decimal, decimal_string};

verus! {

/// A table that can be loaded from a file.
pub trait TableTrait {
    /// Whether the table exists in a kind.
    spec fn supports(&self, table_type: TableType) -> bool;

    /// The path of the file, relative to the base directory.
    spec fn path_of(&self, table_type: TableType) -> Seq<char>;

    fn file_path(&self, table_type: TableType) -> (r: String)
        requires
            self.supports(table_type),
        ensures
            r@ == self.path_of(table_type),
    ;
}

/// A master table of one version.
#[derive(Clone, Copy, Debug)]
pub struct MasterTable {
    version: u8,
}

/// A local table of one centre and version.
#[derive(Clone, Copy, Debug)]
pub struct LocalTable {
    sub_center: Option<u32>,
    version: u8,
}

/// The bitmap table of one centre.
#[derive(Clone, Copy, Debug)]
pub struct BitmapTable {
    center: u16,
    subcenter: u16,
    local_version: u8,
    master_version: u8,
}

/// The letter of a table kind in a file name.
pub open spec fn kind_letter(table_type: TableType) -> Seq<char> {
    match table_type {
        TableType::B => "B"@,
        TableType::D => "D"@,
        TableType::BitMap => ""@,
    }
}

fn letter(table_type: TableType) -> (r: &'static str)
    ensures
        r@ == kind_letter(table_type),
{
    match table_type {
        TableType::B => "B",
        TableType::D => "D",
        TableType::BitMap => "",
    }
}

impl MasterTable {
    pub closed spec fn version(&self) -> u8 {
        self.version
    }

    pub fn new(version: u8) -> (r: Self)
        ensures
            r.version() == version,
    {
        MasterTable { version }
    }
}

impl TableTrait for MasterTable {
    open spec fn supports(&self, table_type: TableType) -> bool {
        table_type != TableType::BitMap
    }

    /// `master/BUFR_Table{B|D}_{version}.bufrtbl`
    open spec fn path_of(&self, table_type: TableType) -> Seq<char> {
        "master/BUFR_Table"@ + kind_letter(table_type) + "_"@ + decimal(self.version() as nat)
            + ".bufrtbl"@
    }

    fn file_path(&self, table_type: TableType) -> (r: String) {
        let mut name = String::from_str("master/BUFR_Table");
        name.append(letter(table_type));
        name.append("_");
        let version = decimal_string(self.version as u64);
        name.append(version.as_str());
        name.append(".bufrtbl");
        name
    }
}

impl LocalTable {
    pub closed spec fn sub_center(&self) -> Option<u32> {
        self.sub_center
    }

    pub closed spec fn version(&self) -> u8 {
        self.version
    }

    pub fn new(sub_center: Option<u32>, version: u8) -> (r: Self)
        ensures
            r.sub_center() == sub_center,
            r.version() == version,
    {
        LocalTable { sub_center, version }
    }
}

impl TableTrait for LocalTable {
    open spec fn supports(&self, table_type: TableType) -> bool {
        table_type != TableType::BitMap
    }

    /// `local/BUFR_Table{B|D}_{id}_{version}.bufrtbl`, with 0 for a table
    /// without an id.
    open spec fn path_of(&self, table_type: TableType) -> Seq<char> {
        "local/BUFR_Table"@ + kind_letter(table_type) + "_"@ + decimal(
            match self.sub_center() {
                Some(id) => id as nat,
                None => 0,
            },
        ) + "_"@ + decimal(self.version() as nat) + ".bufrtbl"@
    }

    fn file_path(&self, table_type: TableType) -> (r: String) {
        let id: u32 = match self.sub_center {
            Some(sc) => sc,
            None => 0,
        };
        let mut name = String::from_str("local/BUFR_Table");
        name.append(letter(table_type));
        name.append("_");
        let id_text = decimal_string(id as u64);
        name.append(id_text.as_str());
        name.append("_");
        let version = decimal_string(self.version as u64);
        name.append(version.as_str());
        name.append(".bufrtbl");
        name
    }
}

impl BitmapTable {
    pub closed spec fn center(&self) -> u16 {
        self.center
    }

    pub fn new(center: u16, subcenter: u16, local_version: u8, master_version: u8) -> (r: Self)
        ensures
            r.center() == center,
    {
        BitmapTable { center, subcenter, local_version, master_version }
    }
}

impl TableTrait for BitmapTable {
    open spec fn supports(&self, table_type: TableType) -> bool {
        table_type == TableType::BitMap
    }

    /// `opera/BUFR_Opera_Bitmap_{center}.bufrtbl`
    open spec fn path_of(&self, table_type: TableType) -> Seq<char> {
        "opera/BUFR_Opera_Bitmap_"@ + decimal(self.center() as nat) + ".bufrtbl"@
    }

    fn file_path(&self, table_type: TableType) -> (r: String) {
        let mut name = String::from_str("opera/BUFR_Opera_Bitmap_");
        let center = decimal_string(self.center as u64);
        name.append(center.as_str());
        name.append(".bufrtbl");
        name
    }
}

/// The id under which the local tables of a centre are filed:
/// `subcenter * 256 + center`.
pub open spec fn local_table_id(info: TableInfo) -> u32 {
    (info.subcenter_id * 256 + info.center_id) as u32
}

/// The tables a message asks for: the master tables of its master version,
/// and local tables where its local version is above zero.
#[derive(Clone, Copy, Debug)]
pub struct TablePlan {
    pub master: MasterTable,
    pub local: Option<LocalTable>,
}

/// The tables that the identification of a message asks for.
pub fn plan_tables(info: &TableInfo) -> (r: TablePlan)
    ensures
        r.master.version() == info.master_table_version,
        info.local_table_version == 0 ==> r.local is None,
        info.local_table_version > 0 ==> r.local is Some && r.local->0.sub_center() == Some(
            local_table_id(*info),
        ) && r.local->0.version() == info.local_table_version,
{
    let master = MasterTable::new(info.master_table_version);
    let local = if info.local_table_version > 0 {
        Some(
            LocalTable::new(
                Some((info.subcenter_id as u32) * 256 + (info.center_id as u32)),
                info.local_table_version,
            ),
        )
    } else {
        None
    };
    TablePlan { master, local }
}

/// The version that is loaded for a requested one: the highest available
/// version that is not above it.
pub open spec fn fallback_version(available: Set<u8>, requested: u8) -> Option<u8>
    decreases requested,
{
    if available.contains(requested) {
        Some(requested)
    } else if requested == 0 {
        None
    } else {
        fallback_version(available, (requested - 1) as u8)
    }
}

/// The version to try once loading `failed` has failed: the next lower
/// one, if there is one.
pub fn next_version(failed: u8) -> (r: Option<u8>)
    ensures
        r == (if failed == 0 {
            None
        } else {
            Some((failed - 1) as u8)
        }),
{
    if failed == 0 {
        None
    } else {
        Some(failed - 1)
    }
}

fn holds(available: &[u8], version: u8) -> (r: bool)
    ensures
        r == available@.to_set().contains(version),
{
    let mut i: usize = 0;
    while i < available.len()
        invariant
            i <= available@.len(),
            forall|k: int| 0 <= k < i ==> available@[k] != version,
        decreases available@.len() - i,
    {
        if available[i] == version {
            assert(available@.contains(version));
            return true;
        }
        i += 1;
    }
    assert(!available@.contains(version));
    false
}

/// Picks the version to load among those available: the requested one, or
/// the highest below it. Where none of them is available, no table can be
/// had.
pub fn select_version(requested: u8, available: &[u8]) -> (r: Result<u8, Error>)
    ensures
        r == (match fallback_version(available@.to_set(), requested) {
            Some(v) => Ok::<u8, Error>(v),
            None => Err::<u8, Error>(Error::TableNotFound),
        }),
{
    let mut version = requested;
    loop
        invariant
            version <= requested,
            fallback_version(available@.to_set(), requested) == fallback_version(
                available@.to_set(),
                version,
            ),
        decreases version,
    {
        if holds(available, version) {
            return Ok(version);
        }
        match next_version(version) {
            Some(lower) => {
                version = lower;
            },
            None => {
                return Err(Error::TableNotFound);
            },
        }
    }
}

/// What `fallback_version` returns is available and not above the request,
/// and no available version lies between the two.
pub proof fn lemma_fallback_is_highest(available: Set<u8>, requested: u8)
    ensures
        match fallback_version(available, requested) {
            Some(v) => v <= requested && available.contains(v) && forall|w: u8|
                v < w <= requested ==> !available.contains(w),
            None => forall|w: u8| w <= requested ==> !available.contains(w),
        },
    decreases requested,
{
    if !available.contains(requested) && requested > 0 {
        lemma_fallback_is_highest(available, (requested - 1) as u8);
    }
}

/// Fallback: where version `v` is not available and `v - 1` is, the table
/// of `v - 1` is loaded.
pub proof fn lemma_fallback_steps_down(available: Set<u8>, v: u8)
    requires
        v > 0,
        !available.contains(v),
        available.contains((v - 1) as u8),
    ensures
        fallback_version(available, v) == Some((v - 1) as u8),
{
    assert(fallback_version(available, (v - 1) as u8) == Some((v - 1) as u8));
}

} // verus!
