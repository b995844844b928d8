//! The entries of the dictionary tables: Table B (elements), Table D
//! (sequences) and the bitmap table.

use vstd::prelude::*;
use crate::fxy::FXY;

verus! {

/// The kinds of table.
#[derive(Clone, Copy, Debug, PartialEq, Eq, Structural)]
pub enum TableType {
    B,
    D,
    BitMap,
}

/// Marker of Table B.
#[derive(Clone, Copy, Debug)]
pub struct BTable;

/// Marker of Table D.
#[derive(Clone, Copy, Debug)]
pub struct DTable;

/// Marker of the bitmap table.
#[derive(Clone, Copy, Debug)]
pub struct BitMap;

/// An entry of a table: a record found under a descriptor key.
pub trait TableEntry: Sized {
    /// The key the entry is stored under.
    spec fn key(&self) -> FXY;

    fn fxy(&self) -> (r: FXY)
        ensures
            r == self.key(),
    ;
}

/// A table kind and the entries it holds.
pub trait TableTypeTrait {
    type EntryType: TableEntry;

    spec fn kind() -> TableType;

    fn table_type() -> (r: TableType)
        ensures
            r == Self::kind(),
    ;
}

/// The text of an optional string.
pub open spec fn text_of(o: Option<String>) -> Option<Seq<char>> {
    match o {
        Some(s) => Some(s@),
        None => None,
    }
}

/// The text of an optional string slice.
pub open spec fn str_text(o: Option<&str>) -> Option<Seq<char>> {
    match o {
        Some(s) => Some(s@),
        None => None,
    }
}

fn borrow_text(o: &Option<String>) -> (r: Option<&str>)
    ensures
        str_text(r) == text_of(*o),
{
    match o {
        Some(s) => Some(s.as_str()),
        None => None,
    }
}

/// An element of Table B: how the bits of one value are to be read.
#[derive(Clone, Debug)]
pub struct BTableEntry {
    pub fxy: FXY,
    pub class_name_en: String,
    pub element_name_en: String,
    pub bufr_unit: String,
    pub bufr_scale: i32,
    pub bufr_reference_value: i32,
    pub bufr_datawidth_bits: u32,
    pub note_en: Option<String>,
    pub note_ids: Option<String>,
    pub status: Option<String>,
}

impl BTableEntry {
    pub fn fxy(&self) -> (r: FXY)
        ensures
            r == self.fxy,
    {
        self.fxy
    }

    pub fn class_name_en(&self) -> (r: &str)
        ensures
            r@ == self.class_name_en@,
    {
        self.class_name_en.as_str()
    }

    pub fn element_name_en(&self) -> (r: &str)
        ensures
            r@ == self.element_name_en@,
    {
        self.element_name_en.as_str()
    }

    pub fn bufr_unit(&self) -> (r: &str)
        ensures
            r@ == self.bufr_unit@,
    {
        self.bufr_unit.as_str()
    }

    pub fn bufr_scale(&self) -> (r: i32)
        ensures
            r == self.bufr_scale,
    {
        self.bufr_scale
    }

    pub fn bufr_reference_value(&self) -> (r: i32)
        ensures
            r == self.bufr_reference_value,
    {
        self.bufr_reference_value
    }

    pub fn bufr_datawidth_bits(&self) -> (r: u32)
        ensures
            r == self.bufr_datawidth_bits,
    {
        self.bufr_datawidth_bits
    }

    pub fn note_en(&self) -> (r: Option<&str>)
        ensures
            str_text(r) == text_of(self.note_en),
    {
        borrow_text(&self.note_en)
    }

    pub fn note_ids(&self) -> (r: Option<&str>)
        ensures
            str_text(r) == text_of(self.note_ids),
    {
        borrow_text(&self.note_ids)
    }

    pub fn status(&self) -> (r: Option<&str>)
        ensures
            str_text(r) == text_of(self.status),
    {
        borrow_text(&self.status)
    }
}

impl TableEntry for BTableEntry {
    open spec fn key(&self) -> FXY {
        self.fxy
    }

    fn fxy(&self) -> (r: FXY) {
        self.fxy
    }
}

impl TableTypeTrait for BTable {
    type EntryType = BTableEntry;

    open spec fn kind() -> TableType {
        TableType::B
    }

    fn table_type() -> (r: TableType) {
        TableType::B
    }
}

/// A sequence of Table D: the chain of descriptors it stands for.
#[derive(Clone, Debug)]
pub struct DTableEntry {
    pub fxy: FXY,
    pub fxy_chain: Vec<FXY>,
    pub category: Option<String>,
    pub category_of_sequences_en: Option<String>,
    pub title_en: Option<String>,
    pub subtitle_en: Option<String>,
    pub note_en: Option<String>,
    pub note_ids: Option<String>,
    pub status: Option<String>,
}

impl DTableEntry {
    pub fn fxy(&self) -> (r: FXY)
        ensures
            r == self.fxy,
    {
        self.fxy
    }

    pub fn fxy_chain(&self) -> (r: &[FXY])
        ensures
            r@ == self.fxy_chain@,
    {
        self.fxy_chain.as_slice()
    }

    pub fn category(&self) -> (r: Option<&str>)
        ensures
            str_text(r) == text_of(self.category),
    {
        borrow_text(&self.category)
    }

    pub fn category_of_sequences_en(&self) -> (r: Option<&str>)
        ensures
            str_text(r) == text_of(self.category_of_sequences_en),
    {
        borrow_text(&self.category_of_sequences_en)
    }

    pub fn title_en(&self) -> (r: Option<&str>)
        ensures
            str_text(r) == text_of(self.title_en),
    {
        borrow_text(&self.title_en)
    }

    pub fn subtitle_en(&self) -> (r: Option<&str>)
        ensures
            str_text(r) == text_of(self.subtitle_en),
    {
        borrow_text(&self.subtitle_en)
    }

    pub fn note_en(&self) -> (r: Option<&str>)
        ensures
            str_text(r) == text_of(self.note_en),
    {
        borrow_text(&self.note_en)
    }

    pub fn note_ids(&self) -> (r: Option<&str>)
        ensures
            str_text(r) == text_of(self.note_ids),
    {
        borrow_text(&self.note_ids)
    }

    pub fn status(&self) -> (r: Option<&str>)
        ensures
            str_text(r) == text_of(self.status),
    {
        borrow_text(&self.status)
    }
}

impl TableEntry for DTableEntry {
    open spec fn key(&self) -> FXY {
        self.fxy
    }

    fn fxy(&self) -> (r: FXY) {
        self.fxy
    }
}

impl TableTypeTrait for DTable {
    type EntryType = DTableEntry;

    open spec fn kind() -> TableType {
        TableType::D
    }

    fn table_type() -> (r: TableType) {
        TableType::D
    }
}

/// An entry of the bitmap table: the depth recorded for a sequence.
#[derive(Clone, Debug)]
pub struct BitMapEntry {
    pub fxy: FXY,
    pub depth: u8,
}

impl TableEntry for BitMapEntry {
    open spec fn key(&self) -> FXY {
        self.fxy
    }

    fn fxy(&self) -> (r: FXY) {
        self.fxy
    }
}

impl TableTypeTrait for BitMap {
    type EntryType = BitMapEntry;

    open spec fn kind() -> TableType {
        TableType::BitMap
    }

    fn table_type() -> (r: TableType) {
        TableType::BitMap
    }
}

} // verus!
