//! Loaders for the table source files of the WMO: one record per line,
//! fields by name.

use vstd::prelude::*;
use crate::fxy::{fxy_from_bytes, FXY};
use crate::loader::LoadError;
use crate::tables::{text_of, BTableEntry, DTableEntry};

verus! {

/// A record of a WMO Table B file.
#[derive(Clone, Debug)]
pub struct RawBTableEntry {
    pub class_no: String,
    pub class_name_en: String,
    pub fxy: String,
    pub element_name_en: String,
    pub bufr_unit: String,
    pub bufr_scale: i32,
    pub bufr_reference_value: i32,
    pub bufr_datawidth_bits: u32,
    pub crex_unit: Option<String>,
    pub crex_scale: Option<i32>,
    pub crex_datawidth_char: Option<u32>,
    pub note_en: Option<String>,
    pub note_ids: Option<String>,
    pub status: Option<String>,
}

/// Makes Table B entries of the records of a WMO file.
#[derive(Clone, Copy, Debug)]
pub struct BTableCsvLoader;

impl BTableCsvLoader {
    /// The entry of a record: its fields under the key that its `FXY`
    /// field writes.
    pub fn process_entry(&mut self, raw: RawBTableEntry) -> (r: Result<Option<BTableEntry>, LoadError>)
        ensures
            match fxy_from_bytes(vstd::utf8::encode_utf8(raw.fxy@)) {
                Err(e) => r == Err::<Option<BTableEntry>, LoadError>(LoadError::BadKey(e)),
                Ok(key) => r is Ok && r->Ok_0 is Some && ({
                    let entry = r->Ok_0->0;
                    &&& entry.fxy == key
                    &&& entry.class_name_en@ == raw.class_name_en@
                    &&& entry.element_name_en@ == raw.element_name_en@
                    &&& entry.bufr_unit@ == raw.bufr_unit@
                    &&& entry.bufr_scale == raw.bufr_scale
                    &&& entry.bufr_reference_value == raw.bufr_reference_value
                    &&& entry.bufr_datawidth_bits == raw.bufr_datawidth_bits
                    &&& text_of(entry.note_en) == text_of(raw.note_en)
                    &&& text_of(entry.note_ids) == text_of(raw.note_ids)
                    &&& text_of(entry.status) == text_of(raw.status)
                }),
            },
    {
        let fxy = match FXY::from_str(raw.fxy.as_str()) {
            Ok(k) => k,
            Err(e) => {
                return Err(LoadError::BadKey(e));
            },
        };
        Ok(
            Some(
                BTableEntry {
                    fxy,
                    class_name_en: raw.class_name_en,
                    element_name_en: raw.element_name_en,
                    bufr_unit: raw.bufr_unit,
                    bufr_scale: raw.bufr_scale,
                    bufr_reference_value: raw.bufr_reference_value,
                    bufr_datawidth_bits: raw.bufr_datawidth_bits,
                    note_en: raw.note_en,
                    note_ids: raw.note_ids,
                    status: raw.status,
                },
            ),
        )
    }

    /// Nothing is left over at the end of a Table B file.
    pub fn finish(&mut self) -> (r: Result<Option<BTableEntry>, LoadError>)
        ensures
            r is Ok,
            r->Ok_0 is None,
    {
        Ok(None)
    }
}

/// A record of a WMO Table D file: one member of a sequence.
#[derive(Clone, Debug)]
pub struct RawDTableEntry {
    pub category: Option<String>,
    pub category_of_sequences_en: Option<String>,
    pub fxy1: String,
    pub title_en: Option<String>,
    pub subtitle_en: Option<String>,
    pub fxy2: String,
    pub _element_name_en: Option<String>,
    pub _element_description_en: Option<String>,
    pub note_en: Option<String>,
    pub note_ids: Option<String>,
    pub status: Option<String>,
}

/// Makes Table D entries of the records of a WMO file: the records of one
/// sequence follow one another and are gathered into one entry.
#[derive(Clone, Debug)]
pub struct DTableCsvLoader {
    current_chain: Option<DTableEntry>,
}

/// The keys that a record of Table D writes: the sequence and its member.
pub open spec fn keys_of_record(raw: RawDTableEntry) -> Result<(FXY, FXY), LoadError> {
    match fxy_from_bytes(vstd::utf8::encode_utf8(raw.fxy1@)) {
        Err(e) => Err(LoadError::BadKey(e)),
        Ok(sequence) => match fxy_from_bytes(vstd::utf8::encode_utf8(raw.fxy2@)) {
            Err(e) => Err(LoadError::BadKey(e)),
            Ok(member) => Ok((sequence, member)),
        },
    }
}

/// Whether an entry is the one that a record begins: the sequence with its
/// first member and the descriptions of the record.
pub open spec fn begun_by(entry: DTableEntry, raw: RawDTableEntry, sequence: FXY, member: FXY)
    -> bool {
    &&& entry.fxy == sequence
    &&& entry.fxy_chain@ == seq![member]
    &&& text_of(entry.category) == text_of(raw.category)
    &&& text_of(entry.category_of_sequences_en) == text_of(raw.category_of_sequences_en)
    &&& text_of(entry.title_en) == text_of(raw.title_en)
    &&& text_of(entry.subtitle_en) == text_of(raw.subtitle_en)
    &&& text_of(entry.note_en) == text_of(raw.note_en)
    &&& text_of(entry.note_ids) == text_of(raw.note_ids)
    &&& text_of(entry.status) == text_of(raw.status)
}

/// Whether an entry is another with one more member.
pub open spec fn grown_by(entry: DTableEntry, before: DTableEntry, member: FXY) -> bool {
    &&& entry.fxy == before.fxy
    &&& entry.fxy_chain@ == before.fxy_chain@.push(member)
    &&& entry.category == before.category
    &&& entry.category_of_sequences_en == before.category_of_sequences_en
    &&& entry.title_en == before.title_en
    &&& entry.subtitle_en == before.subtitle_en
    &&& entry.note_en == before.note_en
    &&& entry.note_ids == before.note_ids
    &&& entry.status == before.status
}

impl DTableCsvLoader {
    /// The sequence that is being gathered.
    pub closed spec fn current(&self) -> Option<DTableEntry> {
        self.current_chain
    }

    pub fn new() -> (r: Self)
        ensures
            r.current() is None,
    {
        DTableCsvLoader { current_chain: None }
    }

    /// Takes a record. A record of the sequence that is being gathered adds
    /// its member to it. A record of another sequence begins that sequence
    /// and hands out the one gathered so far. A record whose keys cannot be
    /// read is rejected and changes nothing.
    pub fn process_entry(&mut self, raw: RawDTableEntry) -> (r: Result<Option<DTableEntry>, LoadError>)
        ensures
            match keys_of_record(raw) {
                Err(e) => r == Err::<Option<DTableEntry>, LoadError>(e) && final(self).current()
                    == old(self).current(),
                Ok((sequence, member)) => r is Ok && final(self).current() is Some && (
                match old(self).current() {
                    None => r->Ok_0 is None && begun_by(
                        final(self).current()->0,
                        raw,
                        sequence,
                        member,
                    ),
                    Some(before) => if before.fxy != sequence {
                        r->Ok_0 == Some(before) && begun_by(
                            final(self).current()->0,
                            raw,
                            sequence,
                            member,
                        )
                    } else {
                        r->Ok_0 is None && grown_by(final(self).current()->0, before, member)
                    },
                }),
            },
    {
        let sequence = match FXY::from_str(raw.fxy1.as_str()) {
            Ok(k) => k,
            Err(e) => {
                return Err(LoadError::BadKey(e));
            },
        };
        let member = match FXY::from_str(raw.fxy2.as_str()) {
            Ok(k) => k,
            Err(e) => {
                return Err(LoadError::BadKey(e));
            },
        };
        match self.current_chain.take() {
            Some(mut chain) => {
                if chain.fxy.f == sequence.f && chain.fxy.x == sequence.x && chain.fxy.y
                    == sequence.y {
                    chain.fxy_chain.push(member);
                    self.current_chain = Some(chain);
                    Ok(None)
                } else {
                    self.current_chain = Some(Self::begin(raw, sequence, member));
                    Ok(Some(chain))
                }
            },
            None => {
                self.current_chain = Some(Self::begin(raw, sequence, member));
                Ok(None)
            },
        }
    }

    fn begin(raw: RawDTableEntry, sequence: FXY, member: FXY) -> (entry: DTableEntry)
        ensures
            begun_by(entry, raw, sequence, member),
    {
        let mut chain: Vec<FXY> = Vec::new();
        chain.push(member);
        DTableEntry {
            fxy: sequence,
            fxy_chain: chain,
            category: raw.category,
            category_of_sequences_en: raw.category_of_sequences_en,
            title_en: raw.title_en,
            subtitle_en: raw.subtitle_en,
            note_en: raw.note_en,
            note_ids: raw.note_ids,
            status: raw.status,
        }
    }

    /// Hands out the sequence that was being gathered when the file ended.
    pub fn finish(&mut self) -> (r: Result<Option<DTableEntry>, LoadError>)
        ensures
            r == Ok::<Option<DTableEntry>, LoadError>(old(self).current()),
            final(self).current() is None,
    {
        Ok(self.current_chain.take())
    }
}

} // verus!
