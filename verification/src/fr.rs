//! Loaders for the table source files of Météo-France: no header, fields
//! by position, and sequences that run over several lines.

use vstd::prelude::*;
use std::collections::HashSet;
use crate::fxy::FXY;
use crate::loader::{key_in, number_in, read_key, read_number, texts, LoadError};
use crate::numbers::{blank, clean, cleaned, is_blank};
use crate::tables::{BTableEntry, DTableEntry};

verus! {

/// A record of a Table B file by its key alone.
#[derive(Clone, Copy, Debug)]
pub struct RawBTableEntry {
    pub f: u16,
    pub x: u16,
    pub y: u16,
}

/// Makes Table B entries of the records of a Météo-France file: F, X, Y,
/// name, unit, scale, reference value and width, in this order.
#[derive(Clone, Copy, Debug)]
pub struct BTableLoader;

/// The text of a field, if the record has it.
pub open spec fn text_in(raw: Seq<Seq<char>>, i: int) -> Result<Seq<char>, LoadError> {
    if i >= raw.len() {
        Err(LoadError::MissingField(i as usize))
    } else {
        Ok(raw[i])
    }
}

/// Why a record of Table B is rejected, if it is: the first of its eight
/// fields, in order, that is missing or holds no number where one is due.
pub open spec fn b_record_fault(raw: Seq<Seq<char>>) -> Option<LoadError> {
    match key_in(raw, 0, true) {
        Err(e) => Some(e),
        Ok(_) => match text_in(raw, 3) {
            Err(e) => Some(e),
            Ok(_) => match text_in(raw, 4) {
                Err(e) => Some(e),
                Ok(_) => match number_in(raw, 5, true, i32::MIN as int, i32::MAX as int) {
                    Err(e) => Some(e),
                    Ok(_) => match number_in(raw, 6, true, i32::MIN as int, i32::MAX as int) {
                        Err(e) => Some(e),
                        Ok(_) => match number_in(raw, 7, true, 0, u32::MAX as int) {
                            Err(e) => Some(e),
                            Ok(_) => None,
                        },
                    },
                },
            },
        }
    }
}

fn read_text(raw: &Vec<String>, i: usize) -> (r: Result<String, LoadError>)
    ensures
        match text_in(texts(raw@), i as int) {
            Ok(t) => r is Ok && r->Ok_0@ == t,
            Err(e) => r is Err && r->Err_0 == e,
        },
{
    if i >= raw.len() {
        return Err(LoadError::MissingField(i));
    }
    Ok(raw[i].clone())
}

impl BTableLoader {
    /// The entry of a record. The name stands for class and element alike.
    pub fn process_entry(&mut self, raw: &Vec<String>) -> (r: Result<Option<BTableEntry>, LoadError>)
        ensures
            match b_record_fault(texts(raw@)) {
                Some(e) => r == Err::<Option<BTableEntry>, LoadError>(e),
                None => r is Ok && r->Ok_0 is Some && ({
                    let fields = texts(raw@);
                    let entry = r->Ok_0->0;
                    &&& Ok::<FXY, LoadError>(entry.fxy) == key_in(fields, 0, true)
                    &&& entry.class_name_en@ == fields[3]
                    &&& entry.element_name_en@ == fields[3]
                    &&& entry.bufr_unit@ == fields[4]
                    &&& Ok::<int, LoadError>(entry.bufr_scale as int) == number_in(
                        fields,
                        5,
                        true,
                        i32::MIN as int,
                        i32::MAX as int,
                    )
                    &&& Ok::<int, LoadError>(entry.bufr_reference_value as int) == number_in(
                        fields,
                        6,
                        true,
                        i32::MIN as int,
                        i32::MAX as int,
                    )
                    &&& Ok::<int, LoadError>(entry.bufr_datawidth_bits as int) == number_in(
                        fields,
                        7,
                        true,
                        0,
                        u32::MAX as int,
                    )
                    &&& entry.note_en is None
                    &&& entry.note_ids is None
                    &&& entry.status is None
                }),
            },
    {
        let fxy = match read_key(raw, 0, true) {
            Ok(k) => k,
            Err(e) => {
                return Err(e);
            },
        };
        let class_name_en = match read_text(raw, 3) {
            Ok(t) => t,
            Err(e) => {
                return Err(e);
            },
        };
        let bufr_unit = match read_text(raw, 4) {
            Ok(t) => t,
            Err(e) => {
                return Err(e);
            },
        };
        let bufr_scale = match read_number(raw, 5, true, -0x8000_0000, 0x7fff_ffff) {
            Ok(v) => v as i32,
            Err(e) => {
                return Err(e);
            },
        };
        let bufr_reference_value = match read_number(raw, 6, true, -0x8000_0000, 0x7fff_ffff) {
            Ok(v) => v as i32,
            Err(e) => {
                return Err(e);
            },
        };
        let bufr_datawidth_bits = match read_number(raw, 7, true, 0, 0xffff_ffff) {
            Ok(v) => v as u32,
            Err(e) => {
                return Err(e);
            },
        };
        let element_name_en = class_name_en.clone();
        Ok(
            Some(
                BTableEntry {
                    fxy,
                    class_name_en,
                    element_name_en,
                    bufr_unit,
                    bufr_scale,
                    bufr_reference_value,
                    bufr_datawidth_bits,
                    note_en: None,
                    note_ids: None,
                    status: None,
                },
            ),
        )
    }

    /// Nothing is left over at the end of a Table B file.
    pub fn finish(&mut self) -> (r: Result<Option<BTableEntry>, LoadError>)
        ensures
            r is Ok,
            r->Ok_0 is None,
    {
        Ok(None)
    }
}

/// Makes Table D entries of the records of a Météo-France file. A line
/// with a key in its first three fields begins a sequence; a line without
/// one adds a member to the sequence before it.
#[derive(Debug)]
pub struct FRDTableLoader {
    current_chain: Option<DTableEntry>,
    seen_keys: HashSet<u128>,
}

/// A key as one number, different for different keys: its three fields,
/// 32 bits each.
pub open spec fn key_code(k: FXY) -> u128 {
    ((k.f - i32::MIN) * 0x1_0000_0000_0000_0000 + (k.x - i32::MIN) * 0x1_0000_0000 + (k.y
        - i32::MIN)) as u128
}

fn code_of(k: &FXY) -> (r: u128)
    ensures
        r == key_code(*k),
{
    let f = (k.f as i64 - i32::MIN as i64) as u128;
    let x = (k.x as i64 - i32::MIN as i64) as u128;
    let y = (k.y as i64 - i32::MIN as i64) as u128;
    f * 0x1_0000_0000_0000_0000 + x * 0x1_0000_0000 + y
}

/// Different keys have different numbers.
pub proof fn lemma_key_code_tells_apart(a: FXY, b: FXY)
    requires
        key_code(a) == key_code(b),
    ensures
        a == b,
{
}

/// Whether every field of a record is white space.
pub open spec fn all_blank(raw: Seq<Seq<char>>) -> bool {
    forall|i: int| 0 <= i < raw.len() ==> blank(#[trigger] raw[i])
}

/// Whether a field holds a letter or a digit.
pub open spec fn filled(raw: Seq<Seq<char>>, i: int) -> bool {
    i < raw.len() && cleaned(raw[i], false).len() > 0
}

/// Whether a record begins a sequence: its first three fields are filled.
pub open spec fn begins_sequence(raw: Seq<Seq<char>>) -> bool {
    filled(raw, 0) && filled(raw, 1) && filled(raw, 2)
}

/// A sequence that begins with one member and has no descriptions.
pub open spec fn bare_sequence(entry: DTableEntry, sequence: FXY, member: FXY) -> bool {
    &&& entry.fxy == sequence
    &&& entry.fxy_chain@ == seq![member]
    &&& entry.category is None
    &&& entry.category_of_sequences_en is None
    &&& entry.title_en is None
    &&& entry.subtitle_en is None
    &&& entry.note_en is None
    &&& entry.note_ids is None
    &&& entry.status is None
}

fn is_filled(raw: &Vec<String>, i: usize) -> (r: bool)
    ensures
        r == filled(texts(raw@), i as int),
{
    if i >= raw.len() {
        return false;
    }
    clean(raw[i].as_str(), false).len() > 0
}

fn is_all_blank(raw: &Vec<String>) -> (r: bool)
    ensures
        r == all_blank(texts(raw@)),
{
    let mut i: usize = 0;
    while i < raw.len()
        invariant
            i <= raw@.len(),
            forall|k: int| 0 <= k < i ==> blank(#[trigger] texts(raw@)[k]),
        decreases raw@.len() - i,
    {
        if !is_blank(raw[i].as_str()) {
            assert(!blank(texts(raw@)[i as int]));
            return false;
        }
        i += 1;
    }
    true
}

impl FRDTableLoader {
    /// The sequence that is being gathered.
    pub closed spec fn current(&self) -> Option<DTableEntry> {
        self.current_chain
    }

    /// The keys of the sequences begun so far.
    pub closed spec fn seen(&self) -> Set<FXY> {
        Set::new(|k: FXY| self.seen_keys@.contains(key_code(k)))
    }

    pub fn new() -> (r: Self)
        ensures
            r.current() is None,
            r.seen() == Set::<FXY>::empty(),
    {
        let r = FRDTableLoader { current_chain: None, seen_keys: HashSet::new() };
        assert(r.seen() =~= Set::<FXY>::empty());
        r
    }

    fn has_seen(&self, key: &FXY) -> (r: bool)
        ensures
            r == self.seen().contains(*key),
    {
        broadcast use vstd::std_specs::hash::group_hash_axioms;

        let code = code_of(key);
        self.seen_keys.contains(&code)
    }

    /// Takes a record.
    ///
    /// A record of fewer than six fields, or of white space alone, is
    /// passed over. A record that begins a sequence whose key was seen
    /// before is passed over as well. Any other record that begins a
    /// sequence hands out the sequence gathered so far and begins the new
    /// one with the member in fields 3 to 5. A record that begins none adds
    /// the member in fields 3 to 5 to the sequence that is being gathered,
    /// and is rejected where there is none.
    pub fn process_entry(&mut self, raw: &Vec<String>) -> (r: Result<Option<DTableEntry>, LoadError>)
        ensures
            ({
                let fields = texts(raw@);
                if fields.len() < 6 || all_blank(fields) {
                    r is Ok && r->Ok_0 is None && final(self).current() == old(self).current()
                        && final(self).seen() == old(self).seen()
                } else if begins_sequence(fields) {
                    match key_in(fields, 0, false) {
                        Err(e) => r == Err::<Option<DTableEntry>, LoadError>(e) && final(self).current() == old(self).current() && final(self).seen() == old(self).seen(),
                        Ok(sequence) => if old(self).seen().contains(sequence) {
                            r is Ok && r->Ok_0 is None && final(self).current() == old(self).current() && final(self).seen() == old(self).seen()
                        } else {
                            match key_in(fields, 3, false) {
                                Err(e) => r == Err::<Option<DTableEntry>, LoadError>(e) && final(self).current() == old(self).current() && final(self).seen() == old(self).seen(),
                                Ok(member) => r == Ok::<Option<DTableEntry>, LoadError>(
                                    old(self).current(),
                                ) && final(self).current() is Some && bare_sequence(
                                    final(self).current()->0,
                                    sequence,
                                    member,
                                ) && final(self).seen() == old(self).seen().insert(sequence),
                            }
                        },
                    }
                } else {
                    final(self).seen() == old(self).seen() && (match old(self).current() {
                        None => r == Err::<Option<DTableEntry>, LoadError>(
                            LoadError::ContinuationWithoutHeader,
                        ) && final(self).current() is None,
                        Some(before) => match key_in(fields, 3, false) {
                            Err(e) => r == Err::<Option<DTableEntry>, LoadError>(e) && final(self).current() == old(self).current(),
                            Ok(member) => r is Ok && r->Ok_0 is None && final(self).current()
                                is Some && crate::wmo::grown_by(
                                final(self).current()->0,
                                before,
                                member,
                            ),
                        },
                    })
                }
            }),
    {
        // Skip empty lines
        if raw.len() < 6 {
            return Ok(None);
        }
        if is_all_blank(raw) {
            return Ok(None);
        }
        // A key in columns 0-2 begins a sequence; without one the line
        // continues the sequence before it.
        let is_new_sequence = is_filled(raw, 0) && is_filled(raw, 1) && is_filled(raw, 2);
        if is_new_sequence {
            let fxy = match read_key(raw, 0, false) {
                Ok(k) => k,
                Err(e) => {
                    return Err(e);
                },
            };
            // A key that was seen before: the line is passed over.
            if self.has_seen(&fxy) {
                return Ok(None);
            }
            // The first member of the chain (columns 3-5)
            let fxy1 = match read_key(raw, 3, false) {
                Ok(k) => k,
                Err(e) => {
                    return Err(e);
                },
            };
            // The chain gathered so far is finished.
            let finished = self.current_chain.take();
            let ghost seen_before = self.seen();
            self.seen_keys.insert(code_of(&fxy));
            proof {
                assert forall|k: FXY| self.seen().contains(k) <==> seen_before.insert(
                    fxy,
                ).contains(k) by {
                    if key_code(k) == key_code(fxy) {
                        lemma_key_code_tells_apart(k, fxy);
                    }
                }
                assert(self.seen() =~= seen_before.insert(fxy));
            }
            let mut chain: Vec<FXY> = Vec::new();
            chain.push(fxy1);
            self.current_chain = Some(
                DTableEntry {
                    fxy,
                    fxy_chain: chain,
                    category: None,
                    category_of_sequences_en: None,
                    title_en: None,
                    subtitle_en: None,
                    note_en: None,
                    note_ids: None,
                    status: None,
                },
            );
            Ok(finished)
        } else {
            // Continuation line: add to the current chain.
            match self.current_chain.take() {
                None => Err(LoadError::ContinuationWithoutHeader),
                Some(mut chain) => {
                    match read_key(raw, 3, false) {
                        Ok(fxy1) => {
                            chain.fxy_chain.push(fxy1);
                            self.current_chain = Some(chain);
                            Ok(None)
                        },
                        Err(e) => {
                            self.current_chain = Some(chain);
                            Err(e)
                        },
                    }
                },
            }
        }
    }

    /// Hands out the sequence that was being gathered when the file ended.
    pub fn finish(&mut self) -> (r: Result<Option<DTableEntry>, LoadError>)
        ensures
            r == Ok::<Option<DTableEntry>, LoadError>(old(self).current()),
            final(self).current() is None,
            final(self).seen() == old(self).seen(),
    {
        Ok(self.current_chain.take())
    }
}

} // verus!
