//! Edition 2 of the message layout.

use vstd::prelude::*;
use crate::errors::{Error, ParseReason};
use crate::fxy::FXY;
use crate::structs::tools::{after_section, be16, be24, body_fault, copy_range, end_marker, flag_set, has_marker, parse_descriptors, read_u16, section3_input, section4_input, section_fits, section_length, rest_after, starts_with};
use crate::structs::versions::{parse_section0, section0_fault, MessageVersion, TableInfo};
use crate::structs::versions::v4::{parse_section2, Section2};

verus! {

/// Section 1 of edition 2: the identification of the message.
#[derive(Clone, Copy, Debug)]
pub struct Section1 {
    pub length: usize,
    pub master_table: u8,  // octet 4
    pub subcentre: u8,  // octet 5
    pub centre: u8,  // octet 6
    pub update_sequence_number: u8,  // octet 7
    pub optional_section_present: bool,  // octet 8, bit 7
    pub data_category: u8,  // octet 9
    pub data_subcategory: u8,  // octet 10
    pub master_table_version: u8,  // octet 11
    pub local_table_version: u8,  // octet 12
    pub year: u8,  // octet 13, year of the century
    pub month: u8,  // octet 14
    pub day: u8,  // octet 15
    pub hour: u8,  // octet 16
    pub minute: u8,  // octet 17
}

impl Section1 {
    /// Whether this is the section 1 that begins the input.
    pub open spec fn describes(&self, s: Seq<u8>) -> bool {
        &&& self.length == be24(s, 0)
        &&& self.master_table == s[3]
        &&& self.subcentre == s[4]
        &&& self.centre == s[5]
        &&& self.update_sequence_number == s[6]
        &&& self.optional_section_present == flag_set(s[7], 0x80)
        &&& self.data_category == s[8]
        &&& self.data_subcategory == s[9]
        &&& self.master_table_version == s[10]
        &&& self.local_table_version == s[11]
        &&& self.year == s[12]
        &&& self.month == s[13]
        &&& self.day == s[14]
        &&& self.hour == s[15]
        &&& self.minute == s[16]
    }
}

/// Parses section 1 and returns it with the input that follows. The
/// octets for local use are passed over.
pub fn parse_section1(input: &[u8]) -> (r: Result<(&[u8], Section1), Error>)
    ensures
        match r {
            Ok((rest, section)) => section_fits(input@, 17) && section.describes(input@) && rest@
                == after_section(input@),
            Err(e) => e == Error::Parse(ParseReason::SectionLength) && !section_fits(input@, 17),
        },
{
    let length = match section_length(input, 17) {
        Ok(l) => l,
        Err(e) => {
            return Err(e);
        },
    };
    let flags = input[7];
    let section = Section1 {
        length,
        master_table: input[3],
        subcentre: input[4],
        centre: input[5],
        update_sequence_number: input[6],
        optional_section_present: (flags & 0x80) != 0,
        data_category: input[8],
        data_subcategory: input[9],
        master_table_version: input[10],
        local_table_version: input[11],
        year: input[12],
        month: input[13],
        day: input[14],
        hour: input[15],
        minute: input[16],
    };
    Ok((rest_after(input, length), section))
}

/// Section 3: the number of subsets, two flags and the descriptor bytes.
#[derive(Clone, Debug)]
pub struct Section3 {
    pub length: usize,
    pub number_of_subsets: u16,
    pub is_observation: bool,
    pub is_compressed: bool,
    pub data: Vec<u8>,
}

impl Section3 {
    /// Whether this is the section 3 that begins the input.
    pub open spec fn describes(&self, s: Seq<u8>) -> bool {
        &&& self.length == be24(s, 0)
        &&& self.number_of_subsets == be16(s, 4)
        &&& self.is_observation == flag_set(s[6], 0x80)
        &&& self.is_compressed == flag_set(s[6], 0x40)
        &&& self.data@ == s.subrange(7, be24(s, 0))
    }
}

/// Parses section 3 and returns it with the input that follows.
pub fn parse_section3(input: &[u8]) -> (r: Result<(&[u8], Section3), Error>)
    ensures
        match r {
            Ok((rest, section)) => section_fits(input@, 7) && section.describes(input@) && rest@
                == after_section(input@),
            Err(e) => e == Error::Parse(ParseReason::SectionLength) && !section_fits(input@, 7),
        },
{
    let length = match section_length(input, 7) {
        Ok(l) => l,
        Err(e) => {
            return Err(e);
        },
    };
    let number_of_subsets = read_u16(input, 4);
    let flags = input[6];
    let is_observation = (flags & 0x80) != 0;
    let is_compressed = (flags & 0x40) != 0;
    let data = copy_range(input, 7, length);
    Ok((rest_after(input, length), Section3 { length, number_of_subsets, is_observation, is_compressed, data }))
}

/// Section 4: the bit-packed payload.
#[derive(Clone, Debug)]
pub struct Section4 {
    pub length: usize,
    pub data: Vec<u8>,
}

impl Section4 {
    /// Whether this is the section 4 that begins the input.
    pub open spec fn describes(&self, s: Seq<u8>) -> bool {
        self.length == be24(s, 0) && self.data@ == s.subrange(4, be24(s, 0))
    }
}

/// Parses section 4 and returns it with the input that follows.
pub fn parse_section4(input: &[u8]) -> (r: Result<(&[u8], Section4), Error>)
    ensures
        match r {
            Ok((rest, section)) => section_fits(input@, 4) && section.describes(input@) && rest@
                == after_section(input@),
            Err(e) => e == Error::Parse(ParseReason::SectionLength) && !section_fits(input@, 4),
        },
{
    let length = match section_length(input, 4) {
        Ok(l) => l,
        Err(e) => {
            return Err(e);
        },
    };
    let data = copy_range(input, 4, length);
    Ok((rest_after(input, length), Section4 { length, data }))
}

/// Section 5: the end marker.
#[derive(Clone, Copy, Debug)]
pub struct Section5;

/// Parses section 5 and returns it with the input that follows.
pub fn parse_section5(input: &[u8]) -> (r: Result<(&[u8], Section5), Error>)
    ensures
        match r {
            Ok((rest, section)) => has_marker(input@, end_marker()) && rest@ == input@.skip(4),
            Err(e) => e == Error::Parse(ParseReason::MissingEndMarker) && !has_marker(
                input@,
                end_marker(),
            ),
        },
{
    if !starts_with(input, 55, 55, 55, 55) {
        return Err(Error::Parse(ParseReason::MissingEndMarker));
    }
    Ok((rest_after(input, 4), Section5))
}

/// A message of edition 2.
#[derive(Clone, Debug)]
pub struct BUFRMessageV2 {
    pub section1: Section1,
    pub section2: Option<Section2>,
    pub section3: Section3,
    pub section4: Section4,
}

/// Why the input is no message of edition 2, if it is none.
pub open spec fn message_fault(s: Seq<u8>) -> Option<Error> {
    match section0_fault(s) {
        Some(e) => Some(e),
        None => body_fault(s, 17, 7),
    }
}

impl BUFRMessageV2 {
    /// Whether the sections are those of the message in the input.
    pub open spec fn holds(&self, s: Seq<u8>) -> bool {
        &&& self.section1.describes(s.skip(8))
        &&& match self.section2 {
            Some(section2) => self.section1.optional_section_present && section2.describes(
                after_section(s.skip(8)),
            ),
            None => !self.section1.optional_section_present,
        }
        &&& self.section3.describes(section3_input(s, 7))
        &&& self.section4.describes(section4_input(s, 7))
    }

    /// Parses a message: the sections in their order, each within the
    /// bytes that are left, and the end marker behind them.
    pub fn parse(input: &[u8]) -> (r: Result<Self, Error>)
        ensures
            match r {
                Ok(m) => message_fault(input@) is None && m.holds(input@),
                Err(e) => message_fault(input@) == Some(e),
            },
    {
        let (input1, section0) = match parse_section0(input) {
            Ok(p) => p,
            Err(e) => {
                return Err(e);
            },
        };
        let (input2, section1) = match parse_section1(input1) {
            Ok(p) => p,
            Err(e) => {
                return Err(e);
            },
        };
        let (input3, section2) = if section1.optional_section_present {
            match parse_section2(input2) {
                Ok((rest, sec2)) => (rest, Some(sec2)),
                Err(e) => {
                    return Err(e);
                },
            }
        } else {
            (input2, None)
        };
        let (input4, section3) = match parse_section3(input3) {
            Ok(p) => p,
            Err(e) => {
                return Err(e);
            },
        };
        let (input5, section4) = match parse_section4(input4) {
            Ok(p) => p,
            Err(e) => {
                return Err(e);
            },
        };
        match parse_section5(input5) {
            Ok(_) => {},
            Err(e) => {
                return Err(e);
            },
        }
        Ok(BUFRMessageV2 { section1, section2, section3, section4 })
    }
}

impl MessageVersion for BUFRMessageV2 {
    open spec fn edition(&self) -> u8 {
        2
    }

    open spec fn descriptor_bytes(&self) -> Seq<u8> {
        self.section3.data@
    }

    open spec fn payload(&self) -> Seq<u8> {
        self.section4.data@
    }

    open spec fn info(&self) -> TableInfo {
        TableInfo {
            master_table_version: self.section1.master_table_version,
            local_table_version: self.section1.local_table_version,
            center_id: self.section1.centre as u16,
            subcenter_id: self.section1.subcentre as u16,
        }
    }

    open spec fn subsets(&self) -> u16 {
        self.section3.number_of_subsets
    }

    fn table_info(&self) -> (r: TableInfo) {
        TableInfo {
            master_table_version: self.section1.master_table_version,
            local_table_version: self.section1.local_table_version,
            center_id: self.section1.centre as u16,
            subcenter_id: self.section1.subcentre as u16,
        }
    }

    fn subcenter_id(&self) -> (r: u16) {
        self.table_info().subcenter_id
    }

    fn center_id(&self) -> (r: u16) {
        self.table_info().center_id
    }

    fn master_table_version(&self) -> (r: u8) {
        self.table_info().master_table_version
    }

    fn local_table_version(&self) -> (r: u8) {
        self.table_info().local_table_version
    }

    fn subsets_count(&self) -> (r: u16) {
        self.section3.number_of_subsets
    }

    fn ndescs(&self) -> (r: usize) {
        self.section3.data.len() / 2
    }

    fn descriptors(&self) -> (r: Result<Vec<FXY>, Error>) {
        parse_descriptors(self.section3.data.as_slice())
    }

    fn data_block(&self) -> (r: Result<&[u8], Error>) {
        Ok(self.section4.data.as_slice())
    }
}

} // verus!
