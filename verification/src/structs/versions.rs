//! Messages of the two supported editions.

pub mod v2;
pub mod v4;

use vstd::prelude::*;
use crate::errors::{Error, ParseReason};
use crate::fxy::FXY;
use crate::structs::tools::{be24, has_marker, read_u24, rest_after, start_marker, starts_with};

verus! {

/// What a decoder needs to know of a message to pick its tables.
#[derive(Clone, Copy, Debug, PartialEq, Eq, Structural)]
pub struct TableInfo {
    pub master_table_version: u8,
    pub local_table_version: u8,
    pub center_id: u16,
    pub subcenter_id: u16,
}

/// Section 0: the start marker, the length of the message and the edition.
#[derive(Clone, Copy, Debug, PartialEq, Eq, Structural)]
pub struct Section0 {
    pub total_length: u32,
    pub version: u8,
}

/// Whether the input begins with a whole section 0.
pub open spec fn section0_fits(s: Seq<u8>) -> bool {
    s.len() >= 8 && has_marker(s, start_marker())
}

/// The section 0 at the start of the input.
pub open spec fn section0_of(s: Seq<u8>) -> Section0 {
    Section0 { total_length: be24(s, 4) as u32, version: s[7] }
}

/// Why the input has no section 0, if it has none.
pub open spec fn section0_fault(s: Seq<u8>) -> Option<Error> {
    if !has_marker(s, start_marker()) {
        Some(Error::Parse(ParseReason::MissingStartMarker))
    } else if s.len() < 8 {
        Some(Error::Parse(ParseReason::SectionLength))
    } else {
        None
    }
}

/// Parses section 0 and returns it with the input that follows.
pub fn parse_section0(input: &[u8]) -> (r: Result<(&[u8], Section0), Error>)
    ensures
        match r {
            Ok((rest, section)) => section0_fault(input@) is None && section == section0_of(input@)
                && rest@ == input@.skip(8),
            Err(e) => section0_fault(input@) == Some(e),
        },
{
    if !starts_with(input, 66, 85, 70, 82) {
        return Err(Error::Parse(ParseReason::MissingStartMarker));
    }
    if input.len() < 8 {
        return Err(Error::Parse(ParseReason::SectionLength));
    }
    let total_length = read_u24(input, 4);
    let edition = input[7];
    Ok((rest_after(input, 8), Section0 { total_length, version: edition }))
}

/// What every edition of a message offers.
pub trait MessageVersion: Sized {
    /// The edition number.
    spec fn edition(&self) -> u8;

    /// The descriptor bytes of section 3.
    spec fn descriptor_bytes(&self) -> Seq<u8>;

    /// The payload of section 4.
    spec fn payload(&self) -> Seq<u8>;

    /// The table versions and centres of section 1.
    spec fn info(&self) -> TableInfo;

    /// The number of subsets of section 3.
    spec fn subsets(&self) -> u16;

    fn table_info(&self) -> (r: TableInfo)
        ensures
            r == self.info(),
    ;

    fn subcenter_id(&self) -> (r: u16)
        ensures
            r == self.info().subcenter_id,
    ;

    fn center_id(&self) -> (r: u16)
        ensures
            r == self.info().center_id,
    ;

    fn master_table_version(&self) -> (r: u8)
        ensures
            r == self.info().master_table_version,
    ;

    fn local_table_version(&self) -> (r: u8)
        ensures
            r == self.info().local_table_version,
    ;

    fn subsets_count(&self) -> (r: u16)
        ensures
            r == self.subsets(),
    ;

    /// The number of descriptors of section 3.
    fn ndescs(&self) -> (r: usize)
        ensures
            r == self.descriptor_bytes().len() / 2,
    ;

    /// The descriptors of section 3.
    fn descriptors(&self) -> (r: Result<Vec<FXY>, Error>)
        ensures
            r is Ok,
            r->Ok_0@ == crate::structs::tools::descriptors_of(self.descriptor_bytes()),
    ;

    /// The payload of section 4.
    fn data_block(&self) -> (r: Result<&[u8], Error>)
        ensures
            r is Ok,
            r->Ok_0@ == self.payload(),
    ;
}

/// A message of either edition.
#[derive(Clone, Debug)]
pub enum BUFRMessage {
    V2(v2::BUFRMessageV2),
    V4(v4::BUFRMessageV4),
}

/// What parsing a message gives: the error, if it has one.
pub open spec fn message_fault(s: Seq<u8>) -> Option<Error> {
    match section0_fault(s) {
        Some(e) => Some(e),
        None => if s[7] == 2 {
            v2::message_fault(s)
        } else if s[7] == 4 {
            v4::message_fault(s)
        } else {
            Some(Error::UnsupportedVersion(s[7]))
        },
    }
}

impl BUFRMessage {
    /// The edition of the message: 2 or 4.
    pub fn version(&self) -> (r: u8)
        ensures
            r == self.edition(),
    {
        match self {
            BUFRMessage::V2(_) => 2,
            BUFRMessage::V4(_) => 4,
        }
    }

    /// Parses a message: section 0 tells the edition, and the parser of
    /// that edition reads the sections.
    pub fn parse(input: &[u8]) -> (r: Result<Self, Error>)
        ensures
            match r {
                Ok(m) => {
                    &&& message_fault(input@) is None
                    &&& m.edition() == input@[7]
                    &&& match m {
                        BUFRMessage::V2(inner) => inner.holds(input@),
                        BUFRMessage::V4(inner) => inner.holds(input@),
                    }
                },
                Err(e) => message_fault(input@) == Some(e),
            },
    {
        let (_, section0) = match parse_section0(input) {
            Ok(p) => p,
            Err(e) => {
                return Err(e);
            },
        };
        if section0.version == 2 {
            match v2::BUFRMessageV2::parse(input) {
                Ok(m) => Ok(BUFRMessage::V2(m)),
                Err(e) => Err(e),
            }
        } else if section0.version == 4 {
            match v4::BUFRMessageV4::parse(input) {
                Ok(m) => Ok(BUFRMessage::V4(m)),
                Err(e) => Err(e),
            }
        } else {
            Err(Error::UnsupportedVersion(section0.version))
        }
    }
}

impl MessageVersion for BUFRMessage {
    open spec fn edition(&self) -> u8 {
        match self {
            BUFRMessage::V2(m) => m.edition(),
            BUFRMessage::V4(m) => m.edition(),
        }
    }

    open spec fn descriptor_bytes(&self) -> Seq<u8> {
        match self {
            BUFRMessage::V2(m) => m.descriptor_bytes(),
            BUFRMessage::V4(m) => m.descriptor_bytes(),
        }
    }

    open spec fn payload(&self) -> Seq<u8> {
        match self {
            BUFRMessage::V2(m) => m.payload(),
            BUFRMessage::V4(m) => m.payload(),
        }
    }

    open spec fn info(&self) -> TableInfo {
        match self {
            BUFRMessage::V2(m) => m.info(),
            BUFRMessage::V4(m) => m.info(),
        }
    }

    open spec fn subsets(&self) -> u16 {
        match self {
            BUFRMessage::V2(m) => m.subsets(),
            BUFRMessage::V4(m) => m.subsets(),
        }
    }

    fn table_info(&self) -> (r: TableInfo) {
        match self {
            BUFRMessage::V2(m) => m.table_info(),
            BUFRMessage::V4(m) => m.table_info(),
        }
    }

    fn subcenter_id(&self) -> (r: u16) {
        match self {
            BUFRMessage::V2(m) => m.subcenter_id(),
            BUFRMessage::V4(m) => m.subcenter_id(),
        }
    }

    fn center_id(&self) -> (r: u16) {
        match self {
            BUFRMessage::V2(m) => m.center_id(),
            BUFRMessage::V4(m) => m.center_id(),
        }
    }

    fn master_table_version(&self) -> (r: u8) {
        match self {
            BUFRMessage::V2(m) => m.master_table_version(),
            BUFRMessage::V4(m) => m.master_table_version(),
        }
    }

    fn local_table_version(&self) -> (r: u8) {
        match self {
            BUFRMessage::V2(m) => m.local_table_version(),
            BUFRMessage::V4(m) => m.local_table_version(),
        }
    }

    fn subsets_count(&self) -> (r: u16) {
        match self {
            BUFRMessage::V2(m) => m.subsets_count(),
            BUFRMessage::V4(m) => m.subsets_count(),
        }
    }

    fn ndescs(&self) -> (r: usize) {
        match self {
            BUFRMessage::V2(m) => m.ndescs(),
            BUFRMessage::V4(m) => m.ndescs(),
        }
    }

    fn descriptors(&self) -> (r: Result<Vec<FXY>, Error>) {
        match self {
            BUFRMessage::V2(m) => m.descriptors(),
            BUFRMessage::V4(m) => m.descriptors(),
        }
    }

    fn data_block(&self) -> (r: Result<&[u8], Error>) {
        match self {
            BUFRMessage::V2(m) => m.data_block(),
            BUFRMessage::V4(m) => m.data_block(),
        }
    }
}

} // verus!
