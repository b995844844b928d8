//! The failures a decode can end in.

use vstd::prelude::*;
use crate::fxy::FXY;

verus! {

/// Why a message or a descriptor program was rejected.
#[derive(Clone, Copy, Debug, PartialEq, Eq, Structural)]
pub enum ParseReason {
    /// The message does not begin with the four bytes `BUFR`.
    MissingStartMarker,
    /// The message does not close with the four bytes `7777`.
    MissingEndMarker,
    /// A section declares a length below its fixed part or beyond the
    /// bytes that are left.
    SectionLength,
    /// The framer found a start marker whose declared length runs past the
    /// end of the input.
    Truncated,
    /// An element descriptor is in neither the local nor the master Table B.
    UnknownElement(FXY),
    /// A sequence descriptor is in neither the local nor the master Table D.
    UnknownSequence(FXY),
    /// A descriptor whose F is not 0, 1, 2 or 3.
    InvalidF(i32),
    /// A replication asks for more descriptors than the program holds, or
    /// the walk ran out of its step budget.
    ProgramTruncated,
    /// A delayed replication is not followed by an element descriptor.
    CounterMissing,
    /// The counter of a delayed replication decoded to a string or to the
    /// missing value.
    CounterNotNumeric,
    /// An element asks for more than 64 bits.
    WidthTooLarge,
    /// A replication descriptor with a negative X or Y.
    BadReplication,
}

/// The error of every fallible operation of the decoder.
#[derive(Clone, Copy, Debug, PartialEq, Eq, Structural)]
pub enum Error {
    /// No catalog exists for the requested version or any lower one.
    TableNotFound,
    /// The input is not a well-formed message or program.
    Parse(ParseReason),
    /// The edition is neither 2 nor 4.
    UnsupportedVersion(u8),
    /// Fewer bits are left in the stream than were asked for.
    Underflow,
    /// The bytes of a character field are not valid UTF-8.
    InvalidUtf8,
}

} // verus!
