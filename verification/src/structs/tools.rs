//! Reading the fixed layouts of a message: big-endian numbers, sections
//! headed by their own length, markers, and the descriptor list.

use vstd::prelude::*;
use vstd::slice::slice_subrange;
use crate::errors::{Error, ParseReason};
use crate::fxy::FXY;

verus! {

/// The big-endian number in the two bytes at `at`.
pub open spec fn be16(s: Seq<u8>, at: int) -> int {
    s[at] * 256 + s[at + 1]
}

/// The big-endian number in the three bytes at `at`.
pub open spec fn be24(s: Seq<u8>, at: int) -> int {
    s[at] * 65536 + s[at + 1] * 256 + s[at + 2]
}

/// Whether the input begins with a section that declares its length in its
/// first three bytes, has at least `fixed` bytes and lies within the input.
pub open spec fn section_fits(s: Seq<u8>, fixed: int) -> bool {
    3 <= s.len() && fixed <= be24(s, 0) <= s.len()
}

/// Whether the input begins with the four bytes of a marker.
pub open spec fn has_marker(s: Seq<u8>, marker: Seq<u8>) -> bool {
    s.len() >= 4 && s.subrange(0, 4) == marker
}

/// The marker that opens a message: `BUFR`.
pub open spec fn start_marker() -> Seq<u8> {
    seq![66u8, 85u8, 70u8, 82u8]
}

/// The marker that closes a message: `7777`.
pub open spec fn end_marker() -> Seq<u8> {
    seq![55u8, 55u8, 55u8, 55u8]
}

/// The input behind the section that begins it.
pub open spec fn after_section(s: Seq<u8>) -> Seq<u8> {
    s.skip(be24(s, 0))
}

/// Whether a bit of a flags octet is set.
pub open spec fn flag_set(octet: u8, mask: u8) -> bool {
    octet & mask != 0
}

/// The input from section 3 on: behind section 1, and behind section 2
/// where bit 7 of the flags octet of section 1 announces one.
pub open spec fn section3_input(s: Seq<u8>, flag_at: int) -> Seq<u8> {
    let first = s.skip(8);
    let second = after_section(first);
    if flag_set(first[flag_at], 0x80) {
        after_section(second)
    } else {
        second
    }
}

/// The input from section 4 on.
pub open spec fn section4_input(s: Seq<u8>, flag_at: int) -> Seq<u8> {
    after_section(section3_input(s, flag_at))
}

/// The input from section 5 on.
pub open spec fn section5_input(s: Seq<u8>, flag_at: int) -> Seq<u8> {
    after_section(section4_input(s, flag_at))
}

/// Why the sections behind section 0 cannot be read, if they cannot: the
/// first section, in order, that declares less than its fixed part or more
/// than is left, or the missing end marker.
pub open spec fn body_fault(s: Seq<u8>, fixed1: int, flag_at: int) -> Option<Error> {
    let first = s.skip(8);
    if !section_fits(first, fixed1) {
        Some(Error::Parse(ParseReason::SectionLength))
    } else if flag_set(first[flag_at], 0x80) && !section_fits(after_section(first), 4) {
        Some(Error::Parse(ParseReason::SectionLength))
    } else if !section_fits(section3_input(s, flag_at), 7) {
        Some(Error::Parse(ParseReason::SectionLength))
    } else if !section_fits(section4_input(s, flag_at), 4) {
        Some(Error::Parse(ParseReason::SectionLength))
    } else if !has_marker(section5_input(s, flag_at), end_marker()) {
        Some(Error::Parse(ParseReason::MissingEndMarker))
    } else {
        None
    }
}

/// The descriptor in a 16-bit word: F in the top two bits, X in the next
/// six, Y in the low byte.
pub open spec fn descriptor_of(high: u8, low: u8) -> FXY {
    FXY { f: (high / 64) as i32, x: (high % 64) as i32, y: low as i32 }
}

/// The descriptors that a byte string holds, one per 16-bit word. An odd
/// last byte is left over.
pub open spec fn descriptors_of(s: Seq<u8>) -> Seq<FXY> {
    Seq::new(s.len() / 2, |i: int| descriptor_of(s[2 * i], s[2 * i + 1]))
}

pub fn read_u16(input: &[u8], at: usize) -> (r: u16)
    requires
        at + 2 <= input@.len(),
    ensures
        r == be16(input@, at as int),
{
    (input[at] as u16) * 256 + (input[at + 1] as u16)
}

pub fn read_u24(input: &[u8], at: usize) -> (r: u32)
    requires
        at + 3 <= input@.len(),
    ensures
        r == be24(input@, at as int),
{
    (input[at] as u32) * 65536 + (input[at + 1] as u32) * 256 + (input[at + 2] as u32)
}

/// Checks that a section of at least `fixed` bytes begins the input and
/// returns its declared length.
pub fn section_length(input: &[u8], fixed: usize) -> (r: Result<usize, Error>)
    requires
        3 <= fixed,
    ensures
        match r {
            Ok(length) => section_fits(input@, fixed as int) && length == be24(input@, 0),
            Err(e) => e == Error::Parse(ParseReason::SectionLength) && !section_fits(
                input@,
                fixed as int,
            ),
        },
{
    if input.len() < 3 {
        return Err(Error::Parse(ParseReason::SectionLength));
    }
    let length = read_u24(input, 0) as usize;
    if length < fixed || length > input.len() {
        return Err(Error::Parse(ParseReason::SectionLength));
    }
    Ok(length)
}

/// Whether the input begins with the four given bytes.
pub fn starts_with(input: &[u8], b0: u8, b1: u8, b2: u8, b3: u8) -> (r: bool)
    ensures
        r == has_marker(input@, seq![b0, b1, b2, b3]),
{
    if input.len() < 4 {
        return false;
    }
    let ghost head = input@.subrange(0, 4);
    let ghost marker = seq![b0, b1, b2, b3];
    if input[0] == b0 && input[1] == b1 && input[2] == b2 && input[3] == b3 {
        assert(head =~= marker);
        true
    } else {
        assert(head[0] == input@[0] && head[1] == input@[1] && head[2] == input@[2] && head[3]
            == input@[3]);
        assert(marker[0] == b0 && marker[1] == b1 && marker[2] == b2 && marker[3] == b3);
        false
    }
}

/// The input behind its first `n` bytes, of which it has that many.
pub(crate) fn rest_after(input: &[u8], n: usize) -> (r: &[u8])
    requires
        n <= input@.len(),
    ensures
        r@ == input@.skip(n as int),
{
    let rest = slice_subrange(input, n, input.len());
    assert(rest@ =~= input@.skip(n as int));
    rest
}

/// The input without its first `n` bytes; an error where it has fewer.
pub fn skip(input: &[u8], n: usize) -> (r: Result<&[u8], Error>)
    ensures
        match r {
            Ok(rest) => n <= input@.len() && rest@ == input@.skip(n as int),
            Err(e) => n > input@.len() && e == Error::Parse(ParseReason::SectionLength),
        },
{
    if n > input.len() {
        return Err(Error::Parse(ParseReason::SectionLength));
    }
    Ok(rest_after(input, n))
}

/// The input without its first byte.
pub fn skip1(input: &[u8]) -> (r: Result<&[u8], Error>)
    ensures
        match r {
            Ok(rest) => input@.len() >= 1 && rest@ == input@.skip(1),
            Err(e) => input@.len() < 1 && e == Error::Parse(ParseReason::SectionLength),
        },
{
    skip(input, 1)
}

/// The input without its first two bytes.
pub fn skip2(input: &[u8]) -> (r: Result<&[u8], Error>)
    ensures
        match r {
            Ok(rest) => input@.len() >= 2 && rest@ == input@.skip(2),
            Err(e) => input@.len() < 2 && e == Error::Parse(ParseReason::SectionLength),
        },
{
    skip(input, 2)
}

/// A copy of the bytes from `from` up to `to`.
pub fn copy_range(input: &[u8], from: usize, to: usize) -> (r: Vec<u8>)
    requires
        from <= to <= input@.len(),
    ensures
        r@ == input@.subrange(from as int, to as int),
{
    vstd::slice::slice_to_vec(slice_subrange(input, from, to))
}

/// Splits the descriptor bytes of section 3 into descriptors.
pub fn parse_descriptors(input: &[u8]) -> (r: Result<Vec<FXY>, Error>)
    ensures
        r is Ok,
        r->Ok_0@ == descriptors_of(input@),
{
    let mut results: Vec<FXY> = Vec::new();
    let len = input.len();
    let n = len / 2;
    let mut i: usize = 0;
    while i < n
        invariant
            i <= n,
            len == input@.len(),
            n == input@.len() / 2,
            results@.len() == i,
            forall|k: int|
                0 <= k < i ==> #[trigger] results@[k] == descriptor_of(
                    input@[2 * k],
                    input@[2 * k + 1],
                ),
        decreases n - i,
    {
        let high = input[2 * i];
        let low = input[2 * i + 1];
        results.push(FXY::new((high / 64) as i32, (high % 64) as i32, low as i32));
        i += 1;
    }
    assert(results@ =~= descriptors_of(input@));
    Ok(results)
}

} // verus!
