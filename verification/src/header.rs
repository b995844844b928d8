//! The stored form of the hash function of a catalog, as far as a catalog
//! has to look into it before it hands the bytes on: a header is accepted
//! only if its sizes are consistent and all its words are there.

use vstd::prelude::*;

verus! {

/// The byte that states the group size of the hash function: 16 bits.
pub const GROUP_BITS: u8 = 16;

/// The byte that states the seed size of the hash function: 4 bits.
pub const SEED_BITS: u8 = 4;

/// A number in variable-byte form, read from `at` on. Each byte gives
/// seven bits, low bits first, and its top bit says that another byte
/// follows; a ninth byte is taken whole. The result is the number and the
/// place behind it, or `None` where the bytes end first.
pub open spec fn vbyte(bytes: Seq<u8>, at: int, shift: u64, acc: u64) -> Option<(u64, int)>
    decreases 64 - shift,
{
    if at < 0 || at >= bytes.len() {
        None
    } else if shift >= 56 {
        Some((acc | ((bytes[at] as u64) << shift), at + 1))
    } else if bytes[at] < 128 {
        Some((acc | (((bytes[at] & 0x7F) as u64) << shift), at + 1))
    } else {
        vbyte(bytes, at + 1, (shift + 7) as u64, acc | (((bytes[at] & 0x7F) as u64) << shift))
    }
}

/// The sizes of `n` levels, read from `at` on, each in variable-byte form
/// and none of them zero: their sum added to `groups`, and the place behind
/// them.
pub open spec fn levels(bytes: Seq<u8>, at: int, n: nat, groups: nat) -> Option<(nat, int)>
    decreases n,
{
    if n == 0 {
        Some((groups, at))
    } else {
        match vbyte(bytes, at, 0, 0) {
            None => None,
            Some((size, next)) => if size == 0 {
                None
            } else {
                levels(bytes, next, (n - 1) as nat, groups + size as nat)
            },
        }
    }
}

/// Whether the words of a function of `groups` groups follow at `at`: the
/// bit array of 16 bits a group in whole 64-bit words, the byte of the
/// seed size, and the seeds of 4 bits a group in whole 64-bit words.
pub open spec fn words_follow(bytes: Seq<u8>, at: int, groups: nat) -> bool {
    let content = 8 * ((groups + 3) / 4);
    let seeds = 8 * ((groups + 15) / 16);
    &&& at + content + 1 + seeds <= bytes.len()
    &&& bytes[at + content] == SEED_BITS
}

/// Whether bytes are a consistent stored hash function: the byte of the
/// group size, the number of levels, the size of each level, none of them
/// zero, and behind them as many words of bits and seeds as the sizes ask
/// for.
pub open spec fn header_ok(bytes: Seq<u8>) -> bool {
    &&& bytes.len() >= 1
    &&& bytes[0] == GROUP_BITS
    &&& match vbyte(bytes, 1, 0, 0) {
        None => false,
        Some((n, at)) => n <= bytes.len() - at && (match levels(bytes, at, n as nat, 0) {
            None => false,
            Some((groups, behind)) => words_follow(bytes, behind, groups),
        }),
    }
}

/// Reads a number in variable-byte form.
pub fn read_vbyte(bytes: &[u8], at: usize) -> (r: Option<(u64, usize)>)
    ensures
        match vbyte(bytes@, at as int, 0, 0) {
            Some((v, next)) => r == Some((v, next as usize)) && at < next <= bytes@.len(),
            None => r is None,
        },
{
    let len = bytes.len();
    let mut result: u64 = 0;
    let mut shift: u64 = 0;
    let mut i: usize = at;
    while shift < 56
        invariant
            len == bytes@.len(),
            at <= i,
            shift <= 56,
            shift % 7 == 0,
            i - at <= shift,
            vbyte(bytes@, at as int, 0, 0) == vbyte(bytes@, i as int, shift, result),
        decreases 56 - shift,
    {
        if i >= len {
            return None;
        }
        let read = bytes[i];
        result = result | (((read & 0x7F) as u64) << shift);
        if read < 128 {
            return Some((result, i + 1));
        }
        shift += 7;
        i += 1;
    }
    if i >= len {
        return None;
    }
    let read = bytes[i];
    Some((result | ((read as u64) << shift), i + 1))
}

/// Whether bytes are a consistent stored hash function.
pub fn check_header(bytes: &[u8]) -> (r: bool)
    ensures
        r == header_ok(bytes@),
{
    let len = bytes.len();
    if len < 1 || bytes[0] != GROUP_BITS {
        return false;
    }
    let (count, start) = match read_vbyte(bytes, 1) {
        Some(p) => p,
        None => {
            return false;
        },
    };
    if count > (len - start) as u64 {
        return false;
    }
    let mut at: usize = start;
    let mut left: u64 = count;
    let mut groups: u128 = 0;
    while left > 0
        invariant
            len == bytes@.len(),
            at <= len,
            left <= count,
            count <= len,
            bytes@[0] == GROUP_BITS,
            vbyte(bytes@, 1, 0, 0) == Some((count, start as int)),
            count <= len - start,
            groups <= (count - left) * 0x1_0000_0000_0000_0000,
            levels(bytes@, start as int, count as nat, 0) == levels(
                bytes@,
                at as int,
                left as nat,
                groups as nat,
            ),
        decreases left,
    {
        let (size, next) = match read_vbyte(bytes, at) {
            Some(p) => p,
            None => {
                return false;
            },
        };
        if size == 0 {
            return false;
        }
        proof {
            assert((count - left + 1) * 0x1_0000_0000_0000_0000 == (count - left)
                * 0x1_0000_0000_0000_0000 + 0x1_0000_0000_0000_0000) by (nonlinear_arith);
            assert(count * 0x1_0000_0000_0000_0000 <= 0xFFFF_FFFF_FFFF_FFFF
                * 0x1_0000_0000_0000_0000) by (nonlinear_arith)
                requires
                    count <= 0xFFFF_FFFF_FFFF_FFFF,
            ;
            assert((count - left + 1) * 0x1_0000_0000_0000_0000 <= count
                * 0x1_0000_0000_0000_0000) by (nonlinear_arith)
                requires
                    left >= 1,
                    left <= count,
            ;
        }
        groups = groups + size as u128;
        at = next;
        left -= 1;
    }
    // The words of the bit array, the seed size, the words of the seeds.
    let room: u128 = (len - at) as u128;
    if groups > room {
        return false;
    }
    let content: u128 = 8 * ((groups + 3) / 4);
    let seeds: u128 = 8 * ((groups + 15) / 16);
    if content + 1 + seeds > room {
        return false;
    }
    bytes[at + content as usize] == SEED_BITS
}

} // verus!
