//! The framer: finds the messages in an input and cuts them out.

use vstd::prelude::*;
use vstd::slice::slice_subrange;
use crate::block::{BUFRFile, MessageBlock};
use crate::errors::{Error, ParseReason};
use crate::structs::tools::{be24, read_u24, start_marker};
use crate::structs::versions::{message_fault, BUFRMessage};

verus! {

/// Whether the start marker `BUFR` stands at offset `i`.
pub open spec fn marker_at(input: Seq<u8>, i: int) -> bool {
    0 <= i && i + 4 <= input.len() && input.subrange(i, i + 4) == start_marker()
}

/// Whether `offsets` lists, in ascending order, exactly the places where
/// the start marker stands in the input.
pub open spec fn lists_markers(input: Seq<u8>, offsets: Seq<u64>) -> bool {
    &&& forall|k: int| 0 <= k < offsets.len() ==> marker_at(input, #[trigger] offsets[k] as int)
    &&& forall|k: int, l: int| 0 <= k < l < offsets.len() ==> offsets[k] < offsets[l]
    &&& forall|i: int| #[trigger] marker_at(input, i) ==> offsets.contains(i as u64)
}

/// Whether an input begins with the magic number of gzip.
pub fn is_gzip(input: &[u8]) -> (r: bool)
    ensures
        r == (input@.len() >= 2 && input@[0] == 0x1F && input@[1] == 0x8B),
{
    input.len() >= 2 && input[0] == 0x1F && input[1] == 0x8B
}

/// A scanner for start markers in an input that comes in chunks. It keeps
/// the last three bytes of what it has seen, so that a marker that lies
/// across two chunks is found.
pub struct MarkerScanner {
    overlap: Vec<u8>,
    file_offset: u64,
    offsets: Vec<u64>,
    seen: Ghost<Seq<u8>>,
}

fn is_marker(buffer: &Vec<u8>, i: usize) -> (r: bool)
    requires
        i + 4 <= buffer@.len(),
    ensures
        r == marker_at(buffer@, i as int),
{
    let len = buffer.len();
    let ghost window = buffer@.subrange(i as int, i + 4);
    let ghost marker = start_marker();
    assert(window[0] == buffer@[i as int] && window[1] == buffer@[i + 1] && window[2] == buffer@[i
        + 2] && window[3] == buffer@[i + 3]);
    assert(marker[0] == 66 && marker[1] == 85 && marker[2] == 70 && marker[3] == 82);
    if buffer[i] == 66 && buffer[i + 1] == 85 && buffer[i + 2] == 70 && buffer[i + 3] == 82 {
        assert(window =~= marker);
        true
    } else {
        false
    }
}

impl MarkerScanner {
    /// The bytes fed so far.
    pub closed spec fn stream(&self) -> Seq<u8> {
        self.seen@
    }

    /// The markers found so far.
    pub closed spec fn found(&self) -> Seq<u64> {
        self.offsets@
    }

    /// The scanner is consistent: it has counted what it has seen, holds
    /// the last bytes of it, and has found the markers in it.
    pub closed spec fn wf(&self) -> bool {
        let n = self.seen@.len();
        &&& self.file_offset == n
        &&& self.overlap@.len() <= 3
        &&& self.overlap@.len() <= n
        &&& (n >= 3 ==> self.overlap@.len() == 3)
        &&& (n < 3 ==> self.overlap@.len() == n)
        &&& self.overlap@ == self.seen@.skip(n - self.overlap@.len())
        &&& lists_markers(self.seen@, self.offsets@)
    }

    pub fn new() -> (r: Self)
        ensures
            r.wf(),
            r.stream() == Seq::<u8>::empty(),
    {
        let r = MarkerScanner {
            overlap: Vec::new(),
            file_offset: 0,
            offsets: Vec::new(),
            seen: Ghost(Seq::empty()),
        };
        assert(r.overlap@ =~= r.seen@.skip(0));
        r
    }

    /// Takes the next chunk of the input.
    pub fn feed(&mut self, chunk: &[u8])
        requires
            old(self).wf(),
            old(self).stream().len() + chunk@.len() <= u64::MAX,
        ensures
            final(self).wf(),
            final(self).stream() == old(self).stream() + chunk@,
    {
        let ghost before = self.seen@;
        let ghost after = before + chunk@;
        let ghost found_before = self.offsets@;
        let overlap_len = self.overlap.len();
        let chunk_len = chunk.len();
        let mut search_buffer: Vec<u8> = Vec::new();
        let mut i: usize = 0;
        while i < overlap_len
            invariant
                i <= overlap_len,
                overlap_len == self.overlap@.len(),
                search_buffer@ == self.overlap@.take(i as int),
            decreases overlap_len - i,
        {
            search_buffer.push(self.overlap[i]);
            assert(search_buffer@ =~= self.overlap@.take(i + 1));
            i += 1;
        }
        assert(search_buffer@ =~= self.overlap@);
        let mut j: usize = 0;
        while j < chunk_len
            invariant
                j <= chunk_len,
                chunk_len == chunk@.len(),
                search_buffer@ == self.overlap@ + chunk@.take(j as int),
            decreases chunk_len - j,
        {
            search_buffer.push(chunk[j]);
            assert(search_buffer@ =~= self.overlap@ + chunk@.take(j + 1));
            j += 1;
        }
        let base: u64 = self.file_offset - overlap_len as u64;
        let total = search_buffer.len();
        proof {
            assert(chunk@.take(chunk_len as int) =~= chunk@);
            assert(search_buffer@ =~= after.skip(base as int));
            assert forall|p: int| marker_at(before, p) implies #[trigger] marker_at(after, p) by {
                assert(after.subrange(p, p + 4) =~= before.subrange(p, p + 4));
            }
            assert forall|p: int| p + 4 <= before.len() && marker_at(after, p) implies marker_at(
                before,
                p,
            ) by {
                assert(after.subrange(p, p + 4) =~= before.subrange(p, p + 4));
            }
        }
        proof {
            assert forall|p: int| p < base && #[trigger] marker_at(after, p) implies found_before.contains(
                p as u64,
            ) by {
                assert(p + 4 <= before.len());
                assert(marker_at(before, p));
            }
        }
        let mut k: usize = 0;
        while total >= 4 && k <= total - 4
            invariant
                k <= total,
                self.file_offset == before.len(),
                before.len() + chunk_len <= u64::MAX,
                chunk_len == chunk@.len(),
                after == before + chunk@,
                total == search_buffer@.len(),
                total == overlap_len + chunk_len,
                overlap_len <= 3,
                base + total == after.len(),
                base + overlap_len == before.len(),
                after.len() <= u64::MAX,
                search_buffer@ == after.skip(base as int),
                forall|p: int| marker_at(before, p) ==> #[trigger] marker_at(after, p),
                forall|p: int|
                    p + 4 <= before.len() && #[trigger] marker_at(after, p) ==> marker_at(before, p),
                lists_markers(before, found_before),
                forall|n: int|
                    0 <= n < self.offsets@.len() ==> marker_at(
                        after,
                        #[trigger] self.offsets@[n] as int,
                    ) && self.offsets@[n] < base + k,
                forall|n: int, l: int|
                    0 <= n < l < self.offsets@.len() ==> self.offsets@[n] < self.offsets@[l],
                forall|p: int|
                    p < base + k && #[trigger] marker_at(after, p) ==> self.offsets@.contains(
                        p as u64,
                    ),
                self.seen@ == before,
            decreases total - k,
        {
            let ghost listed = self.offsets@;
            if is_marker(&search_buffer, k) {
                proof {
                    assert(search_buffer@.subrange(k as int, k + 4) =~= after.subrange(
                        base + k,
                        base + k + 4,
                    ));
                }
                self.offsets.push(base + k as u64);
                proof {
                    assert forall|p: int|
                        p < base + k + 1 && #[trigger] marker_at(after, p) implies self.offsets@.contains(
                        p as u64,
                    ) by {
                        if p == base + k {
                            assert(self.offsets@[listed.len() as int] == p as u64);
                        } else {
                            assert(listed.contains(p as u64));
                            let n = choose|n: int| 0 <= n < listed.len() && listed[n] == p as u64;
                            assert(self.offsets@[n] == p as u64);
                        }
                    }
                }
            } else {
                proof {
                    assert(search_buffer@.subrange(k as int, k + 4) =~= after.subrange(
                        base + k,
                        base + k + 4,
                    ));
                }
            }
            k += 1;
        }
        // Carry over: the last three bytes of what was seen.
        let keep: usize = if total < 3 {
            total
        } else {
            3
        };
        let mut overlap: Vec<u8> = Vec::with_capacity(keep);
        let mut t: usize = total - keep;
        while t < total
            invariant
                keep <= total,
                total - keep <= t <= total,
                total == search_buffer@.len(),
                overlap@ == search_buffer@.subrange(total - keep, t as int),
            decreases total - t,
        {
            overlap.push(search_buffer[t]);
            assert(overlap@ =~= search_buffer@.subrange(total - keep, t + 1));
            t += 1;
        }
        self.overlap = overlap;
        self.file_offset = self.file_offset + chunk_len as u64;
        self.seen = Ghost(after);
        proof {
            assert(self.overlap@ =~= after.skip(after.len() - keep));
            assert forall|i: int| #[trigger] marker_at(after, i) implies self.offsets@.contains(
                i as u64,
            ) by {
                assert(i + 4 <= after.len());
            }
        }
    }

    /// The markers found in what was fed: the offsets, in ascending order,
    /// of every place where the marker stands.
    pub fn finish(self) -> (offsets: Vec<u64>)
        requires
            self.wf(),
        ensures
            lists_markers(self.stream(), offsets@),
    {
        self.offsets
    }
}

/// The offsets of all start markers in an input, in ascending order.
pub fn find_bufr_offsets(input: &[u8]) -> (offsets: Vec<u64>)
    ensures
        lists_markers(input@, offsets@),
{
    let mut scanner = MarkerScanner::new();
    let len = input.len();
    scanner.feed(input);
    assert(Seq::<u8>::empty() + input@ =~= input@);
    scanner.finish()
}

/// The message that begins at an offset: the bytes from the offset up to
/// the length that octets 5 to 7 declare. `None` where the input ends
/// before them.
pub open spec fn framed(input: Seq<u8>, offset: int) -> Option<Seq<u8>> {
    if offset < 0 || offset + 8 > input.len() {
        None
    } else if offset + be24(input, offset + 4) > input.len() {
        None
    } else {
        Some(input.subrange(offset, offset + be24(input, offset + 4)))
    }
}

/// Cuts the message that begins at an offset out of the input.
pub fn read_message_at_offset(input: &[u8], offset: u64) -> (r: Result<&[u8], Error>)
    ensures
        match r {
            Ok(message) => framed(input@, offset as int) == Some(message@),
            Err(e) => e == Error::Parse(ParseReason::Truncated) && framed(input@, offset as int)
                is None,
        },
{
    let len = input.len();
    if offset > len as u64 || len - (offset as usize) < 8 {
        return Err(Error::Parse(ParseReason::Truncated));
    }
    let at = offset as usize;
    let total_length = read_u24(input, at + 4) as usize;
    if total_length > len - at {
        return Err(Error::Parse(ParseReason::Truncated));
    }
    Ok(slice_subrange(input, at, at + total_length))
}

/// What reading a message at an offset gives: the error of the framer or
/// of the parser, if there is one.
pub open spec fn fault_at(input: Seq<u8>, offset: int) -> Option<Error> {
    match framed(input, offset) {
        None => Some(Error::Parse(ParseReason::Truncated)),
        Some(message) => message_fault(message),
    }
}

/// Whether a block is the message that begins at its offset in the input.
pub open spec fn cut_from(block: MessageBlock, input: Seq<u8>) -> bool {
    match framed(input, block.spec_offset() as int) {
        None => false,
        Some(bytes) => message_fault(bytes) is None && (match block.spec_message() {
            BUFRMessage::V2(m) => bytes[7] == 2 && m.holds(bytes),
            BUFRMessage::V4(m) => bytes[7] == 4 && m.holds(bytes),
        }),
    }
}

/// The offsets, among the first `upto`, at which a message can be read.
pub open spec fn readable(input: Seq<u8>, offsets: Seq<u64>, upto: int) -> Seq<u64>
    decreases upto,
{
    if upto <= 0 {
        Seq::empty()
    } else if fault_at(input, offsets[upto - 1] as int) is None {
        readable(input, offsets, upto - 1).push(offsets[upto - 1])
    } else {
        readable(input, offsets, upto - 1)
    }
}

/// The offsets, among the first `upto`, at which no message can be read.
pub open spec fn unreadable(input: Seq<u8>, offsets: Seq<u64>, upto: int) -> Seq<u64>
    decreases upto,
{
    if upto <= 0 {
        Seq::empty()
    } else if fault_at(input, offsets[upto - 1] as int) is Some {
        unreadable(input, offsets, upto - 1).push(offsets[upto - 1])
    } else {
        unreadable(input, offsets, upto - 1)
    }
}

/// Whether a file holds what reading the given offsets of an input gives:
/// the messages at the offsets where one can be read, in order, and the
/// other offsets with the error that reading there ends in.
pub open spec fn read_from(file: BUFRFile, input: Seq<u8>, offsets: Seq<u64>, upto: int) -> bool {
    let good = readable(input, offsets, upto);
    let bad = unreadable(input, offsets, upto);
    &&& file.spec_messages().len() == good.len()
    &&& forall|k: int|
        0 <= k < good.len() ==> (#[trigger] file.spec_messages()[k]).spec_offset() == good[k]
            && cut_from(file.spec_messages()[k], input)
    &&& file.spec_rejected().len() == bad.len()
    &&& forall|k: int|
        0 <= k < bad.len() ==> (#[trigger] file.spec_rejected()[k]).offset == bad[k] && fault_at(
            input,
            bad[k] as int,
        ) == Some(file.spec_rejected()[k].error)
}

/// Reads the messages at the given offsets. A message that cannot be read
/// is passed over and noted with its error.
pub fn parse_at_offsets(input: &[u8], offsets: &Vec<u64>) -> (file: BUFRFile)
    ensures
        read_from(file, input@, offsets@, offsets@.len() as int),
{
    let mut file_block = BUFRFile::new();
    let mut i: usize = 0;
    while i < offsets.len()
        invariant
            i <= offsets@.len(),
            read_from(file_block, input@, offsets@, i as int),
        decreases offsets@.len() - i,
    {
        let offset = offsets[i];
        let ghost messages = file_block.spec_messages();
        let ghost rejected = file_block.spec_rejected();
        let ghost good = readable(input@, offsets@, i as int);
        let ghost bad = unreadable(input@, offsets@, i as int);
        let outcome: Result<BUFRMessage, Error> = match read_message_at_offset(input, offset) {
            Ok(message_data) => BUFRMessage::parse(message_data),
            Err(e) => Err(e),
        };
        match outcome {
            Ok(message) => {
                let block = MessageBlock::at(message, offset);
                assert(cut_from(block, input@));
                file_block.push_block(block);
                proof {
                    assert forall|k: int| 0 <= k < good.len() + 1 implies (#[trigger] file_block.spec_messages()[k]).spec_offset()
                        == good.push(offset)[k] && cut_from(file_block.spec_messages()[k], input@) by {
                        if k < good.len() {
                            assert(file_block.spec_messages()[k] == messages[k]);
                        }
                    }
                }
            },
            Err(e) => {
                file_block.push_rejected(offset, e);
                proof {
                    assert forall|k: int| 0 <= k < bad.len() + 1 implies (#[trigger] file_block.spec_rejected()[k]).offset
                        == bad.push(offset)[k] && fault_at(input@, bad.push(offset)[k] as int)
                        == Some(file_block.spec_rejected()[k].error) by {
                        if k < bad.len() {
                            assert(file_block.spec_rejected()[k] == rejected[k]);
                        }
                    }
                }
            },
        }
        i += 1;
    }
    file_block
}

/// Finds and reads the messages of an input: every place where the start
/// marker stands is tried, in order.
pub fn parse_inner(input: &[u8]) -> (file: BUFRFile)
    ensures
        exists|offsets: Seq<u64>|
            lists_markers(input@, offsets) && #[trigger] read_from(
                file,
                input@,
                offsets,
                offsets.len() as int,
            ),
{
    let offsets = find_bufr_offsets(input);
    parse_at_offsets(input, &offsets)
}

} // verus!
