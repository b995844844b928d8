//! The bit-stream reader: a cursor over a byte slice that yields unsigned
//! fields of 0 to 64 bits, most significant bit first, and byte strings.

use vstd::prelude::*;
use vstd::arithmetic::power2::{pow2, lemma_pow2_unfold, lemma_pow2_pos, lemma2_to64, lemma2_to64_rest, lemma_pow2_adds, lemma_pow2_strictly_increases};
use vstd::arithmetic::div_mod::{lemma_fundamental_div_mod_converse, lemma_mod_breakdown, lemma_div_denominator, lemma_small_mod};
use vstd::utf8::{valid_utf8, decode_utf8};
use vstd::slice::{slice_subrange, slice_to_vec};
use crate::errors::{Error, ParseReason};

verus! {

/// Bit `i` of the stream, counted from the most significant bit of the first
/// byte: 0 or 1.
pub open spec fn bit_at(data: Seq<u8>, i: int) -> nat {
    ((data[i / 8] as nat) / pow2((7 - i % 8) as nat)) % 2
}

/// The unsigned number written by the `n` bits that start at bit `start`,
/// most significant first.
pub open spec fn field(data: Seq<u8>, start: int, n: nat) -> nat
    decreases n,
{
    if n == 0 {
        0
    } else {
        2 * field(data, start, (n - 1) as nat) + bit_at(data, start + n - 1)
    }
}

/// The `count` bytes read as 8-bit fields from bit `start` on.
pub open spec fn octets(data: Seq<u8>, start: int, count: nat) -> Seq<u8> {
    Seq::new(count, |i: int| field(data, start + 8 * i, 8) as u8)
}

/// The `count` fields of `n` bits each that follow one another from bit
/// `start` on.
pub open spec fn fields(data: Seq<u8>, start: int, n: nat, count: nat) -> Seq<u64> {
    Seq::new(count, |i: int| field(data, start + n * i, n) as u64)
}

pub proof fn lemma_field_bound(data: Seq<u8>, start: int, n: nat)
    ensures
        field(data, start, n) < pow2(n),
    decreases n,
{
    if n == 0 {
        lemma2_to64();
    } else {
        lemma_field_bound(data, start, (n - 1) as nat);
        lemma_pow2_unfold(n);
    }
}

/// A field of `n + m` bits is its first `n` bits shifted left by `m`, plus
/// its last `m` bits.
pub proof fn lemma_field_split(data: Seq<u8>, start: int, n: nat, m: nat)
    ensures
        field(data, start, n + m) == field(data, start, n) * pow2(m) + field(data, start + n, m),
    decreases m,
{
    if m == 0 {
        lemma2_to64();
    } else {
        let p = (m - 1) as nat;
        lemma_field_split(data, start, n, p);
        lemma_pow2_unfold(m);
        let a = field(data, start, n);
        let q = pow2(p);
        assert(2 * (a * q) == a * (2 * q)) by (nonlinear_arith);
        assert(field(data, start, n + m) == 2 * field(data, start, (n + m - 1) as nat) + bit_at(
            data,
            start + n + m - 1,
        ));
        assert(field(data, start + n, m) == 2 * field(data, start + n, p) + bit_at(
            data,
            start + n + m - 1,
        ));
    }
}

/// Inside one byte: the `m` bits from bit `o` of byte `j` are that byte
/// shifted right and cut to `m` bits.
pub proof fn lemma_field_in_byte(data: Seq<u8>, j: int, o: nat, m: nat)
    requires
        o + m <= 8,
        0 <= j < data.len(),
    ensures
        field(data, 8 * j + o, m) == ((data[j] as nat) / pow2((8 - o - m) as nat)) % pow2(m),
    decreases m,
{
    lemma2_to64();
    if m == 0 {
    } else {
        let p = (m - 1) as nat;
        lemma_field_in_byte(data, j, o, p);
        let b = data[j] as nat;
        let s = (8 - o - m) as nat;
        let i = 8 * j + o + m - 1;
        assert(i / 8 == j && i % 8 == o + m - 1);
        assert(bit_at(data, i) == (b / pow2(s)) % 2);
        lemma_pow2_unfold(s + 1);
        lemma_pow2_unfold(m);
        lemma_pow2_pos(s);
        lemma_pow2_pos(p);
        let y = b / pow2(s);
        lemma_div_denominator(b as int, pow2(s) as int, 2);
        assert(pow2(s) * 2 == pow2(s + 1)) by (nonlinear_arith)
            requires
                pow2(s + 1) == 2 * pow2(s),
        ;
        assert(b / pow2(s + 1) == y / 2);
        lemma_mod_breakdown(y as int, 2, pow2(p) as int);
        assert(2 * pow2(p) == pow2(m));
    }
}

/// A whole byte read as an 8-bit field is the byte.
pub proof fn lemma_field_byte(data: Seq<u8>, j: int)
    requires
        0 <= j < data.len(),
    ensures
        field(data, 8 * j, 8) == data[j],
{
    lemma2_to64();
    lemma_field_in_byte(data, j, 0, 8);
    let b = data[j] as nat;
    assert(pow2(0) == 1 && pow2(8) == 256);
    assert(b / 1 == b) by (nonlinear_arith);
    assert(b % 256 == b) by (nonlinear_arith)
        requires
            b < 256,
    ;
    assert(8 * j + 0 == 8 * j);
}

/// Reading one more whole byte: the field grows by eight bits.
pub proof fn lemma_field_push_byte(data: Seq<u8>, start: int, n: nat, j: int)
    requires
        start + n == 8 * j,
        0 <= j < data.len(),
    ensures
        field(data, start, n + 8) == field(data, start, n) * 256 + data[j],
{
    lemma2_to64();
    lemma_field_split(data, start, n, 8);
    lemma_field_byte(data, j);
}

/// The field of `n` bits that sits `o` bits into a field of `o + n + s` bits
/// is what shifting right by `s` and cutting to `n` bits leaves.
pub proof fn lemma_field_extract(data: Seq<u8>, base: int, o: nat, n: nat, s: nat)
    ensures
        (field(data, base, o + n + s) / pow2(s)) % pow2(n) == field(data, base + o, n),
{
    lemma_field_split(data, base, o + n, s);
    lemma_field_bound(data, base + o + n, s);
    lemma_pow2_pos(s);
    lemma_pow2_pos(n);
    let whole = field(data, base, o + n + s);
    let upper = field(data, base, o + n);
    assert(upper * pow2(s) == pow2(s) * upper) by (nonlinear_arith);
    lemma_fundamental_div_mod_converse(
        whole as int,
        pow2(s) as int,
        upper as int,
        field(data, base + o + n, s) as int,
    );
    lemma_field_split(data, base, o, n);
    lemma_field_bound(data, base + o, n);
    let head = field(data, base, o);
    assert(head * pow2(n) == pow2(n) * head) by (nonlinear_arith);
    lemma_fundamental_div_mod_converse(
        upper as int,
        pow2(n) as int,
        head as int,
        field(data, base + o, n) as int,
    );
}


/// A field of at most `8 * bytes` bits, `bytes` below eight, leaves the top
/// byte of a 64-bit word free.
pub proof fn lemma_field_leaves_top_byte(data: Seq<u8>, start: int, bytes: nat)
    requires
        bytes <= 7,
    ensures
        field(data, start, 8 * bytes) < 0x100_0000_0000_0000,
{
    lemma_field_bound(data, start, 8 * bytes);
    lemma2_to64_rest();
    if 8 * bytes < 56 {
        lemma_pow2_strictly_increases(8 * bytes, 56);
    }
}

/// The leading `r` bits of byte `j` are the byte shifted right by `8 - r`.
pub proof fn lemma_field_top_of_byte(data: Seq<u8>, j: int, r: nat)
    requires
        0 < r < 8,
        0 <= j < data.len(),
    ensures
        field(data, 8 * j, r) == (data[j] as nat) / pow2((8 - r) as nat),
{
    lemma_field_in_byte(data, j, 0, r);
    lemma_field_bound(data, 8 * j, r);
    let b = data[j] as nat;
    let s = (8 - r) as nat;
    lemma2_to64();
    lemma_pow2_adds(s, r);
    lemma_pow2_pos(s);
    lemma_pow2_pos(r);
    let top = b / pow2(s);
    assert(top < pow2(r)) by (nonlinear_arith)
        requires
            top == b / pow2(s),
            b < pow2(s) * pow2(r),
            pow2(s) > 0,
    ;
    lemma_small_mod(top, pow2(r));
    assert(8 * j + 0 == 8 * j);
}

/// A field that starts `o` bits into a 64-bit window and runs `k` bits past
/// it: the window without its first `o` bits, followed by the leading `k`
/// bits of the next byte.
pub proof fn lemma_field_across_window(data: Seq<u8>, j: int, o: nat, n: nat)
    requires
        0 < o < 8,
        n <= 64,
        o + n > 64,
        0 <= j,
        j + 8 < data.len(),
    ensures
        field(data, 8 * j + o, n) == (field(data, 8 * j, 64) % pow2((64 - o) as nat)) * pow2(
            (o + n - 64) as nat,
        ) + (data[j + 8] as nat) / pow2((72 - o - n) as nat),
        field(data, 8 * j, 64) % pow2((64 - o) as nat) < pow2((128 - o - n) as nat),
{
    let base = 8 * j;
    let kept = (64 - o) as nat;
    let k = (o + n - 64) as nat;
    lemma2_to64();
    lemma_field_extract(data, base, o, kept, 0);
    assert(o + kept + 0 == 64);
    let window = field(data, base, 64);
    assert(window / pow2(0) == window) by (nonlinear_arith)
        requires
            pow2(0) == 1,
    ;
    lemma_field_top_of_byte(data, j + 8, k);
    lemma_field_split(data, base + o, kept, k);
    lemma_field_bound(data, base + o, kept);
    assert(kept + k == n);
    assert(base + o + kept == 8 * (j + 8));
    if kept < 64 - k {
        lemma_pow2_strictly_increases(kept, (64 - k) as nat);
    }
}

/// What reading `n` bits at bit `pos` gives: the field, or the reason why
/// none can be read.
pub open spec fn read_bits(data: Seq<u8>, pos: nat, n: nat) -> Result<u64, Error> {
    if n > 64 {
        Err(Error::Parse(ParseReason::WidthTooLarge))
    } else if pos + n > 8 * data.len() {
        Err(Error::Underflow)
    } else {
        Ok(field(data, pos as int, n) as u64)
    }
}

/// Where the cursor stands after an attempt to read `n` bits: behind the
/// field after a success, unmoved after a failure.
pub open spec fn position_after(data: Seq<u8>, pos: nat, n: nat) -> nat {
    if read_bits(data, pos, n) is Ok {
        pos + n
    } else {
        pos
    }
}

/// Why a batch of `count` fields of `n` bits cannot be read at bit `pos`, if
/// it cannot.
pub open spec fn batch_error(data: Seq<u8>, pos: nat, n: nat, count: nat) -> Option<Error> {
    if count == 0 {
        None
    } else if n > 64 {
        Some(Error::Parse(ParseReason::WidthTooLarge))
    } else if pos + n * count > 8 * data.len() {
        Some(Error::Underflow)
    } else {
        None
    }
}

/// `String::from_utf8` of std: succeeds exactly on valid UTF-8, and the
/// string it returns holds the characters that the bytes encode.
#[verifier::external_body]
fn string_from_utf8(bytes: Vec<u8>) -> (r: Option<String>)
    ensures
        r is Some <==> valid_utf8(bytes@),
        r is Some ==> r->0@ == decode_utf8(bytes@),
{
    String::from_utf8(bytes).ok()
}

/// Appends one byte below an accumulator of at most 56 bits.
fn join_byte(acc: u64, b: u8) -> (r: u64)
    requires
        acc < 0x100_0000_0000_0000,
    ensures
        r == acc * 256 + b,
{
    let wide = b as u64;
    assert((acc << 8) | wide == acc * 256 + wide) by (bit_vector)
        requires
            acc < 0x100_0000_0000_0000,
            wide < 256,
    ;
    (acc << 8) | wide
}

/// Appends `width` low bits below an accumulator that leaves room for them.
fn join_bits(acc: u64, low: u64, width: usize) -> (r: u64)
    requires
        0 < width < 64,
        acc < pow2((64 - width) as nat),
        low < pow2(width as nat),
    ensures
        r == acc * pow2(width as nat) + low,
{
    let w = width as u64;
    proof {
        lemma_pow2_adds((64 - width) as nat, width as nat);
        lemma2_to64();
        lemma_pow2_pos(width as nat);
        assert(acc * pow2(width as nat) < pow2(64)) by (nonlinear_arith)
            requires
                acc < pow2((64 - width) as nat),
                pow2((64 - width) as nat) * pow2(width as nat) == pow2(64),
                pow2(width as nat) > 0,
        ;
        vstd::bits::lemma_u64_pow2_no_overflow(width as nat);
        vstd::bits::lemma_u64_shl_is_mul(acc, w);
        vstd::bits::lemma_u64_shl_is_mul(1, w);
        assert(low < (1u64 << w));
        assert((acc << w) | low == (acc << w) + low) by (bit_vector)
            requires
                0 < w < 64,
                low < (1u64 << w),
        ;
    }
    (acc << w) | low
}

/// Keeps the low `n` bits of a word.
fn low_bits(x: u64, n: usize) -> (r: u64)
    requires
        n <= 64,
    ensures
        r == (x as nat) % pow2(n as nat),
{
    if n >= 64 {
        proof {
            lemma2_to64();
            lemma_small_mod(x as nat, pow2(64));
        }
        x
    } else {
        proof {
            vstd::bits::lemma_u64_pow2_no_overflow(n as nat);
            vstd::bits::lemma_u64_shl_is_mul(1, n as u64);
            vstd::bits::lemma_u64_low_bits_mask_is_mod(x, n as nat);
        }
        let mask = (1u64 << (n as u64)) - 1;
        x & mask
    }
}

/// Drops the low `s` bits of a word.
fn shift_down(x: u64, s: usize) -> (r: u64)
    requires
        s < 64,
    ensures
        r == (x as nat) / pow2(s as nat),
{
    proof {
        vstd::bits::lemma_u64_shr_is_div(x, s as u64);
    }
    x >> (s as u64)
}

/// The leading `r` bits of a byte.
fn byte_top(b: u8, r: usize) -> (v: u64)
    requires
        0 < r < 8,
    ensures
        v == (b as nat) / pow2((8 - r) as nat),
        v < pow2(r as nat),
{
    let shift = (8 - r) as u8;
    let mask = 0xFFu8 >> shift;
    proof {
        lemma2_to64();
        lemma_pow2_adds(shift as nat, r as nat);
        lemma_pow2_pos(shift as nat);
        assert((b as nat) / pow2(shift as nat) < pow2(r as nat)) by (nonlinear_arith)
            requires
                (b as nat) < pow2(shift as nat) * pow2(r as nat),
                pow2(shift as nat) > 0,
        ;
        assert((b >> shift) & mask == b >> shift) by (bit_vector)
            requires
                0 < shift < 8,
                mask == 0xFFu8 >> shift,
        ;
        vstd::bits::lemma_u8_shr_is_div(b, shift);
    }
    ((b >> shift) & mask) as u64
}

/// Reads `k` whole bytes from byte `at` on as one big-endian number.
fn read_be(data: &[u8], at: usize, k: usize) -> (value: u64)
    requires
        k <= 8,
        at + k <= data@.len(),
    ensures
        value == field(data@, 8 * at, (8 * k) as nat),
{
    let len = data.len();
    let mut value: u64 = 0;
    let mut j: usize = 0;
    while j < k
        invariant
            len == data@.len(),
            j <= k <= 8,
            at + k <= data@.len() <= usize::MAX,
            value == field(data@, 8 * at, (8 * j) as nat),
        decreases k - j,
    {
        proof {
            lemma_field_leaves_top_byte(data@, 8 * at, j as nat);
            lemma_field_push_byte(data@, 8 * at, (8 * j) as nat, at + j);
        }
        value = join_byte(value, data[at + j]);
        j += 1;
    }
    value
}

/// A cursor over a byte slice. It reads big-endian unsigned fields of up to
/// 64 bits that need not start or end on a byte boundary.
#[derive(Clone, Copy, Debug)]
pub struct BitInput<'a> {
    data: &'a [u8],
    byte: usize,
    offset: usize,
}

impl<'a> BitInput<'a> {
    #[verifier::type_invariant]
    spec fn inv(self) -> bool {
        &&& self.offset < 8
        &&& self.byte <= self.data@.len()
        &&& self.offset > 0 ==> self.byte < self.data@.len()
    }

    /// The bytes the cursor runs over.
    pub closed spec fn data(self) -> Seq<u8> {
        self.data@
    }

    /// The number of bits already consumed.
    pub closed spec fn position(self) -> nat {
        (8 * self.byte + self.offset) as nat
    }

    /// A cursor at the first bit of `input`.
    pub fn new(input: &'a [u8]) -> (r: BitInput<'a>)
        ensures
            r.data() == input@,
            r.position() == 0,
    {
        BitInput { data: input, byte: 0, offset: 0 }
    }

    /// The bit offset of the cursor inside its current byte.
    pub fn pointer(&self) -> (r: usize)
        ensures
            r == self.position() % 8,
            self.position() <= 8 * self.data().len(),
    {
        proof {
            use_type_invariant(self);
        }
        self.offset
    }

    /// Reads the next `nbits` bits as an unsigned number, most significant
    /// bit first, and moves behind them. A failure leaves the cursor where
    /// it was.
    pub fn get_arbitary_bits(&mut self, nbits: usize) -> (r: Result<u64, Error>)
        ensures
            final(self).data() == old(self).data(),
            r == read_bits(old(self).data(), old(self).position(), nbits as nat),
            final(self).position() == position_after(
                old(self).data(),
                old(self).position(),
                nbits as nat,
            ),
            final(self).position() <= 8 * final(self).data().len(),
    {
        proof {
            use_type_invariant(&*self);
        }
        if nbits == 0 {
            return Ok(0);
        }
        if self.offset == 0 {
            return self.get_arbitary_bits_aligned(nbits);
        }
        self.get_arbitary_bits_unaligned(nbits)
    }

    /// Reads `nbytes` bytes from the cursor on and decodes them as UTF-8. The
    /// bytes need not be aligned. A failure leaves the cursor where it was.
    pub fn take_string(&mut self, nbytes: usize) -> (r: Result<String, Error>)
        ensures
            final(self).data() == old(self).data(),
            final(self).position() <= 8 * final(self).data().len(),
            match r {
                Ok(s) => {
                    &&& old(self).position() + 8 * nbytes <= 8 * old(self).data().len()
                    &&& valid_utf8(
                        octets(old(self).data(), old(self).position() as int, nbytes as nat),
                    )
                    &&& s@ == decode_utf8(
                        octets(old(self).data(), old(self).position() as int, nbytes as nat),
                    )
                    &&& final(self).position() == old(self).position() + 8 * nbytes
                },
                Err(e) => {
                    &&& final(self).position() == old(self).position()
                    &&& if old(self).position() + 8 * nbytes > 8 * old(self).data().len() {
                        e == Error::Underflow
                    } else {
                        e == Error::InvalidUtf8 && !valid_utf8(
                            octets(old(self).data(), old(self).position() as int, nbytes as nat),
                        )
                    }
                },
            },
    {
        proof {
            use_type_invariant(&*self);
        }
        let data = self.data;
        let at = self.byte;
        let left = data.len() - at;
        let ghost pos = self.position() as int;
        if self.offset == 0 {
            // Byte-aligned: the string is a sub-slice of the input.
            if left < nbytes {
                return Err(Error::Underflow);
            }
            let bytes = slice_to_vec(slice_subrange(data, at, at + nbytes));
            proof {
                assert forall|i: int| 0 <= i < nbytes implies bytes@[i] == octets(
                    data@,
                    pos,
                    nbytes as nat,
                )[i] by {
                    lemma_field_byte(data@, at + i);
                }
                assert(bytes@ =~= octets(data@, pos, nbytes as nat));
            }
            return match string_from_utf8(bytes) {
                Some(s) => {
                    *self = BitInput { data, byte: at + nbytes, offset: 0 };
                    Ok(s)
                },
                None => Err(Error::InvalidUtf8),
            };
        }
        if left - 1 < nbytes {
            return Err(Error::Underflow);
        }
        let saved = *self;
        let mut bytes: Vec<u8> = Vec::with_capacity(nbytes);
        let mut i: usize = 0;
        while i < nbytes
            invariant
                i <= nbytes,
                self.data() == data@,
                self.position() == pos + 8 * i,
                pos + 8 * nbytes <= 8 * data@.len(),
                saved.data() == data@,
                saved.position() == pos,
                bytes@ == octets(data@, pos, i as nat),
            decreases nbytes - i,
        {
            match self.get_arbitary_bits(8) {
                Ok(v) => {
                    proof {
                        lemma_field_bound(data@, pos + 8 * i, 8);
                        lemma2_to64();
                    }
                    bytes.push(v as u8);
                    proof {
                        assert(bytes@ =~= octets(data@, pos, (i + 1) as nat));
                    }
                },
                Err(e) => {
                    *self = saved;
                    return Err(e);
                },
            }
            i += 1;
        }
        match string_from_utf8(bytes) {
            Some(s) => Ok(s),
            None => {
                *self = saved;
                Err(Error::InvalidUtf8)
            },
        }
    }

    /// Reads `count` fields of `nbits` bits each. Whole-byte widths at a
    /// byte boundary are read bytewise; anything else is read field by
    /// field. A failure leaves the cursor where it was.
    pub fn get_batch_same_width(&mut self, nbits: usize, count: usize) -> (r: Result<
        Vec<u64>,
        Error,
    >)
        ensures
            final(self).data() == old(self).data(),
            final(self).position() <= 8 * final(self).data().len(),
            match r {
                Ok(v) => {
                    &&& batch_error(
                        old(self).data(),
                        old(self).position(),
                        nbits as nat,
                        count as nat,
                    ) is None
                    &&& v@ == fields(
                        old(self).data(),
                        old(self).position() as int,
                        nbits as nat,
                        count as nat,
                    )
                    &&& final(self).position() == old(self).position() + nbits * count
                },
                Err(e) => {
                    &&& batch_error(
                        old(self).data(),
                        old(self).position(),
                        nbits as nat,
                        count as nat,
                    ) == Some(e)
                    &&& final(self).position() == old(self).position()
                },
            },
    {
        proof {
            use_type_invariant(&*self);
        }
        let data = self.data;
        let at = self.byte;
        let left = data.len() - at;
        let ghost pos = self.position() as int;
        let ghost n = nbits as nat;
        if count == 0 {
            let empty: Vec<u64> = Vec::new();
            proof {
                assert(empty@ =~= fields(data@, pos, n, 0));
            }
            return Ok(empty);
        }
        if nbits > 64 {
            return Err(Error::Parse(ParseReason::WidthTooLarge));
        }
        let available: u128 = (left as u128) * 8 - (self.offset as u128);
        proof {
            assert(nbits * count <= 64 * count) by (nonlinear_arith)
                requires
                    nbits <= 64,
            ;
        }
        let needed: u128 = (nbits as u128) * (count as u128);
        if needed > available {
            return Err(Error::Underflow);
        }
        let mut result: Vec<u64> = Vec::with_capacity(count);

        // Fast path: byte-aligned fields of whole bytes.
        if self.offset == 0 && nbits % 8 == 0 {
            let bytes_per_item = nbits / 8;
            proof {
                assert(bytes_per_item * count <= left) by (nonlinear_arith)
                    requires
                        nbits * count <= left * 8,
                        nbits == 8 * bytes_per_item,
                ;
            }
            let total_bytes = bytes_per_item * count;
            let mut i: usize = 0;
            match nbits {
                8 => {
                    while i < count
                        invariant
                            i <= count,
                            nbits == 8,
                            n == nbits,
                            pos == 8 * at,
                            at + count <= data@.len() <= usize::MAX,
                            result@ == fields(data@, pos, n, i as nat),
                        decreases count - i,
                    {
                        proof {
                            lemma_field_byte(data@, at + i);
                        }
                        result.push(data[at + i] as u64);
                        proof {
                            assert(result@ =~= fields(data@, pos, n, (i + 1) as nat));
                        }
                        i += 1;
                    }
                },
                16 => {
                    while i < count
                        invariant
                            i <= count,
                            nbits == 16,
                            n == nbits,
                            pos == 8 * at,
                            at + 2 * count <= data@.len() <= usize::MAX,
                            result@ == fields(data@, pos, n, i as nat),
                        decreases count - i,
                    {
                        let offset = at + i * 2;
                        proof {
                            lemma_field_byte(data@, offset as int);
                            lemma_field_push_byte(data@, 8 * offset, 8, offset + 1);
                        }
                        let value = join_byte(data[offset] as u64, data[offset + 1]);
                        result.push(value);
                        proof {
                            assert(result@ =~= fields(data@, pos, n, (i + 1) as nat));
                        }
                        i += 1;
                    }
                },
                24 => {
                    while i < count
                        invariant
                            i <= count,
                            nbits == 24,
                            n == nbits,
                            pos == 8 * at,
                            at + 3 * count <= data@.len() <= usize::MAX,
                            result@ == fields(data@, pos, n, i as nat),
                        decreases count - i,
                    {
                        let offset = at + i * 3;
                        proof {
                            lemma_field_byte(data@, offset as int);
                            lemma_field_push_byte(data@, 8 * offset, 8, offset + 1);
                            lemma_field_push_byte(data@, 8 * offset, 16, offset + 2);
                        }
                        let value = join_byte(
                            join_byte(data[offset] as u64, data[offset + 1]),
                            data[offset + 2],
                        );
                        result.push(value);
                        proof {
                            assert(result@ =~= fields(data@, pos, n, (i + 1) as nat));
                        }
                        i += 1;
                    }
                },
                32 => {
                    while i < count
                        invariant
                            i <= count,
                            nbits == 32,
                            n == nbits,
                            pos == 8 * at,
                            at + 4 * count <= data@.len() <= usize::MAX,
                            result@ == fields(data@, pos, n, i as nat),
                        decreases count - i,
                    {
                        let offset = at + i * 4;
                        proof {
                            lemma_field_byte(data@, offset as int);
                            lemma_field_push_byte(data@, 8 * offset, 8, offset + 1);
                            lemma_field_push_byte(data@, 8 * offset, 16, offset + 2);
                            lemma_field_push_byte(data@, 8 * offset, 24, offset + 3);
                        }
                        let value = join_byte(
                            join_byte(
                                join_byte(data[offset] as u64, data[offset + 1]),
                                data[offset + 2],
                            ),
                            data[offset + 3],
                        );
                        result.push(value);
                        proof {
                            assert(result@ =~= fields(data@, pos, n, (i + 1) as nat));
                        }
                        i += 1;
                    }
                },
                _ => {
                    // Any other number of whole bytes.
                    while i < count
                        invariant
                            i <= count,
                            nbits == 8 * bytes_per_item,
                            n == nbits,
                            bytes_per_item <= 8,
                            pos == 8 * at,
                            at + bytes_per_item * count <= data@.len() <= usize::MAX,
                            result@ == fields(data@, pos, n, i as nat),
                        decreases count - i,
                    {
                        proof {
                            assert(bytes_per_item * i + bytes_per_item <= bytes_per_item * count)
                                by (nonlinear_arith)
                                requires
                                    i < count,
                            ;
                            assert(i * bytes_per_item == bytes_per_item * i) by (nonlinear_arith);
                            assert(8 * (at + i * bytes_per_item) == pos + n * i)
                                by (nonlinear_arith)
                                requires
                                    pos == 8 * at,
                                    n == 8 * bytes_per_item,
                            ;
                        }
                        let offset = at + i * bytes_per_item;
                        let value = read_be(data, offset, bytes_per_item);
                        result.push(value);
                        proof {
                            assert(result@ =~= fields(data@, pos, n, (i + 1) as nat));
                        }
                        i += 1;
                    }
                },
            }
            proof {
                assert(8 * (bytes_per_item * count) == nbits * count) by (nonlinear_arith)
                    requires
                        nbits == 8 * bytes_per_item,
                ;
            }
            *self = BitInput { data, byte: at + total_bytes, offset: 0 };
            return Ok(result);
        }
        // Unaligned, or not whole bytes: read the fields one by one.

        let saved = *self;
        let mut i: usize = 0;
        while i < count
            invariant
                i <= count,
                nbits <= 64,
                n == nbits,
                self.data() == data@,
                self.position() == pos + n * i,
                pos + n * count <= 8 * data@.len(),
                saved.data() == data@,
                saved.position() == pos,
                result@ == fields(data@, pos, n, i as nat),
            decreases count - i,
        {
            proof {
                assert(n * i + n <= n * count) by (nonlinear_arith)
                    requires
                        i < count,
                ;
            }
            match self.get_arbitary_bits(nbits) {
                Ok(v) => {
                    result.push(v);
                    proof {
                        assert(result@ =~= fields(data@, pos, n, (i + 1) as nat));
                        assert(n * (i + 1) == n * i + n) by (nonlinear_arith);
                    }
                },
                Err(e) => {
                    *self = saved;
                    return Err(e);
                },
            }
            i += 1;
        }
        Ok(result)
    }

    /// Reads from a byte boundary. Widths of one to four whole bytes are
    /// read directly; any other width takes the whole bytes first and then
    /// the leading bits of the byte that follows.
    fn get_arbitary_bits_aligned(&mut self, nbits: usize) -> (r: Result<u64, Error>)
        requires
            old(self).position() % 8 == 0,
        ensures
            final(self).data() == old(self).data(),
            r == read_bits(old(self).data(), old(self).position(), nbits as nat),
            final(self).position() == position_after(
                old(self).data(),
                old(self).position(),
                nbits as nat,
            ),
            final(self).position() <= 8 * final(self).data().len(),
    {
        proof {
            use_type_invariant(&*self);
        }
        let data = self.data;
        let at = self.byte;
        let left = data.len() - at;
        let ghost pos = 8 * at as int;
        match nbits {
            8 => {
                if left < 1 {
                    return Err(Error::Underflow);
                }
                let value = data[at] as u64;
                proof {
                    lemma_field_byte(data@, at as int);
                }
                *self = BitInput { data, byte: at + 1, offset: 0 };
                Ok(value)
            },
            16 => {
                if left < 2 {
                    return Err(Error::Underflow);
                }
                let value = join_byte(data[at] as u64, data[at + 1]);
                proof {
                    lemma_field_byte(data@, at as int);
                    lemma_field_push_byte(data@, pos, 8, at + 1);
                }
                *self = BitInput { data, byte: at + 2, offset: 0 };
                Ok(value)
            },
            24 => {
                if left < 3 {
                    return Err(Error::Underflow);
                }
                let value = join_byte(join_byte(data[at] as u64, data[at + 1]), data[at + 2]);
                proof {
                    lemma_field_byte(data@, at as int);
                    lemma_field_push_byte(data@, pos, 8, at + 1);
                    lemma_field_push_byte(data@, pos, 16, at + 2);
                }
                *self = BitInput { data, byte: at + 3, offset: 0 };
                Ok(value)
            },
            32 => {
                if left < 4 {
                    return Err(Error::Underflow);
                }
                let value = join_byte(
                    join_byte(join_byte(data[at] as u64, data[at + 1]), data[at + 2]),
                    data[at + 3],
                );
                proof {
                    lemma_field_byte(data@, at as int);
                    lemma_field_push_byte(data@, pos, 8, at + 1);
                    lemma_field_push_byte(data@, pos, 16, at + 2);
                    lemma_field_push_byte(data@, pos, 24, at + 3);
                }
                *self = BitInput { data, byte: at + 4, offset: 0 };
                Ok(value)
            },
            _ => {
                if nbits > 64 {
                    return Err(Error::Parse(ParseReason::WidthTooLarge));
                }
                let nbytes = (nbits + 7) / 8;
                if left < nbytes {
                    return Err(Error::Underflow);
                }
                let full_bytes = nbits / 8;
                let mut value: u64 = 0;
                let mut i: usize = 0;
                while i < full_bytes
                    invariant
                        i <= full_bytes <= 8,
                        at + full_bytes <= data@.len() <= usize::MAX,
                        pos == 8 * at,
                        value == field(data@, pos, (8 * i) as nat),
                    decreases full_bytes - i,
                {
                    proof {
                        lemma_field_leaves_top_byte(data@, pos, i as nat);
                        lemma_field_push_byte(data@, pos, (8 * i) as nat, at + i);
                    }
                    value = join_byte(value, data[at + i]);
                    i += 1;
                }
                let remaining_bits = nbits % 8;
                if remaining_bits > 0 {
                    let bits = byte_top(data[at + full_bytes], remaining_bits);
                    proof {
                        let whole = (8 * full_bytes) as nat;
                        let rest = remaining_bits as nat;
                        lemma_field_top_of_byte(data@, at + full_bytes, rest);
                        lemma_field_bound(data@, pos + whole, rest);
                        lemma_field_bound(data@, pos, whole);
                        lemma_field_split(data@, pos, whole, rest);
                        if whole < 64 - rest {
                            lemma_pow2_strictly_increases(whole, (64 - rest) as nat);
                        }
                    }
                    value = join_bits(value, bits, remaining_bits);
                    *self = BitInput { data, byte: at + full_bytes, offset: remaining_bits };
                    Ok(value)
                } else {
                    *self = BitInput { data, byte: at + full_bytes, offset: 0 };
                    Ok(value)
                }
            },
        }
    }

    /// Reads from inside a byte: loads the bytes that hold the field into a
    /// 64-bit buffer, at most eight at first and a ninth where the field
    /// runs on, then shifts the field down and masks it.
    fn get_arbitary_bits_unaligned(&mut self, nbits: usize) -> (r: Result<u64, Error>)
        requires
            nbits > 0,
            old(self).position() % 8 != 0,
        ensures
            final(self).data() == old(self).data(),
            r == read_bits(old(self).data(), old(self).position(), nbits as nat),
            final(self).position() == position_after(
                old(self).data(),
                old(self).position(),
                nbits as nat,
            ),
            final(self).position() <= 8 * final(self).data().len(),
    {
        proof {
            use_type_invariant(&*self);
        }
        if nbits > 64 {
            return Err(Error::Parse(ParseReason::WidthTooLarge));
        }
        let data = self.data;
        let at = self.byte;
        let bit_offset = self.offset;
        let total_bits_needed = bit_offset + nbits;
        let bytes_needed = (total_bits_needed + 7) / 8;
        if data.len() - at < bytes_needed {
            return Err(Error::Underflow);
        }
        let ghost base = 8 * at as int;
        let mut buffer: u64 = 0;
        let bytes_to_read = if bytes_needed < 8 {
            bytes_needed
        } else {
            8
        };
        let mut i: usize = 0;
        while i < bytes_to_read
            invariant
                i <= bytes_to_read <= 8,
                at + bytes_to_read <= data@.len() <= usize::MAX,
                base == 8 * at,
                buffer == field(data@, base, (8 * i) as nat),
            decreases bytes_to_read - i,
        {
            proof {
                lemma_field_leaves_top_byte(data@, base, i as nat);
                lemma_field_push_byte(data@, base, (8 * i) as nat, at + i);
            }
            buffer = join_byte(buffer, data[at + i]);
            i += 1;
        }
        let value = if bytes_needed > 8 {
            let bits_from_ninth = total_bits_needed - 64;
            proof {
                lemma_field_across_window(data@, at as int, bit_offset as nat, nbits as nat);
            }
            let head = low_bits(buffer, 64 - bit_offset);
            let tail = byte_top(data[at + 8], bits_from_ninth);
            join_bits(head, tail, bits_from_ninth)
        } else {
            let bits_in_buffer = bytes_to_read * 8;
            let shift = bits_in_buffer - bit_offset - nbits;
            proof {
                lemma_field_extract(data@, base, bit_offset as nat, nbits as nat, shift as nat);
            }
            low_bits(shift_down(buffer, shift), nbits)
        };
        let new_bit_position = bit_offset + nbits;
        let bytes_consumed = new_bit_position / 8;
        *self = BitInput { data, byte: at + bytes_consumed, offset: new_bit_position % 8 };
        Ok(value)
    }
}

} // verus!
