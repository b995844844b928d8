//! Bit packing as a specification: how a sequence of `(value, width)` pairs
//! lies in a byte stream, most significant bit first, and the proof that the
//! reader gets every value back.

use vstd::prelude::*;
use vstd::arithmetic::power2::{pow2, lemma_pow2_unfold, lemma_pow2_pos, lemma2_to64};
use vstd::arithmetic::div_mod::{lemma_div_denominator, lemma_mod_breakdown, lemma_small_mod};
use crate::bits::{bit_at, field, read_bits};
use crate::errors::Error;

verus! {

/// Bit `t` of a `width`-bit number, counted from its most significant bit.
pub open spec fn value_bit(value: nat, width: nat, t: int) -> nat {
    (value / pow2((width - 1 - t) as nat)) % 2
}

/// The number of bits that the first `i` pairs take.
pub open spec fn bits_before(pairs: Seq<(u64, nat)>, i: int) -> nat
    decreases i,
{
    if i <= 0 {
        0
    } else {
        bits_before(pairs, i - 1) + pairs[i - 1].1
    }
}

/// Bit `i` of the packed stream: the pairs follow one another without gaps,
/// and zeros pad the last byte.
pub open spec fn packed_bit(pairs: Seq<(u64, nat)>, i: int) -> nat
    decreases pairs.len(),
{
    if pairs.len() == 0 {
        0
    } else {
        let last = pairs.len() - 1;
        let start = bits_before(pairs, last);
        if i >= start {
            if i < start + pairs[last].1 {
                value_bit(pairs[last].0 as nat, pairs[last].1, i - start)
            } else {
                0
            }
        } else {
            packed_bit(pairs.drop_last(), i)
        }
    }
}

/// Byte `j` of the packed stream.
pub open spec fn packed_byte(pairs: Seq<(u64, nat)>, j: int) -> u8 {
    (128 * packed_bit(pairs, 8 * j) + 64 * packed_bit(pairs, 8 * j + 1) + 32 * packed_bit(
        pairs,
        8 * j + 2,
    ) + 16 * packed_bit(pairs, 8 * j + 3) + 8 * packed_bit(pairs, 8 * j + 4) + 4 * packed_bit(
        pairs,
        8 * j + 5,
    ) + 2 * packed_bit(pairs, 8 * j + 6) + packed_bit(pairs, 8 * j + 7)) as u8
}

/// The packed stream: as many bytes as the pairs need.
pub open spec fn pack(pairs: Seq<(u64, nat)>) -> Seq<u8> {
    Seq::new(
        ((bits_before(pairs, pairs.len() as int) + 7) / 8) as nat,
        |j: int| packed_byte(pairs, j),
    )
}

/// Every pair has a width of 1 to 64 bits and a value that fits in it.
pub open spec fn packable(pairs: Seq<(u64, nat)>) -> bool {
    forall|j: int|
        0 <= j < pairs.len() ==> 1 <= (#[trigger] pairs[j]).1 <= 64 && pairs[j].0 < pow2(
            pairs[j].1,
        )
}

proof fn lemma_packed_bit_is_bit(pairs: Seq<(u64, nat)>, i: int)
    ensures
        packed_bit(pairs, i) <= 1,
    decreases pairs.len(),
{
    if pairs.len() > 0 {
        lemma_packed_bit_is_bit(pairs.drop_last(), i);
    }
}

proof fn lemma_bits_before_prefix(pairs: Seq<(u64, nat)>, i: int)
    requires
        0 <= i < pairs.len(),
    ensures
        bits_before(pairs.drop_last(), i) == bits_before(pairs, i),
    decreases i,
{
    if i > 0 {
        lemma_bits_before_prefix(pairs, i - 1);
    }
}

proof fn lemma_bits_before_monotonic(pairs: Seq<(u64, nat)>, i: int, k: int)
    requires
        0 <= i <= k,
    ensures
        bits_before(pairs, i) <= bits_before(pairs, k),
    decreases k - i,
{
    if i < k {
        lemma_bits_before_monotonic(pairs, i, k - 1);
    }
}

/// The bits of pair `i` stand in the stream from `bits_before(pairs, i)` on.
proof fn lemma_packed_bit_of_pair(pairs: Seq<(u64, nat)>, i: int, t: int)
    requires
        0 <= i < pairs.len(),
        0 <= t < pairs[i].1,
    ensures
        packed_bit(pairs, bits_before(pairs, i) + t) == value_bit(
            pairs[i].0 as nat,
            pairs[i].1,
            t,
        ),
    decreases pairs.len(),
{
    let last = pairs.len() - 1;
    if i < last {
        lemma_bits_before_monotonic(pairs, i + 1, last);
        lemma_bits_before_prefix(pairs, i);
        lemma_packed_bit_of_pair(pairs.drop_last(), i, t);
    }
}

/// A byte built from eight bits gives each of them back.
proof fn lemma_bit_of_packed_byte(pairs: Seq<(u64, nat)>, i: int)
    requires
        0 <= i < 8 * pack(pairs).len(),
    ensures
        bit_at(pack(pairs), i) == packed_bit(pairs, i),
{
    let j = i / 8;
    let k = i % 8;
    lemma2_to64();
    lemma_packed_bit_is_bit(pairs, 8 * j);
    lemma_packed_bit_is_bit(pairs, 8 * j + 1);
    lemma_packed_bit_is_bit(pairs, 8 * j + 2);
    lemma_packed_bit_is_bit(pairs, 8 * j + 3);
    lemma_packed_bit_is_bit(pairs, 8 * j + 4);
    lemma_packed_bit_is_bit(pairs, 8 * j + 5);
    lemma_packed_bit_is_bit(pairs, 8 * j + 6);
    lemma_packed_bit_is_bit(pairs, 8 * j + 7);
    let b0 = packed_bit(pairs, 8 * j);
    let b1 = packed_bit(pairs, 8 * j + 1);
    let b2 = packed_bit(pairs, 8 * j + 2);
    let b3 = packed_bit(pairs, 8 * j + 3);
    let b4 = packed_bit(pairs, 8 * j + 4);
    let b5 = packed_bit(pairs, 8 * j + 5);
    let b6 = packed_bit(pairs, 8 * j + 6);
    let b7 = packed_bit(pairs, 8 * j + 7);
    let byte = 128 * b0 + 64 * b1 + 32 * b2 + 16 * b3 + 8 * b4 + 4 * b5 + 2 * b6 + b7;
    assert(pack(pairs)[j] == packed_byte(pairs, j));
    assert(pack(pairs)[j] as nat == byte);
    assert(i == 8 * j + k);
    if k == 0 {
        assert((byte / 128) % 2 == b0);
    } else if k == 1 {
        assert((byte / 64) % 2 == b1);
    } else if k == 2 {
        assert((byte / 32) % 2 == b2);
    } else if k == 3 {
        assert((byte / 16) % 2 == b3);
    } else if k == 4 {
        assert((byte / 8) % 2 == b4);
    } else if k == 5 {
        assert((byte / 4) % 2 == b5);
    } else if k == 6 {
        assert((byte / 2) % 2 == b6);
    } else {
        assert((byte / 1) % 2 == b7);
    }
}

/// A field whose bits are the bits of `value` is `value` cut to its width.
proof fn lemma_field_of_value_bits(data: Seq<u8>, start: int, n: nat, value: nat)
    requires
        forall|t: int| 0 <= t < n ==> #[trigger] bit_at(data, start + t) == value_bit(value, n, t),
    ensures
        field(data, start, n) == value % pow2(n),
    decreases n,
{
    lemma2_to64();
    if n == 0 {
    } else {
        let p = (n - 1) as nat;
        let half = value / 2;
        assert forall|t: int| 0 <= t < p implies #[trigger] bit_at(data, start + t) == value_bit(
            half,
            p,
            t,
        ) by {
            let e = (p - 1 - t) as nat;
            lemma_pow2_pos(e);
            lemma_pow2_unfold(e + 1);
            lemma_div_denominator(value as int, 2, pow2(e) as int);
            assert(value_bit(value, n, t) == (value / pow2(e + 1)) % 2);
        }
        lemma_field_of_value_bits(data, start, p, half);
        assert(bit_at(data, start + p) == value_bit(value, n, p as int));
        assert(value / pow2(0) == value) by (nonlinear_arith)
            requires
                pow2(0) == 1,
        ;
        lemma_pow2_pos(p);
        lemma_pow2_unfold(n);
        lemma_mod_breakdown(value as int, 2, pow2(p) as int);
    }
}

/// Packing pairs of a value and a width of 1 to 64 bits, most significant
/// bit first, and reading the width of pair `i` at the place where it was
/// packed gives its value back.
pub proof fn lemma_pack_round_trip(pairs: Seq<(u64, nat)>, i: int)
    requires
        packable(pairs),
        0 <= i < pairs.len(),
    ensures
        read_bits(pack(pairs), bits_before(pairs, i), pairs[i].1) == Ok::<u64, Error>(pairs[i].0),
        bits_before(pairs, i + 1) == bits_before(pairs, i) + pairs[i].1,
{
    let data = pack(pairs);
    let start = bits_before(pairs, i);
    let width = pairs[i].1;
    let value = pairs[i].0 as nat;
    lemma_bits_before_monotonic(pairs, i + 1, pairs.len() as int);
    assert(start + width <= 8 * data.len());
    assert forall|t: int| 0 <= t < width implies #[trigger] bit_at(data, start + t) == value_bit(
        value,
        width,
        t,
    ) by {
        lemma_bit_of_packed_byte(pairs, start + t);
        lemma_packed_bit_of_pair(pairs, i, t);
    }
    lemma_field_of_value_bits(data, start as int, width, value);
    lemma_small_mod(value, pow2(width));
}

} // verus!
