//! The operator state: the overrides that operator descriptors put on the
//! elements that follow them, and the width, scale and reference value that
//! an element is read with under them.

use vstd::prelude::*;
use crate::tables::BTableEntry;
use crate::text::str_eq;

verus! {

/// The overrides in force at one point of a walk. `local_data_width` and
/// `temp_operator` hold for the next element only.
#[derive(Clone, Copy, Debug, PartialEq, Eq, Structural)]
pub struct State {
    pub common_scale: Option<i32>,
    pub common_ref_value: Option<i32>,
    pub common_data_width: Option<i32>,
    pub common_str_width: Option<usize>,
    pub local_data_width: Option<i32>,
    pub temp_operator: Option<i32>,
}

/// The unit of character elements.
pub open spec fn is_text_unit(unit: Seq<char>) -> bool {
    unit == "CCITT IA5"@
}

/// The units whose elements keep their width and scale under overrides.
pub open spec fn is_table_unit(unit: Seq<char>) -> bool {
    unit == "flag table"@ || unit == "flag-table"@ || unit == "code table"@ || unit
        == "code-table"@
}

/// Whether an element is a delayed-replication counter: F = 0 and X = 31.
pub open spec fn is_counter(e: BTableEntry) -> bool {
    e.fxy.f == 0 && e.fxy.x == 31
}

/// Whether width and scale overrides pass an element by.
pub open spec fn is_exempt(e: BTableEntry) -> bool {
    is_table_unit(e.bufr_unit@) || is_counter(e)
}

/// Ten to the power `n`.
pub open spec fn pow10(n: nat) -> nat
    decreases n,
{
    if n == 0 {
        1
    } else {
        10 * pow10((n - 1) as nat)
    }
}

/// A number cut to the range of `i32`.
pub open spec fn clamp_i32(v: int) -> i32 {
    if v > i32::MAX {
        i32::MAX
    } else if v < i32::MIN {
        i32::MIN
    } else {
        v as i32
    }
}

/// A reference value shifted by `op` decimal places: times `10^op`, cut to
/// the range of `i32`; for a negative `op` divided, rounding toward zero.
pub open spec fn shifted_reference(v: i32, op: i32) -> i32 {
    if op >= 0 {
        clamp_i32(v * pow10(op as nat))
    } else if v >= 0 {
        ((v as int) / (pow10((-op) as nat) as int)) as i32
    } else {
        (-((-(v as int)) / (pow10((-op) as nat) as int))) as i32
    }
}

/// A signed number as the unsigned number with the same 32 bits.
pub fn as_unsigned(v: i32) -> (r: u32)
    ensures
        r == 0u32.wrapping_add_signed(v),
        v >= 0 ==> r == v,
{
    0u32.wrapping_add_signed(v)
}

pub proof fn lemma_pow10_grows(a: nat, b: nat)
    requires
        a <= b,
    ensures
        1 <= pow10(a) <= pow10(b),
    decreases b,
{
    if a == 0 {
        if b > 0 {
            lemma_pow10_grows(0, (b - 1) as nat);
        }
    } else {
        lemma_pow10_grows((a - 1) as nat, (b - 1) as nat);
    }
}

/// Shifts a reference value by `op` decimal places.
pub fn shift_reference(v: i32, op: i32) -> (r: i32)
    ensures
        r == shifted_reference(v, op),
{
    if v == 0 {
        proof {
            if op >= 0 {
                assert(0 * pow10(op as nat) == 0) by (nonlinear_arith);
            } else {
                lemma_pow10_grows(0, (-op) as nat);
                assert(0int / (pow10((-op) as nat) as int) == 0) by (nonlinear_arith)
                    requires
                        pow10((-op) as nat) >= 1,
                ;
            }
        }
        return 0;
    }
    if op >= 0 {
        let mut acc: i64 = v as i64;
        let mut i: i32 = 0;
        proof {
            assert(pow10(0) == 1);
            assert(v * 1 == v) by (nonlinear_arith);
        }
        while i < op && -0x8000_0000 <= acc && acc <= 0x7fff_ffff
            invariant
                0 <= i <= op,
                v != 0,
                acc == v * pow10(i as nat),
                -0x8_0000_0000 * 10 <= acc <= 0x8_0000_0000 * 10,
            decreases op - i,
        {
            proof {
                assert(v * pow10((i + 1) as nat) == (v * pow10(i as nat)) * 10) by (nonlinear_arith)
                    requires
                        pow10((i + 1) as nat) == 10 * pow10(i as nat),
                ;
            }
            acc = acc * 10;
            i += 1;
        }
        proof {
            lemma_pow10_grows(i as nat, op as nat);
            let low = pow10(i as nat);
            let high = pow10(op as nat);
            if acc > 0x7fff_ffff {
                assert(v * high >= v * low) by (nonlinear_arith)
                    requires
                        v * low > 0,
                        low >= 1,
                        high >= low,
                ;
            }
            if acc < -0x8000_0000 {
                assert(v * high <= v * low) by (nonlinear_arith)
                    requires
                        v * low < 0,
                        low >= 1,
                        high >= low,
                ;
            }
        }
        if acc > 0x7fff_ffff {
            i32::MAX
        } else if acc < -0x8000_0000 {
            i32::MIN
        } else {
            acc as i32
        }
    } else {
        // Divide by ten as often as asked, or until nothing is left.
        let steps: i64 = -(op as i64);
        let mut magnitude: i64 = if v >= 0 {
            v as i64
        } else {
            -(v as i64)
        };
        let ghost start = magnitude as int;
        let mut i: i64 = 0;
        proof {
            assert(pow10(0) == 1);
            assert(start / 1 == start) by (nonlinear_arith);
        }
        while i < steps && magnitude > 0
            invariant
                0 <= i <= steps,
                0 <= magnitude <= 0x8000_0000,
                start >= 0,
                magnitude == start / (pow10(i as nat) as int),
            decreases steps - i,
        {
            proof {
                lemma_pow10_grows(0, i as nat);
                vstd::arithmetic::div_mod::lemma_div_denominator(
                    start,
                    pow10(i as nat) as int,
                    10,
                );
                assert(pow10((i + 1) as nat) == pow10(i as nat) * 10);
            }
            magnitude = magnitude / 10;
            i += 1;
        }
        proof {
            lemma_pow10_grows(i as nat, steps as nat);
            lemma_pow10_grows(0, i as nat);
            if i < steps {
                // Already zero: a larger divisor leaves zero as well.
                let low = pow10(i as nat) as int;
                let high = pow10(steps as nat) as int;
                assert(start / high == 0) by (nonlinear_arith)
                    requires
                        start >= 0,
                        start / low == 0,
                        1 <= low <= high,
                ;
            }
        }
        if v >= 0 {
            magnitude as i32
        } else {
            (-magnitude) as i32
        }
    }
}

impl State {
    /// The state at the start of a message: no override in force.
    pub open spec fn initial() -> State {
        State {
            common_scale: None,
            common_ref_value: None,
            common_data_width: None,
            common_str_width: None,
            local_data_width: None,
            temp_operator: None,
        }
    }

    pub fn new() -> (r: State)
        ensures
            r == State::initial(),
    {
        State {
            common_scale: None,
            common_ref_value: None,
            common_data_width: None,
            common_str_width: None,
            local_data_width: None,
            temp_operator: None,
        }
    }

    /// The width in bits that an element is read with: the one-shot width
    /// where one is set; else the base width, with the width override for
    /// an element that is not exempt, and ten bits more for each unit of
    /// the one-shot adjustment. The arithmetic wraps.
    pub open spec fn spec_datawidth(self, e: BTableEntry) -> u32 {
        match self.local_data_width {
            Some(local) => 0u32.wrapping_add_signed(local),
            None => {
                let v = if is_exempt(e) {
                    e.bufr_datawidth_bits
                } else {
                    match self.common_data_width {
                        Some(c) => e.bufr_datawidth_bits.wrapping_add_signed(c.wrapping_sub(128)),
                        None => e.bufr_datawidth_bits,
                    }
                };
                match self.temp_operator {
                    Some(op) => v.wrapping_add(0u32.wrapping_add_signed(10i32.wrapping_mul(op))),
                    None => v,
                }
            },
        }
    }

    /// The scale that an interpreted element is read with: the base scale
    /// plus the one-shot adjustment where one is set; else the base scale,
    /// with the scale override for an element that is not exempt. The
    /// arithmetic wraps.
    pub open spec fn spec_scale(self, e: BTableEntry) -> i32 {
        match self.temp_operator {
            Some(op) => e.bufr_scale.wrapping_add(op),
            None => self.spec_common_scale(e),
        }
    }

    /// The base scale under the scale override.
    pub open spec fn spec_common_scale(self, e: BTableEntry) -> i32 {
        if is_exempt(e) {
            e.bufr_scale
        } else {
            match self.common_scale {
                Some(c) => e.bufr_scale.wrapping_add(128i32.wrapping_sub(c)),
                None => e.bufr_scale,
            }
        }
    }

    /// The reference value that an element is read with: the base value,
    /// shifted by the one-shot adjustment where one is set.
    pub open spec fn spec_reference_value(self, e: BTableEntry) -> i32 {
        match self.temp_operator {
            Some(op) => shifted_reference(e.bufr_reference_value, op),
            None => e.bufr_reference_value,
        }
    }

    /// Whether width and scale overrides pass the element by: its unit is a
    /// flag or code table, or it is a delayed-replication counter.
    pub fn no_change(&self, e: &BTableEntry) -> (r: bool)
        ensures
            r == is_exempt(*e),
    {
        let unit = e.bufr_unit.as_str();
        let is_flag_or_code = str_eq(unit, "flag table") || str_eq(unit, "flag-table") || str_eq(
            unit,
            "code table",
        ) || str_eq(unit, "code-table");
        let delay_repeat_count = e.fxy.f == 0 && e.fxy.x == 31;
        is_flag_or_code || delay_repeat_count
    }

    pub fn datawidth(&self, e: &BTableEntry) -> (r: u32)
        ensures
            r == self.spec_datawidth(*e),
    {
        if let Some(local_width) = self.local_data_width {
            return as_unsigned(local_width);
        }
        let v = if self.no_change(e) {
            e.bufr_datawidth_bits
        } else {
            match self.common_data_width {
                Some(c) => e.bufr_datawidth_bits.wrapping_add_signed(c.wrapping_sub(128)),
                None => e.bufr_datawidth_bits,
            }
        };
        if let Some(op) = self.temp_operator {
            v.wrapping_add(as_unsigned(10i32.wrapping_mul(op)))
        } else {
            v
        }
    }

    pub fn scale(&self, e: &BTableEntry) -> (r: i32)
        ensures
            r == self.spec_scale(*e),
    {
        let v = if self.no_change(e) {
            e.bufr_scale
        } else {
            match self.common_scale {
                Some(c) => e.bufr_scale.wrapping_add(128i32.wrapping_sub(c)),
                None => e.bufr_scale,
            }
        };
        if let Some(op) = self.temp_operator {
            e.bufr_scale.wrapping_add(op)
        } else {
            v
        }
    }

    pub fn reference_value(&self, e: &BTableEntry) -> (r: i32)
        ensures
            r == self.spec_reference_value(*e),
    {
        let v = e.bufr_reference_value;
        if let Some(op) = self.temp_operator {
            shift_reference(v, op)
        } else {
            v
        }
    }
}

} // verus!
