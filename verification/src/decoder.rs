//! The descriptor-driven decoder: a stack machine that walks a descriptor
//! program and reads its values from the bit stream.

use vstd::prelude::*;
use vstd::slice::slice_subrange;
use crate::bits::BitInput;
use crate::cache::Cache;
use crate::catalog::{BUFRTableB, BUFRTableD};
use crate::errors::{Error, ParseReason};
use crate::fxy::FXY;
use crate::record::{single_record, BUFRParsed, RecordModel, Scaled, Value, ValueModel};
use crate::state::{lemma_pow10_grows, pow10, State};
use crate::structs::tools::descriptors_of;
use crate::structs::versions::MessageVersion;
use crate::tables::BTableEntry;
use crate::text::str_eq;
use crate::walk::{decode_program, stack_after_repeat, all_ones, apply_operator, array_records, column, compile, compile_from, compiled_scale, count_of, counter_value, eval_element, field_of, operator_bytes, read_cells, run, start, step, step_slice, Cells, CompiledLayout, FieldModel, FieldSpec, Frame, FrameModel, Machine};

verus! {

/// The views of the frames of a stack.
pub open spec fn frames<'k, 'c>(stack: Seq<Frame<'k, 'c>>) -> Seq<FrameModel> {
    stack.map_values(|f: Frame<'k, 'c>| f@)
}

/// The raw value with all bits of a width set.
pub fn missing_mask(width: u32) -> (r: u64)
    ensures
        r == all_ones(width as nat),
{
    if width >= 64 {
        u64::MAX
    } else {
        proof {
            vstd::bits::lemma_u64_pow2_no_overflow(width as nat);
            vstd::bits::lemma_u64_shl_is_mul(1, width as u64);
        }
        (1u64 << (width as u64)) - 1
    }
}

/// The repeat count that a decoded counter stands for.
pub fn count_from(s: Scaled) -> (r: usize)
    ensures
        r == count_of(s),
{
    let sum: i128 = s.raw as i128 + s.reference as i128;
    if sum <= 0 {
        return 0;
    }
    let ghost total = sum as int;
    let limit: u128 = usize::MAX as u128;
    if s.scale <= 0 {
        let steps: i64 = -(s.scale as i64);
        let mut acc: u128 = sum as u128;
        let mut i: i64 = 0;
        proof {
            assert(pow10(0) == 1);
            assert(sum * 1 == sum) by (nonlinear_arith);
        }
        while i < steps && acc <= limit
            invariant
                0 <= i <= steps,
                sum > 0,
                limit == usize::MAX,
                acc == sum * pow10(i as nat),
                acc <= 0x1_0000_0000_0000_0000 * 10,
            decreases steps - i,
        {
            proof {
                assert(sum * pow10((i + 1) as nat) == (sum * pow10(i as nat)) * 10)
                    by (nonlinear_arith)
                    requires
                        pow10((i + 1) as nat) == 10 * pow10(i as nat),
                ;
            }
            acc = acc * 10;
            i += 1;
        }
        proof {
            lemma_pow10_grows(i as nat, steps as nat);
            let low = pow10(i as nat);
            let high = pow10(steps as nat);
            if acc > limit {
                assert(sum * high >= sum * low) by (nonlinear_arith)
                    requires
                        sum > 0,
                        high >= low,
                ;
            }
        }
        if acc > limit {
            usize::MAX
        } else {
            acc as usize
        }
    } else {
        let steps: i64 = s.scale as i64;
        let mut acc: u128 = sum as u128;
        let mut i: i64 = 0;
        proof {
            assert(pow10(0) == 1);
            assert(total / 1 == total) by (nonlinear_arith);
        }
        while i < steps && acc > 0
            invariant
                0 <= i <= steps,
                sum > 0,
                acc == total / (pow10(i as nat) as int),
                total == sum,
                acc <= 0x1_0000_0000_0000_0000 * 2,
            decreases steps - i,
        {
            proof {
                lemma_pow10_grows(0, i as nat);
                vstd::arithmetic::div_mod::lemma_div_denominator(
                    total,
                    pow10(i as nat) as int,
                    10,
                );
                assert(pow10((i + 1) as nat) == pow10(i as nat) * 10);
            }
            acc = acc / 10;
            i += 1;
        }
        proof {
            lemma_pow10_grows(i as nat, steps as nat);
            lemma_pow10_grows(0, i as nat);
            if i < steps {
                let low = pow10(i as nat) as int;
                let high = pow10(steps as nat) as int;
                assert(total / high == 0) by (nonlinear_arith)
                    requires
                        total >= 0,
                        total / low == 0,
                        1 <= low <= high,
                ;
            }
        }
        if acc > limit {
            usize::MAX
        } else {
            acc as usize
        }
    }
}

/// The number of steps a decode may take before it gives up.
pub const MAX_STEPS: u64 = 0xFFFF_FFFF_FFFF_FFFF;

/// The number of frames a decode may have on its stack before it gives up.
/// Sequences and replications nest a few levels deep; a sequence that
/// contains itself nests without end and runs into this bound.
pub const MAX_DEPTH: usize = 1024;

/// A decoder for the messages of one set of tables.
pub struct Decoder {
    bufr_edition: u8,
    master_b: BUFRTableB,
    master_d: BUFRTableD,
    local_b: Option<BUFRTableB>,
    local_d: Option<BUFRTableD>,
}

impl Decoder {
    /// The catalogs of the decoder, as its lookups see them.
    pub closed spec fn tables(&self) -> Cache<'_> {
        Cache {
            master_b: &self.master_b,
            master_d: &self.master_d,
            local_b: match &self.local_b {
                Some(t) => Some(t),
                None => None,
            },
            local_d: match &self.local_d {
                Some(t) => Some(t),
                None => None,
            },
        }
    }

    /// The edition the decoder was made for.
    pub closed spec fn edition(&self) -> u8 {
        self.bufr_edition
    }

    pub fn new(
        edition: u8,
        master_b: BUFRTableB,
        master_d: BUFRTableD,
        local_b: Option<BUFRTableB>,
        local_d: Option<BUFRTableD>,
    ) -> (r: Self)
        ensures
            r.edition() == edition,
            *r.tables().master_b == master_b,
            *r.tables().master_d == master_d,
            match (r.tables().local_b, local_b) {
                (Some(a), Some(b)) => *a == b,
                (None, None) => true,
                _ => false,
            },
            match (r.tables().local_d, local_d) {
                (Some(a), Some(b)) => *a == b,
                (None, None) => true,
                _ => false,
            },
    {
        Decoder { bufr_edition: edition, master_b, master_d, local_b, local_d }
    }

    /// Reads one element at the cursor: a string for a character element,
    /// else a number or the missing value.
    pub fn evalute(&self, state: &State, data: &mut BitInput<'_>, e: &BTableEntry) -> (r: Result<
        Value,
        Error,
    >)
        ensures
            final(data).data() == old(data).data(),
            match eval_element(*state, old(data).data(), old(data).position(), *e) {
                Ok((value, pos)) => r is Ok && r->Ok_0@ == value && final(data).position() == pos,
                Err(err) => r == Err::<Value, Error>(err) && final(data).position() == old(
                    data,
                ).position(),
            },
    {
        if str_eq(e.bufr_unit.as_str(), "CCITT IA5") {
            let total_bytes = match state.common_str_width {
                Some(w) => w,
                None => ((e.bufr_datawidth_bits as u64 + 7) / 8) as usize,
            };
            match data.take_string(total_bytes) {
                Ok(s) => Ok(Value::String(s)),
                Err(err) => Err(err),
            }
        } else {
            let datawidth = state.datawidth(e);
            let scale = state.scale(e);
            let reference_value = state.reference_value(e);
            let value = match data.get_arbitary_bits(datawidth as usize) {
                Ok(v) => v,
                Err(err) => {
                    return Err(err);
                },
            };
            let mv = missing_mask(datawidth);
            if value == mv && !(e.fxy.f == 0 && e.fxy.x == 31) {
                return Ok(Value::Missing);
            }
            Ok(Value::Number(Scaled { raw: value, reference: reference_value, scale }))
        }
    }

    /// Reads the counter of a delayed replication.
    pub fn parse_usize(
        &self,
        state: &State,
        cache: &Cache<'_>,
        des: &FXY,
        data: &mut BitInput<'_>,
    ) -> (r: Result<usize, Error>)
        ensures
            final(data).data() == old(data).data(),
            match counter_value(*cache, old(data).data(), *state, old(data).position(), *des) {
                Ok((count, pos)) => r == Ok::<usize, Error>(count as usize) && count == count as usize
                    && final(data).position() == pos,
                Err(err) => r == Err::<usize, Error>(err) && final(data).position() == old(
                    data,
                ).position(),
            },
    {
        if des.f != 0 {
            return Err(Error::Parse(ParseReason::UnknownElement(*des)));
        }
        let saved = *data;
        match cache.get_b(des) {
            Some(e) => {
                match self.evalute(state, data, e) {
                    Ok(value) => match value.number() {
                        Some(s) => Ok(count_from(s)),
                        None => {
                            // No count: the cursor goes back before the counter.
                            *data = saved;
                            Err(Error::Parse(ParseReason::CounterNotNumeric))
                        },
                    },
                    Err(err) => Err(err),
                }
            },
            None => Err(Error::Parse(ParseReason::UnknownElement(*des))),
        }
    }

    /// The width of a compiled field.
    pub fn compute_effective_width(&self, state: &State, e: &BTableEntry) -> (r: u32)
        ensures
            r == state.spec_datawidth(*e),
    {
        state.datawidth(e)
    }

    /// The scale of a compiled field.
    pub fn compute_effective_scale(&self, state: &State, e: &BTableEntry) -> (r: i32)
        ensures
            r == compiled_scale(*state, *e),
    {
        let base_scale = if state.no_change(e) {
            e.bufr_scale
        } else {
            match state.common_scale {
                Some(c) => e.bufr_scale.wrapping_add(128i32.wrapping_sub(c)),
                None => e.bufr_scale,
            }
        };
        if let Some(op) = state.temp_operator {
            base_scale.wrapping_add(op)
        } else {
            base_scale
        }
    }

    /// The reference value of a compiled field.
    pub fn compute_effective_reference(&self, state: &State, e: &BTableEntry) -> (r: i32)
        ensures
            r == state.spec_reference_value(*e),
    {
        state.reference_value(e)
    }

    /// Applies an operator to the compiler's state. Returns `false` for the
    /// operators that make a body ineligible, and leaves the state alone
    /// then.
    pub fn apply_operator_to_compiler(&self, state: &mut State, operator: &FXY) -> (r: bool)
        ensures
            r == !(operator.x == 5 || operator.x == 8),
            r ==> *final(state) == apply_operator(*old(state), operator.x, operator.y),
            !r ==> *final(state) == *old(state),
    {
        let x = operator.x;
        let y = operator.y;
        if x == 1 {
            // 2-01-YYY: data width change
            state.common_data_width = if y == 0 {
                None
            } else {
                Some(y)
            };
            true
        } else if x == 2 {
            // 2-02-YYY: scale change
            state.common_scale = if y == 0 {
                None
            } else {
                Some(y)
            };
            true
        } else if x == 3 {
            // 2-03-YYY: reference value change
            state.common_ref_value = if y == 0 {
                None
            } else {
                Some(y)
            };
            true
        } else if x == 5 {
            // 2-05-YYY: string literal, consumes bits
            false
        } else if x == 6 {
            // 2-06-YYY: width of the next element only
            state.local_data_width = Some(y);
            true
        } else if x == 7 {
            // 2-07-YYY: scale, width and reference of the next element only
            state.temp_operator = Some(y);
            true
        } else if x == 8 {
            // 2-08-YYY: character width
            false
        } else {
            true
        }
    }

    /// Compiles the layout of a replicated body, where the body is
    /// eligible.
    pub fn try_compile_array_layout<'c>(
        &self,
        body: &[FXY],
        repeat_count: usize,
        cache: &Cache<'c>,
    ) -> (r: Result<Option<CompiledLayout<'c>>, Error>)
        ensures
            match compile(*cache, body@, repeat_count as int) {
                Ok(Some(layout)) => r is Ok && r->Ok_0 is Some && r->Ok_0->0@ == layout,
                Ok(None) => r is Ok && r->Ok_0 is None,
                Err(e) => r is Err && r->Err_0 == e,
            },
    {
        // Early rejection: too small
        if repeat_count < 16 {
            return Ok(None);
        }
        let mut compiler_state = State::new();
        let mut fields: Vec<FieldSpec<'c>> = Vec::with_capacity(body.len());
        let mut total_bits: usize = 0;
        let ghost goal = compile(*cache, body@, repeat_count as int);
        let mut i: usize = 0;
        proof {
            assert(fields@.map_values(|f: FieldSpec<'c>| f@) =~= Seq::<FieldModel>::empty());
        }
        while i < body.len()
            invariant
                i <= body@.len(),
                goal == compile(*cache, body@, repeat_count as int),
                goal == compile_from(
                    *cache,
                    body@,
                    i as int,
                    compiler_state,
                    fields@.map_values(|f: FieldSpec<'c>| f@),
                    total_bits,
                ),
            decreases body@.len() - i,
        {
            let desc = &body[i];
            if desc.f == 0 {
                // Element descriptor: compile its field.
                let entry = match cache.get_b(desc) {
                    Some(e) => e,
                    None => {
                        return Err(Error::Parse(ParseReason::UnknownElement(*desc)));
                    },
                };
                // Strings are read by the interpreter.
                if str_eq(entry.bufr_unit.as_str(), "CCITT IA5") {
                    return Ok(None);
                }
                let width = self.compute_effective_width(&compiler_state, entry);
                let scale = self.compute_effective_scale(&compiler_state, entry);
                let reference = self.compute_effective_reference(&compiler_state, entry);
                let missing = missing_mask(width);
                let ghost before = fields@.map_values(|f: FieldSpec<'c>| f@);
                let field = FieldSpec {
                    fxy: FXY::new(desc.f, desc.x, desc.y),
                    name: entry.element_name_en.as_str(),
                    unit: entry.bufr_unit.as_str(),
                    width_bits: width,
                    scale,
                    reference,
                    missing_value: missing,
                };
                fields.push(field);
                proof {
                    assert(field@ == field_of(compiler_state, *desc, *entry));
                    assert(fields@.map_values(|f: FieldSpec<'c>| f@) =~= before.push(field@));
                }
                total_bits = if width as usize > usize::MAX - total_bits {
                    usize::MAX
                } else {
                    total_bits + width as usize
                };
                // The one-shot operators hold for one element.
                compiler_state.temp_operator = None;
                compiler_state.local_data_width = None;
            } else if desc.f == 2 {
                if !self.apply_operator_to_compiler(&mut compiler_state, desc) {
                    return Ok(None);
                }
            } else if desc.f == 1 || desc.f == 3 {
                // Nested replication or sequence
                return Ok(None);
            } else {
                return Err(Error::Parse(ParseReason::InvalidF(desc.f)));
            }
            i += 1;
        }
        if compiler_state.temp_operator.is_some() {
            return Ok(None);
        }
        Ok(Some(CompiledLayout { fields, bits_per_element: total_bits }))
    }

    /// Fast path: decodes all repetitions of a compiled layout and appends
    /// one array per field.
    pub fn parse_compiled_array<'c>(
        &self,
        layout: &CompiledLayout<'c>,
        repeat_count: usize,
        data: &mut BitInput<'_>,
        values: &mut BUFRParsed<'c>,
    ) -> (r: Result<(), Error>)
        ensures
            final(data).data() == old(data).data(),
            match read_cells(
                layout@.fields,
                old(data).data(),
                old(data).position(),
                (repeat_count * layout@.fields.len()) as nat,
            ) {
                Ok(cells) => r is Ok && final(data).position() == cells.pos && final(values)@ == old(
                    values,
                )@ + array_records(
                    layout@.fields,
                    cells.samples,
                    repeat_count as int,
                    layout@.fields.len() as int,
                ),
                Err(e) => r == Err::<(), Error>(e) && final(data).position() == old(
                    data,
                ).position() && final(values)@ == old(values)@,
            },
    {
        let nf = layout.fields.len();
        let saved = *data;
        let ghost fields = layout@.fields;
        let ghost bytes = data.data();
        let ghost pos0 = data.position();
        let ghost out0 = values@;
        let ghost total = (repeat_count * nf) as nat;
        let mut samples: Vec<Option<Scaled>> = Vec::new();
        let mut rep: usize = 0;
        // For each repetition
        while rep < repeat_count
            invariant
                rep <= repeat_count,
                nf == layout.fields@.len(),
                fields == layout@.fields,
                fields.len() == nf,
                total == repeat_count * nf,
                data.data() == bytes,
                bytes == old(data).data(),
                pos0 == old(data).position(),
                saved.data() == bytes,
                saved.position() == pos0,
                values@ == old(values)@,
                samples@.len() == rep * nf,
                read_cells(fields, bytes, pos0, (rep * nf) as nat) == Ok::<Cells, Error>(
                    Cells { samples: samples@, pos: data.position() },
                ),
            decreases repeat_count - rep,
        {
            let mut j: usize = 0;
            // For each field in the layout
            while j < nf
                invariant
                    j <= nf,
                    rep < repeat_count,
                    nf == layout.fields@.len(),
                    fields == layout@.fields,
                    fields.len() == nf,
                    total == repeat_count * nf,
                    data.data() == bytes,
                    bytes == old(data).data(),
                    pos0 == old(data).position(),
                    saved.data() == bytes,
                    saved.position() == pos0,
                    values@ == old(values)@,
                    samples@.len() == rep * nf + j,
                    read_cells(fields, bytes, pos0, (rep * nf + j) as nat) == Ok::<Cells, Error>(
                        Cells { samples: samples@, pos: data.position() },
                    ),
                decreases nf - j,
            {
                let field_spec = &layout.fields[j];
                let ghost done = (rep * nf + j) as nat;
                proof {
                    assert(fields[j as int] == field_spec@);
                    vstd::arithmetic::div_mod::lemma_fundamental_div_mod_converse(
                        done as int,
                        nf as int,
                        rep as int,
                        j as int,
                    );
                    assert(done + 1 <= total) by (nonlinear_arith)
                        requires
                            done == rep * nf + j,
                            total == repeat_count * nf,
                            rep < repeat_count,
                            j < nf,
                    ;
                }
                let raw_value = match data.get_arbitary_bits(field_spec.width_bits as usize) {
                    Ok(v) => v,
                    Err(e) => {
                        proof {
                            lemma_read_cells_fails_on(fields, bytes, pos0, done + 1, total);
                        }
                        // Nothing was read: the cursor goes back.
                        *data = saved;
                        return Err(e);
                    },
                };
                // The counters of delayed replications are never missing.
                let value = if raw_value == field_spec.missing_value && !(field_spec.fxy.f == 0
                    && field_spec.fxy.x == 31) {
                    None
                } else {
                    Some(
                        Scaled {
                            raw: raw_value,
                            reference: field_spec.reference,
                            scale: field_spec.scale,
                        },
                    )
                };
                samples.push(value);
                j += 1;
            }
            proof {
                assert(rep * nf + nf == (rep + 1) * nf) by (nonlinear_arith);
            }
            rep += 1;
        }
        let mut j: usize = 0;
        let cells = samples.len();
        proof {
            assert(values@ =~= out0 + array_records(fields, samples@, repeat_count as int, 0));
        }
        while j < nf
            invariant
                j <= nf,
                nf == layout.fields@.len(),
                fields == layout@.fields,
                fields.len() == nf,
                samples@.len() == repeat_count * nf,
                samples@.len() == cells,
                values@ == out0 + array_records(fields, samples@, repeat_count as int, j as int),
            decreases nf - j,
        {
            let field = &layout.fields[j];
            let mut v: Vec<Option<Scaled>> = Vec::with_capacity(repeat_count);
            let mut rep: usize = 0;
            while rep < repeat_count
                invariant
                    rep <= repeat_count,
                    j < nf,
                    samples@.len() == repeat_count * nf,
                    samples@.len() == cells,
                    v@.len() == rep,
                    forall|k: int| 0 <= k < rep ==> #[trigger] v@[k] == samples@[k * nf + j],
                decreases repeat_count - rep,
            {
                proof {
                    assert(rep * nf + j < repeat_count * nf) by (nonlinear_arith)
                        requires
                            rep < repeat_count,
                            j < nf,
                    ;
                    assert(rep * nf <= repeat_count * nf) by (nonlinear_arith)
                        requires
                            rep < repeat_count,
                    ;
                }
                v.push(samples[rep * nf + j]);
                rep += 1;
            }
            proof {
                assert(v@ =~= column(samples@, nf as int, repeat_count as int, j as int));
                assert(fields[j as int] == field@);
            }
            let ghost before = values@;
            values.push_array(v, field.name, field.unit);
            proof {
                assert(values@ =~= out0 + array_records(
                    fields,
                    samples@,
                    repeat_count as int,
                    j + 1,
                ));
            }
            j += 1;
        }
        Ok(())
    }

    /// Applies an operator of the walk: 2-05-Y reads a string of Y bytes
    /// into the output, every other operator changes the state alone.
    pub fn deal_with_operator<'c>(
        &self,
        state: &mut State,
        values: &mut BUFRParsed<'c>,
        operator: &FXY,
        data: &mut BitInput<'_>,
    ) -> (r: Result<(), Error>)
        ensures
            final(data).data() == old(data).data(),
            operator.x != 5 ==> r is Ok && *final(state) == apply_operator(
                *old(state),
                operator.x,
                operator.y,
            ) && final(values)@ == old(values)@ && final(data).position() == old(data).position(),
            r is Err ==> final(values)@ == old(values)@ && final(data).position() == old(
                data,
            ).position(),
            operator.x == 5 ==> *final(state) == *old(state) && ({
                let n = operator_bytes(operator.y) as nat;
                let text = crate::bits::octets(old(data).data(), old(data).position() as int, n);
                if old(data).position() + 8 * n > 8 * old(data).data().len() {
                    r == Err::<(), Error>(Error::Underflow)
                } else if !vstd::utf8::valid_utf8(text) {
                    r == Err::<(), Error>(Error::InvalidUtf8)
                } else {
                    &&& r is Ok
                    &&& final(data).position() == old(data).position() + 8 * n
                    &&& final(values)@ == old(values)@.push(
                        single_record(
                            ValueModel::Text(vstd::utf8::decode_utf8(text)),
                            ""@,
                            "CAITT IA5"@,
                        ),
                    )
                }
            }),
    {
        let x = operator.x;
        let y = operator.y;
        if x == 1 {
            state.common_data_width = if y == 0 {
                None
            } else {
                Some(y)
            };
        } else if x == 2 {
            state.common_scale = if y == 0 {
                None
            } else {
                Some(y)
            };
        } else if x == 3 {
            state.common_ref_value = if y == 0 {
                None
            } else {
                Some(y)
            };
        } else if x == 5 {
            let nbytes = if y < 0 {
                usize::MAX
            } else {
                y as usize
            };
            match data.take_string(nbytes) {
                Ok(string) => {
                    values.push(Value::String(string), "", "CAITT IA5");
                },
                Err(e) => {
                    return Err(e);
                },
            }
        } else if x == 6 {
            state.local_data_width = Some(y);
        } else if x == 7 {
            state.temp_operator = Some(y);
        } else if x == 8 {
            state.common_str_width = if y == 0 {
                None
            } else if y < 0 {
                Some(usize::MAX)
            } else {
                Some(y as usize)
            };
        }
        Ok(())
    }

    /// A step on a replication frame: starts the next run of the body, if
    /// one is left.
    pub fn parse_repeating<'k, 'c>(
        &self,
        times: usize,
        current: usize,
        descs: &'k [FXY],
        stack: &mut Vec<Frame<'k, 'c>>,
    )
        ensures
            frames(final(stack)@) == stack_after_repeat(
                frames(old(stack)@),
                descs@,
                times as int,
                current as int,
            ),
    {
        if current >= times {
            return ;
        }
        let ghost before = frames(stack@);
        stack.push(Frame::Repeat { descs, times, current: current + 1 });
        stack.push(Frame::Slice { descs, idx: 0 });
        proof {
            assert(frames(stack@) =~= before.push(
                FrameModel::Repeat { descs: descs@, times: times as int, current: current + 1 },
            ).push(FrameModel::Slice { descs: descs@, idx: 0 }));
        }
    }

    /// A step on descriptor `idx` of a list.
    pub fn parse_slice<'k, 'c>(
        &self,
        des: &FXY,
        idx: usize,
        values: &mut BUFRParsed<'c>,
        descs: &'k [FXY],
        stack: &mut Vec<Frame<'k, 'c>>,
        cache: &Cache<'c>,
        state: &mut State,
        data: &mut BitInput<'_>,
    ) -> (r: Result<(), Error>) where 'c: 'k
        requires
            idx < descs@.len(),
            *des == descs@[idx as int],
        ensures
            final(data).data() == old(data).data(),
            match step_slice(
                *cache,
                old(data).data(),
                Machine {
                    stack: frames(old(stack)@),
                    pos: old(data).position(),
                    state: *old(state),
                    out: old(values)@,
                },
                descs@,
                idx as int,
            ) {
                Ok(next) => r is Ok && next == (Machine {
                    stack: frames(final(stack)@),
                    pos: final(data).position(),
                    state: *final(state),
                    out: final(values)@,
                }),
                Err(e) => {
                    &&& r == Err::<(), Error>(e)
                    &&& *final(state) == *old(state)
                    &&& final(values)@ == old(values)@
                    &&& frames(final(stack)@) == frames(old(stack)@)
                    &&& final(data).position() == old(data).position()
                },
            },
    {
        let ghost below = frames(stack@);
        let len = descs.len();
        if des.f == 0 {
            // Element descriptor: read its value.
            match cache.get_b(des) {
                Some(e) => {
                    let value = match self.evalute(state, data, e) {
                        Ok(v) => v,
                        Err(err) => {
                            return Err(err);
                        },
                    };
                    values.push(value, e.element_name_en.as_str(), e.bufr_unit.as_str());
                    state.temp_operator = None;
                    state.local_data_width = None;
                    stack.push(Frame::Slice { descs, idx: idx + 1 });
                    proof {
                        assert(frames(stack@) =~= below.push(
                            FrameModel::Slice { descs: descs@, idx: idx + 1 },
                        ));
                    }
                },
                None => {
                    return Err(Error::Parse(ParseReason::UnknownElement(*des)));
                },
            }
        } else if des.f == 1 {
            if des.x < 0 || des.y < 0 {
                return Err(Error::Parse(ParseReason::BadReplication));
            }
            let x = des.x as usize;
            let mut y = des.y as usize;
            let delay_repeat = y == 0;
            let saved = *data;
            if delay_repeat {
                if idx + 1 >= len {
                    return Err(Error::Parse(ParseReason::CounterMissing));
                }
                let count_des = &descs[idx + 1];
                y = match self.parse_usize(state, cache, count_des, data) {
                    Ok(count) => count,
                    Err(err) => {
                        return Err(err);
                    },
                };
            }
            let body_start = if delay_repeat {
                idx + 2
            } else {
                idx + 1
            };
            if x > len - body_start {
                *data = saved;
                return Err(Error::Parse(ParseReason::ProgramTruncated));
            }
            let body_end = body_start + x;
            let body = slice_subrange(descs, body_start, body_end);
            let compiled_layout = match self.try_compile_array_layout(body, y, cache) {
                Ok(l) => l,
                Err(err) => {
                    *data = saved;
                    return Err(err);
                },
            };
            stack.push(Frame::Slice { descs, idx: body_end });
            let frame = match compiled_layout {
                Some(layout) => Frame::CompiledArray { layout, times: y },
                // Not eligible: interpret the body.
                None => Frame::Repeat { descs: body, times: y, current: 0 },
            };
            let ghost top = frame@;
            stack.push(frame);
            proof {
                assert(frames(stack@) =~= below.push(
                    FrameModel::Slice { descs: descs@, idx: body_end as int },
                ).push(top));
            }
        } else if des.f == 2 {
            match self.deal_with_operator(state, values, des, data) {
                Ok(()) => {},
                Err(err) => {
                    return Err(err);
                },
            }
            stack.push(Frame::Slice { descs, idx: idx + 1 });
            proof {
                assert(frames(stack@) =~= below.push(
                    FrameModel::Slice { descs: descs@, idx: idx + 1 },
                ));
            }
        } else if des.f == 3 {
            match cache.get_d(des) {
                Some(seq) => {
                    let fxy_chain: &'c [FXY] = seq.fxy_chain.as_slice();
                    stack.push(Frame::Slice { descs, idx: idx + 1 });
                    stack.push(Frame::Slice { descs: fxy_chain, idx: 0 });
                    proof {
                        assert(frames(stack@) =~= below.push(
                            FrameModel::Slice { descs: descs@, idx: idx + 1 },
                        ).push(FrameModel::Slice { descs: seq.fxy_chain@, idx: 0 }));
                    }
                },
                None => {
                    return Err(Error::Parse(ParseReason::UnknownSequence(*des)));
                },
            }
        } else {
            return Err(Error::Parse(ParseReason::InvalidF(des.f)));
        }
        Ok(())
    }

    /// Decodes a message: walks the descriptors of its section 3 over the
    /// payload of its section 4.
    pub fn decode<'c, V: MessageVersion>(&'c self, message: &V) -> (r: Result<BUFRParsed<'c>, Error>)
        ensures
            match decode_program(
                self.tables(),
                descriptors_of(message.descriptor_bytes()),
                message.payload(),
                MAX_STEPS as nat,
                MAX_DEPTH as nat,
            ) {
                Ok(out) => r is Ok && r->Ok_0@ == out,
                Err(e) => r is Err && r->Err_0 == e,
            },
    {
        let data_block = match message.data_block() {
            Ok(d) => d,
            Err(e) => {
                return Err(e);
            },
        };
        let descriptors = match message.descriptors() {
            Ok(d) => d,
            Err(e) => {
                return Err(e);
            },
        };
        self.decode_descriptors(descriptors.as_slice(), data_block, MAX_STEPS, MAX_DEPTH)
    }

    /// One step of the walk on a frame that was taken off the stack.
    pub fn advance<'k, 'c>(
        &self,
        frame: Frame<'k, 'c>,
        values: &mut BUFRParsed<'c>,
        stack: &mut Vec<Frame<'k, 'c>>,
        cache: &Cache<'c>,
        state: &mut State,
        data: &mut BitInput<'_>,
    ) -> (r: Result<(), Error>) where 'c: 'k
        ensures
            final(data).data() == old(data).data(),
            match step(
                *cache,
                old(data).data(),
                Machine {
                    stack: frames(old(stack)@).push(frame@),
                    pos: old(data).position(),
                    state: *old(state),
                    out: old(values)@,
                },
            ) {
                Ok(next) => r is Ok && next == (Machine {
                    stack: frames(final(stack)@),
                    pos: final(data).position(),
                    state: *final(state),
                    out: final(values)@,
                }),
                Err(e) => {
                    &&& r == Err::<(), Error>(e)
                    &&& *final(state) == *old(state)
                    &&& final(values)@ == old(values)@
                    &&& frames(final(stack)@) == frames(old(stack)@)
                    &&& final(data).position() == old(data).position()
                },
            },
    {
        proof {
            let on = frames(stack@).push(frame@);
            assert(on.drop_last() =~= frames(stack@));
            assert(on.last() == frame@);
        }
        match frame {
            Frame::Slice { descs, idx } => {
                if idx >= descs.len() {
                    return Ok(());
                }
                let des = &descs[idx];
                self.parse_slice(des, idx, values, descs, stack, cache, state, data)
            },
            Frame::Repeat { descs, times, current } => {
                self.parse_repeating(times, current, descs, stack);
                Ok(())
            },
            Frame::CompiledArray { layout, times } => {
                self.parse_compiled_array(&layout, times, data, values)
            },
        }
    }

    /// Decodes a descriptor program against a payload, in at most
    /// `max_steps` steps of the walk and with at most `max_depth` frames on
    /// its stack.
    pub fn decode_descriptors<'k, 'c>(
        &'c self,
        descriptors: &'k [FXY],
        data_block: &[u8],
        max_steps: u64,
        max_depth: usize,
    ) -> (r: Result<BUFRParsed<'c>, Error>) where 'c: 'k
        ensures
            match decode_program(
                self.tables(),
                descriptors@,
                data_block@,
                max_steps as nat,
                max_depth as nat,
            ) {
                Ok(out) => r is Ok && r->Ok_0@ == out,
                Err(e) => r is Err && r->Err_0 == e,
            },
    {
        let mut data_input = BitInput::new(data_block);
        let mut record = BUFRParsed::new();
        let mut state = State::new();
        let cache = Cache::new(
            &self.master_b,
            &self.master_d,
            self.local_b.as_ref(),
            self.local_d.as_ref(),
        );
        assert(cache == self.tables());
        let mut stack: Vec<Frame<'k, 'c>> = Vec::new();
        stack.push(Frame::Slice { descs: descriptors, idx: 0 });
        let mut fuel = max_steps;
        let ghost goal = decode_program(
            cache,
            descriptors@,
            data_block@,
            max_steps as nat,
            max_depth as nat,
        );
        proof {
            assert(frames(stack@) =~= start(descriptors@).stack);
        }
        loop
            invariant
                data_input.data() == data_block@,
                cache == self.tables(),
                goal == decode_program(
                    self.tables(),
                    descriptors@,
                    data_block@,
                    max_steps as nat,
                    max_depth as nat,
                ),
                goal == run(
                    cache,
                    data_block@,
                    Machine {
                        stack: frames(stack@),
                        pos: data_input.position(),
                        state,
                        out: record@,
                    },
                    fuel as nat,
                    max_depth as nat,
                ),
            ensures
                goal == Ok::<Seq<RecordModel>, Error>(record@),
            decreases fuel,
        {
            let ghost before = stack@;
            let frame = match stack.pop() {
                Some(f) => f,
                None => {
                    break ;
                },
            };
            assert(frames(before).len() == stack@.len() + 1);
            if fuel == 0 || stack.len() >= max_depth {
                return Err(Error::Parse(ParseReason::ProgramTruncated));
            }
            fuel -= 1;
            proof {
                assert(frames(stack@).push(frame@) =~= frames(before));
            }
            match self.advance(frame, &mut record, &mut stack, &cache, &mut state, &mut data_input) {
                Ok(()) => {},
                Err(e) => {
                    return Err(e);
                },
            }
        }
        Ok(record)
    }
}

/// Once reading the cells of a compiled array has failed, reading more of
/// them fails in the same way.
pub proof fn lemma_read_cells_fails_on(
    fields: Seq<FieldModel>,
    data: Seq<u8>,
    pos: nat,
    n: nat,
    m: nat,
)
    requires
        n <= m,
        read_cells(fields, data, pos, n) is Err,
    ensures
        read_cells(fields, data, pos, m) == read_cells(fields, data, pos, n),
    decreases m,
{
    if n < m {
        lemma_read_cells_fails_on(fields, data, pos, n, (m - 1) as nat);
    }
}

} // verus!
