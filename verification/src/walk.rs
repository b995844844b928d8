//! The descriptor walk as a state machine: what one step of the interpreter
//! does to the stack of frames, the bit cursor, the operator state and the
//! output. The decoder is verified against this model.

use vstd::prelude::*;
use vstd::arithmetic::power2::pow2;
use vstd::utf8::{valid_utf8, decode_utf8};
use crate::bits::{octets, read_bits};
use crate::cache::Cache;
use crate::errors::{Error, ParseReason};
use crate::fxy::FXY;
use crate::record::{array_record, single_record, RecordModel, Scaled, ValueModel};
use crate::state::{is_counter, is_text_unit, pow10, State};
use crate::tables::BTableEntry;

verus! {

/// The parameters that decode one slot of a compiled array.
#[derive(Clone, Copy, Debug)]
pub struct FieldSpec<'a> {
    pub fxy: FXY,
    pub name: &'a str,
    pub unit: &'a str,
    pub width_bits: u32,
    pub scale: i32,
    pub reference: i32,
    /// The raw value that stands for "missing": all bits of the width set.
    pub missing_value: u64,
}

pub struct FieldModel {
    pub fxy: FXY,
    pub name: Seq<char>,
    pub unit: Seq<char>,
    pub width_bits: u32,
    pub scale: i32,
    pub reference: i32,
    pub missing_value: u64,
}

impl<'a> View for FieldSpec<'a> {
    type V = FieldModel;

    open spec fn view(&self) -> FieldModel {
        FieldModel {
            fxy: self.fxy,
            name: self.name@,
            unit: self.unit@,
            width_bits: self.width_bits,
            scale: self.scale,
            reference: self.reference,
            missing_value: self.missing_value,
        }
    }
}

/// The layout of one repetition of a replicated body.
#[derive(Clone, Debug)]
pub struct CompiledLayout<'a> {
    pub fields: Vec<FieldSpec<'a>>,
    /// The bits of one repetition, capped at the largest `usize`.
    pub bits_per_element: usize,
}

pub struct LayoutModel {
    pub fields: Seq<FieldModel>,
    pub bits_per_element: usize,
}

impl<'a> View for CompiledLayout<'a> {
    type V = LayoutModel;

    open spec fn view(&self) -> LayoutModel {
        LayoutModel {
            fields: self.fields@.map_values(|f: FieldSpec<'a>| f@),
            bits_per_element: self.bits_per_element,
        }
    }
}

/// A frame of the walker's stack.
pub enum Frame<'k, 'c> {
    /// A cursor into a descriptor list: `idx` is the next descriptor.
    Slice { descs: &'k [FXY], idx: usize },
    /// A replicated body of which `current` of `times` runs have begun.
    Repeat { descs: &'k [FXY], times: usize, current: usize },
    /// A replicated body with a compiled layout.
    CompiledArray { layout: CompiledLayout<'c>, times: usize },
}

pub enum FrameModel {
    Slice { descs: Seq<FXY>, idx: int },
    Repeat { descs: Seq<FXY>, times: int, current: int },
    CompiledArray { layout: LayoutModel, times: int },
}

impl<'k, 'c> View for Frame<'k, 'c> {
    type V = FrameModel;

    open spec fn view(&self) -> FrameModel {
        match self {
            Frame::Slice { descs, idx } => FrameModel::Slice { descs: descs@, idx: *idx as int },
            Frame::Repeat { descs, times, current } => FrameModel::Repeat {
                descs: descs@,
                times: *times as int,
                current: *current as int,
            },
            Frame::CompiledArray { layout, times } => FrameModel::CompiledArray {
                layout: layout@,
                times: *times as int,
            },
        }
    }
}

/// The walker between two steps. The top of the stack is its last frame.
pub struct Machine {
    pub stack: Seq<FrameModel>,
    /// The bits consumed so far.
    pub pos: nat,
    pub state: State,
    pub out: Seq<RecordModel>,
}

/// The raw value with all `width` bits set.
pub open spec fn all_ones(width: nat) -> u64 {
    if width >= 64 {
        u64::MAX
    } else {
        (pow2(width) - 1) as u64
    }
}

/// The value of a numeric element: missing where every bit read is 1 and
/// the element is no delayed-replication counter, else the number.
pub open spec fn numeric_value(raw: u64, width: nat, counter: bool, reference: i32, scale: i32)
    -> ValueModel {
    if raw == all_ones(width) && !counter {
        ValueModel::Missing
    } else {
        ValueModel::Number(Scaled { raw, reference, scale })
    }
}

/// The length in bytes of a character element: the string-width override
/// where one is set, else the base width rounded up to whole bytes.
pub open spec fn text_bytes(state: State, e: BTableEntry) -> nat {
    match state.common_str_width {
        Some(w) => w as nat,
        None => ((e.bufr_datawidth_bits as nat) + 7) / 8,
    }
}

/// Reading one element at bit `pos` under a state: its value and the
/// position behind it.
pub open spec fn eval_element(state: State, data: Seq<u8>, pos: nat, e: BTableEntry) -> Result<
    (ValueModel, nat),
    Error,
> {
    if is_text_unit(e.bufr_unit@) {
        let n = text_bytes(state, e);
        if pos + 8 * n > 8 * data.len() {
            Err(Error::Underflow)
        } else if !valid_utf8(octets(data, pos as int, n)) {
            Err(Error::InvalidUtf8)
        } else {
            Ok((ValueModel::Text(decode_utf8(octets(data, pos as int, n))), pos + 8 * n))
        }
    } else {
        let width = state.spec_datawidth(e) as nat;
        match read_bits(data, pos, width) {
            Err(err) => Err(err),
            Ok(raw) => Ok(
                (
                    numeric_value(
                        raw,
                        width,
                        is_counter(e),
                        state.spec_reference_value(e),
                        state.spec_scale(e),
                    ),
                    pos + width,
                ),
            ),
        }
    }
}

/// A number cut to the range of `usize`.
pub open spec fn cap(v: int) -> int {
    if v > usize::MAX {
        usize::MAX as int
    } else {
        v
    }
}

/// The repeat count that a decoded counter stands for: the number rounded
/// down, zero where it is negative, capped at the largest `usize`.
pub open spec fn count_of(s: Scaled) -> int {
    let sum = s.raw + s.reference;
    if sum <= 0 {
        0
    } else if s.scale <= 0 {
        cap(sum * pow10((-s.scale) as nat))
    } else {
        cap(sum / (pow10(s.scale as nat) as int))
    }
}

/// The byte count that the Y of a string operator stands for.
pub open spec fn operator_bytes(y: i32) -> usize {
    if y < 0 {
        usize::MAX
    } else {
        y as usize
    }
}

/// An override as an operator sets it: cleared by Y = 0.
pub open spec fn override_of(y: i32) -> Option<i32> {
    if y == 0 {
        None
    } else {
        Some(y)
    }
}

/// The state after operator 2-X-Y.
pub open spec fn apply_operator(state: State, x: i32, y: i32) -> State {
    if x == 1 {
        State { common_data_width: override_of(y), ..state }
    } else if x == 2 {
        State { common_scale: override_of(y), ..state }
    } else if x == 3 {
        State { common_ref_value: override_of(y), ..state }
    } else if x == 6 {
        State { local_data_width: Some(y), ..state }
    } else if x == 7 {
        State { temp_operator: Some(y), ..state }
    } else if x == 8 {
        State {
            common_str_width: if y == 0 {
                None
            } else {
                Some(operator_bytes(y))
            },
            ..state
        }
    } else {
        state
    }
}

/// The state after an element: the one-shot overrides are used up.
pub open spec fn after_element(state: State) -> State {
    State { local_data_width: None, temp_operator: None, ..state }
}

/// The scale of a compiled field: the base scale under the scale override,
/// plus the one-shot adjustment.
pub open spec fn compiled_scale(cs: State, e: BTableEntry) -> i32 {
    match cs.temp_operator {
        Some(op) => cs.spec_common_scale(e).wrapping_add(op),
        None => cs.spec_common_scale(e),
    }
}

/// The compiled field of an element under the compiler's state.
pub open spec fn field_of(cs: State, desc: FXY, e: BTableEntry) -> FieldModel {
    FieldModel {
        fxy: desc,
        name: e.element_name_en@,
        unit: e.bufr_unit@,
        width_bits: cs.spec_datawidth(e),
        scale: compiled_scale(cs, e),
        reference: cs.spec_reference_value(e),
        missing_value: all_ones(cs.spec_datawidth(e) as nat),
    }
}

/// A sum of bit counts, capped at the largest `usize`.
pub open spec fn add_capped(a: usize, b: u32) -> usize {
    if a + b > usize::MAX {
        usize::MAX
    } else {
        (a + b) as usize
    }
}

/// Compiling a body from descriptor `i` on. `Ok(None)` says the body is not
/// eligible and has to be interpreted.
pub open spec fn compile_from(
    cache: Cache,
    body: Seq<FXY>,
    i: int,
    cs: State,
    fields: Seq<FieldModel>,
    bits: usize,
) -> Result<Option<LayoutModel>, Error>
    decreases body.len() - i,
{
    if i < 0 || i >= body.len() {
        if cs.temp_operator is Some {
            Ok(None)
        } else {
            Ok(Some(LayoutModel { fields, bits_per_element: bits }))
        }
    } else {
        let desc = body[i];
        if desc.f == 0 {
            match cache.element(desc) {
                None => Err(Error::Parse(ParseReason::UnknownElement(desc))),
                Some(e) => if is_text_unit(e.bufr_unit@) {
                    Ok(None)
                } else {
                    compile_from(
                        cache,
                        body,
                        i + 1,
                        after_element(cs),
                        fields.push(field_of(cs, desc, e)),
                        add_capped(bits, cs.spec_datawidth(e)),
                    )
                },
            }
        } else if desc.f == 2 {
            if desc.x == 5 || desc.x == 8 {
                Ok(None)
            } else {
                compile_from(cache, body, i + 1, apply_operator(cs, desc.x, desc.y), fields, bits)
            }
        } else if desc.f == 1 || desc.f == 3 {
            Ok(None)
        } else {
            Err(Error::Parse(ParseReason::InvalidF(desc.f)))
        }
    }
}

/// The layout of a replicated body, where it is eligible: at least 16
/// repetitions, only elements and operators, no strings, no string operator,
/// and no one-shot adjustment left over at the end.
pub open spec fn compile(cache: Cache, body: Seq<FXY>, count: int) -> Result<
    Option<LayoutModel>,
    Error,
> {
    if count < 16 {
        Ok(None)
    } else {
        compile_from(cache, body, 0, State::initial(), Seq::empty(), 0)
    }
}

/// The sample that a raw value of a compiled field stands for.
pub open spec fn sample_of(field: FieldModel, raw: u64) -> Option<Scaled> {
    if raw == field.missing_value && !(field.fxy.f == 0 && field.fxy.x == 31) {
        None
    } else {
        Some(Scaled { raw, reference: field.reference, scale: field.scale })
    }
}

/// The samples read so far of a compiled array, and the position behind
/// them.
pub struct Cells {
    pub samples: Seq<Option<Scaled>>,
    pub pos: nat,
}

/// Reading the first `n` cells of a compiled array, repetition by
/// repetition and field by field.
pub open spec fn read_cells(fields: Seq<FieldModel>, data: Seq<u8>, pos: nat, n: nat) -> Result<
    Cells,
    Error,
>
    decreases n,
{
    if n == 0 {
        Ok(Cells { samples: Seq::empty(), pos })
    } else {
        match read_cells(fields, data, pos, (n - 1) as nat) {
            Err(e) => Err(e),
            Ok(c) => {
                let f = fields[(n - 1) % (fields.len() as int)];
                match read_bits(data, c.pos, f.width_bits as nat) {
                    Err(e) => Err(e),
                    Ok(raw) => Ok(
                        Cells { samples: c.samples.push(sample_of(f, raw)), pos: c.pos + f.width_bits as nat },
                    ),
                }
            },
        }
    }
}

/// The samples of field `j`, one of each repetition.
pub open spec fn column(samples: Seq<Option<Scaled>>, fields: int, times: int, j: int) -> Seq<
    Option<Scaled>,
> {
    Seq::new(times as nat, |r: int| samples[r * fields + j])
}

/// The entries of the first `upto` fields of a compiled array.
pub open spec fn array_records(
    fields: Seq<FieldModel>,
    samples: Seq<Option<Scaled>>,
    times: int,
    upto: int,
) -> Seq<RecordModel> {
    Seq::new(
        upto as nat,
        |j: int|
            array_record(
                column(samples, fields.len() as int, times, j),
                fields[j].name,
                fields[j].unit,
            ),
    )
}

/// A step on a compiled array: all its cells are read and every field
/// becomes one entry.
pub open spec fn step_array(data: Seq<u8>, m: Machine, layout: LayoutModel, times: int) -> Result<
    Machine,
    Error,
> {
    let n = layout.fields.len();
    match read_cells(layout.fields, data, m.pos, (times * n) as nat) {
        Err(e) => Err(e),
        Ok(cells) => Ok(
            Machine {
                pos: cells.pos,
                out: m.out + array_records(layout.fields, cells.samples, times, n as int),
                ..m
            },
        ),
    }
}

/// The stack behind a step on a replication frame: another run of the body
/// on top of the frame for the runs that are left, or the stack as it is
/// once all runs have begun.
pub open spec fn stack_after_repeat(
    stack: Seq<FrameModel>,
    descs: Seq<FXY>,
    times: int,
    current: int,
) -> Seq<FrameModel> {
    if current >= times {
        stack
    } else {
        stack.push(FrameModel::Repeat { descs, times, current: current + 1 }).push(
            FrameModel::Slice { descs, idx: 0 },
        )
    }
}

/// A step on a replication frame: it changes the stack alone.
pub open spec fn step_repeat(m: Machine, descs: Seq<FXY>, times: int, current: int) -> Machine {
    Machine { stack: stack_after_repeat(m.stack, descs, times, current), ..m }
}

/// A step on an element descriptor.
pub open spec fn step_element(cache: Cache, data: Seq<u8>, m: Machine, descs: Seq<FXY>, idx: int)
    -> Result<Machine, Error> {
    let des = descs[idx];
    match cache.element(des) {
        None => Err(Error::Parse(ParseReason::UnknownElement(des))),
        Some(e) => match eval_element(m.state, data, m.pos, e) {
            Err(err) => Err(err),
            Ok((value, pos)) => Ok(
                Machine {
                    stack: m.stack.push(FrameModel::Slice { descs, idx: idx + 1 }),
                    pos,
                    state: after_element(m.state),
                    out: m.out.push(single_record(value, e.element_name_en@, e.bufr_unit@)),
                },
            ),
        },
    }
}

/// The repeat count that the counter element of a delayed replication
/// gives, and the position behind it. The counter is read like any element;
/// it leaves the state as it is and adds nothing to the output.
pub open spec fn counter_value(cache: Cache, data: Seq<u8>, state: State, pos: nat, counter: FXY)
    -> Result<(int, nat), Error> {
    if counter.f != 0 {
        Err(Error::Parse(ParseReason::UnknownElement(counter)))
    } else {
        match cache.element(counter) {
            None => Err(Error::Parse(ParseReason::UnknownElement(counter))),
            Some(e) => match eval_element(state, data, pos, e) {
                Err(err) => Err(err),
                Ok((value, after)) => match value {
                    ValueModel::Number(s) => Ok((count_of(s), after)),
                    _ => Err(Error::Parse(ParseReason::CounterNotNumeric)),
                },
            },
        }
    }
}

/// The repeat count of a replication descriptor at `idx`, and the position
/// behind its counter: the Y of the descriptor, or for Y = 0 the value of
/// the counter element that follows.
pub open spec fn replication_count(
    cache: Cache,
    data: Seq<u8>,
    m: Machine,
    descs: Seq<FXY>,
    idx: int,
) -> Result<(int, nat), Error> {
    let des = descs[idx];
    if des.y != 0 {
        Ok((des.y as int, m.pos))
    } else if idx + 1 >= descs.len() {
        Err(Error::Parse(ParseReason::CounterMissing))
    } else {
        counter_value(cache, data, m.state, m.pos, descs[idx + 1])
    }
}

/// A step on a replication descriptor: the body of X descriptors is
/// compiled where it is eligible, else set up to be interpreted.
pub open spec fn step_replication(
    cache: Cache,
    data: Seq<u8>,
    m: Machine,
    descs: Seq<FXY>,
    idx: int,
) -> Result<Machine, Error> {
    let des = descs[idx];
    if des.x < 0 || des.y < 0 {
        Err(Error::Parse(ParseReason::BadReplication))
    } else {
        match replication_count(cache, data, m, descs, idx) {
            Err(e) => Err(e),
            Ok((count, pos)) => {
                let body_start = if des.y == 0 {
                    idx + 2
                } else {
                    idx + 1
                };
                let body_end = body_start + des.x;
                if body_end > descs.len() {
                    Err(Error::Parse(ParseReason::ProgramTruncated))
                } else {
                    let body = descs.subrange(body_start, body_end);
                    match compile(cache, body, count) {
                        Err(e) => Err(e),
                        Ok(compiled) => {
                            let rest = m.stack.push(FrameModel::Slice { descs, idx: body_end });
                            let frame = match compiled {
                                Some(layout) => FrameModel::CompiledArray { layout, times: count },
                                None => FrameModel::Repeat { descs: body, times: count, current: 0 },
                            };
                            Ok(Machine { stack: rest.push(frame), pos, ..m })
                        },
                    }
                }
            },
        }
    }
}

/// A step on an operator descriptor. Operator 2-05-Y reads a string of Y
/// bytes into the output; every other operator changes the state alone.
pub open spec fn step_operator(data: Seq<u8>, m: Machine, descs: Seq<FXY>, idx: int) -> Result<
    Machine,
    Error,
> {
    let des = descs[idx];
    let stack = m.stack.push(FrameModel::Slice { descs, idx: idx + 1 });
    if des.x == 5 {
        let n = operator_bytes(des.y) as nat;
        if m.pos + 8 * n > 8 * data.len() {
            Err(Error::Underflow)
        } else if !valid_utf8(octets(data, m.pos as int, n)) {
            Err(Error::InvalidUtf8)
        } else {
            Ok(
                Machine {
                    stack,
                    pos: m.pos + 8 * n,
                    out: m.out.push(
                        single_record(
                            ValueModel::Text(decode_utf8(octets(data, m.pos as int, n))),
                            ""@,
                            "CAITT IA5"@,
                        ),
                    ),
                    ..m
                },
            )
        }
    } else {
        Ok(Machine { stack, state: apply_operator(m.state, des.x, des.y), ..m })
    }
}

/// A step on a sequence descriptor: the walk goes on in its chain and comes
/// back behind the descriptor.
pub open spec fn step_sequence(cache: Cache, m: Machine, descs: Seq<FXY>, idx: int) -> Result<
    Machine,
    Error,
> {
    let des = descs[idx];
    match cache.sequence(des) {
        None => Err(Error::Parse(ParseReason::UnknownSequence(des))),
        Some(seq) => Ok(
            Machine {
                stack: m.stack.push(FrameModel::Slice { descs, idx: idx + 1 }).push(
                    FrameModel::Slice { descs: seq.fxy_chain@, idx: 0 },
                ),
                ..m
            },
        ),
    }
}

/// A step on descriptor `idx` of a list, by its F.
pub open spec fn step_slice(cache: Cache, data: Seq<u8>, m: Machine, descs: Seq<FXY>, idx: int)
    -> Result<Machine, Error> {
    let des = descs[idx];
    if des.f == 0 {
        step_element(cache, data, m, descs, idx)
    } else if des.f == 1 {
        step_replication(cache, data, m, descs, idx)
    } else if des.f == 2 {
        step_operator(data, m, descs, idx)
    } else if des.f == 3 {
        step_sequence(cache, m, descs, idx)
    } else {
        Err(Error::Parse(ParseReason::InvalidF(des.f)))
    }
}

/// One step of the walk: the top frame is taken off the stack and worked
/// on.
pub open spec fn step(cache: Cache, data: Seq<u8>, m: Machine) -> Result<Machine, Error> {
    let below = Machine { stack: m.stack.drop_last(), ..m };
    match m.stack.last() {
        FrameModel::Slice { descs, idx } => if idx >= descs.len() {
            Ok(below)
        } else {
            step_slice(cache, data, below, descs, idx)
        },
        FrameModel::Repeat { descs, times, current } => Ok(
            step_repeat(below, descs, times, current),
        ),
        FrameModel::CompiledArray { layout, times } => step_array(data, below, layout, times),
    }
}

/// The walk from a machine on, for at most `fuel` steps and with at most
/// `depth` frames on the stack: the output once the stack is empty, the
/// error of the step that fails, or `ProgramTruncated` where the steps run
/// out or the stack grows beyond its bound, as it does without end where a
/// sequence contains itself.
pub open spec fn run(cache: Cache, data: Seq<u8>, m: Machine, fuel: nat, depth: nat) -> Result<
    Seq<RecordModel>,
    Error,
>
    decreases fuel,
{
    if m.stack.len() == 0 {
        Ok(m.out)
    } else if fuel == 0 || m.stack.len() > depth {
        Err(Error::Parse(ParseReason::ProgramTruncated))
    } else {
        match step(cache, data, m) {
            Err(e) => Err(e),
            Ok(next) => run(cache, data, next, (fuel - 1) as nat, depth),
        }
    }
}

/// The machine at the start of a program.
pub open spec fn start(descriptors: Seq<FXY>) -> Machine {
    Machine {
        stack: seq![FrameModel::Slice { descs: descriptors, idx: 0 }],
        pos: 0,
        state: State::initial(),
        out: Seq::empty(),
    }
}

/// What decoding a descriptor program against a payload gives.
pub open spec fn decode_program(
    cache: Cache,
    descriptors: Seq<FXY>,
    data: Seq<u8>,
    fuel: nat,
    depth: nat,
) -> Result<Seq<RecordModel>, Error> {
    run(cache, data, start(descriptors), fuel, depth)
}

} // verus!
