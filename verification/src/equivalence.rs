//! The compiled and the interpreted decode of a replicated body give the
//! same values.

use vstd::prelude::*;
use vstd::arithmetic::div_mod::lemma_fundamental_div_mod_converse;
use crate::bits::read_bits;
use crate::cache::Cache;
use crate::decoder::lemma_read_cells_fails_on;
use crate::errors::Error;
use crate::fxy::FXY;
use crate::record::{single_record, RecordModel, Scaled, ValueModel};
use crate::state::{is_text_unit, State};
use crate::tables::TableEntry;
use crate::walk::{add_capped, after_element, apply_operator, array_records, compile, compile_from, compiled_scale, field_of, read_cells, step, step_array, step_element, step_operator, step_repeat, step_slice, Cells, FieldModel, FrameModel, LayoutModel, Machine};

verus! {

/// `n` steps of the walk; the error of the first step that fails.
pub open spec fn steps(cache: Cache, data: Seq<u8>, m: Machine, n: nat) -> Result<Machine, Error>
    decreases n,
{
    if n == 0 {
        Ok(m)
    } else {
        match step(cache, data, m) {
            Err(e) => Err(e),
            Ok(next) => steps(cache, data, next, (n - 1) as nat),
        }
    }
}

/// The part of two states that decides how numbers are read: the width and
/// scale overrides and the two one-shot overrides are the same.
pub open spec fn agree(a: State, b: State) -> bool {
    &&& a.common_scale == b.common_scale
    &&& a.common_data_width == b.common_data_width
    &&& a.local_data_width == b.local_data_width
    &&& a.temp_operator == b.temp_operator
}

/// No override that changes how numbers are read is in force.
pub open spec fn neutral(s: State) -> bool {
    agree(s, State::initial())
}

/// The state behind one descriptor of an eligible body.
pub open spec fn behind(s: State, desc: FXY) -> State {
    if desc.f == 0 {
        after_element(s)
    } else if desc.f == 2 {
        apply_operator(s, desc.x, desc.y)
    } else {
        s
    }
}

/// The state behind the first `j` descriptors of a body.
pub open spec fn state_at(body: Seq<FXY>, j: int, s: State) -> State
    decreases j,
{
    if j <= 0 {
        s
    } else {
        behind(state_at(body, j - 1, s), body[j - 1])
    }
}

/// The fields that the compiler makes of the first `j` descriptors.
pub open spec fn fields_before(cache: Cache, body: Seq<FXY>, j: int) -> Seq<FieldModel>
    decreases j,
{
    if j <= 0 {
        Seq::empty()
    } else {
        let before = fields_before(cache, body, j - 1);
        let desc = body[j - 1];
        if desc.f == 0 {
            match cache.element(desc) {
                Some(e) => before.push(field_of(state_at(body, j - 1, State::initial()), desc, e)),
                None => before,
            }
        } else {
            before
        }
    }
}

/// The bits of the fields of the first `j` descriptors, capped.
pub open spec fn bits_before(cache: Cache, body: Seq<FXY>, j: int) -> usize
    decreases j,
{
    if j <= 0 {
        0
    } else {
        let before = bits_before(cache, body, j - 1);
        let desc = body[j - 1];
        if desc.f == 0 {
            match cache.element(desc) {
                Some(e) => add_capped(
                    before,
                    state_at(body, j - 1, State::initial()).spec_datawidth(e),
                ),
                None => before,
            }
        } else {
            before
        }
    }
}

/// In the first `j` descriptors, every element with a one-shot adjustment
/// gets the same scale from the interpreter as from the compiler.
pub open spec fn scales_agree(cache: Cache, body: Seq<FXY>, j: int) -> bool
    decreases j,
{
    if j <= 0 {
        true
    } else {
        let desc = body[j - 1];
        let cs = state_at(body, j - 1, State::initial());
        &&& scales_agree(cache, body, j - 1)
        &&& desc.f == 0 ==> match cache.element(desc) {
            Some(e) => cs.spec_scale(e) == compiled_scale(cs, e),
            None => true,
        }
    }
}

/// Whether descriptor `i` of a body is read alike by both decoders in a run
/// that the interpreter begins in state `s`: where it is an element, the
/// interpreter's state before it gives the element the width, scale and
/// reference value that the compiler's state before it gives.
pub open spec fn reads_alike(cache: Cache, body: Seq<FXY>, i: int, s: State) -> bool {
    body[i].f == 0 ==> match cache.element(body[i]) {
        Some(e) => {
            let mine = state_at(body, i, s);
            let compiled = state_at(body, i, State::initial());
            &&& mine.spec_datawidth(e) == compiled.spec_datawidth(e)
            &&& mine.spec_scale(e) == compiled_scale(compiled, e)
            &&& mine.spec_reference_value(e) == compiled.spec_reference_value(e)
        },
        None => true,
    }
}

/// Whether every element of a body is read alike by both decoders in a run
/// that the interpreter begins in state `s`.
pub open spec fn run_agrees(cache: Cache, body: Seq<FXY>, s: State) -> bool {
    forall|i: int| 0 <= i < body.len() ==> #[trigger] reads_alike(cache, body, i, s)
}

/// Whether every element is read alike in each of `n` runs that follow one
/// another, the first of them begun in state `s`.
pub open spec fn runs_agree(cache: Cache, body: Seq<FXY>, s: State, n: nat) -> bool
    decreases n,
{
    n == 0 || (run_agrees(cache, body, s) && runs_agree(
        cache,
        body,
        state_at(body, body.len() as int, s),
        (n - 1) as nat,
    ))
}

/// The value that a sample of an array stands for.
pub open spec fn value_of(sample: Option<Scaled>) -> ValueModel {
    match sample {
        Some(s) => ValueModel::Number(s),
        None => ValueModel::Missing,
    }
}

/// The entries that the interpreter makes of the cells of an array: one
/// per cell, repetition by repetition.
pub open spec fn single_records(fields: Seq<FieldModel>, samples: Seq<Option<Scaled>>) -> Seq<
    RecordModel,
> {
    Seq::new(
        samples.len(),
        |c: int|
            single_record(
                value_of(samples[c]),
                fields[c % (fields.len() as int)].name,
                fields[c % (fields.len() as int)].unit,
            ),
    )
}

pub(crate) proof fn lemma_steps_add(cache: Cache, data: Seq<u8>, m: Machine, a: nat, b: nat)
    ensures
        steps(cache, data, m, a + b) == (match steps(cache, data, m, a) {
            Err(e) => Err(e),
            Ok(x) => steps(cache, data, x, b),
        }),
    decreases a,
{
    if a > 0 {
        match step(cache, data, m) {
            Err(e) => {},
            Ok(next) => {
                lemma_steps_add(cache, data, next, (a - 1) as nat, b);
            },
        }
    }
}

/// Overrides that agree before a descriptor agree behind it.
pub(crate) proof fn lemma_agree_behind(body: Seq<FXY>, j: int, a: State, b: State)
    requires
        agree(a, b),
    ensures
        agree(state_at(body, j, a), state_at(body, j, b)),
    decreases j,
{
    if j > 0 {
        lemma_agree_behind(body, j - 1, a, b);
    }
}

/// A body that compiles is made of known numeric elements and of operators
/// that the compiler accepts, and the layout holds the fields of its
/// elements in order.
pub(crate) proof fn lemma_compile_prefix(cache: Cache, body: Seq<FXY>, layout: LayoutModel, j: int)
    requires
        compile_from(cache, body, 0, State::initial(), Seq::empty(), 0) == Ok::<
            Option<LayoutModel>,
            Error,
        >(Some(layout)),
        0 <= j <= body.len(),
    ensures
        compile_from(
            cache,
            body,
            j,
            state_at(body, j, State::initial()),
            fields_before(cache, body, j),
            bits_before(cache, body, j),
        ) == Ok::<Option<LayoutModel>, Error>(Some(layout)),
        j < body.len() ==> (body[j].f == 0 || body[j].f == 2),
        j < body.len() && body[j].f == 0 ==> cache.element(body[j]) is Some && !is_text_unit(
            cache.element(body[j])->0.bufr_unit@,
        ),
        j < body.len() && body[j].f == 2 ==> body[j].x != 5 && body[j].x != 8,
        j == body.len() ==> layout.fields == fields_before(cache, body, j),
        fields_before(cache, body, j).len() <= j,
    decreases j,
{
    if j > 0 {
        lemma_compile_prefix(cache, body, layout, j - 1);
    }
}

/// The fields of a prefix of the body are a prefix of the fields of the
/// body.
pub(crate) proof fn lemma_fields_extend(cache: Cache, body: Seq<FXY>, j: int, k: int)
    requires
        0 <= j <= k,
    ensures
        fields_before(cache, body, j).len() <= fields_before(cache, body, k).len(),
        forall|i: int|
            0 <= i < fields_before(cache, body, j).len() ==> fields_before(cache, body, j)[i]
                == fields_before(cache, body, k)[i],
    decreases k - j,
{
    if j < k {
        lemma_fields_extend(cache, body, j, k - 1);
    }
}

/// The machine with a frame on top of a stack.
pub open spec fn on(base: Seq<FrameModel>, top: FrameModel, pos: nat, state: State, out: Seq<
    RecordModel,
>) -> Machine {
    Machine { stack: base.push(top), pos, state, out }
}

/// The machine that stands on cells that were read, or their error.
pub open spec fn after_cells(
    base: Seq<FrameModel>,
    top: FrameModel,
    fields: Seq<FieldModel>,
    cells: Result<Cells, Error>,
    state: State,
    out: Seq<RecordModel>,
) -> Result<Machine, Error> {
    match cells {
        Ok(c) => Ok(on(base, top, c.pos, state, out + single_records(fields, c.samples))),
        Err(e) => Err(e),
    }
}

/// A step on a numeric element that the tables know.
pub(crate) proof fn lemma_step_on_element(
    cache: Cache,
    data: Seq<u8>,
    base: Seq<FrameModel>,
    body: Seq<FXY>,
    i: int,
    pos: nat,
    s: State,
    out: Seq<RecordModel>,
)
    requires
        0 <= i < body.len(),
        body[i].f == 0,
        cache.element(body[i]) is Some,
        !is_text_unit(cache.element(body[i])->0.bufr_unit@),
    ensures
        ({
            let e = cache.element(body[i])->0;
            let width = s.spec_datawidth(e) as nat;
            step(cache, data, on(base, FrameModel::Slice { descs: body, idx: i }, pos, s, out))
                == (match read_bits(data, pos, width) {
                Err(err) => Err::<Machine, Error>(err),
                Ok(raw) => Ok(
                    on(
                        base,
                        FrameModel::Slice { descs: body, idx: i + 1 },
                        pos + width,
                        after_element(s),
                        out.push(
                            single_record(
                                crate::walk::numeric_value(
                                    raw,
                                    width,
                                    crate::state::is_counter(e),
                                    s.spec_reference_value(e),
                                    s.spec_scale(e),
                                ),
                                e.element_name_en@,
                                e.bufr_unit@,
                            ),
                        ),
                    ),
                ),
            })
        }),
{
    let m = on(base, FrameModel::Slice { descs: body, idx: i }, pos, s, out);
    assert(m.stack.drop_last() =~= base);
    assert(m.stack.last() == FrameModel::Slice { descs: body, idx: i });
    let below = Machine { stack: base, ..m };
    assert(step(cache, data, m) == step_slice(cache, data, below, body, i));
    assert(step_slice(cache, data, below, body, i) == step_element(cache, data, below, body, i));
}

/// A step on an operator that changes the state alone.
pub(crate) proof fn lemma_step_on_operator(
    cache: Cache,
    data: Seq<u8>,
    base: Seq<FrameModel>,
    body: Seq<FXY>,
    i: int,
    pos: nat,
    s: State,
    out: Seq<RecordModel>,
)
    requires
        0 <= i < body.len(),
        body[i].f == 2,
        body[i].x != 5,
    ensures
        step(cache, data, on(base, FrameModel::Slice { descs: body, idx: i }, pos, s, out))
            == Ok::<Machine, Error>(
            on(
                base,
                FrameModel::Slice { descs: body, idx: i + 1 },
                pos,
                apply_operator(s, body[i].x, body[i].y),
                out,
            ),
        ),
{
    let m = on(base, FrameModel::Slice { descs: body, idx: i }, pos, s, out);
    assert(m.stack.drop_last() =~= base);
    assert(m.stack.last() == FrameModel::Slice { descs: body, idx: i });
    let below = Machine { stack: base, ..m };
    assert(step(cache, data, m) == step_slice(cache, data, below, body, i));
    assert(step_slice(cache, data, below, body, i) == step_operator(data, below, body, i));
}

/// A step on a list that is used up takes its frame off the stack.
pub(crate) proof fn lemma_step_on_end(
    cache: Cache,
    data: Seq<u8>,
    base: Seq<FrameModel>,
    body: Seq<FXY>,
    pos: nat,
    s: State,
    out: Seq<RecordModel>,
)
    ensures
        step(
            cache,
            data,
            on(base, FrameModel::Slice { descs: body, idx: body.len() as int }, pos, s, out),
        ) == Ok::<Machine, Error>(Machine { stack: base, pos, state: s, out }),
{
    let m = on(base, FrameModel::Slice { descs: body, idx: body.len() as int }, pos, s, out);
    assert(m.stack.drop_last() =~= base);
    assert(m.stack.last() == FrameModel::Slice { descs: body, idx: body.len() as int });
}

/// Reading one more cell: the field of cell `n` is read behind the cells
/// before it.
pub(crate) proof fn lemma_read_next_cell(
    fields: Seq<FieldModel>,
    data: Seq<u8>,
    start: nat,
    row: nat,
    k: nat,
)
    requires
        k < fields.len(),
    ensures
        read_cells(fields, data, start, row * fields.len() + k + 1) == (match read_cells(
            fields,
            data,
            start,
            row * fields.len() + k,
        ) {
            Err(e) => Err::<Cells, Error>(e),
            Ok(c) => match read_bits(data, c.pos, fields[k as int].width_bits as nat) {
                Err(e) => Err(e),
                Ok(raw) => Ok(
                    Cells {
                        samples: c.samples.push(crate::walk::sample_of(fields[k as int], raw)),
                        pos: c.pos + fields[k as int].width_bits as nat,
                    },
                ),
            },
        }),
{
    let nf = fields.len();
    let n = row * nf + k;
    lemma_fundamental_div_mod_converse(n as int, nf as int, row as int, k as int);
    assert((row * nf + k + 1 - 1) as nat == n);
}

/// The entries of the cells grow by the entry of the cell that is read.
pub(crate) proof fn lemma_single_records_push(
    fields: Seq<FieldModel>,
    samples: Seq<Option<Scaled>>,
    sample: Option<Scaled>,
    row: nat,
    k: nat,
)
    requires
        k < fields.len(),
        samples.len() == row * fields.len() + k,
    ensures
        single_records(fields, samples.push(sample)) == single_records(fields, samples).push(
            single_record(value_of(sample), fields[k as int].name, fields[k as int].unit),
        ),
{
    let nf = fields.len();
    lemma_fundamental_div_mod_converse(samples.len() as int, nf as int, row as int, k as int);
    assert(single_records(fields, samples.push(sample)) =~= single_records(fields, samples).push(
        single_record(value_of(sample), fields[k as int].name, fields[k as int].unit),
    ));
}

/// One step of an interpreted run of a compiled body, on descriptor `i`:
/// it reads the cell that the compiled decode reads, or changes the state
/// as the compiler did.
pub(crate) proof fn lemma_pass_step(
    cache: Cache,
    data: Seq<u8>,
    base: Seq<FrameModel>,
    body: Seq<FXY>,
    layout: LayoutModel,
    start: nat,
    row: nat,
    s: State,
    out: Seq<RecordModel>,
    i: int,
    cells: Cells,
)
    requires
        compile_from(cache, body, 0, State::initial(), Seq::empty(), 0) == Ok::<
            Option<LayoutModel>,
            Error,
        >(Some(layout)),
        run_agrees(cache, body, s),
        0 <= i < body.len(),
        read_cells(
            layout.fields,
            data,
            start,
            row * layout.fields.len() + fields_before(cache, body, i).len(),
        ) == Ok::<Cells, Error>(cells),
    ensures
        step(
            cache,
            data,
            on(
                base,
                FrameModel::Slice { descs: body, idx: i },
                cells.pos,
                state_at(body, i, s),
                out + single_records(layout.fields, cells.samples),
            ),
        ) == after_cells(
            base,
            FrameModel::Slice { descs: body, idx: i + 1 },
            layout.fields,
            read_cells(
                layout.fields,
                data,
                start,
                row * layout.fields.len() + fields_before(cache, body, i + 1).len(),
            ),
            state_at(body, i + 1, s),
            out,
        ),
{
    let fields = layout.fields;
    let nf = fields.len();
    let j = i + 1;
    lemma_compile_prefix(cache, body, layout, i);
    lemma_compile_prefix(cache, body, layout, body.len() as int);
    lemma_fields_extend(cache, body, i, body.len() as int);
    lemma_fields_extend(cache, body, j, body.len() as int);
    assert(reads_alike(cache, body, i, s));
    let k = fields_before(cache, body, i).len();
    let desc = body[i];
    let cs = state_at(body, i, State::initial());
    let si = state_at(body, i, s);
    let outp = out + single_records(fields, cells.samples);
    if desc.f == 0 {
        let e = cache.element(desc)->0;
        assert(e.key() == desc);
        assert(fields_before(cache, body, j) == fields_before(cache, body, i).push(
            field_of(cs, desc, e),
        ));
        assert(fields_before(cache, body, j)[k as int] == field_of(cs, desc, e));
        assert(fields[k as int] == field_of(cs, desc, e));
        assert(k < nf);
        assert(si.spec_datawidth(e) == cs.spec_datawidth(e));
        assert(si.spec_reference_value(e) == cs.spec_reference_value(e));
        assert(si.spec_scale(e) == compiled_scale(cs, e));
        lemma_step_on_element(cache, data, base, body, i, cells.pos, si, outp);
        lemma_read_next_cell(fields, data, start, row, k);
        lemma_cells_length(fields, data, start, row * nf + k);
        let width = cs.spec_datawidth(e) as nat;
        match read_bits(data, cells.pos, width) {
            Err(err) => {},
            Ok(raw) => {
                let sample = crate::walk::sample_of(fields[k as int], raw);
                lemma_single_records_push(fields, cells.samples, sample, row, k);
                assert(out + single_records(fields, cells.samples.push(sample)) =~= outp.push(
                    single_record(value_of(sample), e.element_name_en@, e.bufr_unit@),
                ));
            },
        }
    } else {
        assert(fields_before(cache, body, j) == fields_before(cache, body, i));
        lemma_step_on_operator(cache, data, base, body, i, cells.pos, si, outp);
    }
}

/// Interpreting the first `j` descriptors of one run of a compiled body
/// reads the same cells as the compiled decode.
pub(crate) proof fn lemma_pass(
    cache: Cache,
    data: Seq<u8>,
    base: Seq<FrameModel>,
    body: Seq<FXY>,
    layout: LayoutModel,
    start: nat,
    row: nat,
    s: State,
    out: Seq<RecordModel>,
    first: Cells,
    j: int,
)
    requires
        compile_from(cache, body, 0, State::initial(), Seq::empty(), 0) == Ok::<
            Option<LayoutModel>,
            Error,
        >(Some(layout)),
        run_agrees(cache, body, s),
        0 <= j <= body.len(),
        read_cells(layout.fields, data, start, row * layout.fields.len()) == Ok::<Cells, Error>(
            first,
        ),
    ensures
        steps(
            cache,
            data,
            on(
                base,
                FrameModel::Slice { descs: body, idx: 0 },
                first.pos,
                s,
                out + single_records(layout.fields, first.samples),
            ),
            j as nat,
        ) == after_cells(
            base,
            FrameModel::Slice { descs: body, idx: j },
            layout.fields,
            read_cells(
                layout.fields,
                data,
                start,
                row * layout.fields.len() + fields_before(cache, body, j).len(),
            ),
            state_at(body, j, s),
            out,
        ),
    decreases j,
{
    let fields = layout.fields;
    let nf = fields.len();
    let begin = on(
        base,
        FrameModel::Slice { descs: body, idx: 0 },
        first.pos,
        s,
        out + single_records(fields, first.samples),
    );
    if j == 0 {
        assert(row * nf + 0 == row * nf);
    } else {
        let i = j - 1;
        lemma_pass(cache, data, base, body, layout, start, row, s, out, first, i);
        lemma_steps_add(cache, data, begin, i as nat, 1);
        let before = row * nf + fields_before(cache, body, i).len();
        let after = row * nf + fields_before(cache, body, j).len();
        match read_cells(fields, data, start, before) {
            Err(e) => {
                lemma_read_cells_fails_on(fields, data, start, before, after);
            },
            Ok(cells) => {
                lemma_pass_step(cache, data, base, body, layout, start, row, s, out, i, cells);
                let m = on(
                    base,
                    FrameModel::Slice { descs: body, idx: i },
                    cells.pos,
                    state_at(body, i, s),
                    out + single_records(fields, cells.samples),
                );
                assert(steps(cache, data, m, 1) == step(cache, data, m)) by {
                    match step(cache, data, m) {
                        Err(e) => {},
                        Ok(next) => {
                            assert(steps(cache, data, next, 0) == Ok::<Machine, Error>(next));
                        },
                    }
                }
            },
        }
    }
}

/// The number of samples of cells that were read.
pub(crate) proof fn lemma_cells_length(fields: Seq<FieldModel>, data: Seq<u8>, start: nat, n: nat)
    requires
        read_cells(fields, data, start, n) is Ok,
    ensures
        read_cells(fields, data, start, n)->Ok_0.samples.len() == n,
    decreases n,
{
    if n > 0 {
        lemma_cells_length(fields, data, start, (n - 1) as nat);
    }
}

/// What holds of the scales of a body holds of the scales of its prefixes.
pub(crate) proof fn lemma_scales_hold(cache: Cache, body: Seq<FXY>, k: int, j: int)
    requires
        scales_agree(cache, body, k),
        0 <= j <= k,
    ensures
        scales_agree(cache, body, j),
    decreases k - j,
{
    if j < k {
        lemma_scales_hold(cache, body, k - 1, j);
    }
}


/// The state behind `n` interpreted runs of a body.
pub open spec fn state_after_runs(body: Seq<FXY>, s: State, n: nat) -> State
    decreases n,
{
    if n == 0 {
        s
    } else {
        state_after_runs(body, state_at(body, body.len() as int, s), (n - 1) as nat)
    }
}

/// The number of steps that the interpreter takes for `runs` runs of a body
/// and the step that ends the replication.
pub open spec fn steps_of_runs(body: Seq<FXY>, runs: nat) -> nat {
    runs * (body.len() + 2) + 1
}

proof fn lemma_one_step(cache: Cache, data: Seq<u8>, m: Machine)
    ensures
        steps(cache, data, m, 1) == step(cache, data, m),
{
    match step(cache, data, m) {
        Err(e) => {},
        Ok(next) => {
            assert(steps(cache, data, next, 0) == Ok::<Machine, Error>(next));
        },
    }
}

/// Interpreting the runs of a compiled body from run `r` on reads the cells
/// that the compiled decode reads.
pub(crate) proof fn lemma_runs(
    cache: Cache,
    data: Seq<u8>,
    below: Seq<FrameModel>,
    body: Seq<FXY>,
    layout: LayoutModel,
    start: nat,
    times: nat,
    r: nat,
    s: State,
    out: Seq<RecordModel>,
    cells: Cells,
)
    requires
        compile_from(cache, body, 0, State::initial(), Seq::empty(), 0) == Ok::<
            Option<LayoutModel>,
            Error,
        >(Some(layout)),
        r <= times,
        runs_agree(cache, body, s, (times - r) as nat),
        read_cells(layout.fields, data, start, r * layout.fields.len()) == Ok::<Cells, Error>(
            cells,
        ),
    ensures
        steps(
            cache,
            data,
            on(
                below,
                FrameModel::Repeat { descs: body, times: times as int, current: r as int },
                cells.pos,
                s,
                out + single_records(layout.fields, cells.samples),
            ),
            steps_of_runs(body, (times - r) as nat),
        ) == (match read_cells(layout.fields, data, start, times * layout.fields.len()) {
            Ok(all) => Ok::<Machine, Error>(
                Machine {
                    stack: below,
                    pos: all.pos,
                    state: state_after_runs(body, s, (times - r) as nat),
                    out: out + single_records(layout.fields, all.samples),
                },
            ),
            Err(e) => Err(e),
        }),
    decreases times - r,
{
    let fields = layout.fields;
    let nf = fields.len();
    let len = body.len();
    let outp = out + single_records(fields, cells.samples);
    let top = FrameModel::Repeat { descs: body, times: times as int, current: r as int };
    let m = on(below, top, cells.pos, s, outp);
    assert(m.stack.drop_last() =~= below);
    assert(m.stack.last() == top);
    let under = Machine { stack: below, ..m };
    assert(step(cache, data, m) == Ok::<Machine, Error>(
        step_repeat(under, body, times as int, r as int),
    ));
    if r == times {
        lemma_one_step(cache, data, m);
        assert(steps_of_runs(body, 0) == 1) by (nonlinear_arith)
            requires
                steps_of_runs(body, 0) == 0 * (body.len() + 2) + 1,
        ;
    } else {
        let runs = (times - r) as nat;
        let rest = steps_of_runs(body, (runs - 1) as nat);
        assert(steps_of_runs(body, runs) == 1 + (len + (1 + rest))) by (nonlinear_arith)
            requires
                steps_of_runs(body, runs) == runs * (len + 2) + 1,
                rest == (runs - 1) * (len + 2) + 1,
                runs >= 1,
        ;
        let base = below.push(
            FrameModel::Repeat { descs: body, times: times as int, current: r as int + 1 },
        );
        let m1 = on(base, FrameModel::Slice { descs: body, idx: 0 }, cells.pos, s, outp);
        assert(step(cache, data, m) == Ok::<Machine, Error>(m1));
        lemma_one_step(cache, data, m);
        lemma_steps_add(cache, data, m, 1, len + (1 + rest));
        lemma_steps_add(cache, data, m1, len, 1 + rest);
        lemma_pass(cache, data, base, body, layout, start, r, s, out, cells, len as int);
        lemma_compile_prefix(cache, body, layout, len as int);
        assert(r * nf + nf == (r + 1) * nf) by (nonlinear_arith);
        assert((r + 1) * nf <= times * nf) by (nonlinear_arith)
            requires
                r + 1 <= times,
        ;
        match read_cells(fields, data, start, (r + 1) * nf) {
            Err(e) => {
                lemma_read_cells_fails_on(fields, data, start, (r + 1) * nf, times * nf);
            },
            Ok(next) => {
                let later = state_at(body, len as int, s);
                let later_out = out + single_records(fields, next.samples);
                let m2 = on(base, FrameModel::Slice { descs: body, idx: len as int }, next.pos, later, later_out);
                lemma_step_on_end(cache, data, base, body, next.pos, later, later_out);
                lemma_one_step(cache, data, m2);
                lemma_steps_add(cache, data, m2, 1, rest);
                lemma_runs(cache, data, below, body, layout, start, times, r + 1, later, out, next);
                assert(Machine { stack: base, pos: next.pos, state: later, out: later_out } == on(
                    below,
                    FrameModel::Repeat { descs: body, times: times as int, current: r as int + 1 },
                    next.pos,
                    later,
                    later_out,
                ));
            },
        }
    }
}

/// Compiled and interpreted decoding agree. Let a replicated body compile
/// to a layout, and let every element of the body, in every run, get the
/// same width, scale and reference value from the interpreter's state as
/// from the compiler's. Then the step on the compiled array
/// and the interpreted walk of the replication end at the same place in the
/// stream and fail with the same error; and where they succeed, both yield
/// the same cells: the array of field `j` holds at place `r` the sample of
/// the value that the interpreted walk yields as entry `r * fields + j`,
/// under the same name and unit.
pub proof fn lemma_compiled_equals_interpreted(
    cache: Cache,
    data: Seq<u8>,
    below: Seq<FrameModel>,
    body: Seq<FXY>,
    layout: LayoutModel,
    times: nat,
    pos: nat,
    state: State,
    out: Seq<RecordModel>,
)
    requires
        compile(cache, body, times as int) == Ok::<Option<LayoutModel>, Error>(Some(layout)),
        runs_agree(cache, body, state, times),
    ensures
        ({
            let compiled = step(
                cache,
                data,
                on(
                    below,
                    FrameModel::CompiledArray { layout, times: times as int },
                    pos,
                    state,
                    out,
                ),
            );
            let interpreted = steps(
                cache,
                data,
                on(
                    below,
                    FrameModel::Repeat { descs: body, times: times as int, current: 0 },
                    pos,
                    state,
                    out,
                ),
                steps_of_runs(body, times),
            );
            match read_cells(layout.fields, data, pos, times * layout.fields.len()) {
                Err(e) => compiled == Err::<Machine, Error>(e) && interpreted == Err::<
                    Machine,
                    Error,
                >(e),
                Ok(cells) => {
                    &&& compiled == Ok::<Machine, Error>(
                        Machine {
                            stack: below,
                            pos: cells.pos,
                            state,
                            out: out + array_records(
                                layout.fields,
                                cells.samples,
                                times as int,
                                layout.fields.len() as int,
                            ),
                        },
                    )
                    &&& interpreted == Ok::<Machine, Error>(
                        Machine {
                            stack: below,
                            pos: cells.pos,
                            state: state_after_runs(body, state, times),
                            out: out + single_records(layout.fields, cells.samples),
                        },
                    )
                },
            }
        }),
{
    let fields = layout.fields;
    let top = FrameModel::CompiledArray { layout, times: times as int };
    let m = on(below, top, pos, state, out);
    assert(m.stack.drop_last() =~= below);
    assert(m.stack.last() == top);
    let under = Machine { stack: below, ..m };
    assert(step(cache, data, m) == step_array(data, under, layout, times as int));
    let first = Cells { samples: Seq::empty(), pos };
    assert(0 * fields.len() == 0) by (nonlinear_arith);
    assert(read_cells(fields, data, pos, 0) == Ok::<Cells, Error>(first));
    assert(out + single_records(fields, first.samples) =~= out);
    lemma_runs(cache, data, below, body, layout, pos, times, 0, state, out, first);
}

/// In the cells of a compiled array, the array of field `j` holds at place
/// `r` the sample of entry `r * fields + j` of the interpreted walk, under
/// the same name and unit.
pub proof fn lemma_same_cell(
    fields: Seq<FieldModel>,
    samples: Seq<Option<Scaled>>,
    times: nat,
    r: int,
    j: int,
)
    requires
        samples.len() == times * fields.len(),
        0 <= r < times,
        0 <= j < fields.len(),
    ensures
        0 <= r * fields.len() + j < samples.len(),
        ({
            let array = array_records(fields, samples, times as int, fields.len() as int)[j];
            let single = single_records(fields, samples)[r * fields.len() + j];
            &&& array.name == single.name
            &&& array.unit == single.unit
            &&& array.values is Array
            &&& single.values is Single
            &&& single.values->Single_0 == value_of(array.values->Array_0[r])
        }),
{
    let nf = fields.len();
    assert(0 <= r * nf + j < times * nf) by (nonlinear_arith)
        requires
            0 <= r < times,
            0 <= j < nf,
    ;
    lemma_fundamental_div_mod_converse(r * nf + j, nf as int, r, j);
}


/// A sufficient condition for the runs of a body to be read alike: no
/// width or scale override is in force before the body, one run of the
/// body leaves none in force, and the two decoders give every element of
/// the body the same scale.
pub proof fn lemma_neutral_runs_agree(cache: Cache, body: Seq<FXY>, s: State, n: nat)
    requires
        neutral(s),
        neutral(state_at(body, body.len() as int, State::initial())),
        scales_agree(cache, body, body.len() as int),
    ensures
        runs_agree(cache, body, s, n),
    decreases n,
{
    if n > 0 {
        assert forall|i: int| 0 <= i < body.len() implies #[trigger] reads_alike(
            cache,
            body,
            i,
            s,
        ) by {
            lemma_agree_behind(body, i, s, State::initial());
            lemma_scales_hold(cache, body, body.len() as int, i + 1);
        }
        lemma_agree_behind(body, body.len() as int, s, State::initial());
        lemma_neutral_runs_agree(
            cache,
            body,
            state_at(body, body.len() as int, s),
            (n - 1) as nat,
        );
    }
}

} // verus!
