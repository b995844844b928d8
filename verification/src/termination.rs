//! The walk ends: against tables whose sequences do not contain
//! themselves, every descriptor program empties the stack, or fails, after
//! finitely many steps.

use vstd::prelude::*;
use crate::cache::Cache;
use crate::equivalence::{lemma_steps_add, lemma_step_on_end, on, steps};
use crate::errors::Error;
use crate::fxy::FXY;
use crate::record::RecordModel;
use crate::state::State;
use crate::walk::{run, start, step, step_element, step_operator, step_replication, step_sequence, step_slice, FrameModel, Machine};

verus! {

/// Every sequence descriptor of a list that the tables know ranks below a
/// bound.
pub open spec fn bounded(cache: Cache, rank: spec_fn(FXY) -> nat, descs: Seq<FXY>, bound: nat)
    -> bool {
    forall|i: int|
        0 <= i < descs.len() && (#[trigger] descs[i]).f == 3 && cache.sequence(descs[i]) is Some
            ==> rank(descs[i]) < bound
}

/// The sequences of the tables are well-founded under a ranking: every
/// sequence that occurs in the chain of a sequence ranks below it. Tables
/// in which no sequence contains itself, directly or through others, have
/// such a ranking.
pub open spec fn acyclic(cache: Cache, rank: spec_fn(FXY) -> nat) -> bool {
    forall|k: FXY|
        cache.sequence(k) is Some ==> bounded(
            cache,
            rank,
            (#[trigger] cache.sequence(k))->0.fxy_chain@,
            rank(k),
        )
}

/// A walk that has failed, or has come back to a given stack.
pub open spec fn returns_to(r: Result<Machine, Error>, base: Seq<FrameModel>) -> bool {
    match r {
        Err(_) => true,
        Ok(x) => x.stack == base,
    }
}

/// Where the body of the replication at `idx` begins.
pub open spec fn body_start(descs: Seq<FXY>, idx: int) -> int {
    if descs[idx].y == 0 {
        idx + 2
    } else {
        idx + 1
    }
}

/// Where the body of the replication at `idx` ends.
pub open spec fn body_end(descs: Seq<FXY>, idx: int) -> int {
    body_start(descs, idx) + descs[idx].x
}

/// The stack behind a step on an element or operator descriptor: the
/// cursor has moved on by one.
proof fn lemma_shape_plain(
    cache: Cache,
    data: Seq<u8>,
    base: Seq<FrameModel>,
    descs: Seq<FXY>,
    idx: int,
    pos: nat,
    s: State,
    out: Seq<RecordModel>,
)
    requires
        0 <= idx < descs.len(),
        descs[idx].f == 0 || descs[idx].f == 2,
    ensures
        returns_to(
            step(cache, data, on(base, FrameModel::Slice { descs, idx }, pos, s, out)),
            base.push(FrameModel::Slice { descs, idx: idx + 1 }),
        ),
{
    let m = on(base, FrameModel::Slice { descs, idx }, pos, s, out);
    assert(m.stack.drop_last() =~= base);
    assert(m.stack.last() == FrameModel::Slice { descs, idx });
    let below = Machine { stack: base, ..m };
    assert(step(cache, data, m) == step_slice(cache, data, below, descs, idx));
    if descs[idx].f == 0 {
        assert(step_slice(cache, data, below, descs, idx) == step_element(
            cache,
            data,
            below,
            descs,
            idx,
        ));
    } else {
        assert(step_slice(cache, data, below, descs, idx) == step_operator(
            data,
            below,
            descs,
            idx,
        ));
    }
}

/// The stack behind a step on a sequence descriptor: the chain of the
/// sequence on top of the cursor behind the descriptor.
proof fn lemma_shape_sequence(
    cache: Cache,
    data: Seq<u8>,
    base: Seq<FrameModel>,
    descs: Seq<FXY>,
    idx: int,
    pos: nat,
    s: State,
    out: Seq<RecordModel>,
)
    requires
        0 <= idx < descs.len(),
        descs[idx].f == 3,
    ensures
        step(cache, data, on(base, FrameModel::Slice { descs, idx }, pos, s, out)) is Ok ==> {
            &&& cache.sequence(descs[idx]) is Some
            &&& returns_to(
                step(cache, data, on(base, FrameModel::Slice { descs, idx }, pos, s, out)),
                base.push(FrameModel::Slice { descs, idx: idx + 1 }).push(
                    FrameModel::Slice { descs: cache.sequence(descs[idx])->0.fxy_chain@, idx: 0 },
                ),
            )
        },
{
    let m = on(base, FrameModel::Slice { descs, idx }, pos, s, out);
    assert(m.stack.drop_last() =~= base);
    assert(m.stack.last() == FrameModel::Slice { descs, idx });
    let below = Machine { stack: base, ..m };
    assert(step(cache, data, m) == step_slice(cache, data, below, descs, idx));
    assert(step_slice(cache, data, below, descs, idx) == step_sequence(cache, below, descs, idx));
}

/// The stack behind a step on a replication descriptor: a frame for the
/// body on top of the cursor behind the body.
proof fn lemma_shape_replication(
    cache: Cache,
    data: Seq<u8>,
    base: Seq<FrameModel>,
    descs: Seq<FXY>,
    idx: int,
    pos: nat,
    s: State,
    out: Seq<RecordModel>,
)
    requires
        0 <= idx < descs.len(),
        descs[idx].f == 1,
    ensures
        step(cache, data, on(base, FrameModel::Slice { descs, idx }, pos, s, out)) is Ok ==> ({
            let next = step(cache, data, on(base, FrameModel::Slice { descs, idx }, pos, s, out))->Ok_0;
            &&& idx < body_start(descs, idx) <= body_end(descs, idx) <= descs.len()
            &&& next.stack.len() > 0
            &&& next.stack.drop_last() == base.push(
                FrameModel::Slice { descs, idx: body_end(descs, idx) },
            )
            &&& match next.stack.last() {
                FrameModel::Repeat { descs: body, times, current } => body == descs.subrange(
                    body_start(descs, idx),
                    body_end(descs, idx),
                ) && current == 0,
                FrameModel::CompiledArray { .. } => true,
                FrameModel::Slice { .. } => false,
            }
        }),
{
    let m = on(base, FrameModel::Slice { descs, idx }, pos, s, out);
    assert(m.stack.drop_last() =~= base);
    assert(m.stack.last() == FrameModel::Slice { descs, idx });
    let below = Machine { stack: base, ..m };
    assert(step(cache, data, m) == step_slice(cache, data, below, descs, idx));
    assert(step_slice(cache, data, below, descs, idx) == step_replication(
        cache,
        data,
        below,
        descs,
        idx,
    ));
    match step_replication(cache, data, below, descs, idx) {
        Ok(next) => {
            let rest = base.push(FrameModel::Slice { descs, idx: body_end(descs, idx) });
            assert(next.stack.drop_last() =~= rest);
        },
        Err(_) => {},
    }
}

/// A descriptor whose F is none of 0 to 3 fails the walk.
proof fn lemma_shape_invalid(
    cache: Cache,
    data: Seq<u8>,
    base: Seq<FrameModel>,
    descs: Seq<FXY>,
    idx: int,
    pos: nat,
    s: State,
    out: Seq<RecordModel>,
)
    requires
        0 <= idx < descs.len(),
        descs[idx].f < 0 || descs[idx].f > 3,
    ensures
        step(cache, data, on(base, FrameModel::Slice { descs, idx }, pos, s, out)) is Err,
{
    let m = on(base, FrameModel::Slice { descs, idx }, pos, s, out);
    assert(m.stack.drop_last() =~= base);
    assert(m.stack.last() == FrameModel::Slice { descs, idx });
}

/// A step on a compiled array fails or takes the frame off the stack.
proof fn lemma_shape_array(cache: Cache, data: Seq<u8>, base: Seq<FrameModel>, m: Machine)
    requires
        m.stack.len() > 0,
        m.stack.drop_last() == base,
        m.stack.last() is CompiledArray,
    ensures
        returns_to(step(cache, data, m), base),
{
}

/// A step on a replication frame: the frame is gone once all runs have
/// begun; else a run of the body stands on top of the frame for the runs
/// that are left.
proof fn lemma_shape_repeat(
    cache: Cache,
    data: Seq<u8>,
    base: Seq<FrameModel>,
    body: Seq<FXY>,
    times: int,
    current: int,
    pos: nat,
    s: State,
    out: Seq<RecordModel>,
)
    ensures
        step(cache, data, on(base, FrameModel::Repeat { descs: body, times, current }, pos, s, out))
            == Ok::<Machine, Error>(
            if current >= times {
                Machine { stack: base, pos, state: s, out }
            } else {
                on(
                    base.push(FrameModel::Repeat { descs: body, times, current: current + 1 }),
                    FrameModel::Slice { descs: body, idx: 0 },
                    pos,
                    s,
                    out,
                )
            },
        ),
{
    let m = on(base, FrameModel::Repeat { descs: body, times, current }, pos, s, out);
    assert(m.stack.drop_last() =~= base);
    assert(m.stack.last() == FrameModel::Repeat { descs: body, times, current });
}

/// Steps that follow one another: after `a` steps that end in `x`, `b`
/// more steps from `x`.
proof fn lemma_then(cache: Cache, data: Seq<u8>, m: Machine, a: nat, b: nat, base: Seq<FrameModel>)
    requires
        steps(cache, data, m, a) is Ok ==> returns_to(
            steps(cache, data, steps(cache, data, m, a)->Ok_0, b),
            base,
        ),
    ensures
        returns_to(steps(cache, data, m, a + b), base),
{
    lemma_steps_add(cache, data, m, a, b);
}

proof fn lemma_first(cache: Cache, data: Seq<u8>, m: Machine)
    ensures
        steps(cache, data, m, 1) == step(cache, data, m),
{
    match step(cache, data, m) {
        Err(e) => {},
        Ok(next) => {
            assert(steps(cache, data, next, 0) == Ok::<Machine, Error>(next));
        },
    }
}

/// A machine is its stack, position, state and output.
proof fn lemma_machine_on(x: Machine, base: Seq<FrameModel>, top: FrameModel)
    requires
        x.stack == base.push(top),
    ensures
        x == on(base, top, x.pos, x.state, x.out),
{
}

/// A cursor into a descriptor list comes to its end: after finitely many
/// steps the walk has failed or is back at the stack below the cursor.
pub proof fn lemma_slice_halts(
    cache: Cache,
    data: Seq<u8>,
    rank: spec_fn(FXY) -> nat,
    bound: nat,
    base: Seq<FrameModel>,
    descs: Seq<FXY>,
    idx: int,
    pos: nat,
    s: State,
    out: Seq<RecordModel>,
) -> (n: nat)
    requires
        acyclic(cache, rank),
        bounded(cache, rank, descs, bound),
        0 <= idx <= descs.len(),
    ensures
        returns_to(
            steps(cache, data, on(base, FrameModel::Slice { descs, idx }, pos, s, out), n),
            base,
        ),
    decreases bound, 2 * (descs.len() - idx), 0nat,
{
    let m = on(base, FrameModel::Slice { descs, idx }, pos, s, out);
    lemma_first(cache, data, m);
    if idx == descs.len() {
        lemma_step_on_end(cache, data, base, descs, pos, s, out);
        return 1;
    }
    let des = descs[idx];
    match step(cache, data, m) {
        Err(_) => {
            return 1;
        },
        Ok(x) => {
            if des.f == 0 || des.f == 2 {
                lemma_shape_plain(cache, data, base, descs, idx, pos, s, out);
                let top = FrameModel::Slice { descs, idx: idx + 1 };
                lemma_machine_on(x, base, top);
                let n1 = lemma_slice_halts(
                    cache,
                    data,
                    rank,
                    bound,
                    base,
                    descs,
                    idx + 1,
                    x.pos,
                    x.state,
                    x.out,
                );
                lemma_then(cache, data, m, 1, n1, base);
                return 1 + n1;
            } else if des.f == 3 {
                lemma_shape_sequence(cache, data, base, descs, idx, pos, s, out);
                let chain = cache.sequence(des)->0.fxy_chain@;
                let after = FrameModel::Slice { descs, idx: idx + 1 };
                let base2 = base.push(after);
                lemma_machine_on(x, base2, FrameModel::Slice { descs: chain, idx: 0 });
                assert(bounded(cache, rank, chain, rank(des)));
                assert(rank(des) < bound);
                let n1 = lemma_slice_halts(
                    cache,
                    data,
                    rank,
                    rank(des),
                    base2,
                    chain,
                    0,
                    x.pos,
                    x.state,
                    x.out,
                );
                match steps(cache, data, x, n1) {
                    Err(_) => {
                        lemma_steps_add(cache, data, m, 1, n1);
                        return 1 + n1;
                    },
                    Ok(y) => {
                        lemma_machine_on(y, base, after);
                        let n2 = lemma_slice_halts(
                            cache,
                            data,
                            rank,
                            bound,
                            base,
                            descs,
                            idx + 1,
                            y.pos,
                            y.state,
                            y.out,
                        );
                        lemma_then(cache, data, x, n1, n2, base);
                        lemma_then(cache, data, m, 1, n1 + n2, base);
                        return 1 + (n1 + n2);
                    },
                }
            } else if des.f == 1 {
                lemma_shape_replication(cache, data, base, descs, idx, pos, s, out);
                let end = body_end(descs, idx);
                let after = FrameModel::Slice { descs, idx: end };
                let base2 = base.push(after);
                let top = x.stack.last();
                assert(x.stack =~= base2.push(top));
                lemma_machine_on(x, base2, top);
                let n1: nat = match top {
                    FrameModel::Repeat { descs: body, times, current } => {
                        assert(bounded(cache, rank, body, bound)) by {
                            assert forall|i: int|
                                0 <= i < body.len() && (#[trigger] body[i]).f == 3
                                    && cache.sequence(body[i]) is Some implies rank(body[i])
                                < bound by {
                                assert(body[i] == descs[body_start(descs, idx) + i]);
                            }
                        }
                        lemma_repeat_halts(
                            cache,
                            data,
                            rank,
                            bound,
                            base2,
                            body,
                            times,
                            0,
                            x.pos,
                            x.state,
                            x.out,
                        )
                    },
                    _ => {
                        lemma_shape_array(cache, data, base2, x);
                        lemma_first(cache, data, x);
                        1
                    },
                };
                match steps(cache, data, x, n1) {
                    Err(_) => {
                        lemma_steps_add(cache, data, m, 1, n1);
                        return 1 + n1;
                    },
                    Ok(y) => {
                        lemma_machine_on(y, base, after);
                        let n2 = lemma_slice_halts(
                            cache,
                            data,
                            rank,
                            bound,
                            base,
                            descs,
                            end,
                            y.pos,
                            y.state,
                            y.out,
                        );
                        lemma_then(cache, data, x, n1, n2, base);
                        lemma_then(cache, data, m, 1, n1 + n2, base);
                        return 1 + (n1 + n2);
                    },
                }
            } else {
                lemma_shape_invalid(cache, data, base, descs, idx, pos, s, out);
                return 1;
            }
        },
    }
}

/// A replication comes to its end: after finitely many steps the walk has
/// failed or is back at the stack below the replication frame.
pub proof fn lemma_repeat_halts(
    cache: Cache,
    data: Seq<u8>,
    rank: spec_fn(FXY) -> nat,
    bound: nat,
    base: Seq<FrameModel>,
    body: Seq<FXY>,
    times: int,
    current: int,
    pos: nat,
    s: State,
    out: Seq<RecordModel>,
) -> (n: nat)
    requires
        acyclic(cache, rank),
        bounded(cache, rank, body, bound),
    ensures
        returns_to(
            steps(
                cache,
                data,
                on(base, FrameModel::Repeat { descs: body, times, current }, pos, s, out),
                n,
            ),
            base,
        ),
    decreases bound, 2 * body.len() + 1, (if times > current {
        times - current
    } else {
        0
    }) as nat,
{
    let m = on(base, FrameModel::Repeat { descs: body, times, current }, pos, s, out);
    lemma_first(cache, data, m);
    lemma_shape_repeat(cache, data, base, body, times, current, pos, s, out);
    if current >= times {
        return 1;
    }
    let again = FrameModel::Repeat { descs: body, times, current: current + 1 };
    let base2 = base.push(again);
    let x = on(base2, FrameModel::Slice { descs: body, idx: 0 }, pos, s, out);
    let n1 = lemma_slice_halts(cache, data, rank, bound, base2, body, 0, pos, s, out);
    match steps(cache, data, x, n1) {
        Err(_) => {
            lemma_steps_add(cache, data, m, 1, n1);
            return 1 + n1;
        },
        Ok(y) => {
            lemma_machine_on(y, base, again);
            let n2 = lemma_repeat_halts(
                cache,
                data,
                rank,
                bound,
                base,
                body,
                times,
                current + 1,
                y.pos,
                y.state,
                y.out,
            );
            lemma_then(cache, data, x, n1, n2, base);
            lemma_then(cache, data, m, 1, n1 + n2, base);
            return 1 + (n1 + n2);
        },
    }
}

/// A bound above the ranks of the sequences of a list.
pub open spec fn rank_bound(rank: spec_fn(FXY) -> nat, descs: Seq<FXY>, upto: int) -> nat
    decreases upto,
{
    if upto <= 0 {
        0
    } else {
        let rest = rank_bound(rank, descs, upto - 1);
        if rank(descs[upto - 1]) >= rest {
            rank(descs[upto - 1]) + 1
        } else {
            rest
        }
    }
}

proof fn lemma_rank_bound(rank: spec_fn(FXY) -> nat, descs: Seq<FXY>, upto: int, i: int)
    requires
        0 <= i < upto <= descs.len(),
    ensures
        rank(descs[i]) < rank_bound(rank, descs, upto),
    decreases upto,
{
    if i < upto - 1 {
        lemma_rank_bound(rank, descs, upto - 1, i);
    }
}

/// Termination: against tables whose sequences are well-founded, the walk
/// of any descriptor program over any payload comes to an end. After
/// finitely many steps it has failed or its stack is empty.
pub proof fn lemma_walk_terminates(
    cache: Cache,
    data: Seq<u8>,
    rank: spec_fn(FXY) -> nat,
    descriptors: Seq<FXY>,
)
    requires
        acyclic(cache, rank),
    ensures
        exists|n: nat|
            match #[trigger] steps(cache, data, start(descriptors), n) {
                Err(_) => true,
                Ok(end) => end.stack.len() == 0,
            },
{
    let bound = rank_bound(rank, descriptors, descriptors.len() as int);
    assert(bounded(cache, rank, descriptors, bound)) by {
        assert forall|i: int|
            0 <= i < descriptors.len() && (#[trigger] descriptors[i]).f == 3 && cache.sequence(
                descriptors[i],
            ) is Some implies rank(descriptors[i]) < bound by {
            lemma_rank_bound(rank, descriptors, descriptors.len() as int, i);
        }
    }
    let base = Seq::<FrameModel>::empty();
    let n = lemma_slice_halts(
        cache,
        data,
        rank,
        bound,
        base,
        descriptors,
        0,
        0,
        State::initial(),
        Seq::empty(),
    );
    assert(start(descriptors).stack =~= base.push(
        FrameModel::Slice { descs: descriptors, idx: 0 },
    ));
    assert(start(descriptors) == on(
        base,
        FrameModel::Slice { descs: descriptors, idx: 0 },
        0,
        State::initial(),
        Seq::empty(),
    ));
    assert(returns_to(steps(cache, data, start(descriptors), n), base));
}


/// Whether a walk with a step budget ends because the budget is used up.
pub open spec fn exhausts(cache: Cache, data: Seq<u8>, m: Machine, fuel: nat) -> bool
    decreases fuel,
{
    if m.stack.len() == 0 {
        false
    } else if fuel == 0 {
        true
    } else {
        match step(cache, data, m) {
            Err(_) => false,
            Ok(next) => exhausts(cache, data, next, (fuel - 1) as nat),
        }
    }
}

/// A walk that ends within `n` steps does not use up a budget of `n` steps
/// or more.
pub proof fn lemma_budget_suffices(cache: Cache, data: Seq<u8>, m: Machine, n: nat, fuel: nat)
    requires
        n <= fuel,
        match steps(cache, data, m, n) {
            Err(_) => true,
            Ok(end) => end.stack.len() == 0,
        },
    ensures
        !exhausts(cache, data, m, fuel),
    decreases n,
{
    if m.stack.len() > 0 && n > 0 {
        match step(cache, data, m) {
            Err(_) => {},
            Ok(next) => {
                lemma_budget_suffices(cache, data, next, (n - 1) as nat, (fuel - 1) as nat);
            },
        }
    }
}

/// A budget of `n` steps or more is never used up by the walk from `m`.
pub open spec fn suffices(cache: Cache, data: Seq<u8>, m: Machine, n: nat) -> bool {
    forall|fuel: nat| n <= fuel ==> !#[trigger] exhausts(cache, data, m, fuel)
}

/// Against tables whose sequences are well-founded, every program has a
/// step budget from which on a decode never ends for want of steps.
pub proof fn lemma_some_budget_suffices(
    cache: Cache,
    data: Seq<u8>,
    rank: spec_fn(FXY) -> nat,
    descriptors: Seq<FXY>,
)
    requires
        acyclic(cache, rank),
    ensures
        exists|n: nat| #[trigger] suffices(cache, data, start(descriptors), n),
{
    lemma_walk_terminates(cache, data, rank, descriptors);
    let n = choose|n: nat|
        match #[trigger] steps(cache, data, start(descriptors), n) {
            Err(_) => true,
            Ok(end) => end.stack.len() == 0,
        };
    assert forall|fuel: nat| n <= fuel implies !#[trigger] exhausts(
        cache,
        data,
        start(descriptors),
        fuel,
    ) by {
        lemma_budget_suffices(cache, data, start(descriptors), n, fuel);
    }
    assert(suffices(cache, data, start(descriptors), n));
}


/// Whether a walk meets, within `fuel` steps, a stack of more than `depth`
/// frames.
pub open spec fn outgrows(cache: Cache, data: Seq<u8>, m: Machine, fuel: nat, depth: nat) -> bool
    decreases fuel,
{
    if m.stack.len() == 0 {
        false
    } else if m.stack.len() > depth {
        true
    } else if fuel == 0 {
        false
    } else {
        match step(cache, data, m) {
            Err(_) => false,
            Ok(next) => outgrows(cache, data, next, (fuel - 1) as nat, depth),
        }
    }
}

/// A walk that neither uses up its budget nor outgrows the bound of its
/// stack gives the same result under any larger budget and bound.
pub proof fn lemma_limits_are_immaterial(
    cache: Cache,
    data: Seq<u8>,
    m: Machine,
    fuel: nat,
    more: nat,
    depth: nat,
    deeper: nat,
)
    requires
        !exhausts(cache, data, m, fuel),
        !outgrows(cache, data, m, fuel, depth),
        fuel <= more,
        depth <= deeper,
    ensures
        run(cache, data, m, more, deeper) == run(cache, data, m, fuel, depth),
    decreases fuel,
{
    if m.stack.len() > 0 && fuel > 0 {
        match step(cache, data, m) {
            Err(_) => {},
            Ok(next) => {
                lemma_limits_are_immaterial(
                    cache,
                    data,
                    next,
                    (fuel - 1) as nat,
                    (more - 1) as nat,
                    depth,
                    deeper,
                );
            },
        }
    }
}

} // verus!
