//! The partition of systems into steps, as mathematics: what a schedule
//! looks like when only the declared parameter kinds of its systems are
//! kept, and how it grows when a system or a barrier is added.

use vstd::prelude::*;
use crate::system::kind::{kinds_conflict, lemma_kinds_conflict_symmetric, SystemParamKind};

verus! {

/// What a step does with its systems.
#[derive(Clone, Copy, PartialEq, Eq, Structural, Debug)]
pub enum StepKind {
    /// Runs the systems in parallel.
    Systems,
    /// Runs the systems one after the other on the main thread.
    LocalSystems,
    /// Runs the systems one after the other, each with the whole world.
    ExclusiveSystems,
    /// Runs nothing: it keeps later systems apart from earlier ones.
    Barrier,
}

/// A step, reduced to its kind and the parameter kinds of its systems, in
/// order.
pub struct StepShape {
    /// What the step does with its systems.
    pub kind: StepKind,
    /// The parameter kinds of each system of the step.
    pub members: Seq<Seq<SystemParamKind>>,
}

/// Something that is added to a schedule, reduced to what decides its
/// place.
pub enum Entry {
    /// A system with its parameter kinds and its two flags.
    System { kinds: Seq<SystemParamKind>, exclusive: bool, thread_local: bool },
    /// An explicit barrier.
    Barrier,
}

/// Whether a system with the given `kinds` may join the step: the step runs
/// its systems in parallel, has fewer than `max_threads` of them, and none
/// of them conflicts with the newcomer.
pub open spec fn accepts(shape: StepShape, kinds: Seq<SystemParamKind>, max_threads: int) -> bool {
    &&& shape.kind == StepKind::Systems
    &&& shape.members.len() < max_threads
    &&& forall|m: int| 0 <= m < shape.members.len() ==> !kinds_conflict(#[trigger] shape.members[m], kinds)
}

/// Where the last run of steps that accept the newcomer begins: the index
/// of the earliest step that the newcomer can reach by walking backward
/// from the end over accepting steps only. It is the number of steps where
/// the last step does not accept.
pub open spec fn join_start(shapes: Seq<StepShape>, kinds: Seq<SystemParamKind>, max_threads: int) -> int
    decreases shapes.len(),
{
    if shapes.len() == 0 || !accepts(shapes.last(), kinds, max_threads) {
        shapes.len() as int
    } else {
        join_start(shapes.drop_last(), kinds, max_threads)
    }
}

/// The steps after a system that can run in parallel was added: it joins
/// the step at `join_start`, or opens a new parallel step at the end where
/// no step accepts it.
pub open spec fn plan_parallel(shapes: Seq<StepShape>, kinds: Seq<SystemParamKind>, max_threads: int) -> Seq<
    StepShape,
> {
    let at = join_start(shapes, kinds, max_threads);
    if at < shapes.len() {
        shapes.update(at, StepShape { kind: StepKind::Systems, members: shapes[at].members.push(kinds) })
    } else {
        shapes.push(StepShape { kind: StepKind::Systems, members: seq![kinds] })
    }
}

/// The steps with a barrier added behind a parallel step that ends them.
pub open spec fn close_parallel(shapes: Seq<StepShape>) -> Seq<StepShape> {
    if shapes.len() > 0 && shapes.last().kind == StepKind::Systems {
        shapes.push(StepShape { kind: StepKind::Barrier, members: Seq::empty() })
    } else {
        shapes
    }
}

/// The steps after a system that runs alone was added to a step of the
/// given `kind`: a parallel step at the end is closed by a barrier, then
/// the system joins the last step where that is of the same kind, and
/// opens a new one where it is not.
pub open spec fn plan_serial(shapes: Seq<StepShape>, kind: StepKind, kinds: Seq<SystemParamKind>) -> Seq<
    StepShape,
> {
    let closed = close_parallel(shapes);
    if closed.len() > 0 && closed.last().kind == kind {
        closed.update(closed.len() - 1, StepShape { kind, members: closed.last().members.push(kinds) })
    } else {
        closed.push(StepShape { kind, members: seq![kinds] })
    }
}

/// The steps after an explicit barrier was added.
pub open spec fn plan_barrier(shapes: Seq<StepShape>) -> Seq<StepShape> {
    shapes.push(StepShape { kind: StepKind::Barrier, members: Seq::empty() })
}

/// The steps after `entry` was added: an exclusive system goes to an
/// exclusive step, a thread-local one to a local step, any other system to
/// a parallel step, and a barrier stands alone.
pub open spec fn plan_entry(shapes: Seq<StepShape>, entry: Entry, max_threads: int) -> Seq<StepShape> {
    match entry {
        Entry::System { kinds, exclusive, thread_local } => {
            if exclusive {
                plan_serial(shapes, StepKind::ExclusiveSystems, kinds)
            } else if thread_local {
                plan_serial(shapes, StepKind::LocalSystems, kinds)
            } else {
                plan_parallel(shapes, kinds, max_threads)
            }
        },
        Entry::Barrier => plan_barrier(shapes),
    }
}

/// The steps that come of adding `entries` in order to a schedule without
/// steps.
pub open spec fn build(entries: Seq<Entry>, max_threads: int) -> Seq<StepShape>
    decreases entries.len(),
{
    if entries.len() == 0 {
        Seq::empty()
    } else {
        plan_entry(build(entries.drop_last(), max_threads), entries.last(), max_threads)
    }
}

/// Whether no two systems of the step conflict, if the step runs its
/// systems in parallel.
pub open spec fn conflict_free(shape: StepShape) -> bool {
    shape.kind == StepKind::Systems ==> forall|a: int, b: int|
        0 <= a < shape.members.len() && 0 <= b < shape.members.len() && a != b ==> !kinds_conflict(
            #[trigger] shape.members[a],
            #[trigger] shape.members[b],
        )
}

/// Whether every parallel step is free of conflicts.
pub open spec fn all_conflict_free(shapes: Seq<StepShape>) -> bool {
    forall|i: int| 0 <= i < shapes.len() ==> conflict_free(#[trigger] shapes[i])
}

/// In a parallel step that is free of conflicts, data that two systems
/// both reach is only read by both: whatever one system may write, no
/// other system of the step reaches at all.
pub proof fn lemma_shared_targets_are_read_only(
    shape: StepShape,
    first: int,
    second: int,
    first_kind: int,
    second_kind: int,
)
    requires
        shape.kind == StepKind::Systems,
        conflict_free(shape),
        0 <= first < shape.members.len(),
        0 <= second < shape.members.len(),
        first != second,
        0 <= first_kind < shape.members[first].len(),
        0 <= second_kind < shape.members[second].len(),
        shape.members[first][first_kind].target() is Some,
        shape.members[first][first_kind].target() == shape.members[second][second_kind].target(),
    ensures
        !shape.members[first][first_kind].is_exclusive(),
        !shape.members[second][second_kind].is_exclusive(),
{
    let a = shape.members[first];
    let b = shape.members[second];
    assert(!kinds_conflict(a, b));
    if a[first_kind].is_exclusive() || b[second_kind].is_exclusive() {
        assert(a[first_kind].conflicts(b[second_kind]));
    }
}

/// `join_start` lies among the steps or just behind them; every step from
/// there on accepts the newcomer, and the step before it does not.
pub proof fn lemma_join_start(shapes: Seq<StepShape>, kinds: Seq<SystemParamKind>, max_threads: int)
    ensures
        0 <= join_start(shapes, kinds, max_threads) <= shapes.len(),
        forall|i: int|
            join_start(shapes, kinds, max_threads) <= i < shapes.len() ==> accepts(
                #[trigger] shapes[i],
                kinds,
                max_threads,
            ),
        join_start(shapes, kinds, max_threads) > 0 ==> !accepts(
            shapes[join_start(shapes, kinds, max_threads) - 1],
            kinds,
            max_threads,
        ),
    decreases shapes.len(),
{
    if shapes.len() == 0 || !accepts(shapes.last(), kinds, max_threads) {
    } else {
        lemma_join_start(shapes.drop_last(), kinds, max_threads);
        let at = join_start(shapes.drop_last(), kinds, max_threads);
        assert forall|i: int| at <= i < shapes.len() implies accepts(#[trigger] shapes[i], kinds, max_threads) by {
            if i < shapes.len() - 1 {
                assert(shapes.drop_last()[i] == shapes[i]);
            }
        }
        if at > 0 {
            assert(shapes.drop_last()[at - 1] == shapes[at - 1]);
        }
    }
}

/// The index that the three properties of `lemma_join_start` describe is
/// `join_start`, and no other.
pub proof fn lemma_join_start_unique(
    shapes: Seq<StepShape>,
    kinds: Seq<SystemParamKind>,
    max_threads: int,
    at: int,
)
    requires
        0 <= at <= shapes.len(),
        forall|i: int| at <= i < shapes.len() ==> accepts(#[trigger] shapes[i], kinds, max_threads),
        at > 0 ==> !accepts(shapes[at - 1], kinds, max_threads),
    ensures
        join_start(shapes, kinds, max_threads) == at,
    decreases shapes.len(),
{
    if shapes.len() == 0 {
    } else if at == shapes.len() {
    } else {
        assert(accepts(shapes[shapes.len() - 1], kinds, max_threads));
        assert forall|i: int| at <= i < shapes.drop_last().len() implies accepts(
            #[trigger] shapes.drop_last()[i],
            kinds,
            max_threads,
        ) by {
            assert(shapes.drop_last()[i] == shapes[i]);
        }
        if at > 0 {
            assert(shapes.drop_last()[at - 1] == shapes[at - 1]);
        }
        lemma_join_start_unique(shapes.drop_last(), kinds, max_threads, at);
    }
}

/// Safety of the parallel steps is kept when a system joins them: if no
/// two systems of any parallel step conflicted before, none do after.
pub proof fn lemma_plan_parallel_safe(shapes: Seq<StepShape>, kinds: Seq<SystemParamKind>, max_threads: int)
    requires
        all_conflict_free(shapes),
    ensures
        all_conflict_free(plan_parallel(shapes, kinds, max_threads)),
{
    lemma_join_start(shapes, kinds, max_threads);
    let at = join_start(shapes, kinds, max_threads);
    let after = plan_parallel(shapes, kinds, max_threads);
    assert forall|i: int| 0 <= i < after.len() implies conflict_free(#[trigger] after[i]) by {
        if at < shapes.len() {
            if i == at {
                let before = shapes[at].members;
                let members = after[i].members;
                assert(accepts(shapes[at], kinds, max_threads));
                assert(conflict_free(shapes[at]));
                assert forall|a: int, b: int|
                    0 <= a < members.len() && 0 <= b < members.len() && a != b implies !kinds_conflict(
                    #[trigger] members[a],
                    #[trigger] members[b],
                ) by {
                    if a < before.len() && b < before.len() {
                        assert(!kinds_conflict(before[a], before[b]));
                    } else if a < before.len() {
                        assert(!kinds_conflict(before[a], kinds));
                    } else {
                        assert(!kinds_conflict(before[b], kinds));
                        lemma_kinds_conflict_symmetric(before[b], kinds);
                    }
                }
            } else {
                assert(conflict_free(shapes[i]));
            }
        } else {
            if i < shapes.len() {
                assert(conflict_free(shapes[i]));
            }
        }
    }
}

/// Safety of the parallel steps is kept when a system that runs alone is
/// added.
pub proof fn lemma_plan_serial_safe(shapes: Seq<StepShape>, kind: StepKind, kinds: Seq<SystemParamKind>)
    requires
        all_conflict_free(shapes),
        kind != StepKind::Systems,
    ensures
        all_conflict_free(plan_serial(shapes, kind, kinds)),
{
    let closed = close_parallel(shapes);
    let after = plan_serial(shapes, kind, kinds);
    assert forall|i: int| 0 <= i < after.len() implies conflict_free(#[trigger] after[i]) by {
        if i < shapes.len() && i < closed.len() && !(closed.last().kind == kind && i == closed.len() - 1) {
            assert(conflict_free(shapes[i]));
            assert(after[i] == shapes[i]);
        }
    }
}

/// Safety of the parallel steps is kept when a barrier is added.
pub proof fn lemma_plan_barrier_safe(shapes: Seq<StepShape>)
    requires
        all_conflict_free(shapes),
    ensures
        all_conflict_free(plan_barrier(shapes)),
{
    let after = plan_barrier(shapes);
    assert forall|i: int| 0 <= i < after.len() implies conflict_free(#[trigger] after[i]) by {
        if i < shapes.len() {
            assert(conflict_free(shapes[i]));
        }
    }
}

/// Every schedule that is built by adding systems and barriers one by one
/// is safe: in each of its parallel steps, no two systems conflict.
pub proof fn lemma_build_safe(entries: Seq<Entry>, max_threads: int)
    ensures
        all_conflict_free(build(entries, max_threads)),
    decreases entries.len(),
{
    if entries.len() > 0 {
        lemma_build_safe(entries.drop_last(), max_threads);
        let before = build(entries.drop_last(), max_threads);
        match entries.last() {
            Entry::System { kinds, exclusive, thread_local } => {
                if exclusive {
                    lemma_plan_serial_safe(before, StepKind::ExclusiveSystems, kinds);
                } else if thread_local {
                    lemma_plan_serial_safe(before, StepKind::LocalSystems, kinds);
                } else {
                    lemma_plan_parallel_safe(before, kinds, max_threads);
                }
            },
            Entry::Barrier => {
                lemma_plan_barrier_safe(before);
            },
        }
    }
}

/// Whether a parallel step holds no more systems than fit: at most
/// `max_threads`, or one where `max_threads` is zero.
pub open spec fn within_bound(shape: StepShape, max_threads: int) -> bool {
    shape.kind == StepKind::Systems ==> shape.members.len() <= if max_threads > 1 {
        max_threads
    } else {
        1
    }
}

/// Whether every parallel step is within the bound.
pub open spec fn all_within_bound(shapes: Seq<StepShape>, max_threads: int) -> bool {
    forall|i: int| 0 <= i < shapes.len() ==> within_bound(#[trigger] shapes[i], max_threads)
}

/// Every schedule that is built by adding systems and barriers one by one
/// keeps the bound on parallelism: no parallel step holds more than
/// `max_threads` systems, or more than one where that is zero.
pub proof fn lemma_build_bounded(entries: Seq<Entry>, max_threads: int)
    ensures
        all_within_bound(build(entries, max_threads), max_threads),
    decreases entries.len(),
{
    if entries.len() > 0 {
        lemma_build_bounded(entries.drop_last(), max_threads);
        let before = build(entries.drop_last(), max_threads);
        let after = build(entries, max_threads);
        match entries.last() {
            Entry::System { kinds, exclusive, thread_local } => {
                if !exclusive && !thread_local {
                    lemma_join_start(before, kinds, max_threads);
                    let at = join_start(before, kinds, max_threads);
                    assert forall|i: int| 0 <= i < after.len() implies within_bound(#[trigger] after[i], max_threads) by {
                        if i < before.len() {
                            assert(within_bound(before[i], max_threads));
                            if i == at {
                                assert(accepts(before[at], kinds, max_threads));
                            }
                        }
                    }
                } else {
                    assert forall|i: int| 0 <= i < after.len() implies within_bound(#[trigger] after[i], max_threads) by {
                        if i < before.len() {
                            assert(within_bound(before[i], max_threads));
                        }
                    }
                }
            },
            Entry::Barrier => {
                assert forall|i: int| 0 <= i < after.len() implies within_bound(#[trigger] after[i], max_threads) by {
                    if i < before.len() {
                        assert(within_bound(before[i], max_threads));
                    }
                }
            },
        }
    }
}

/// Adding one more entry to a list adds it to the steps that the list
/// gives.
pub proof fn lemma_build_step(entries: Seq<Entry>, entry: Entry, max_threads: int)
    ensures
        build(entries.push(entry), max_threads) == plan_entry(build(entries, max_threads), entry, max_threads),
{
    assert(entries.push(entry).drop_last() =~= entries);
}

/// Building is a function of the list: two lists that hold the same
/// entries in the same order give the same steps.
pub proof fn lemma_build_deterministic(first: Seq<Entry>, second: Seq<Entry>, max_threads: int)
    requires
        first.len() == second.len(),
        forall|i: int| 0 <= i < first.len() ==> first[i] == second[i],
    ensures
        build(first, max_threads) == build(second, max_threads),
{
    assert(first =~= second);
}

/// A system that is added behind a step that does not run in parallel (a
/// barrier, a local or an exclusive step) is placed behind that step: it
/// never joins a parallel step that stands before it.
pub proof fn lemma_joins_behind_closed_step(
    shapes: Seq<StepShape>,
    kinds: Seq<SystemParamKind>,
    max_threads: int,
    closed: int,
)
    requires
        0 <= closed < shapes.len(),
        shapes[closed].kind != StepKind::Systems,
    ensures
        join_start(shapes, kinds, max_threads) > closed,
        forall|i: int| 0 <= i <= closed ==> plan_parallel(shapes, kinds, max_threads)[i] == shapes[i],
{
    lemma_join_start(shapes, kinds, max_threads);
    let at = join_start(shapes, kinds, max_threads);
    if at <= closed {
        assert(accepts(shapes[closed], kinds, max_threads));
    }
}

/// A system that is added right after an explicit barrier opens a new
/// parallel step behind the barrier, whatever stands before the barrier,
/// and leaves all earlier steps as they were.
pub proof fn lemma_barrier_separates(
    shapes: Seq<StepShape>,
    kinds: Seq<SystemParamKind>,
    max_threads: int,
)
    ensures
        plan_parallel(plan_barrier(shapes), kinds, max_threads) == plan_barrier(shapes).push(
            StepShape { kind: StepKind::Systems, members: seq![kinds] },
        ),
{
    let closed = plan_barrier(shapes);
    lemma_join_start(closed, kinds, max_threads);
    lemma_joins_behind_closed_step(closed, kinds, max_threads, shapes.len() as int);
}

/// A system never joins a parallel step that holds a system with which it
/// conflicts, nor a step that stands before such a step.
pub proof fn lemma_joins_behind_conflict(
    shapes: Seq<StepShape>,
    kinds: Seq<SystemParamKind>,
    max_threads: int,
    step: int,
    member: int,
)
    requires
        0 <= step < shapes.len(),
        0 <= member < shapes[step].members.len(),
        kinds_conflict(shapes[step].members[member], kinds),
    ensures
        join_start(shapes, kinds, max_threads) > step,
{
    lemma_join_start(shapes, kinds, max_threads);
    let at = join_start(shapes, kinds, max_threads);
    if at <= step {
        assert(accepts(shapes[step], kinds, max_threads));
    }
}

} // verus!
