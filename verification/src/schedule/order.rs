//! The order of the labels of a schedule, as mathematics.

use vstd::prelude::*;
use crate::util::{first_index_of, lemma_first_index_of, lemma_first_index_unique};

verus! {

/// `ids` with `id` added at the end, unless it is among them.
pub open spec fn with_id(ids: Seq<u64>, id: u64) -> Seq<u64> {
    if ids.contains(id) {
        ids
    } else {
        ids.push(id)
    }
}

/// `ids` with `id` moved to the place right before `reference`. Nothing
/// moves where one of the two is not among `ids`.
pub open spec fn moved_before(ids: Seq<u64>, id: u64, reference: u64) -> Seq<u64> {
    match (first_index_of(ids, id), first_index_of(ids, reference)) {
        (Some(from), Some(to)) => ids.remove(from).insert(
            if to > from {
                to - 1
            } else {
                to
            },
            id,
        ),
        _ => ids,
    }
}

/// `ids` with `id` moved to the place right after `reference`. Nothing
/// moves where one of the two is not among `ids`.
pub open spec fn moved_after(ids: Seq<u64>, id: u64, reference: u64) -> Seq<u64> {
    match (first_index_of(ids, id), first_index_of(ids, reference)) {
        (Some(from), Some(to)) => ids.remove(from).insert(
            if to < from {
                to + 1
            } else {
                to
            },
            id,
        ),
        _ => ids,
    }
}

/// Adding an identifier keeps the others in place and admits no
/// repetition; adding it twice is adding it once.
pub proof fn lemma_with_id(ids: Seq<u64>, id: u64)
    requires
        ids.no_duplicates(),
    ensures
        with_id(ids, id).no_duplicates(),
        with_id(ids, id).contains(id),
        with_id(with_id(ids, id), id) == with_id(ids, id),
        forall|i: int| 0 <= i < ids.len() ==> with_id(ids, id)[i] == ids[i],
        forall|other: u64| #[trigger] with_id(ids, id).contains(other) <==> (ids.contains(other) || other == id),
{
    let out = with_id(ids, id);
    if !ids.contains(id) {
        assert(out[ids.len() as int] == id);
        assert forall|other: u64| out.contains(other) <==> (ids.contains(other) || other == id) by {
            if out.contains(other) {
                let k = choose|k: int| 0 <= k < out.len() && out[k] == other;
                if k < ids.len() {
                    assert(ids[k] == other);
                }
            }
            if ids.contains(other) {
                let k = choose|k: int| 0 <= k < ids.len() && ids[k] == other;
                assert(out[k] == other);
            }
        }
    }
}

/// What a move keeps: the identifiers are the same ones, none is repeated,
/// and all but the moved one stand in the order in which they stood.
pub open spec fn same_but_moved(before: Seq<u64>, after: Seq<u64>, id: u64) -> bool {
    &&& after.no_duplicates()
    &&& after.len() == before.len()
    &&& forall|other: u64| #[trigger] after.contains(other) <==> before.contains(other)
    &&& after.contains(id) ==> after.remove(first_index_of(after, id)->0) == before.remove(
        first_index_of(before, id)->0,
    )
}

proof fn lemma_reinsert(ids: Seq<u64>, from: int, to: int)
    requires
        ids.no_duplicates(),
        0 <= from < ids.len(),
        0 <= to < ids.len(),
    ensures
        same_but_moved(ids, ids.remove(from).insert(to, ids[from]), ids[from]),
        first_index_of(ids.remove(from).insert(to, ids[from]), ids[from]) == Some(to),
        forall|k: int|
            0 <= k < ids.len() && k != from ==> first_index_of(
                ids.remove(from).insert(to, ids[from]),
                #[trigger] ids[k],
            ) == Some(
                {
                    let short = if k < from {
                        k
                    } else {
                        k - 1
                    };
                    if short < to {
                        short
                    } else {
                        short + 1
                    }
                },
            ),
{
    let id = ids[from];
    let short = ids.remove(from);
    let after = short.insert(to, id);
    assert forall|a: int, b: int| 0 <= a < after.len() && 0 <= b < after.len() && a != b implies after[a]
        != after[b] by {
        let sa = if a < to { a } else { a - 1 };
        let sb = if b < to { b } else { b - 1 };
        let ia = if sa < from { sa } else { sa + 1 };
        let ib = if sb < from { sb } else { sb + 1 };
        if a == to {
            assert(after[b] == short[sb]);
            assert(short[sb] == ids[ib]);
        } else if b == to {
            assert(after[a] == short[sa]);
            assert(short[sa] == ids[ia]);
        } else {
            assert(after[a] == short[sa]);
            assert(short[sa] == ids[ia]);
            assert(after[b] == short[sb]);
            assert(short[sb] == ids[ib]);
        }
    }
    assert forall|other: u64| after.contains(other) <==> ids.contains(other) by {
        if after.contains(other) {
            let a = choose|a: int| 0 <= a < after.len() && after[a] == other;
            if a != to {
                let sa = if a < to { a } else { a - 1 };
                let ia = if sa < from { sa } else { sa + 1 };
                assert(after[a] == short[sa]);
                assert(short[sa] == ids[ia]);
            }
        }
        if ids.contains(other) {
            let k = choose|k: int| 0 <= k < ids.len() && ids[k] == other;
            if k == from {
                assert(after[to] == other);
            } else {
                let sk = if k < from { k } else { k - 1 };
                let ak = if sk < to { sk } else { sk + 1 };
                assert(short[sk] == ids[k]);
                assert(after[ak] == short[sk]);
            }
        }
    }
    assert(after[to] == id);
    lemma_first_index_unique(after, to);
    lemma_first_index_unique(ids, from);
    assert(after.remove(to) =~= short);
    assert forall|k: int| 0 <= k < ids.len() && k != from implies first_index_of(after, #[trigger] ids[k])
        == Some(
        {
            let short = if k < from {
                k
            } else {
                k - 1
            };
            if short < to {
                short
            } else {
                short + 1
            }
        },
    ) by {
        let sk = if k < from { k } else { k - 1 };
        let ak = if sk < to { sk } else { sk + 1 };
        assert(short[sk] == ids[k]);
        assert(after[ak] == short[sk]);
        lemma_first_index_unique(after, ak);
    }
}

/// A label that is moved before another one stands right before it
/// afterwards. The labels are the same ones as before, none is repeated,
/// and all others keep their order.
pub proof fn lemma_moved_before(ids: Seq<u64>, id: u64, reference: u64)
    requires
        ids.no_duplicates(),
    ensures
        same_but_moved(ids, moved_before(ids, id, reference), id),
        ids.contains(id) && ids.contains(reference) && id != reference ==> first_index_of(
            moved_before(ids, id, reference),
            id,
        )->0 + 1 == first_index_of(moved_before(ids, id, reference), reference)->0,
{
    if ids.contains(id) && ids.contains(reference) {
        lemma_first_index_of(ids, id);
        lemma_first_index_of(ids, reference);
        let from = first_index_of(ids, id)->0;
        let to = first_index_of(ids, reference)->0;
        let target = if to > from { to - 1 } else { to };
        lemma_reinsert(ids, from, target);
        if id != reference {
            assert(ids[to] == reference);
        }
    } else {
        if ids.contains(id) {
            lemma_first_index_of(ids, id);
        }
    }
}

/// A label that is moved after another one stands right after it
/// afterwards. The labels are the same ones as before, none is repeated,
/// and all others keep their order.
pub proof fn lemma_moved_after(ids: Seq<u64>, id: u64, reference: u64)
    requires
        ids.no_duplicates(),
    ensures
        same_but_moved(ids, moved_after(ids, id, reference), id),
        ids.contains(id) && ids.contains(reference) && id != reference ==> first_index_of(
            moved_after(ids, id, reference),
            id,
        )->0 == first_index_of(moved_after(ids, id, reference), reference)->0 + 1,
{
    if ids.contains(id) && ids.contains(reference) {
        lemma_first_index_of(ids, id);
        lemma_first_index_of(ids, reference);
        let from = first_index_of(ids, id)->0;
        let to = first_index_of(ids, reference)->0;
        let target = if to < from { to + 1 } else { to };
        lemma_reinsert(ids, from, target);
        if id != reference {
            assert(ids[to] == reference);
        }
    } else {
        if ids.contains(id) {
            lemma_first_index_of(ids, id);
        }
    }
}

} // verus!
