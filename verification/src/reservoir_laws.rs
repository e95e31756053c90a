//! What the offer of a candidate does to a reservoir, said of its slots and the distances
//! as numbers.

use vstd::prelude::*;

use crate::float_bits::F32;
use crate::float_value::{law_singles_compare_as_numbers, units, unordered};
use crate::hash_prune::{
    farthest, has_hash, has_target, lemma_bounds_split, lemma_farthest, lemma_same_hash_slot,
    lower_bound, placed, target_index, upper_bound, BFloat16, ReservoirState, Slot,
};

verus! {

/// The kept distance of a slot: its half of a single, the other half zero.
pub open spec fn kept_dist(slot: Slot) -> F32 {
    F32 { bits: (slot.dist.0 as int * 0x1_0000) as u32 }
}

/// The slot of a candidate: the upper half of its distance is kept.
pub open spec fn fresh_slot(target: u32, hash: u16, dist: F32) -> Slot {
    Slot { target, hash, dist: BFloat16((dist.bits as int / 0x1_0000) as u16) }
}

/// The distance is a smaller number than that of the slot.
pub open spec fn nearer(dist: F32, slot: Slot) -> bool {
    !unordered(dist) && !unordered(kept_dist(slot)) && units(dist) < units(kept_dist(slot))
}

/// `after` holds `rest`, in its order, and `fresh` behind those whose hash is not larger.
pub open spec fn put_in(rest: Seq<Slot>, fresh: Slot, after: Seq<Slot>) -> bool {
    exists|p: int|
        0 <= p <= rest.len() && after == #[trigger] rest.insert(p, fresh) && (forall|k: int|
            0 <= k < p ==> (#[trigger] rest[k]).hash <= fresh.hash) && (forall|k: int|
            p <= k < rest.len() ==> (#[trigger] rest[k]).hash > fresh.hash)
}

/// A slot that a new candidate of this hash competes with in a full reservoir: one of the
/// same hash, or any where no slot has it.
pub open spec fn competes(slots: Seq<Slot>, hash: u16, i: int) -> bool {
    &&& 0 <= i < slots.len()
    &&& slots[i].hash == hash || forall|k: int|
        0 <= k < slots.len() ==> (#[trigger] slots[k]).hash != hash
}

/// Every slot's distance is a number.
pub open spec fn numbered(slots: Seq<Slot>) -> bool {
    forall|i: int| 0 <= i < slots.len() ==> !unordered(kept_dist(#[trigger] slots[i]))
}

/// No slot that competes with the candidate is farther than the `i`-th, and none of its
/// hash that stands in front of it is as far.
pub open spec fn farthest_rival(slots: Seq<Slot>, hash: u16, i: int) -> bool {
    &&& forall|j: int| #[trigger]
        competes(slots, hash, j) ==> units(kept_dist(slots[j])) <= units(kept_dist(slots[i]))
    &&& slots[i].hash == hash ==> forall|j: int|
        0 <= j < i && (#[trigger] slots[j]).hash == hash ==> units(kept_dist(slots[j])) < units(
            kept_dist(slots[i]),
        )
}

/// What the offer of a candidate makes of the slots of a reservoir with that limit.
/// - The slot of its target goes where the candidate is nearer; else nothing changes.
/// - While there is room, a candidate with a new target comes in and no slot goes.
/// - Of a full reservoir a slot goes only for a nearer candidate: one that competes with
///   it, and, where distances are numbers, the farthest of those. Where the candidate is
///   nearer than no slot that competes with it, nothing changes.
pub open spec fn takes_the_nearer(
    limit: int,
    slots: Seq<Slot>,
    target: u32,
    hash: u16,
    dist: F32,
    after: Seq<Slot>,
) -> bool {
    let fresh = fresh_slot(target, hash, dist);
    &&& forall|i: int|
        0 <= i < slots.len() && (#[trigger] slots[i]).target == target ==> if nearer(
            dist,
            slots[i],
        ) {
            put_in(slots.remove(i), fresh, after)
        } else {
            after == slots
        }
    &&& (forall|i: int| 0 <= i < slots.len() ==> (#[trigger] slots[i]).target != target) ==> {
        if slots.len() < limit {
            put_in(slots, fresh, after)
        } else {
            &&& after == slots || exists|i: int| #[trigger]
                competes(slots, hash, i) && nearer(dist, slots[i]) && put_in(
                    slots.remove(i),
                    fresh,
                    after,
                ) && (numbered(slots) ==> farthest_rival(slots, hash, i))
            &&& numbered(slots) && (exists|i: int| #[trigger]
                competes(slots, hash, i) && nearer(dist, slots[i])) ==> after.contains(fresh)
        }
    }
}

proof fn lemma_put_in(rest: Seq<Slot>, slot: Slot)
    requires
        forall|i: int, j: int|
            0 <= i < j < rest.len() ==> (#[trigger] rest[i]).hash <= (#[trigger] rest[j]).hash,
    ensures
        put_in(rest, slot, placed(rest, slot)),
        placed(rest, slot).contains(slot),
{
    lemma_bounds_split(rest, slot.hash);
    let p = upper_bound(rest, slot.hash);
    assert(placed(rest, slot) == rest.insert(p, slot));
    assert(placed(rest, slot)[p] == slot);
}

proof fn lemma_rest_sorted(slots: Seq<Slot>, at: int)
    requires
        0 <= at < slots.len(),
        forall|i: int, j: int|
            0 <= i < j < slots.len() ==> (#[trigger] slots[i]).hash <= (#[trigger] slots[j]).hash,
    ensures
        forall|i: int, j: int|
            0 <= i < j < slots.remove(at).len() ==> (#[trigger] slots.remove(at)[i]).hash <= (
            #[trigger] slots.remove(at)[j]).hash,
{
    let rest = slots.remove(at);
    assert forall|i: int, j: int| 0 <= i < j < rest.len() implies (#[trigger] rest[i]).hash <= (
    #[trigger] rest[j]).hash by {
        let a = if i < at {
            i
        } else {
            i + 1
        };
        let b = if j < at {
            j
        } else {
            j + 1
        };
        assert(rest[i] == slots[a] && rest[j] == slots[b]);
    }
}

/// The scan ends with the first of the farthest slots.
proof fn lemma_first_farthest(slots: Seq<Slot>, lo: int, hi: int)
    requires
        0 <= lo < hi <= slots.len(),
        numbered(slots),
    ensures
        forall|i: int|
            lo <= i < hi ==> units(kept_dist(#[trigger] slots[i])) <= units(
                kept_dist(slots[farthest(slots, lo, hi)]),
            ),
        forall|i: int|
            lo <= i < farthest(slots, lo, hi) ==> units(kept_dist(#[trigger] slots[i])) < units(
                kept_dist(slots[farthest(slots, lo, hi)]),
            ),
    decreases hi - lo,
{
    lemma_farthest(slots, lo, hi);
    if hi > lo + 1 {
        lemma_first_farthest(slots, lo, hi - 1);
        lemma_farthest(slots, lo, hi - 1);
        let held = farthest(slots, lo, hi - 1);
        assert(slots[held].dist.single() == kept_dist(slots[held]));
        assert(slots[hi - 1].dist.single() == kept_dist(slots[hi - 1]));
        law_singles_compare_as_numbers(kept_dist(slots[held]), kept_dist(slots[hi - 1]));
    }
}

/// The slot that stands for a whole full reservoir is a farthest one.
proof fn lemma_far_slot(state: ReservoirState)
    requires
        state.wf(),
        state.slots.len() > 0,
        numbered(state.slots),
    ensures
        forall|i: int|
            0 <= i < state.slots.len() ==> units(kept_dist(#[trigger] state.slots[i])) <= units(
                kept_dist(state.slots[state.far]),
            ),
{
    assert forall|i: int| 0 <= i < state.slots.len() implies !(
    #[trigger] state.slots[i]).dist.single().nan() by {
        law_singles_compare_as_numbers(kept_dist(state.slots[i]), kept_dist(state.slots[i]));
    }
    assert(state.ordered());
    assert forall|i: int| 0 <= i < state.slots.len() implies units(
        kept_dist(#[trigger] state.slots[i]),
    ) <= units(kept_dist(state.slots[state.far])) by {
        law_singles_compare_as_numbers(
            kept_dist(state.slots[i]),
            kept_dist(state.slots[state.far]),
        );
        assert(state.slots[i].dist.single().at_most(state.slots[state.far].dist.single()));
    }
}

/// An offer is decided by the distances as numbers: of two candidates for one target the
/// nearer one stays, a candidate comes in while there is room, and from a full reservoir
/// only a nearer candidate takes the place of a slot, the farthest of its hash, or of all
/// where none has its hash.
pub proof fn law_offer_takes_the_nearer(
    state: ReservoirState,
    target: u32,
    hash: u16,
    dist: F32,
)
    requires
        state.wf(),
    ensures
        takes_the_nearer(
            state.limit as int,
            state.slots,
            target,
            hash,
            dist,
            state.offered(target, hash, dist).slots,
        ),
{
    let slots = state.slots;
    let after = state.offered(target, hash, dist).slots;
    let fresh = fresh_slot(target, hash, dist);
    assert(fresh == Slot::candidate(target, hash, dist));
    if has_target(slots, target) {
        let at = target_index(slots, target);
        assert(slots[at].target == target);
        law_singles_compare_as_numbers(dist, kept_dist(slots[at]));
        lemma_rest_sorted(slots, at);
        lemma_put_in(slots.remove(at), fresh);
        assert forall|i: int| 0 <= i < slots.len() && (#[trigger] slots[i]).target == target implies
            i == at by {}
    } else if slots.len() < state.limit {
        lemma_put_in(slots, fresh);
    } else {
        let at = if has_hash(slots, hash) {
            farthest(slots, lower_bound(slots, hash), upper_bound(slots, hash))
        } else {
            state.far
        };
        lemma_bounds_split(slots, hash);
        if has_hash(slots, hash) {
            lemma_same_hash_slot(state, hash);
            lemma_farthest(slots, lower_bound(slots, hash), upper_bound(slots, hash));
            assert(slots[at].hash == hash);
            if numbered(slots) {
                lemma_first_farthest(slots, lower_bound(slots, hash), upper_bound(slots, hash));
            }
        } else if numbered(slots) {
            lemma_far_slot(state);
        }
        assert(competes(slots, hash, at));
        law_singles_compare_as_numbers(dist, kept_dist(slots[at]));
        lemma_rest_sorted(slots, at);
        lemma_put_in(slots.remove(at), fresh);
        if numbered(slots) {
            assert forall|j: int| #[trigger] competes(slots, hash, j) implies units(
                kept_dist(slots[j]),
            ) <= units(kept_dist(slots[at])) by {
                if has_hash(slots, hash) {
                    let i = choose|i: int| 0 <= i < slots.len() && #[trigger] slots[i].hash == hash;
                    assert(slots[i].hash == hash);
                    assert(slots[j].hash == hash);
                }
            }
            assert(farthest_rival(slots, hash, at));
        }
    }
}

/// Where a slot with a new target takes the place of another, that one alone is gone.
proof fn lemma_swapped(slots: Seq<Slot>, i: int, fresh: Slot, after: Seq<Slot>)
    requires
        0 <= i < slots.len(),
        put_in(slots.remove(i), fresh, after),
        forall|k: int| 0 <= k < slots.len() ==> (#[trigger] slots[k]).target != fresh.target,
        forall|k: int, m: int|
            0 <= k < m < slots.len() ==> (#[trigger] slots[k]).target != (
            #[trigger] slots[m]).target,
    ensures
        after.len() == slots.len(),
        !after.contains(slots[i]),
        forall|k: int|
            0 <= k < slots.len() && k != i ==> after.contains(#[trigger] slots[k]),
{
    let rest = slots.remove(i);
    let p = choose|p: int| 0 <= p <= rest.len() && after == #[trigger] rest.insert(p, fresh);
    assert forall|k: int| 0 <= k < slots.len() && k != i implies after.contains(
        #[trigger] slots[k],
    ) by {
        let r = if k < i {
            k
        } else {
            k - 1
        };
        assert(rest[r] == slots[k]);
        assert(after[if r < p {
            r
        } else {
            r + 1
        }] == slots[k]);
    }
    assert forall|m: int| 0 <= m < after.len() implies after[m] != slots[i] by {
        if m != p {
            let r = if m < p {
                m
            } else {
                m - 1
            };
            assert(after[m] == rest[r]);
            let k = if r < i {
                r
            } else {
                r + 1
            };
            assert(rest[r] == slots[k]);
            assert(slots[k].target != slots[i].target);
        }
    }
}

/// In a full reservoir an offer never replaces a slot by a farther one: where the offer of
/// a new target changes the slots, the one slot that goes is farther than the candidate. A
/// candidate that is nearer than no slot of its hash leaves the reservoir as it was.
pub proof fn law_full_reservoir_takes_no_farther_one(
    state: ReservoirState,
    target: u32,
    hash: u16,
    dist: F32,
)
    requires
        state.wf(),
        state.slots.len() == state.limit,
        forall|i: int| 0 <= i < state.slots.len() ==> (#[trigger] state.slots[i]).target != target,
    ensures
        ({
            let after = state.offered(target, hash, dist).slots;
            &&& after.len() == state.slots.len()
            &&& after != state.slots ==> exists|i: int|
                0 <= i < state.slots.len() && nearer(dist, #[trigger] state.slots[i])
                    && !after.contains(state.slots[i]) && forall|k: int|
                    0 <= k < state.slots.len() && k != i ==> after.contains(
                        #[trigger] state.slots[k],
                    )
            &&& (exists|i: int| 0 <= i < state.slots.len() && #[trigger] state.slots[i].hash == hash)
                && (forall|i: int|
                0 <= i < state.slots.len() && (#[trigger] state.slots[i]).hash == hash ==> !nearer(
                    dist,
                    state.slots[i],
                )) ==> state.offered(target, hash, dist) == state
        }),
{
    let slots = state.slots;
    let after = state.offered(target, hash, dist).slots;
    let fresh = fresh_slot(target, hash, dist);
    law_offer_takes_the_nearer(state, target, hash, dist);
    if after != slots {
        let i = choose|i: int| #[trigger]
            competes(slots, hash, i) && nearer(dist, slots[i]) && put_in(
                slots.remove(i),
                fresh,
                after,
            );
        assert(nearer(dist, slots[i]));
        lemma_swapped(slots, i, fresh, after);
    }
    if has_hash(slots, hash) {
        lemma_bounds_split(slots, hash);
        lemma_same_hash_slot(state, hash);
        let at = farthest(slots, lower_bound(slots, hash), upper_bound(slots, hash));
        lemma_farthest(slots, lower_bound(slots, hash), upper_bound(slots, hash));
        assert(slots[at].hash == hash);
        law_singles_compare_as_numbers(dist, kept_dist(slots[at]));
    }
}

} // verus!
