//! Bounded candidate reservoirs with hash buckets.
//!
//! Every point keeps up to a fixed number of candidate neighbours, each with a
//! hash of its direction and its distance. Candidates compete within their
//! bucket once the reservoir is full, and with the farthest of all where no
//! candidate shares their bucket.

use vstd::prelude::*;

use crate::float_bits::F32;
use crate::reservoir_laws::{law_offer_takes_the_nearer, takes_the_nearer};

verus! {

/// The upper half of a single precision value.
#[derive(Clone, Copy, Debug, PartialEq, Eq, Structural)]
pub struct BFloat16(pub u16);

impl Default for BFloat16 {
    fn default() -> (value: Self)
        ensures
            value == BFloat16(0),
    {
        BFloat16(0)
    }
}

impl BFloat16 {
    /// The value whose upper half this is and whose lower half is zero.
    pub open spec fn single(self) -> F32 {
        F32 { bits: (self.0 as int * 0x1_0000) as u32 }
    }

    pub open spec fn truncated(value: F32) -> BFloat16 {
        BFloat16((value.bits as int / 0x1_0000) as u16)
    }

    pub fn from_f32(value: F32) -> (half: Self)
        ensures
            half == BFloat16::truncated(value),
    {
        BFloat16((value.bits / 0x1_0000) as u16)
    }

    pub fn to_f32(self) -> (value: F32)
        ensures
            value == self.single(),
    {
        F32 { bits: self.0 as u32 * 0x1_0000 }
    }
}

/// Truncation keeps a value that has nothing in its lower half, and never moves
/// a number away from zero.
pub proof fn law_bfloat16_truncates(half: BFloat16, value: F32)
    ensures
        BFloat16::truncated(half.single()) == half,
        BFloat16::truncated(value).single().magnitude() <= value.magnitude(),
        BFloat16::truncated(value).single().bits >= crate::float_bits::F32_SIGN <==> value.bits
            >= crate::float_bits::F32_SIGN,
{
}

/// A candidate neighbour.
#[derive(Clone, Copy, Debug, PartialEq, Eq, Structural)]
pub struct Slot {
    pub target: u32,
    pub hash: u16,
    pub dist: BFloat16,
}

impl Slot {
    pub open spec fn candidate(target: u32, hash: u16, dist: F32) -> Slot {
        Slot { target, hash, dist: BFloat16::truncated(dist) }
    }

    pub fn new(target: u32, hash: u16, dist: F32) -> (slot: Self)
        ensures
            slot == Slot::candidate(target, hash, dist),
    {
        Slot { target, hash, dist: BFloat16::from_f32(dist) }
    }
}

/// How many slots from the front stand up to the last one whose hash is at most `hash`.
pub open spec fn upper_bound(slots: Seq<Slot>, hash: u16) -> int
    decreases slots.len(),
{
    if slots.len() == 0 {
        0
    } else if slots.last().hash <= hash {
        slots.len() as int
    } else {
        upper_bound(slots.drop_last(), hash)
    }
}

/// `slots` with `slot` behind every slot whose hash is not larger.
pub open spec fn placed(slots: Seq<Slot>, slot: Slot) -> Seq<Slot> {
    slots.insert(upper_bound(slots, slot.hash), slot)
}

/// Of the slots from `lo` to in front of `hi`: the one that a scan from the front
/// ends with when it moves on to each slot farther than the one it holds.
pub open spec fn farthest(slots: Seq<Slot>, lo: int, hi: int) -> int
    decreases hi - lo,
{
    if hi <= lo + 1 {
        lo
    } else {
        let held = farthest(slots, lo, hi - 1);
        if slots[held].dist.single().below(slots[hi - 1].dist.single()) {
            hi - 1
        } else {
            held
        }
    }
}

pub open spec fn has_target(slots: Seq<Slot>, target: u32) -> bool {
    exists|i: int| 0 <= i < slots.len() && #[trigger] slots[i].target == target
}

/// Where the slot for `target` stands.
pub open spec fn target_index(slots: Seq<Slot>, target: u32) -> int {
    choose|i: int| 0 <= i < slots.len() && #[trigger] slots[i].target == target
}

pub open spec fn has_hash(slots: Seq<Slot>, hash: u16) -> bool {
    exists|i: int| 0 <= i < slots.len() && #[trigger] slots[i].hash == hash
}

/// How many slots from the front have a smaller hash.
pub open spec fn lower_bound(slots: Seq<Slot>, hash: u16) -> int
    decreases slots.len(),
{
    if slots.len() == 0 {
        0
    } else if slots.last().hash < hash {
        slots.len() as int
    } else {
        lower_bound(slots.drop_last(), hash)
    }
}

/// What a reservoir holds.
#[verifier::ext_equal]
pub struct ReservoirState {
    /// The most slots it may hold.
    pub limit: nat,
    /// The slots in order of their hashes.
    pub slots: Seq<Slot>,
    /// The slot that is known as the farthest one.
    pub far: int,
}

impl ReservoirState {
    pub open spec fn sorted(self) -> bool {
        forall|i: int, j: int|
            0 <= i < j < self.slots.len() ==> (#[trigger] self.slots[i]).hash <= (
            #[trigger] self.slots[j]).hash
    }

    pub open spec fn targets_distinct(self) -> bool {
        forall|i: int, j: int|
            0 <= i < j < self.slots.len() ==> (#[trigger] self.slots[i]).target != (
            #[trigger] self.slots[j]).target
    }

    /// No slot's distance is unordered.
    pub open spec fn ordered(self) -> bool {
        forall|i: int| 0 <= i < self.slots.len() ==> !(#[trigger] self.slots[i]).dist.single().nan()
    }

    /// Sorted by hash, one slot per target, within the limit, with a farthest slot
    /// that is one of them, and where distances compare, really the farthest.
    pub open spec fn wf(self) -> bool {
        &&& self.limit > 0
        &&& self.slots.len() <= self.limit
        &&& self.sorted()
        &&& self.targets_distinct()
        &&& if self.slots.len() == 0 {
            self.far == 0
        } else {
            0 <= self.far < self.slots.len()
        }
        &&& self.ordered() && self.slots.len() > 0 ==> forall|i: int|
            0 <= i < self.slots.len() ==> (#[trigger] self.slots[i]).dist.single().at_most(
                self.slots[self.far].dist.single(),
            )
    }

    /// `slot` in place of the one at `at`.
    pub open spec fn replaced(self, at: int, slot: Slot) -> ReservoirState {
        let slots = placed(self.slots.remove(at), slot);
        ReservoirState { slots, far: farthest(slots, 0, slots.len() as int), ..self }
    }

    /// `slot` as one more.
    pub open spec fn added(self, slot: Slot) -> ReservoirState {
        let slots = placed(self.slots, slot);
        let at = upper_bound(self.slots, slot.hash);
        let far = if self.slots.len() == 0 {
            0
        } else if self.slots[self.far].dist.single().at_most(slot.dist.single()) {
            farthest(slots, 0, slots.len() as int)
        } else if at <= self.far {
            self.far + 1
        } else {
            self.far
        };
        ReservoirState { slots, far, ..self }
    }

    /// What the offer of a candidate makes of the reservoir.
    /// - A target that has a slot keeps the nearer of the two distances.
    /// - While there is room the candidate is added.
    /// - In a full reservoir it replaces the farthest slot of its hash where that
    ///   is farther, or where no slot has its hash the farthest slot of all where
    ///   that is farther.
    pub open spec fn offered(self, target: u32, hash: u16, dist: F32) -> ReservoirState {
        let slot = Slot::candidate(target, hash, dist);
        let same_hash = farthest(
            self.slots,
            lower_bound(self.slots, hash),
            upper_bound(self.slots, hash),
        );
        if has_target(self.slots, target) {
            let at = target_index(self.slots, target);
            if dist.below(self.slots[at].dist.single()) {
                self.replaced(at, slot)
            } else {
                self
            }
        } else if self.slots.len() < self.limit {
            self.added(slot)
        } else if has_hash(self.slots, hash) {
            if dist.below(self.slots[same_hash].dist.single()) {
                self.replaced(same_hash, slot)
            } else {
                self
            }
        } else if dist.below(self.slots[self.far].dist.single()) {
            self.replaced(self.far, slot)
        } else {
            self
        }
    }
}

/// The slots stand in order of their hashes.
pub(crate) open spec fn hash_sorted(slots: Seq<Slot>) -> bool {
    forall|i: int, j: int|
        0 <= i < j < slots.len() ==> (#[trigger] slots[i]).hash <= (#[trigger] slots[j]).hash
}

proof fn lemma_upper_bound(slots: Seq<Slot>, hash: u16, p: int)
    requires
        0 <= p <= slots.len(),
        forall|i: int| 0 <= i < p ==> (#[trigger] slots[i]).hash <= hash,
        forall|i: int| p <= i < slots.len() ==> (#[trigger] slots[i]).hash > hash,
    ensures
        upper_bound(slots, hash) == p,
    decreases slots.len(),
{
    if p < slots.len() {
        lemma_upper_bound(slots.drop_last(), hash, p);
    }
}

proof fn lemma_lower_bound(slots: Seq<Slot>, hash: u16, p: int)
    requires
        0 <= p <= slots.len(),
        forall|i: int| 0 <= i < p ==> (#[trigger] slots[i]).hash < hash,
        forall|i: int| p <= i < slots.len() ==> (#[trigger] slots[i]).hash >= hash,
    ensures
        lower_bound(slots, hash) == p,
    decreases slots.len(),
{
    if p < slots.len() {
        lemma_lower_bound(slots.drop_last(), hash, p);
    }
}

/// In sorted slots the bounds part the smaller hashes from the larger ones.
pub(crate) proof fn lemma_bounds_split(slots: Seq<Slot>, hash: u16)
    requires
        hash_sorted(slots),
    ensures
        0 <= lower_bound(slots, hash) <= upper_bound(slots, hash) <= slots.len(),
        forall|i: int|
            0 <= i < slots.len() ==> ((#[trigger] slots[i]).hash <= hash <==> i < upper_bound(
                slots,
                hash,
            )),
        forall|i: int|
            0 <= i < slots.len() ==> ((#[trigger] slots[i]).hash < hash <==> i < lower_bound(
                slots,
                hash,
            )),
    decreases slots.len(),
{
    if slots.len() > 0 {
        let rest = slots.drop_last();
        lemma_bounds_split(rest, hash);
        assert forall|i: int| 0 <= i < slots.len() implies ((#[trigger] slots[i]).hash <= hash
            <==> i < upper_bound(slots, hash)) by {
            if i < slots.len() - 1 {
                assert(rest[i] == slots[i]);
            }
        }
        assert forall|i: int| 0 <= i < slots.len() implies ((#[trigger] slots[i]).hash < hash
            <==> i < lower_bound(slots, hash)) by {
            if i < slots.len() - 1 {
                assert(rest[i] == slots[i]);
            }
        }
    }
}

proof fn lemma_placed(slots: Seq<Slot>, slot: Slot)
    requires
        hash_sorted(slots),
    ensures
        hash_sorted(placed(slots, slot)),
        placed(slots, slot).len() == slots.len() + 1,
        0 <= upper_bound(slots, slot.hash) <= slots.len(),
        placed(slots, slot)[upper_bound(slots, slot.hash)] == slot,
        forall|i: int|
            0 <= i < slots.len() ==> #[trigger] slots[i] == placed(slots, slot)[if i
                < upper_bound(slots, slot.hash) {
                i
            } else {
                i + 1
            }],
{
    lemma_bounds_split(slots, slot.hash);
    let at = upper_bound(slots, slot.hash);
    let result = placed(slots, slot);
    assert forall|i: int, j: int| 0 <= i < j < result.len() implies (#[trigger] result[i]).hash
        <= (#[trigger] result[j]).hash by {
        let a = if i < at {
            slots[i].hash
        } else if i == at {
            slot.hash
        } else {
            slots[i - 1].hash
        };
        let b = if j < at {
            slots[j].hash
        } else if j == at {
            slot.hash
        } else {
            slots[j - 1].hash
        };
        assert(result[i].hash == a);
        assert(result[j].hash == b);
    }
}

pub(crate) proof fn lemma_farthest(slots: Seq<Slot>, lo: int, hi: int)
    requires
        0 <= lo < hi <= slots.len(),
    ensures
        lo <= farthest(slots, lo, hi) < hi,
        (forall|i: int| lo <= i < hi ==> !(#[trigger] slots[i]).dist.single().nan()) ==> forall|
            i: int,
        |
            lo <= i < hi ==> (#[trigger] slots[i]).dist.single().at_most(
                slots[farthest(slots, lo, hi)].dist.single(),
            ),
    decreases hi - lo,
{
    if hi > lo + 1 {
        lemma_farthest(slots, lo, hi - 1);
    }
}

/// No two slots have the same target.
spec fn distinct_targets(slots: Seq<Slot>) -> bool {
    forall|i: int, j: int|
        0 <= i < j < slots.len() ==> (#[trigger] slots[i]).target != (#[trigger] slots[j]).target
}

/// Without one of its slots a reservoir stays sorted, and the slots keep their targets.
proof fn lemma_removed(slots: Seq<Slot>, at: int)
    requires
        hash_sorted(slots),
        distinct_targets(slots),
        0 <= at < slots.len(),
    ensures
        hash_sorted(slots.remove(at)),
        distinct_targets(slots.remove(at)),
        forall|k: int|
            0 <= k < slots.len() - 1 ==> #[trigger] slots.remove(at)[k] == slots[if k < at {
                k
            } else {
                k + 1
            }],
{
    let rest = slots.remove(at);
    assert forall|i: int, j: int| 0 <= i < j < rest.len() implies (#[trigger] rest[i]).hash <= (
    #[trigger] rest[j]).hash && rest[i].target != rest[j].target by {
        let a = if i < at {
            i
        } else {
            i + 1
        };
        let b = if j < at {
            j
        } else {
            j + 1
        };
        assert(rest[i] == slots[a]);
        assert(rest[j] == slots[b]);
    }
}

/// A slot that is put in keeps the targets different where none had its own.
proof fn lemma_placed_targets(slots: Seq<Slot>, slot: Slot)
    requires
        hash_sorted(slots),
        distinct_targets(slots),
        forall|i: int| 0 <= i < slots.len() ==> (#[trigger] slots[i]).target != slot.target,
    ensures
        distinct_targets(placed(slots, slot)),
{
    lemma_placed(slots, slot);
    let p = upper_bound(slots, slot.hash);
    let result = placed(slots, slot);
    assert forall|i: int, j: int| 0 <= i < j < result.len() implies (#[trigger] result[i]).target
        != (#[trigger] result[j]).target by {
        let a = if i < p {
            i
        } else {
            i - 1
        };
        let b = if j < p {
            j
        } else {
            j - 1
        };
        if i != p {
            assert(slots[a] == result[i]);
        }
        if j != p {
            assert(slots[b] == result[j]);
        }
    }
}

/// Replacing a slot keeps the reservoir in order, for a target that no other
/// slot has.
#[verifier::spinoff_prover]
proof fn lemma_replaced_wf(state: ReservoirState, at: int, slot: Slot)
    requires
        state.wf(),
        0 <= at < state.slots.len(),
        forall|i: int|
            0 <= i < state.slots.len() && i != at ==> (#[trigger] state.slots[i]).target
                != slot.target,
    ensures
        state.replaced(at, slot).wf(),
        state.replaced(at, slot).slots.len() == state.slots.len(),
        hash_sorted(state.slots.remove(at)),
{
    let rest = state.slots.remove(at);
    lemma_removed(state.slots, at);
    assert forall|i: int| 0 <= i < rest.len() implies (#[trigger] rest[i]).target
        != slot.target by {
        let k = if i < at {
            i
        } else {
            i + 1
        };
        assert(rest[i] == state.slots[k]);
    }
    lemma_placed(rest, slot);
    lemma_placed_targets(rest, slot);
    let result = placed(rest, slot);
    lemma_farthest(result, 0, result.len() as int);
}

/// Adding a slot keeps the reservoir in order, for a target that has none.
proof fn lemma_added_wf(state: ReservoirState, slot: Slot)
    requires
        state.wf(),
        state.slots.len() < state.limit,
        !has_target(state.slots, slot.target),
    ensures
        state.added(slot).wf(),
        state.added(slot).slots.len() == state.slots.len() + 1,
{
    let p = upper_bound(state.slots, slot.hash);
    let result = placed(state.slots, slot);
    lemma_placed(state.slots, slot);
    assert forall|i: int, j: int| 0 <= i < j < result.len() implies (#[trigger] result[i]).target
        != (#[trigger] result[j]).target by {
        if i != p && j != p {
            assert(result[i] == state.slots[if i < p {
                i
            } else {
                i - 1
            }]);
            assert(result[j] == state.slots[if j < p {
                j
            } else {
                j - 1
            }]);
        } else {
            let k = if i == p {
                j
            } else {
                i
            };
            assert(result[k] == state.slots[if k < p {
                k
            } else {
                k - 1
            }]);
        }
    }
    lemma_farthest(result, 0, result.len() as int);
    let grown = state.added(slot);
    if grown.ordered() {
        assert(grown.slots == result);
        assert forall|i: int| 0 <= i < result.len() implies !(
        #[trigger] result[i]).dist.single().nan() by {
            assert(!grown.slots[i].dist.single().nan());
        }
        assert forall|i: int| 0 <= i < state.slots.len() implies !(
        #[trigger] state.slots[i]).dist.single().nan() by {
            let k = if i < p {
                i
            } else {
                i + 1
            };
            assert(!result[k].dist.single().nan());
        }
        assert(result[p] == slot);
        if state.slots.len() > 0 {
            let far = state.far;
            assert(state.slots[far] == result[if far < p {
                far
            } else {
                far + 1
            }]);
            assert forall|i: int| 0 <= i < result.len() implies (
            #[trigger] result[i]).dist.single().at_most(result[grown.far].dist.single()) by {
                if i != p {
                    let k = if i < p {
                        i
                    } else {
                        i - 1
                    };
                    assert(result[i] == state.slots[k]);
                    assert(state.slots[k].dist.single().at_most(state.slots[far].dist.single()));
                }
            }
        }
    }
}

/// The slot that a full reservoir would give up for a candidate of this hash is
/// one of its slots.
pub(crate) proof fn lemma_same_hash_slot(state: ReservoirState, hash: u16)
    requires
        state.wf(),
        has_hash(state.slots, hash),
    ensures
        0 <= lower_bound(state.slots, hash) < upper_bound(state.slots, hash) <= state.slots.len(),
        0 <= farthest(
            state.slots,
            lower_bound(state.slots, hash),
            upper_bound(state.slots, hash),
        ) < state.slots.len(),
{
    lemma_bounds_split(state.slots, hash);
    let i = choose|i: int| 0 <= i < state.slots.len() && #[trigger] state.slots[i].hash == hash;
    assert(state.slots[i].hash == hash);
    lemma_farthest(
        state.slots,
        lower_bound(state.slots, hash),
        upper_bound(state.slots, hash),
    );
}

/// A reservoir in order stays in order whatever is offered: sorted by hash, one
/// slot per target, never more than its limit, and never fewer than before.
pub proof fn law_offer_keeps_order(state: ReservoirState, target: u32, hash: u16, dist: F32)
    requires
        state.wf(),
    ensures
        state.offered(target, hash, dist).wf(),
        state.offered(target, hash, dist).limit == state.limit,
        state.slots.len() <= state.offered(target, hash, dist).slots.len() <= state.limit,
{
    let slot = Slot::candidate(target, hash, dist);
    if has_target(state.slots, target) {
        let at = target_index(state.slots, target);
        assert(state.slots[at].target == target);
        lemma_replaced_wf(state, at, slot);
    } else if state.slots.len() < state.limit {
        lemma_added_wf(state, slot);
    } else if has_hash(state.slots, hash) {
        lemma_same_hash_slot(state, hash);
        lemma_replaced_wf(
            state,
            farthest(state.slots, lower_bound(state.slots, hash), upper_bound(state.slots, hash)),
            slot,
        );
    } else {
        lemma_replaced_wf(state, state.far, slot);
    }
}

/// Where the offer of a candidate takes effect, the candidate has the slot for
/// its target; every other slot was there before.
pub proof fn law_offer_brings_its_candidate_alone(
    state: ReservoirState,
    target: u32,
    hash: u16,
    dist: F32,
)
    requires
        state.wf(),
    ensures
        ({
            let after = state.offered(target, hash, dist);
            let slot = Slot::candidate(target, hash, dist);
            &&& after == state || after.slots.contains(slot)
            &&& forall|i: int|
                0 <= i < after.slots.len() ==> #[trigger] after.slots[i] == slot
                    || state.slots.contains(after.slots[i])
        }),
{
    let slot = Slot::candidate(target, hash, dist);
    let same_hash = farthest(
        state.slots,
        lower_bound(state.slots, hash),
        upper_bound(state.slots, hash),
    );
    let after = state.offered(target, hash, dist);
    if after != state {
        if !has_target(state.slots, target) && state.slots.len() < state.limit {
            lemma_placed(state.slots, slot);
            let p = upper_bound(state.slots, hash);
            assert(after.slots[p] == slot);
            assert forall|i: int| 0 <= i < after.slots.len() implies #[trigger] after.slots[i]
                == slot || state.slots.contains(after.slots[i]) by {
                if i != p {
                    assert(after.slots[i] == state.slots[if i < p {
                        i
                    } else {
                        i - 1
                    }]);
                }
            }
        } else {
            if has_hash(state.slots, hash) {
                lemma_same_hash_slot(state, hash);
            }
            let at = if has_target(state.slots, target) {
                target_index(state.slots, target)
            } else if has_hash(state.slots, hash) {
                same_hash
            } else {
                state.far
            };
            if has_target(state.slots, target) {
                assert(state.slots[at].target == target);
            }
            let rest = state.slots.remove(at);
            lemma_replaced_wf(state, at, slot);
            lemma_placed(rest, slot);
            let p = upper_bound(rest, hash);
            assert(after.slots[p] == slot);
            assert forall|i: int| 0 <= i < after.slots.len() implies #[trigger] after.slots[i]
                == slot || state.slots.contains(after.slots[i]) by {
                if i != p {
                    let k = if i < p {
                        i
                    } else {
                        i - 1
                    };
                    assert(after.slots[i] == rest[k]);
                    assert(rest[k] == state.slots[if k < at {
                        k
                    } else {
                        k + 1
                    }]);
                }
            }
        }
    }
}

/// Offering the same candidate once more changes nothing, for distances that are
/// not negative.
pub proof fn law_offer_is_idempotent(state: ReservoirState, target: u32, hash: u16, dist: F32)
    requires
        state.wf(),
        dist.bits < crate::float_bits::F32_SIGN,
    ensures
        state.offered(target, hash, dist).offered(target, hash, dist) == state.offered(
            target,
            hash,
            dist,
        ),
{
    let after = state.offered(target, hash, dist);
    let slot = Slot::candidate(target, hash, dist);
    if after != state {
        law_offer_keeps_order(state, target, hash, dist);
        law_offer_brings_its_candidate_alone(state, target, hash, dist);
        let k = choose|k: int| 0 <= k < after.slots.len() && after.slots[k] == slot;
        assert(after.slots[k].target == target);
        let at = target_index(after.slots, target);
        assert(after.slots[at].target == target);
        assert(at == k);
    }
}

/// The reservoir of one point.
#[derive(Debug)]
pub struct HashPruneReservoir {
    l_max: usize,
    slots: Vec<Slot>,
    farthest_idx: usize,
    farthest_dist: F32,
}

impl View for HashPruneReservoir {
    type V = ReservoirState;

    closed spec fn view(&self) -> ReservoirState {
        ReservoirState {
            limit: self.l_max as nat,
            slots: self.slots@,
            far: self.farthest_idx as int,
        }
    }
}

impl HashPruneReservoir {
    /// The kept distance is that of the slot known as the farthest one.
    pub closed spec fn cache_agrees(&self) -> bool {
        self.farthest_dist == (if self.slots@.len() == 0 {
            F32 { bits: 0 }
        } else {
            self.slots@[self.farthest_idx as int].dist.single()
        })
    }

    pub open spec fn wf(&self) -> bool {
        self@.wf() && self.cache_agrees()
    }

    pub fn new(l_max: usize) -> (reservoir: Self)
        requires
            l_max > 0,
        ensures
            reservoir.wf(),
            reservoir@ == (ReservoirState {
                limit: l_max as nat,
                slots: Seq::<Slot>::empty(),
                far: 0,
            }),
    {
        HashPruneReservoir {
            l_max,
            slots: Vec::with_capacity(l_max),
            farthest_idx: 0,
            farthest_dist: F32 { bits: 0 },
        }
    }

    pub fn clear(&mut self)
        requires
            old(self).wf(),
        ensures
            final(self).wf(),
            final(self)@ == (ReservoirState { slots: Seq::<Slot>::empty(), far: 0, ..old(self)@ }),
    {
        self.slots.clear();
        self.farthest_idx = 0;
        self.farthest_dist = F32 { bits: 0 };
    }

    pub fn capacity_hint(&self) -> (l_max: usize)
        ensures
            l_max == self@.limit,
    {
        self.l_max
    }

    /// Scans all slots for the farthest one.
    fn recompute_farthest(&mut self)
        requires
            old(self).slots@.len() > 0,
        ensures
            final(self).cache_agrees(),
            final(self)@ == (ReservoirState {
                far: farthest(old(self).slots@, 0, old(self).slots@.len() as int),
                ..old(self)@
            }),
    {
        let found: usize = self.farthest_in(0, self.slots.len());
        proof {
            lemma_farthest(self.slots@, 0, self.slots@.len() as int);
        }
        self.farthest_idx = found;
        self.farthest_dist = self.slots[found].dist.to_f32();
    }

    /// The farthest of the slots from `lo` to in front of `hi`.
    fn farthest_in(&self, lo: usize, hi: usize) -> (found: usize)
        requires
            lo < hi <= self.slots@.len(),
        ensures
            found == farthest(self.slots@, lo as int, hi as int),
            lo <= found < hi,
    {
        let mut found: usize = lo;
        let mut dist: F32 = self.slots[lo].dist.to_f32();
        for i in lo + 1..hi
            invariant
                lo < hi <= self.slots@.len(),
                lo <= found < i,
                found == farthest(self.slots@, lo as int, i as int),
                dist == self.slots@[found as int].dist.single(),
        {
            let candidate: F32 = self.slots[i].dist.to_f32();
            if dist.lt(candidate) {
                dist = candidate;
                found = i;
            }
        }
        found
    }

    /// How many slots have a smaller hash.
    fn lower_bound_hash(&self, hash: u16) -> (bound: usize)
        requires
            hash_sorted(self.slots@),
        ensures
            bound == lower_bound(self.slots@, hash),
            bound <= self.slots@.len(),
    {
        let mut lo: usize = 0;
        let mut hi: usize = self.slots.len();
        while lo < hi
            invariant
                hash_sorted(self.slots@),
                lo <= hi <= self.slots@.len(),
                forall|i: int| 0 <= i < lo ==> (#[trigger] self.slots@[i]).hash < hash,
                forall|i: int| hi <= i < self.slots@.len() ==> (#[trigger] self.slots@[i]).hash
                    >= hash,
            decreases hi - lo,
        {
            let mid: usize = lo + (hi - lo) / 2;
            if self.slots[mid].hash < hash {
                lo = mid + 1;
            } else {
                hi = mid;
            }
        }
        proof {
            lemma_lower_bound(self.slots@, hash, lo as int);
        }
        lo
    }

    /// How many slots have a hash that is not larger.
    fn upper_bound_hash(&self, hash: u16) -> (bound: usize)
        requires
            hash_sorted(self.slots@),
        ensures
            bound == upper_bound(self.slots@, hash),
            bound <= self.slots@.len(),
    {
        let mut lo: usize = 0;
        let mut hi: usize = self.slots.len();
        while lo < hi
            invariant
                hash_sorted(self.slots@),
                lo <= hi <= self.slots@.len(),
                forall|i: int| 0 <= i < lo ==> (#[trigger] self.slots@[i]).hash <= hash,
                forall|i: int| hi <= i < self.slots@.len() ==> (#[trigger] self.slots@[i]).hash
                    > hash,
            decreases hi - lo,
        {
            let mid: usize = lo + (hi - lo) / 2;
            if self.slots[mid].hash <= hash {
                lo = mid + 1;
            } else {
                hi = mid;
            }
        }
        proof {
            lemma_upper_bound(self.slots@, hash, lo as int);
        }
        lo
    }

    fn insert_slot_sorted(&mut self, slot: Slot)
        requires
            old(self).wf(),
            old(self)@.slots.len() < old(self)@.limit,
            !has_target(old(self)@.slots, slot.target),
        ensures
            final(self).wf(),
            final(self)@ == old(self)@.added(slot),
    {
        proof {
            lemma_added_wf(self@, slot);
            lemma_placed(self.slots@, slot);
        }
        let at: usize = self.upper_bound_hash(slot.hash);
        let dist: F32 = slot.dist.to_f32();
        self.slots.insert(at, slot);
        if self.slots.len() == 1 {
            self.farthest_idx = 0;
            self.farthest_dist = dist;
        } else if self.farthest_dist.le(dist) {
            self.recompute_farthest();
        } else if at <= self.farthest_idx {
            self.farthest_idx = self.farthest_idx + 1;
        }
    }

    fn replace_slot_sorted(&mut self, at: usize, slot: Slot)
        requires
            old(self).wf(),
            at < old(self)@.slots.len(),
            forall|i: int|
                0 <= i < old(self)@.slots.len() && i != at ==> (#[trigger] old(
                    self,
                )@.slots[i]).target != slot.target,
        ensures
            final(self).wf(),
            final(self)@ == old(self)@.replaced(at as int, slot),
    {
        proof {
            lemma_replaced_wf(self@, at as int, slot);
        }
        self.slots.remove(at);
        let place: usize = self.upper_bound_hash(slot.hash);
        self.slots.insert(place, slot);
        self.recompute_farthest();
    }

    /// Where the slot for `target` stands.
    fn target_position(&self, target: u32) -> (position: Option<usize>)
        requires
            self.wf(),
        ensures
            match position {
                Some(at) => has_target(self@.slots, target) && at == target_index(
                    self@.slots,
                    target,
                ) && at < self@.slots.len() && self@.slots[at as int].target == target,
                None => !has_target(self@.slots, target),
            },
    {
        for i in 0..self.slots.len()
            invariant
                self.wf(),
                forall|j: int| 0 <= j < i ==> (#[trigger] self.slots@[j]).target != target,
        {
            if self.slots[i].target == target {
                proof {
                    assert(self@.slots[i as int].target == target);
                    let k = target_index(self@.slots, target);
                    assert(self@.slots[k].target == target);
                }
                return Some(i);
            }
        }
        None
    }

    /// Offers the candidate `target` with its hash and distance.
    pub fn insert(&mut self, target: u32, hash: u16, dist: F32)
        requires
            old(self).wf(),
        ensures
            final(self).wf(),
            final(self)@ == old(self)@.offered(target, hash, dist),
            takes_the_nearer(
                old(self)@.limit as int,
                old(self)@.slots,
                target,
                hash,
                dist,
                final(self)@.slots,
            ),
    {
        proof {
            law_offer_takes_the_nearer(self@, target, hash, dist);
        }
        match self.target_position(target) {
            Some(at) => {
                if dist.lt(self.slots[at].dist.to_f32()) {
                    self.replace_slot_sorted(at, Slot::new(target, hash, dist));
                }
                return ;
            },
            None => {},
        }
        if self.slots.len() < self.l_max {
            self.insert_slot_sorted(Slot::new(target, hash, dist));
            return ;
        }
        let start: usize = self.lower_bound_hash(hash);
        proof {
            lemma_bounds_split(self.slots@, hash);
        }
        if start < self.slots.len() && self.slots[start].hash == hash {
            let end: usize = self.upper_bound_hash(hash);
            let found: usize = self.farthest_in(start, end);
            proof {
                assert(has_hash(self@.slots, hash));
            }
            if dist.lt(self.slots[found].dist.to_f32()) {
                self.replace_slot_sorted(found, Slot::new(target, hash, dist));
            }
            return ;
        }
        proof {
            if has_hash(self@.slots, hash) {
                let i = choose|i: int|
                    0 <= i < self@.slots.len() && #[trigger] self@.slots[i].hash == hash;
                assert(self.slots@[i].hash == hash);
                assert(self.slots@[start as int].hash >= hash);
            }
        }
        if dist.lt(self.farthest_dist) {
            self.replace_slot_sorted(self.farthest_idx, Slot::new(target, hash, dist));
        }
    }

    /// The targets in slot order.
    pub fn into_neighbors(self) -> (neighbors: Vec<u32>)
        ensures
            neighbors@ == self@.slots.map_values(|slot: Slot| slot.target),
    {
        targets_of(&self.slots)
    }

    pub fn into_slots(self) -> (slots: Vec<Slot>)
        ensures
            slots@ == self@.slots,
    {
        self.slots
    }

    pub fn slots(&self) -> (slots: &[Slot])
        ensures
            slots@ == self@.slots,
    {
        self.slots.as_slice()
    }

    /// Takes the targets out in slot order.
    pub fn drain_neighbors(&mut self) -> (neighbors: Vec<u32>)
        requires
            old(self).wf(),
        ensures
            neighbors@ == old(self)@.slots.map_values(|slot: Slot| slot.target),
            final(self).wf(),
            final(self)@ == (ReservoirState { slots: Seq::<Slot>::empty(), far: 0, ..old(self)@ }),
    {
        let slots: Vec<Slot> = self.drain_slots();
        targets_of(&slots)
    }

    /// Takes the slots out.
    pub fn drain_slots(&mut self) -> (slots: Vec<Slot>)
        requires
            old(self).wf(),
        ensures
            slots@ == old(self)@.slots,
            final(self).wf(),
            final(self)@ == (ReservoirState { slots: Seq::<Slot>::empty(), far: 0, ..old(self)@ }),
    {
        let mut slots: Vec<Slot> = Vec::new();
        std::mem::swap(&mut slots, &mut self.slots);
        self.farthest_idx = 0;
        self.farthest_dist = F32 { bits: 0 };
        slots
    }
}

fn targets_of(slots: &Vec<Slot>) -> (targets: Vec<u32>)
    ensures
        targets@ == slots@.map_values(|slot: Slot| slot.target),
{
    let mut targets: Vec<u32> = Vec::with_capacity(slots.len());
    for i in 0..slots.len()
        invariant
            targets@ == slots@.take(i as int).map_values(|slot: Slot| slot.target),
    {
        targets.push(slots[i].target);
        proof {
            assert(targets@ =~= slots@.take(i as int + 1).map_values(|slot: Slot| slot.target));
        }
    }
    proof {
        assert(slots@.take(slots@.len() as int) =~= slots@);
    }
    targets
}

} // verus!
