//! Masks with one bit per lane of a block of 64 candidates.

use vstd::prelude::*;

use crate::arith::{least, max_usize, min_usize};
use crate::direction::bit_set;
use crate::lane_laws::{law_lanes_are_bits, law_lanes_are_counted, set_lanes};

verus! {

/// Candidates of a block, and so lanes of a mask.
pub const ADS_LEADER_BLOCK: usize = 64;

/// Lanes that are computed together.
pub const SIMD_LANES: usize = 16;

pub open spec fn lane(mask: u64, i: int) -> bool {
    (mask >> (i as u64)) & 1 == 1
}

/// How many of the first `n` lanes are set.
pub open spec fn lanes_set(mask: u64, n: int) -> int
    decreases n,
{
    if n <= 0 {
        0
    } else {
        lanes_set(mask, n - 1) + if lane(mask, n - 1) {
            1int
        } else {
            0
        }
    }
}

/// Setting a lane sets that lane alone.
pub proof fn lemma_with_lane(mask: u64, i: u64, j: u64)
    requires
        i < 64,
        j < 64,
    ensures
        lane(mask | (1u64 << i), j as int) == (i == j || lane(mask, j as int)),
        lane(mask & !(1u64 << i), j as int) == (i != j && lane(mask, j as int)),
{
    assert(((mask | (1u64 << i)) >> j) & 1 == 1 <==> (i == j || (mask >> j) & 1 == 1))
        by (bit_vector)
        requires
            i < 64,
            j < 64,
    ;
    assert(((mask & !(1u64 << i)) >> j) & 1 == 1 <==> (i != j && (mask >> j) & 1 == 1))
        by (bit_vector)
        requires
            i < 64,
            j < 64,
    ;
}

/// No lane of 0 is set.
pub proof fn lemma_no_lane(j: u64)
    requires
        j < 64,
    ensures
        !lane(0, j as int),
{
    assert((0u64 >> j) & 1 == 0) by (bit_vector)
        requires
            j < 64,
    ;
}

/// Masks with the same lanes are the same.
pub proof fn lemma_same_lanes(a: u64, b: u64)
    requires
        forall|j: int| 0 <= j < 64 ==> lane(a, j) == #[trigger] lane(b, j),
    ensures
        a == b,
{
    if a != b {
        assert(exists|j: u64| j < 64 && #[trigger] ((a >> j) & 1) != (b >> j) & 1) by {
            lemma_lanes_differ(a, b);
        }
        let j = choose|j: u64| j < 64 && #[trigger] ((a >> j) & 1) != (b >> j) & 1;
        assert((a >> j) & 1 == 0 || (a >> j) & 1 == 1) by (bit_vector);
        assert((b >> j) & 1 == 0 || (b >> j) & 1 == 1) by (bit_vector);
        assert(lane(a, j as int) == lane(b, j as int));
    }
}

/// Different masks differ in some lane.
proof fn lemma_lanes_differ(a: u64, b: u64)
    requires
        a != b,
    ensures
        exists|j: u64| j < 64 && #[trigger] ((a >> j) & 1) != (b >> j) & 1,
{
    lemma_lanes_differ_below(a, b, 64);
}

proof fn lemma_lanes_differ_below(a: u64, b: u64, n: u64)
    requires
        1 <= n <= 64,
        n < 64 ==> a >> n == b >> n,
        a != b,
    ensures
        exists|j: u64| j < 64 && #[trigger] ((a >> j) & 1) != (b >> j) & 1,
    decreases n,
{
    let j = (n - 1) as u64;
    if (a >> j) & 1 == (b >> j) & 1 {
        assert(a >> j == b >> j) by (bit_vector)
            requires
                1 <= n <= 64,
                j == n - 1,
                n < 64 ==> a >> n == b >> n,
                (a >> j) & 1 == (b >> j) & 1,
        ;
        if n == 1 {
            assert(a == b) by (bit_vector)
                requires
                    j == 0,
                    a >> j == b >> j,
            ;
        } else {
            lemma_lanes_differ_below(a, b, j);
        }
    }
}

pub proof fn lemma_lanes_set(mask: u64, n: int)
    requires
        0 <= n,
    ensures
        0 <= lanes_set(mask, n) <= n,
        lanes_set(mask, n) == 0 <==> forall|j: int| 0 <= j < n ==> !#[trigger] lane(mask, j),
    decreases n,
{
    if n > 0 {
        lemma_lanes_set(mask, n - 1);
        if lanes_set(mask, n) == 0 {
            assert(!lane(mask, n - 1));
            assert forall|j: int| 0 <= j < n implies !#[trigger] lane(mask, j) by {
                if j < n - 1 {
                    assert(lanes_set(mask, n - 1) == 0);
                }
            }
        }
    }
}

/// A mask has no lane set only if it is 0.
pub proof fn lemma_empty_mask(mask: u64)
    ensures
        lanes_set(mask, 64) == 0 <==> mask == 0,
{
    lemma_lanes_set(mask, 64);
    if lanes_set(mask, 64) == 0 {
        assert forall|j: int| 0 <= j < 64 implies lane(mask, j) == #[trigger] lane(0, j) by {
            lemma_no_lane(j as u64);
        }
        lemma_same_lanes(mask, 0);
    }
    if mask == 0 {
        assert forall|j: int| 0 <= j < 64 implies !#[trigger] lane(mask, j) by {
            lemma_no_lane(j as u64);
        }
    }
}

/// Lanes that are only taken away leave a count that tells how many went.
pub proof fn lemma_lanes_taken(before: u64, after: u64, n: int)
    requires
        forall|j: int| 0 <= j < n ==> (#[trigger] lane(after, j) ==> lane(before, j)),
    ensures
        lanes_set(after, n) <= lanes_set(before, n),
    decreases n,
{
    if n > 0 {
        lemma_lanes_taken(before, after, n - 1);
    }
}

/// Whether a lane is set.
pub fn has_lane(mask: u64, i: usize) -> (result: bool)
    requires
        i < 64,
    ensures
        result == lane(mask, i as int),
        result == bit_set(mask as int, i as int),
{
    proof {
        law_lanes_are_bits(mask, i as int);
    }
    (mask >> (i as u64)) & 1 == 1
}

pub fn with_lane(mask: u64, i: usize) -> (result: u64)
    requires
        i < 64,
    ensures
        forall|j: int|
            0 <= j < 64 ==> #[trigger] lane(result, j) == (i == j || lane(mask, j)),
{
    proof {
        assert forall|j: int| 0 <= j < 64
            implies #[trigger] lane(mask | (1u64 << (i as u64)), j) == (i
            == j || lane(mask, j)) by {
            lemma_with_lane(mask, i as u64, j as u64);
        }
    }
    mask | (1u64 << (i as u64))
}

pub fn without_lane(mask: u64, i: usize) -> (result: u64)
    requires
        i < 64,
    ensures
        forall|j: int|
            0 <= j < 64 ==> #[trigger] lane(result, j) == (i != j && lane(mask, j)),
{
    proof {
        assert forall|j: int| 0 <= j < 64 implies #[trigger] lane(mask & !(1u64 << (i as u64)), j)
            == (i != j && lane(mask, j)) by {
            lemma_with_lane(mask, i as u64, j as u64);
        }
    }
    mask & !(1u64 << (i as u64))
}

/// How many lanes are set.
pub fn lane_count(mask: u64) -> (count: u32)
    ensures
        count == lanes_set(mask, 64),
        count <= 64,
        count == set_lanes(mask, 64).len(),
{
    proof {
        law_lanes_are_counted(mask, 64);
    }
    let mut count: u32 = 0;
    for i in 0..ADS_LEADER_BLOCK
        invariant
            count == lanes_set(mask, i as int),
            count <= i,
    {
        if has_lane(mask, i) {
            count = count + 1;
        }
    }
    count
}

/// The first `len` lanes.
pub fn block_len_mask(len: usize) -> (mask: u64)
    ensures
        forall|j: int| 0 <= j < 64 ==> #[trigger] lane(mask, j) == (j < len),
{
    let mut mask: u64 = 0;
    proof {
        assert forall|j: int| 0 <= j < 64 implies !#[trigger] lane(0, j) by {
            lemma_no_lane(j as u64);
        }
    }
    let end: usize = min_usize(len, ADS_LEADER_BLOCK);
    for i in 0..end
        invariant
            end <= 64,
            forall|j: int| 0 <= j < 64 ==> #[trigger] lane(mask, j) == (j < i),
    {
        mask = with_lane(mask, i);
    }
    mask
}

/// Takes those lanes away whose candidate lies in the range.
pub fn clear_block_mask_range(
    mask: &mut u64,
    block_start: usize,
    block_end: usize,
    range_start: usize,
    range_end: usize,
)
    requires
        block_start <= block_end <= block_start + 64,
    ensures
        forall|j: int|
            0 <= j < 64 ==> #[trigger] lane(*final(mask), j) == (lane(*old(mask), j)
                && !(range_start
                <= block_start + j < range_end && block_start + j < block_end)),
{
    let start: usize = max_usize(block_start, range_start);
    let end: usize = min_usize(block_end, range_end);
    if start < end {
        for at in start..end
            invariant
                block_start <= start <= end <= block_end <= block_start + 64,
                forall|j: int|
                    0 <= j < 64 ==> #[trigger] lane(*mask, j) == (lane(*old(mask), j) && !(start
                        <= block_start + j < at)),
        {
            *mask = without_lane(*mask, at - block_start);
        }
    }
}

/// Which candidates of a block a row of a leaf is still to be measured against: all but
/// itself and the `seed_exact` rows behind it, past the end from the front on.
pub fn leaf_adsampling_active_mask(
    row: usize,
    block_start: usize,
    block_len: usize,
    leaf_size: usize,
    seed_exact: usize,
) -> (mask: u64)
    requires
        block_len <= 64,
        block_start + block_len <= leaf_size,
        row < leaf_size,
        2 * leaf_size <= usize::MAX,
    ensures
        forall|j: int|
            0 <= j < 64 ==> #[trigger] lane(mask, j) == (j < block_len && !seeds_row(
                row as int,
                block_start + j,
                leaf_size as int,
                least(seed_exact as int, leaf_size - 1),
            )),
{
    let mut mask: u64 = block_len_mask(block_len);
    let block_end: usize = block_start + block_len;
    if row >= block_start && row < block_end {
        mask = without_lane(mask, row - block_start);
    }
    let seeds: usize = min_usize(seed_exact, leaf_size - 1);
    if seeds > 0 {
        let seed_start: usize = row + 1;
        let seed_end: usize = seed_start + seeds;
        if seed_end <= leaf_size {
            clear_block_mask_range(&mut mask, block_start, block_end, seed_start, seed_end);
        } else {
            clear_block_mask_range(&mut mask, block_start, block_end, seed_start, leaf_size);
            clear_block_mask_range(&mut mask, block_start, block_end, 0, seed_end - leaf_size);
        }
    }
    mask
}

/// `candidate` is the row itself or one of the `seeds` rows behind it, round the leaf.
pub open spec fn seeds_row(row: int, candidate: int, leaf_size: int, seeds: int) -> bool {
    if candidate >= row {
        candidate - row <= seeds
    } else {
        candidate + leaf_size - row <= seeds
    }
}

/// Which candidates of a block are seeds.
pub fn seeded_block_mask(seeded: &[bool], block_start: usize, block_len: usize) -> (mask: u64)
    requires
        block_len <= 64,
        block_start + block_len <= usize::MAX,
    ensures
        forall|j: int|
            0 <= j < 64 ==> #[trigger] lane(mask, j) == (j < block_len && block_start + j
                < seeded@.len() && seeded@[block_start + j]),
{
    let mut mask: u64 = 0;
    proof {
        assert forall|j: int| 0 <= j < 64 implies !#[trigger] lane(0, j) by {
            lemma_no_lane(j as u64);
        }
    }
    for local in 0..block_len
        invariant
            block_len <= 64,
            block_start + block_len <= usize::MAX,
            forall|j: int|
                0 <= j < 64 ==> #[trigger] lane(mask, j) == (j < local && block_start + j
                    < seeded@.len() && seeded@[block_start + j]),
    {
        if block_start + local < seeded.len() && seeded[block_start + local] {
            mask = with_lane(mask, local);
        }
    }
    mask
}

/// How many of the four groups of lanes have a lane set, in any of the masks.
pub open spec fn groups_set(masks: Seq<u64>, n: int) -> int
    decreases n,
{
    if n <= 0 {
        0
    } else {
        groups_set(masks, n - 1) + if group_set(masks, n - 1) {
            1int
        } else {
            0
        }
    }
}

pub open spec fn group_set(masks: Seq<u64>, group: int) -> bool {
    exists|q: int, j: int|
        0 <= q < masks.len() && SIMD_LANES * group <= j < SIMD_LANES * group + SIMD_LANES
            && #[trigger] lane(masks[q], j)
}

/// Lanes of one group that are set, over the first `n` masks.
pub open spec fn group_lanes(masks: Seq<u64>, group: int, n: int) -> int
    decreases n,
{
    if n <= 0 {
        0
    } else {
        group_lanes(masks, group, n - 1) + lanes_set(
            masks[n - 1],
            SIMD_LANES * group + SIMD_LANES,
        ) - lanes_set(masks[n - 1], SIMD_LANES * group)
    }
}

/// Lanes of all masks that are set.
pub open spec fn total_lanes(masks: Seq<u64>, n: int) -> int
    decreases n,
{
    if n <= 0 {
        0
    } else {
        total_lanes(masks, n - 1) + lanes_set(masks[n - 1], 64)
    }
}

fn lanes_below(mask: u64, end: usize) -> (count: u32)
    requires
        end <= 64,
    ensures
        count == lanes_set(mask, end as int),
        count <= end,
{
    let mut count: u32 = 0;
    for i in 0..end
        invariant
            end <= 64,
            count == lanes_set(mask, i as int),
            count <= i,
    {
        if has_lane(mask, i) {
            count = count + 1;
        }
    }
    count
}

/// Counts of lanes only grow with the lanes that are looked at, and a range without a
/// set lane adds nothing.
proof fn lemma_lanes_between(mask: u64, a: int, b: int)
    requires
        0 <= a <= b,
    ensures
        lanes_set(mask, a) <= lanes_set(mask, b) <= lanes_set(mask, a) + (b - a),
        lanes_set(mask, b) == lanes_set(mask, a) <==> forall|j: int|
            a <= j < b ==> !#[trigger] lane(mask, j),
    decreases b,
{
    if b > a {
        lemma_lanes_between(mask, a, b - 1);
        if lanes_set(mask, b) == lanes_set(mask, a) {
            assert(!lane(mask, b - 1));
            assert(lanes_set(mask, b - 1) == lanes_set(mask, a));
        }
    }
}

proof fn lemma_group_lanes(masks: Seq<u64>, group: int, n: int)
    requires
        0 <= group < 4,
        0 <= n <= masks.len(),
    ensures
        0 <= group_lanes(masks, group, n) <= SIMD_LANES * n,
        group_lanes(masks, group, n) == 0 <==> forall|q: int, j: int|
            0 <= q < n && SIMD_LANES * group <= j < SIMD_LANES * group + SIMD_LANES
                ==> !#[trigger] lane(masks[q], j),
    decreases n,
{
    if n > 0 {
        lemma_group_lanes(masks, group, n - 1);
        let a = SIMD_LANES * group;
        lemma_lanes_between(masks[n - 1], a, a + SIMD_LANES);
    }
}

/// Lanes of one group that are set in the masks.
fn count_group_lanes(masks: &[u64], group: usize) -> (count: u32)
    requires
        group < 4,
        masks@.len() <= 8,
    ensures
        count == group_lanes(masks@, group as int, masks@.len() as int),
        count <= 128,
{
    let mut count: u32 = 0;
    for q in 0..masks.len()
        invariant
            group < 4,
            masks@.len() <= 8,
            count == group_lanes(masks@, group as int, q as int),
            count <= SIMD_LANES * q,
    {
        let from: usize = SIMD_LANES * group;
        let end: usize = from + SIMD_LANES;
        proof {
            lemma_lanes_between(masks@[q as int], from as int, end as int);
        }
        count = count + (lanes_below(masks[q], end) - lanes_below(masks[q], from));
    }
    count
}

/// Groups of lanes that a vector kernel works on for these masks.
pub fn simd_group_call_count(masks: &[u64]) -> (calls: u64)
    requires
        masks@.len() <= 8,
    ensures
        calls == groups_set(masks@, 4),
        calls <= 4,
{
    let mut calls: u64 = 0;
    for group in 0..4usize
        invariant
            masks@.len() <= 8,
            calls == groups_set(masks@, group as int),
            calls <= group,
    {
        proof {
            lemma_group_lanes(masks@, group as int, masks@.len() as int);
        }
        let found: u32 = count_group_lanes(masks, group);
        proof {
            if found == 0 {
                assert(!group_set(masks@, group as int));
            } else {
                assert(group_set(masks@, group as int));
            }
        }
        if found != 0 {
            calls = calls + 1;
        }
    }
    calls
}

/// Lanes of all masks that are set.
pub fn active_lanes(masks: &[u64]) -> (count: u64)
    requires
        masks@.len() <= 64,
    ensures
        count == total_lanes(masks@, masks@.len() as int),
        count <= 64 * masks@.len(),
{
    let mut count: u64 = 0;
    for q in 0..masks.len()
        invariant
            masks@.len() <= 64,
            count == total_lanes(masks@, q as int),
            count <= 64 * q,
    {
        count = count + lane_count(masks[q]) as u64;
    }
    count
}

/// So few lanes are set that they are better computed one by one: fewer than a vector
/// kernel is worth, or few in every group that has any.
pub open spec fn is_sparse(masks: Seq<u64>, total: int, full64: int, group16: int) -> bool {
    total != 0 && (total < full64 || (exists|g: int|
        0 <= g < 4 && #[trigger] group_lanes(masks, g, masks.len() as int) != 0) && forall|g: int|
        0 <= g < 4 ==> #[trigger] group_lanes(masks, g, masks.len() as int) <= group16)
}

pub fn should_use_sparse_ads_fallback(
    active_masks: &[u64],
    total_active: u32,
    sparse_full64_threshold: u32,
    sparse_group16_threshold: u32,
) -> (sparse: bool)
    requires
        active_masks@.len() <= 8,
    ensures
        sparse == is_sparse(
            active_masks@,
            total_active as int,
            sparse_full64_threshold as int,
            sparse_group16_threshold as int,
        ),
{
    if total_active == 0 {
        return false;
    }
    if total_active < sparse_full64_threshold {
        return true;
    }
    let mut saw_group: bool = false;
    let mut all_groups_sparse: bool = true;
    for group in 0..4usize
        invariant
            active_masks@.len() <= 8,
            saw_group == exists|g: int|
                0 <= g < group && #[trigger] group_lanes(
                    active_masks@,
                    g,
                    active_masks@.len() as int,
                ) != 0,
            all_groups_sparse == forall|g: int|
                0 <= g < group ==> #[trigger] group_lanes(
                    active_masks@,
                    g,
                    active_masks@.len() as int,
                ) <= sparse_group16_threshold,
    {
        let active_in_group: u32 = count_group_lanes(active_masks, group);
        if active_in_group != 0 {
            saw_group = true;
            if active_in_group > sparse_group16_threshold {
                all_groups_sparse = false;
            }
        }
        proof {
            assert(group_lanes(active_masks@, group as int, active_masks@.len() as int)
                == active_in_group);
        }
    }
    saw_group && all_groups_sparse
}

} // verus!
