//! What planning a node comes to, said of benefits, bytes and reads as numbers.

use vstd::arithmetic::div_mod::{lemma_fundamental_div_mod, lemma_mod_bound};
use vstd::prelude::*;

use crate::arith::{blocks_for, capped};
use crate::direct_io::lemma_rounded;
use crate::float_bits::F64;
use crate::float_value::{double_units, law_doubles_compare_as_numbers, unordered_double};
use crate::io_plan::{
    best_action, larger, prefetch_allowed, prefetch_calls, prefetch_window_bytes, vector_run_allowed,
    IoPlanBudgetState, IoPlanConfig, NodeAction, StorageState,
};

verus! {

/// What a way of reading saves: plain reading saves nothing.
pub open spec fn worth(action: NodeAction, run: F64, ahead: F64) -> int {
    match action {
        NodeAction::HotVectorRun => double_units(run),
        NodeAction::PrefetchStreaming => double_units(ahead),
        _ => 0,
    }
}

/// A way of reading that may be taken.
pub open spec fn open_to(action: NodeAction, run_allowed: bool, ahead_allowed: bool) -> bool {
    match action {
        NodeAction::HotVectorRun => run_allowed,
        NodeAction::PrefetchStreaming => ahead_allowed,
        NodeAction::ExternalStreaming => true,
        NodeAction::ExactFallback => false,
    }
}

/// The simpler of two ways comes first: plain reading, reading ahead, a run.
pub open spec fn simpler(a: NodeAction, b: NodeAction) -> bool {
    a == NodeAction::ExternalStreaming || (a == NodeAction::PrefetchStreaming && b
        == NodeAction::HotVectorRun)
}

/// The way is open, no open way is worth more, and none that is worth as much is simpler.
pub open spec fn worth_most(
    selected: NodeAction,
    run_allowed: bool,
    run: F64,
    ahead_allowed: bool,
    ahead: F64,
) -> bool {
    &&& open_to(selected, run_allowed, ahead_allowed)
    &&& forall|other: NodeAction| #[trigger]
        open_to(other, run_allowed, ahead_allowed) && other != selected ==> worth(other, run, ahead)
            < worth(selected, run, ahead) || (worth(other, run, ahead) == worth(
            selected,
            run,
            ahead,
        ) && simpler(selected, other))
}

/// Of the ways that are open, the one that is worth the most is selected, and the simplest
/// of those that are worth as much.
pub proof fn law_selected_way_is_worth_most(
    run_allowed: bool,
    run: F64,
    ahead_allowed: bool,
    ahead: F64,
)
    requires
        !unordered_double(run),
        !unordered_double(ahead),
    ensures
        worth_most(
            best_action(run_allowed, run, ahead_allowed, ahead),
            run_allowed,
            run,
            ahead_allowed,
            ahead,
        ),
{
    let zero = F64 { bits: 0 };
    crate::float_value::lemma_magnitudes_ordered(0, 0, 52);
    law_doubles_compare_as_numbers(zero, run);
    law_doubles_compare_as_numbers(zero, ahead);
    law_doubles_compare_as_numbers(ahead, run);
}

/// The larger of two benefits is one of them, and neither is above it.
pub proof fn law_larger_is_the_larger_one(a: F64, b: F64)
    ensures
        larger(a, b) == a || larger(a, b) == b,
        !unordered_double(a) ==> !unordered_double(larger(a, b)) && double_units(a)
            <= double_units(larger(a, b)),
        !unordered_double(b) ==> !unordered_double(larger(a, b)) && double_units(b)
            <= double_units(larger(a, b)),
{
    law_doubles_compare_as_numbers(a, b);
    law_doubles_compare_as_numbers(b, a);
}

/// A run may be written where it is switched on for the depth, its bytes fit into what is
/// left of the temporary ones, and it saves at least half of the reads.
pub open spec fn run_pays(
    config: IoPlanConfig,
    state: StorageState,
    depth: int,
    points: int,
    fanout: int,
    row_bytes: int,
    temp_used: int,
) -> bool {
    &&& config.enabled && config.vector_run_enable
    &&& state == StorageState::RawIds
    &&& config.min_depth <= depth || fanout <= 1
    &&& points >= 2 && row_bytes >= 1
    &&& 2 * fanout <= points
    &&& temp_used + points * row_bytes <= config.temp_budget_bytes
}

/// Runs are allowed exactly where they pay, for sizes that a machine can count.
pub proof fn law_runs_are_allowed_where_they_pay(
    config: IoPlanConfig,
    state: StorageState,
    depth: int,
    points: int,
    fanout: int,
    row_bytes: int,
    temp_used: int,
)
    requires
        0 <= points,
        0 <= fanout,
        0 <= row_bytes,
        0 <= temp_used,
        temp_used + points * row_bytes <= usize::MAX,
    ensures
        vector_run_allowed(config, state, depth, points, fanout, row_bytes, temp_used) == run_pays(
            config,
            state,
            depth,
            points,
            fanout,
            row_bytes,
            temp_used,
        ),
{
    assert(points * row_bytes > 0 <==> points > 0 && row_bytes > 0) by (nonlinear_arith)
        requires
            0 <= points,
            0 <= row_bytes,
    ;
}

/// Reads in windows of whole rows: all of the bytes are read, and one read fewer would
/// leave some out.
pub open spec fn windows_cover(calls: int, row_bytes: int, window: int, physical: int) -> bool {
    let row = if row_bytes < 1 {
        1
    } else {
        row_bytes
    };
    let each = if window < row {
        row
    } else {
        window - window % row
    };
    &&& calls >= 1
    &&& calls * each >= physical
    &&& calls > 1 ==> (calls - 1) * each < physical
}

/// A node that is read ahead takes as many reads as there are windows with its bytes. A
/// window has four times the bytes of an average read, and 64 kibibytes at least.
pub proof fn law_read_ahead_windows_cover_the_bytes(
    points: int,
    row_bytes: int,
    max_avg_read_size_bytes: int,
    physical: int,
)
    requires
        0 <= row_bytes,
        0 <= max_avg_read_size_bytes,
        4 * max_avg_read_size_bytes <= usize::MAX,
        0 <= physical,
        physical + row_bytes <= usize::MAX,
    ensures
        prefetch_window_bytes(max_avg_read_size_bytes) == if max_avg_read_size_bytes <= 16384 {
            65536
        } else {
            4 * max_avg_read_size_bytes
        },
        prefetch_calls(0, row_bytes, prefetch_window_bytes(max_avg_read_size_bytes), physical) == 0,
        points > 0 ==> windows_cover(
            prefetch_calls(
                points,
                row_bytes,
                prefetch_window_bytes(max_avg_read_size_bytes),
                physical,
            ),
            row_bytes,
            prefetch_window_bytes(max_avg_read_size_bytes),
            physical,
        ),
{
    if points > 0 {
        let window = prefetch_window_bytes(max_avg_read_size_bytes);
        let row = if row_bytes < 1 {
            1
        } else {
            row_bytes
        };
        lemma_rounded(window, row);
        lemma_fundamental_div_mod(window, row);
        let whole = window / row;
        assert(whole >= 0) by (nonlinear_arith)
            requires
                whole == window / row,
                window >= 0,
                row >= 1,
        ;
        let per = if whole < 1 {
            1
        } else {
            whole
        };
        let each = if window < row {
            row
        } else {
            window - window % row
        };
        assert(per * row == each) by {
            if window < row {
                assert(whole == 0) by (nonlinear_arith)
                    requires
                        whole == window / row,
                        0 <= window < row,
                ;
                assert(1 * row == row);
            } else {
                assert(whole >= 1) by (nonlinear_arith)
                    requires
                        whole == window / row,
                        window >= row,
                        row >= 1,
                ;
                assert(whole * row == row * whole) by (nonlinear_arith);
            }
        }
        let rows = (physical + (row - 1)) / row;
        lemma_fundamental_div_mod(physical + (row - 1), row);
        lemma_mod_bound(physical + (row - 1), row);
        assert(row * rows == rows * row) by (nonlinear_arith);
        assert(rows * row >= physical && rows * row < physical + row);
        assert(rows >= 0) by (nonlinear_arith)
            requires
                rows == (physical + (row - 1)) / row,
                physical >= 0,
                row >= 1,
        ;
        assert(capped(capped(physical) + (row - 1)) == physical + (row - 1));
        lemma_blocks(rows, per);
        let blocks = blocks_for(rows, per);
        let calls = prefetch_calls(points, row_bytes, window, physical);
        assert(calls == if blocks < 1 {
            1
        } else {
            blocks
        });
        assert(calls * each >= rows * row) by (nonlinear_arith)
            requires
                calls * per >= rows,
                each == per * row,
                row >= 1,
        ;
        if calls > 1 {
            assert((calls - 1) * per <= rows - 1);
            assert((calls - 1) * each <= (rows - 1) * row) by (nonlinear_arith)
                requires
                    (calls - 1) * per <= rows - 1,
                    each == per * row,
                    row >= 1,
            ;
            assert((rows - 1) * row == rows * row - row) by (nonlinear_arith);
        }
    }
}

/// Blocks hold all items, and one block fewer does not.
pub proof fn lemma_blocks(items: int, block: int)
    requires
        0 <= items,
        1 <= block,
    ensures
        0 <= blocks_for(items, block),
        blocks_for(items, block) * block >= items,
        blocks_for(items, block) > 0 ==> (blocks_for(items, block) - 1) * block < items,
        items > 0 ==> blocks_for(items, block) > 0,
{
    let blocks = blocks_for(items, block);
    lemma_fundamental_div_mod(items, block);
    lemma_mod_bound(items, block);
    let low = items / block;
    assert(low >= 0) by (nonlinear_arith)
        requires
            low == items / block,
            items >= 0,
            block >= 1,
    ;
    assert(block * low == low * block) by (nonlinear_arith);
    assert((low + 1) * block == low * block + block) by (nonlinear_arith);
    assert((blocks - 1) * block == blocks * block - block) by (nonlinear_arith);
    if items > 0 && low == 0 {
        assert(low * block == 0) by (nonlinear_arith)
            requires
                low == 0,
        ;
    }
}

/// All that is left of a budget can be reserved and not a byte more, and what is reserved
/// counts in full.
pub proof fn law_whole_rest_can_be_reserved(state: IoPlanBudgetState, bytes: u64)
    requires
        state.temp_reserved_bytes <= state.temp_budget_bytes,
    ensures
        bytes <= state.temp_budget_bytes - state.temp_reserved_bytes ==> state.reserving(
            bytes,
        ).temp_reserved_bytes == state.temp_reserved_bytes + bytes,
        bytes > state.temp_budget_bytes - state.temp_reserved_bytes ==> state.reserving(bytes)
            == state,
        bytes <= state.temp_reserved_bytes ==> state.releasing(bytes).temp_reserved_bytes
            == state.temp_reserved_bytes - bytes,
        state.reserving(bytes).temp_budget_bytes == state.temp_budget_bytes,
        state.reserving(bytes).temp_written_bytes == state.temp_written_bytes,
{
}

/// Reading ahead is open to every node whose points are not in memory, where planning and
/// reading ahead are switched on.
pub proof fn law_reading_ahead_is_for_points_on_disk(config: IoPlanConfig, state: StorageState)
    ensures
        prefetch_allowed(config, state) <==> config.enabled && config.prefetch_streaming_enable && (
        state == StorageState::RawIds || state == StorageState::VectorRun),
{
}

} // verus!
