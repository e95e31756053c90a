//! What a cache of windows keeps and gives back.

use vstd::prelude::*;

use crate::window_cache::{
    bytes_in, holds_key, key_index, keys_distinct, victims, without_key, VectorWindowEntry,
    VectorWindowKey,
};

verus! {

/// The bytes of the values of all windows.
pub open spec fn total_bytes(windows: Seq<VectorWindowEntry>) -> int
    decreases windows.len(),
{
    if windows.len() == 0 {
        0
    } else {
        total_bytes(windows.drop_last()) + windows.last().bytes
    }
}

/// The window at `i` is the one for these rows.
pub open spec fn stands_at(
    windows: Seq<VectorWindowEntry>,
    key: VectorWindowKey,
    i: int,
) -> bool {
    &&& 0 <= i < windows.len()
    &&& windows[i].key.start_pid == key.start_pid
    &&& windows[i].key.row_count == key.row_count
}

/// The windows but for the one for these rows, in their order.
pub open spec fn others(
    windows: Seq<VectorWindowEntry>,
    key: VectorWindowKey,
    rest: Seq<VectorWindowEntry>,
) -> bool {
    &&& forall|i: int| #[trigger] stands_at(windows, key, i) ==> rest == windows.remove(i)
    &&& (forall|i: int| !#[trigger] stands_at(windows, key, i)) ==> rest == windows
}

/// What is left of windows in order of their last use: as many of those used last as have
/// room.
pub open spec fn last_used_within(
    windows: Seq<VectorWindowEntry>,
    budget: int,
    left: Seq<VectorWindowEntry>,
) -> bool {
    let gone = windows.len() - left.len();
    &&& 0 <= gone
    &&& left == windows.skip(gone)
    &&& total_bytes(left) <= budget
    &&& gone > 0 ==> total_bytes(windows.skip(gone - 1)) > budget
}

pub proof fn lemma_total_bytes(windows: Seq<VectorWindowEntry>)
    ensures
        total_bytes(windows) == bytes_in(windows),
    decreases windows.len(),
{
    if windows.len() > 0 {
        lemma_total_bytes(windows.drop_last());
        lemma_bytes_last(windows);
    }
}

proof fn lemma_bytes_last(windows: Seq<VectorWindowEntry>)
    requires
        windows.len() > 0,
    ensures
        bytes_in(windows) == bytes_in(windows.drop_last()) + windows.last().bytes,
    decreases windows.len(),
{
    if windows.len() == 1 {
        assert(windows.drop_first() =~= windows.drop_last());
        assert(bytes_in(windows.drop_first()) == 0);
    } else {
        lemma_bytes_last(windows.drop_first());
        assert(windows.drop_first().drop_last() =~= windows.drop_last().drop_first());
        assert(windows.drop_first().last() == windows.last());
        assert(windows.drop_last()[0] == windows[0]);
    }
}

/// Windows go from the front, the one that went longest without use first, and no more of
/// them than have to go.
pub proof fn law_no_window_goes_in_vain(windows: Seq<VectorWindowEntry>, budget: int)
    requires
        0 <= budget,
    ensures
        0 <= victims(windows, budget) <= windows.len(),
        last_used_within(windows, budget, windows.skip(victims(windows, budget))),
    decreases windows.len(),
{
    lemma_total_bytes(windows);
    assert(windows.skip(0) =~= windows);
    if windows.len() > 0 && bytes_in(windows) > budget {
        let rest = windows.drop_first();
        law_no_window_goes_in_vain(rest, budget);
        let gone = victims(rest, budget);
        assert(windows.skip(gone + 1) =~= rest.skip(gone));
        if gone > 0 {
            assert(windows.skip(gone) =~= rest.skip(gone - 1));
        }
    }
}

/// The window for rows is taken out from where it stands, wherever that is.
pub proof fn law_window_is_found_by_its_rows(
    windows: Seq<VectorWindowEntry>,
    key: VectorWindowKey,
)
    requires
        keys_distinct(windows),
    ensures
        others(windows, key, without_key(windows, key)),
        holds_key(windows, key) <==> exists|i: int| #[trigger] stands_at(windows, key, i),
        forall|i: int| #[trigger] stands_at(windows, key, i) ==> i == key_index(windows, key),
{
    assert forall|i: int| #[trigger] stands_at(windows, key, i) implies holds_key(windows, key) && i
        == key_index(windows, key) by {
        assert(windows[i].key == key);
        let k = key_index(windows, key);
        assert(windows[k].key == key);
    }
    if holds_key(windows, key) {
        let k = key_index(windows, key);
        assert(windows[k].key == key);
        assert(stands_at(windows, key, k));
    }
}

/// What was cached last is given back, whatever else was cached before: the window for the
/// rows of the key is there and holds the values that were put in.
pub proof fn law_cached_window_is_given_back(
    windows: Seq<VectorWindowEntry>,
    entry: VectorWindowEntry,
    budget: int,
)
    requires
        keys_distinct(windows),
        entry.bytes <= budget,
    ensures
        ({
            let kept = without_key(windows, entry.key).push(entry);
            let left = kept.skip(victims(kept, budget));
            &&& holds_key(left, entry.key)
            &&& left[key_index(left, entry.key)].data@ == entry.data@
        }),
{
    let rest = without_key(windows, entry.key);
    let kept = rest.push(entry);
    law_window_is_found_by_its_rows(windows, entry.key);
    law_no_window_goes_in_vain(kept, budget);
    let gone = victims(kept, budget);
    let left = kept.skip(gone);
    assert(gone < kept.len()) by {
        if gone == kept.len() {
            assert(kept.skip(gone - 1) =~= seq![entry]);
            assert(seq![entry].drop_last() =~= Seq::<VectorWindowEntry>::empty());
            assert(total_bytes(seq![entry].drop_last()) == 0);
            assert(total_bytes(seq![entry]) == entry.bytes);
        }
    }
    assert forall|i: int| 0 <= i < rest.len() implies (#[trigger] rest[i]).key != entry.key by {
        if holds_key(windows, entry.key) {
            let k = key_index(windows, entry.key);
            assert(windows[k].key == entry.key);
            assert(rest[i] == windows[if i < k {
                i
            } else {
                i + 1
            }]);
        } else {
            assert(windows[i].key != entry.key);
        }
    }
    let last = left.len() - 1;
    assert(left[last] == entry);
    assert(left[last].key == entry.key);
    let at = key_index(left, entry.key);
    assert(left[at].key == entry.key);
    if at != last {
        assert(left[at] == rest[at + gone]);
    }
}

} // verus!
