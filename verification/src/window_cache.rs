//! A cache of row windows under a byte budget that gives up the window that
//! went longest without use.

use vstd::prelude::*;

use crate::arith::{capped, capped_u64, greatest, max_usize, sat_mul};
use crate::cache_laws::{
    last_used_within, law_no_window_goes_in_vain, law_window_is_found_by_its_rows,
    lemma_total_bytes, others, stands_at, total_bytes,
};
use crate::float_bits::F32;

verus! {

/// Which rows a window holds.
#[derive(Clone, Copy, Debug, PartialEq, Eq, Structural, Hash)]
pub struct VectorWindowKey {
    pub start_pid: u32,
    pub row_count: u32,
}

/// What a cache has done so far.
#[derive(Clone, Copy, Debug, PartialEq, Eq, Structural)]
pub struct VectorWindowCacheStats {
    pub hits: usize,
    pub misses: usize,
    pub inserts: usize,
    pub evictions: usize,
    pub used_peak_bytes: usize,
    pub bytes_inserted: usize,
    pub bytes_evicted: usize,
    pub saved_direct_read_calls: usize,
    pub logical_bytes: u64,
    pub physical_bytes: u64,
}

impl Default for VectorWindowCacheStats {
    fn default() -> (stats: Self)
        ensures
            stats == VectorWindowCacheStats::zero(),
    {
        VectorWindowCacheStats {
            hits: 0,
            misses: 0,
            inserts: 0,
            evictions: 0,
            used_peak_bytes: 0,
            bytes_inserted: 0,
            bytes_evicted: 0,
            saved_direct_read_calls: 0,
            logical_bytes: 0,
            physical_bytes: 0,
        }
    }
}

impl VectorWindowCacheStats {
    pub open spec fn zero() -> Self {
        VectorWindowCacheStats {
            hits: 0,
            misses: 0,
            inserts: 0,
            evictions: 0,
            used_peak_bytes: 0,
            bytes_inserted: 0,
            bytes_evicted: 0,
            saved_direct_read_calls: 0,
            logical_bytes: 0,
            physical_bytes: 0,
        }
    }

    /// The counters of both together fit.
    pub open spec fn mergeable(self, other: Self) -> bool {
        &&& self.hits + other.hits <= usize::MAX
        &&& self.misses + other.misses <= usize::MAX
        &&& self.inserts + other.inserts <= usize::MAX
        &&& self.evictions + other.evictions <= usize::MAX
        &&& self.saved_direct_read_calls + other.saved_direct_read_calls <= usize::MAX
    }

    /// Both together: counters and bytes add up, the peak is the larger one.
    pub open spec fn merged(self, other: Self) -> Self {
        VectorWindowCacheStats {
            hits: (self.hits + other.hits) as usize,
            misses: (self.misses + other.misses) as usize,
            inserts: (self.inserts + other.inserts) as usize,
            evictions: (self.evictions + other.evictions) as usize,
            used_peak_bytes: greatest(
                self.used_peak_bytes as int,
                other.used_peak_bytes as int,
            ) as usize,
            bytes_inserted: capped(self.bytes_inserted + other.bytes_inserted) as usize,
            bytes_evicted: capped(self.bytes_evicted + other.bytes_evicted) as usize,
            saved_direct_read_calls: (self.saved_direct_read_calls
                + other.saved_direct_read_calls) as usize,
            logical_bytes: capped_u64(self.logical_bytes + other.logical_bytes) as u64,
            physical_bytes: capped_u64(self.physical_bytes + other.physical_bytes) as u64,
        }
    }

    pub fn merge(&mut self, other: &Self)
        requires
            old(self).mergeable(*other),
        ensures
            *final(self) == old(self).merged(*other),
    {
        self.hits = self.hits + other.hits;
        self.misses = self.misses + other.misses;
        self.inserts = self.inserts + other.inserts;
        self.evictions = self.evictions + other.evictions;
        self.used_peak_bytes = max_usize(self.used_peak_bytes, other.used_peak_bytes);
        self.bytes_inserted = self.bytes_inserted.saturating_add(other.bytes_inserted);
        self.bytes_evicted = self.bytes_evicted.saturating_add(other.bytes_evicted);
        self.saved_direct_read_calls = self.saved_direct_read_calls
            + other.saved_direct_read_calls;
        self.logical_bytes = self.logical_bytes.saturating_add(other.logical_bytes);
        self.physical_bytes = self.physical_bytes.saturating_add(other.physical_bytes);
    }
}

/// Merging statistics does not depend on which side is merged into which.
pub proof fn law_cache_stats_merge_commutes(a: VectorWindowCacheStats, b: VectorWindowCacheStats)
    ensures
        a.merged(b) == b.merged(a),
{
}

/// A cached window and its size in bytes.
#[derive(Debug)]
pub struct VectorWindowEntry {
    pub key: VectorWindowKey,
    pub data: Vec<F32>,
    pub bytes: usize,
}

/// The bytes of the entries together.
pub open spec fn bytes_in(entries: Seq<VectorWindowEntry>) -> int
    decreases entries.len(),
{
    if entries.len() == 0 {
        0
    } else {
        entries[0].bytes + bytes_in(entries.drop_first())
    }
}

/// How many entries at the front have to go until the rest fits the budget.
pub open spec fn victims(entries: Seq<VectorWindowEntry>, budget: int) -> int
    decreases entries.len(),
{
    if entries.len() == 0 || bytes_in(entries) <= budget {
        0
    } else {
        1 + victims(entries.drop_first(), budget)
    }
}

/// The entries without the one under `key`.
pub open spec fn without_key(
    entries: Seq<VectorWindowEntry>,
    key: VectorWindowKey,
) -> Seq<VectorWindowEntry> {
    if holds_key(entries, key) {
        entries.remove(key_index(entries, key))
    } else {
        entries
    }
}

pub open spec fn holds_key(entries: Seq<VectorWindowEntry>, key: VectorWindowKey) -> bool {
    exists|i: int| 0 <= i < entries.len() && #[trigger] entries[i].key == key
}

pub open spec fn key_index(entries: Seq<VectorWindowEntry>, key: VectorWindowKey) -> int {
    choose|i: int| 0 <= i < entries.len() && #[trigger] entries[i].key == key
}

pub open spec fn keys_distinct(entries: Seq<VectorWindowEntry>) -> bool {
    forall|i: int, j: int|
        0 <= i < j < entries.len() ==> (#[trigger] entries[i]).key != (#[trigger] entries[j]).key
}

/// Windows in order of use, the one that went longest without it first.
#[derive(Debug)]
pub struct VectorWindowCache {
    pub budget_bytes: usize,
    pub used_bytes: usize,
    pub entries: Vec<VectorWindowEntry>,
    pub stats: VectorWindowCacheStats,
}

proof fn lemma_bytes_in_push(entries: Seq<VectorWindowEntry>, entry: VectorWindowEntry)
    ensures
        bytes_in(entries.push(entry)) == bytes_in(entries) + entry.bytes,
    decreases entries.len(),
{
    if entries.len() == 0 {
        assert(entries.push(entry).drop_first() =~= entries);
    } else {
        assert(entries.push(entry).drop_first() =~= entries.drop_first().push(entry));
        lemma_bytes_in_push(entries.drop_first(), entry);
    }
}

proof fn lemma_bytes_in_remove(entries: Seq<VectorWindowEntry>, i: int)
    requires
        0 <= i < entries.len(),
    ensures
        bytes_in(entries.remove(i)) == bytes_in(entries) - entries[i].bytes,
    decreases entries.len(),
{
    if i == 0 {
        assert(entries.remove(0) =~= entries.drop_first());
    } else {
        assert(entries.remove(i).drop_first() =~= entries.drop_first().remove(i - 1));
        assert(entries.drop_first()[i - 1] == entries[i]);
        lemma_bytes_in_remove(entries.drop_first(), i - 1);
    }
}

proof fn lemma_bytes_in_nonnegative(entries: Seq<VectorWindowEntry>)
    ensures
        bytes_in(entries) >= 0,
    decreases entries.len(),
{
    if entries.len() > 0 {
        lemma_bytes_in_nonnegative(entries.drop_first());
    }
}

/// Giving up entries ends before the last one where that one fits by itself, and
/// leaves what fits.
proof fn lemma_victims(entries: Seq<VectorWindowEntry>, budget: int)
    requires
        entries.len() > 0 ==> entries.last().bytes <= budget,
        budget >= 0,
    ensures
        0 <= victims(entries, budget) <= entries.len(),
        entries.len() > 0 ==> victims(entries, budget) < entries.len(),
        bytes_in(entries.skip(victims(entries, budget))) <= budget,
    decreases entries.len(),
{
    if entries.len() == 0 || bytes_in(entries) <= budget {
        assert(entries.skip(0) =~= entries);
    } else {
        let rest = entries.drop_first();
        if rest.len() == 0 {
            assert(bytes_in(rest) == 0);
        } else {
            assert(rest.last() == entries.last());
        }
        lemma_victims(rest, budget);
        assert(entries.skip(1 + victims(rest, budget)) =~= rest.skip(victims(rest, budget)));
    }
}

impl VectorWindowCache {
    pub open spec fn wf(self) -> bool {
        &&& self.used_bytes == bytes_in(self.entries@)
        &&& self.used_bytes <= self.budget_bytes
        &&& keys_distinct(self.entries@)
        &&& forall|i: int|
            0 <= i < self.entries@.len() ==> (#[trigger] self.entries@[i]).bytes
                == 4 * self.entries@[i].data@.len() && self.entries@[i].bytes > 0
    }

    /// A window of `len` values is taken in.
    pub open spec fn takes(self, len: int) -> bool {
        0 < 4 * len <= self.budget_bytes
    }

    /// What is held beside a window of `len` values under `key` fits the machine with it,
    /// and so do the counters of insertions and of what has to go.
    pub open spec fn has_room(self, key: VectorWindowKey, len: int) -> bool {
        &&& bytes_in(without_key(self.entries@, key)) + 4 * len <= usize::MAX
        &&& self.stats.inserts < usize::MAX
        &&& self.stats.evictions + self.entries@.len() < usize::MAX
    }

    pub fn new(budget_bytes: usize) -> (cache: Self)
        ensures
            cache.wf(),
            cache.budget_bytes == budget_bytes,
            cache.used_bytes == 0,
            cache.entries@ == Seq::<VectorWindowEntry>::empty(),
            cache.stats == VectorWindowCacheStats::zero(),
    {
        VectorWindowCache {
            budget_bytes,
            used_bytes: 0,
            entries: Vec::new(),
            stats: VectorWindowCacheStats::default(),
        }
    }

    pub fn used_bytes(&self) -> (bytes: usize)
        ensures
            bytes == self.used_bytes,
    {
        self.used_bytes
    }

    pub fn stats(&self) -> (stats: &VectorWindowCacheStats)
        ensures
            *stats == self.stats,
    {
        &self.stats
    }

    /// Where the entry under `key` stands.
    fn find(&self, key: &VectorWindowKey) -> (index: Option<usize>)
        requires
            keys_distinct(self.entries@),
        ensures
            match index {
                Some(i) => holds_key(self.entries@, *key) && i == key_index(self.entries@, *key)
                    && i < self.entries@.len() && self.entries@[i as int].key == *key,
                None => !holds_key(self.entries@, *key),
            },
    {
        for i in 0..self.entries.len()
            invariant
                keys_distinct(self.entries@),
                forall|j: int| 0 <= j < i ==> (#[trigger] self.entries@[j]).key != *key,
        {
            if self.entries[i].key == *key {
                proof {
                    assert(holds_key(self.entries@, *key));
                    let k = key_index(self.entries@, *key);
                    assert(self.entries@[k].key == self.entries@[i as int].key);
                }
                return Some(i);
            }
        }
        None
    }

    /// The rows cached under `key`, which then counts as the one used last.
    pub fn get(&mut self, key: &VectorWindowKey) -> (data: Option<Vec<F32>>)
        requires
            old(self).wf(),
            if holds_key(old(self).entries@, *key) {
                old(self).stats.hits < usize::MAX && old(self).stats.saved_direct_read_calls
                    < usize::MAX
            } else {
                old(self).stats.misses < usize::MAX
            },
        ensures
            final(self).wf(),
            final(self).budget_bytes == old(self).budget_bytes,
            final(self).used_bytes == old(self).used_bytes,
            holds_key(old(self).entries@, *key) ==> {
                let entry = old(self).entries@[key_index(old(self).entries@, *key)];
                &&& data matches Some(rows) && rows@ == entry.data@
                &&& final(self).entries@ == without_key(old(self).entries@, *key).push(entry)
                &&& final(self).stats == (VectorWindowCacheStats {
                    hits: (old(self).stats.hits + 1) as usize,
                    saved_direct_read_calls: (old(self).stats.saved_direct_read_calls
                        + 1) as usize,
                    ..old(self).stats
                })
            },
            !holds_key(old(self).entries@, *key) ==> {
                &&& data is None
                &&& final(self).entries@ == old(self).entries@
                &&& final(self).stats == (VectorWindowCacheStats {
                    misses: (old(self).stats.misses + 1) as usize,
                    ..old(self).stats
                })
            },
            data is Some <==> exists|i: int| #[trigger] stands_at(old(self).entries@, *key, i),
            forall|i: int| #[trigger]
                stands_at(old(self).entries@, *key, i) ==> (data matches Some(rows) && rows@
                    == old(self).entries@[i].data@) && final(self).entries@ == old(
                    self,
                ).entries@.remove(i).push(old(self).entries@[i]),
    {
        proof {
            law_window_is_found_by_its_rows(self.entries@, *key);
        }
        match self.find(key) {
            Some(i) => {
                self.stats.hits = self.stats.hits + 1;
                self.stats.saved_direct_read_calls = self.stats.saved_direct_read_calls + 1;
                let ghost before = self.entries@;
                let entry: VectorWindowEntry = self.entries.remove(i);
                let mut rows: Vec<F32> = Vec::new();
                for k in 0..entry.data.len()
                    invariant
                        rows@ == entry.data@.take(k as int),
                {
                    rows.push(entry.data[k]);
                    proof {
                        assert(rows@ =~= entry.data@.take(k as int + 1));
                    }
                }
                proof {
                    assert(entry.data@.take(entry.data@.len() as int) =~= entry.data@);
                    lemma_bytes_in_remove(before, i as int);
                    lemma_bytes_in_push(before.remove(i as int), entry);
                }
                self.entries.push(entry);
                Some(rows)
            },
            None => {
                self.stats.misses = self.stats.misses + 1;
                None
            },
        }
    }

    /// Caches rows under `key` where they fit the budget, in place of what was
    /// cached under it, and gives up the entries that went longest without use
    /// until the rest fits.
    pub fn insert(&mut self, key: VectorWindowKey, data: Vec<F32>)
        requires
            old(self).wf(),
            4 * data@.len() <= usize::MAX,
            old(self).takes(data@.len() as int) ==> old(self).has_room(key, data@.len() as int),
        ensures
            final(self).wf(),
            final(self).budget_bytes == old(self).budget_bytes,
            !old(self).takes(data@.len() as int) ==> *final(self) == *old(self),
            old(self).takes(data@.len() as int) ==> {
                let entry = VectorWindowEntry { key, data, bytes: (4 * data@.len()) as usize };
                let kept = without_key(old(self).entries@, key).push(entry);
                let gone = victims(kept, old(self).budget_bytes as int);
                &&& 0 <= gone < kept.len()
                &&& final(self).entries@ == kept.skip(gone)
                &&& final(self).entries@.last() == entry
                &&& final(self).stats == (VectorWindowCacheStats {
                    inserts: (old(self).stats.inserts + 1) as usize,
                    evictions: (old(self).stats.evictions + gone) as usize,
                    used_peak_bytes: greatest(
                        old(self).stats.used_peak_bytes as int,
                        bytes_in(kept),
                    ) as usize,
                    bytes_inserted: capped(
                        old(self).stats.bytes_inserted + entry.bytes,
                    ) as usize,
                    bytes_evicted: capped(
                        old(self).stats.bytes_evicted + bytes_in(kept) - bytes_in(kept.skip(gone)),
                    ) as usize,
                    ..old(self).stats
                })
            },
            0 < 4 * data@.len() <= old(self).budget_bytes ==> exists|rest: Seq<VectorWindowEntry>|
                #![trigger others(old(self).entries@, key, rest)]
                others(old(self).entries@, key, rest) && last_used_within(
                    rest.push(
                        VectorWindowEntry { key, data, bytes: (4 * data@.len()) as usize },
                    ),
                    old(self).budget_bytes as int,
                    final(self).entries@,
                ) && final(self).entries@.last().key == key && final(self).entries@.last().data@
                    == data@,
            final(self).used_bytes == total_bytes(final(self).entries@),
    {
        proof {
            law_window_is_found_by_its_rows(self.entries@, key);
            lemma_total_bytes(self.entries@);
        }
        let bytes: usize = sat_mul(data.len(), 4);
        if bytes == 0 || bytes > self.budget_bytes {
            return;
        }
        let ghost before = self.entries@;
        match self.find(&key) {
            Some(i) => {
                let previous: VectorWindowEntry = self.entries.remove(i);
                proof {
                    lemma_bytes_in_remove(before, i as int);
                    lemma_bytes_in_nonnegative(before.remove(i as int));
                }
                self.used_bytes = self.used_bytes - previous.bytes;
            },
            None => {},
        }
        let ghost left = self.entries@;
        let ghost entry = VectorWindowEntry { key, data, bytes };
        proof {
            assert(left == without_key(before, key));
            lemma_bytes_in_push(left, entry);
            assert forall|j: int| 0 <= j < left.len() implies (#[trigger] left[j]).key != key by {
                if holds_key(before, key) {
                    let k = key_index(before, key);
                    assert(left[j] == if j < k {
                        before[j]
                    } else {
                        before[j + 1]
                    });
                    assert(before[k].key == key);
                } else {
                    assert(before[j].key != key);
                }
            }
        }
        self.entries.push(VectorWindowEntry { key, data, bytes });
        self.used_bytes = self.used_bytes + bytes;
        self.stats.inserts = self.stats.inserts + 1;
        self.stats.bytes_inserted = self.stats.bytes_inserted.saturating_add(bytes);
        self.stats.used_peak_bytes = max_usize(self.stats.used_peak_bytes, self.used_bytes);
        proof {
            law_no_window_goes_in_vain(self.entries@, self.budget_bytes as int);
            assert(others(before, key, left));
        }
        self.evict_to_budget();
        proof {
            lemma_total_bytes(self.entries@);
        }
    }

    /// Gives up entries from the front until the rest fits the budget.
    fn evict_to_budget(&mut self)
        requires
            old(self).used_bytes == bytes_in(old(self).entries@),
            keys_distinct(old(self).entries@),
            forall|i: int|
                0 <= i < old(self).entries@.len() ==> (#[trigger] old(self).entries@[i]).bytes
                    == 4 * old(self).entries@[i].data@.len() && old(self).entries@[i].bytes
                    > 0,
            old(self).entries@.len() > 0,
            old(self).entries@.last().bytes <= old(self).budget_bytes,
            old(self).stats.evictions + old(self).entries@.len() <= usize::MAX,
        ensures
            final(self).wf(),
            final(self).budget_bytes == old(self).budget_bytes,
            ({
                let kept = old(self).entries@;
                let gone = victims(kept, old(self).budget_bytes as int);
                &&& 0 <= gone < kept.len()
                &&& final(self).entries@ == kept.skip(gone)
                &&& final(self).entries@.last() == kept.last()
                &&& final(self).stats == (VectorWindowCacheStats {
                    evictions: (old(self).stats.evictions + gone) as usize,
                    bytes_evicted: capped(
                        old(self).stats.bytes_evicted + bytes_in(kept) - bytes_in(kept.skip(gone)),
                    ) as usize,
                    ..old(self).stats
                })
            }),
    {
        let ghost kept = self.entries@;
        let ghost mut gone: int = 0;
        proof {
            lemma_victims(kept, self.budget_bytes as int);
            assert(kept.skip(0) =~= kept);
            assert(capped(self.stats.bytes_evicted as int) == self.stats.bytes_evicted);
        }
        while self.used_bytes > self.budget_bytes && self.entries.len() > 0
            invariant
                self.budget_bytes == old(self).budget_bytes,
                kept == old(self).entries@,
                kept.len() > 0,
                kept.last().bytes <= self.budget_bytes,
                keys_distinct(kept),
                forall|i: int|
                    0 <= i < kept.len() ==> (#[trigger] kept[i]).bytes
                        == 4 * kept[i].data@.len() && kept[i].bytes > 0,
                0 <= gone < kept.len(),
                self.entries@ == kept.skip(gone),
                victims(kept, self.budget_bytes as int) == gone + victims(
                    kept.skip(gone),
                    self.budget_bytes as int,
                ),
                0 <= victims(kept, self.budget_bytes as int) < kept.len(),
                self.used_bytes == bytes_in(kept.skip(gone)),
                old(self).stats.evictions + kept.len() <= usize::MAX,
                self.stats == (VectorWindowCacheStats {
                    evictions: (old(self).stats.evictions + gone) as usize,
                    bytes_evicted: capped(
                        old(self).stats.bytes_evicted + bytes_in(kept) - bytes_in(kept.skip(gone)),
                    ) as usize,
                    ..old(self).stats
                }),
            decreases self.entries@.len(),
        {
            let entry: VectorWindowEntry = self.entries.remove(0);
            proof {
                let rest = kept.skip(gone);
                assert(rest.remove(0) =~= rest.drop_first());
                assert(rest.drop_first() =~= kept.skip(gone + 1));
                lemma_bytes_in_nonnegative(kept.skip(gone + 1));
                lemma_victims(kept.skip(gone + 1), self.budget_bytes as int);
                lemma_bytes_in_prefix(kept, gone);
                gone = gone + 1;
            }
            self.used_bytes = self.used_bytes - entry.bytes;
            self.stats.evictions = self.stats.evictions + 1;
            self.stats.bytes_evicted = self.stats.bytes_evicted.saturating_add(entry.bytes);
        }
        proof {
            assert forall|i: int, j: int| 0 <= i < j < self.entries@.len() implies (
            #[trigger] self.entries@[i]).key != (#[trigger] self.entries@[j]).key by {
                assert(self.entries@[i] == kept[i + gone]);
                assert(self.entries@[j] == kept[j + gone]);
            }
            assert forall|i: int| 0 <= i < self.entries@.len() implies (
            #[trigger] self.entries@[i]).bytes == 4 * self.entries@[i].data@.len()
                && self.entries@[i].bytes > 0 by {
                assert(self.entries@[i] == kept[i + gone]);
            }
        }
    }
}

proof fn lemma_bytes_in_prefix(entries: Seq<VectorWindowEntry>, n: int)
    requires
        0 <= n <= entries.len(),
    ensures
        bytes_in(entries.skip(n)) <= bytes_in(entries),
    decreases n,
{
    if n == 0 {
        assert(entries.skip(0) =~= entries);
    } else {
        lemma_bytes_in_prefix(entries, n - 1);
        assert(entries.skip(n - 1).drop_first() =~= entries.skip(n));
    }
}

} // verus!
