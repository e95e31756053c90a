//! Counters of batched row reads.

use vstd::prelude::*;

verus! {

/// How rows are gathered in windows.
#[derive(Clone, Copy, Debug, PartialEq, Eq, Structural)]
pub struct WindowedGatherOptions {
    pub max_gap_rows: u32,
    pub max_window_bytes: usize,
    pub alignment_bytes: usize,
    pub sort_ids: bool,
}

/// What batched row reads have moved.
#[derive(Clone, Copy, Debug, PartialEq, Eq, Structural)]
pub struct WindowedGatherStats {
    pub rows_requested: u64,
    pub windows_submitted: u64,
    pub rows_per_window_sum: u64,
    pub singleton_windows: u64,
    pub range_windows: u64,
    pub range_rows_read: u64,
    pub logical_bytes: u64,
    pub physical_bytes: u64,
    pub alignment_waste_bytes: u64,
    pub overread_rows: u64,
    pub scatter_ops: u64,
}

impl Default for WindowedGatherStats {
    fn default() -> (stats: Self)
        ensures
            stats == WindowedGatherStats::zero(),
    {
        WindowedGatherStats {
            rows_requested: 0,
            windows_submitted: 0,
            rows_per_window_sum: 0,
            singleton_windows: 0,
            range_windows: 0,
            range_rows_read: 0,
            logical_bytes: 0,
            physical_bytes: 0,
            alignment_waste_bytes: 0,
            overread_rows: 0,
            scatter_ops: 0,
        }
    }
}

impl WindowedGatherStats {
    pub open spec fn zero() -> Self {
        WindowedGatherStats {
            rows_requested: 0,
            windows_submitted: 0,
            rows_per_window_sum: 0,
            singleton_windows: 0,
            range_windows: 0,
            range_rows_read: 0,
            logical_bytes: 0,
            physical_bytes: 0,
            alignment_waste_bytes: 0,
            overread_rows: 0,
            scatter_ops: 0,
        }
    }

    /// Both together fit their counters.
    pub open spec fn mergeable(self, other: Self) -> bool {
        &&& self.rows_requested + other.rows_requested <= u64::MAX
        &&& self.windows_submitted + other.windows_submitted <= u64::MAX
        &&& self.rows_per_window_sum + other.rows_per_window_sum <= u64::MAX
        &&& self.singleton_windows + other.singleton_windows <= u64::MAX
        &&& self.range_windows + other.range_windows <= u64::MAX
        &&& self.range_rows_read + other.range_rows_read <= u64::MAX
        &&& self.logical_bytes + other.logical_bytes <= u64::MAX
        &&& self.physical_bytes + other.physical_bytes <= u64::MAX
        &&& self.alignment_waste_bytes + other.alignment_waste_bytes <= u64::MAX
        &&& self.overread_rows + other.overread_rows <= u64::MAX
        &&& self.scatter_ops + other.scatter_ops <= u64::MAX
    }

    /// No counter is above the other's.
    pub open spec fn at_most(self, other: Self) -> bool {
        &&& self.rows_requested <= other.rows_requested
        &&& self.windows_submitted <= other.windows_submitted
        &&& self.rows_per_window_sum <= other.rows_per_window_sum
        &&& self.singleton_windows <= other.singleton_windows
        &&& self.range_windows <= other.range_windows
        &&& self.range_rows_read <= other.range_rows_read
        &&& self.logical_bytes <= other.logical_bytes
        &&& self.physical_bytes <= other.physical_bytes
        &&& self.alignment_waste_bytes <= other.alignment_waste_bytes
        &&& self.overread_rows <= other.overread_rows
        &&& self.scatter_ops <= other.scatter_ops
    }

    /// Each counter is the sum of both.
    pub open spec fn merged(self, other: Self) -> Self {
        WindowedGatherStats {
            rows_requested: (self.rows_requested + other.rows_requested) as u64,
            windows_submitted: (self.windows_submitted + other.windows_submitted) as u64,
            rows_per_window_sum: (self.rows_per_window_sum + other.rows_per_window_sum) as u64,
            singleton_windows: (self.singleton_windows + other.singleton_windows) as u64,
            range_windows: (self.range_windows + other.range_windows) as u64,
            range_rows_read: (self.range_rows_read + other.range_rows_read) as u64,
            logical_bytes: (self.logical_bytes + other.logical_bytes) as u64,
            physical_bytes: (self.physical_bytes + other.physical_bytes) as u64,
            alignment_waste_bytes: (self.alignment_waste_bytes
                + other.alignment_waste_bytes) as u64,
            overread_rows: (self.overread_rows + other.overread_rows) as u64,
            scatter_ops: (self.scatter_ops + other.scatter_ops) as u64,
        }
    }

    pub fn merge(&mut self, other: &Self)
        requires
            old(self).mergeable(*other),
        ensures
            *final(self) == old(self).merged(*other),
    {
        self.rows_requested = self.rows_requested + other.rows_requested;
        self.windows_submitted = self.windows_submitted + other.windows_submitted;
        self.rows_per_window_sum = self.rows_per_window_sum + other.rows_per_window_sum;
        self.singleton_windows = self.singleton_windows + other.singleton_windows;
        self.range_windows = self.range_windows + other.range_windows;
        self.range_rows_read = self.range_rows_read + other.range_rows_read;
        self.logical_bytes = self.logical_bytes + other.logical_bytes;
        self.physical_bytes = self.physical_bytes + other.physical_bytes;
        self.alignment_waste_bytes = self.alignment_waste_bytes + other.alignment_waste_bytes;
        self.overread_rows = self.overread_rows + other.overread_rows;
        self.scatter_ops = self.scatter_ops + other.scatter_ops;
    }

    /// What stays of the counters of rows that were in memory: no read happened.
    pub open spec fn logical_part(self) -> Self {
        WindowedGatherStats {
            rows_requested: self.rows_requested,
            logical_bytes: self.logical_bytes,
            scatter_ops: self.scatter_ops,
            ..WindowedGatherStats::zero()
        }
    }

    /// Forgets everything about reads, for rows that were in memory.
    pub fn keep_resident_prefix_logical_stats_only(&mut self)
        ensures
            *final(self) == old(self).logical_part(),
    {
        self.windows_submitted = 0;
        self.rows_per_window_sum = 0;
        self.singleton_windows = 0;
        self.range_windows = 0;
        self.range_rows_read = 0;
        self.physical_bytes = 0;
        self.alignment_waste_bytes = 0;
        self.overread_rows = 0;
    }
}

} // verus!
