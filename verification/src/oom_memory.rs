//! The memory that the process takes, stage by stage.

use vstd::prelude::*;
use vstd::string::*;

use crate::arith::floored;
use crate::json_text::{
    entry, entry_text, format_optional_kb, object_of, object_text, optional_text, text_views,
};
use crate::oom_files::{number_in, parse_number};
use crate::text::{chars_of, is_white_space, white_space};

verus! {

/// What the system tells of the process's memory, in bytes.
#[derive(Clone, Copy, Debug, PartialEq, Eq, Structural)]
pub struct ProcessMemorySnapshot {
    pub rss_bytes: Option<usize>,
    pub hwm_bytes: Option<usize>,
    pub vm_peak_bytes: Option<usize>,
}

impl ProcessMemorySnapshot {
    /// Nothing is known.
    pub open spec fn unknown() -> ProcessMemorySnapshot {
        ProcessMemorySnapshot { rss_bytes: None, hwm_bytes: None, vm_peak_bytes: None }
    }

    pub fn new() -> (snapshot: Self)
        ensures
            snapshot == ProcessMemorySnapshot::unknown(),
    {
        ProcessMemorySnapshot { rss_bytes: None, hwm_bytes: None, vm_peak_bytes: None }
    }
}

/// The first character from `i` on that is white space, or is not.
pub open spec fn next_where(line: Seq<char>, i: int, blank: bool) -> int
    decreases line.len() - i,
{
    if i < 0 || i >= line.len() || white_space(line[i]) == blank {
        i
    } else {
        next_where(line, i + 1, blank)
    }
}

fn find_where(line: &[char], from: usize, blank: bool) -> (at: usize)
    requires
        from <= line@.len(),
    ensures
        at == next_where(line@, from as int, blank),
        from <= at <= line@.len(),
{
    let mut at: usize = from;
    while at < line.len() && is_white_space(line[at]) != blank
        invariant
            from <= at <= line@.len(),
            next_where(line@, at as int, blank) == next_where(line@, from as int, blank),
        decreases line@.len() - at,
    {
        at = at + 1;
    }
    at
}

/// The second word of a line, from where to where. It is empty where there is none.
pub open spec fn second_word(line: Seq<char>) -> (int, int) {
    let first = next_where(line, 0, false);
    let gap = next_where(line, first, true);
    let second = next_where(line, gap, false);
    (second, next_where(line, second, true))
}

/// The code of a character as a byte, for one beyond ASCII a byte that is no digit.
pub open spec fn code_byte(c: char) -> u8 {
    if (c as u32) < 0x80 {
        c as u8
    } else {
        0xff
    }
}

/// The number that a word writes out.
pub open spec fn word_number(word: Seq<char>) -> Option<int> {
    number_in(word.map_values(|c: char| code_byte(c)))
}

fn parse_word(word: &[char]) -> (number: Option<usize>)
    ensures
        match number {
            Some(value) => word_number(word@) == Some(value as int),
            None => word_number(word@) is None,
        },
{
    let mut bytes: Vec<u8> = Vec::with_capacity(word.len());
    for i in 0..word.len()
        invariant
            bytes@ == word@.take(i as int).map_values(|c: char| code_byte(c)),
    {
        let c: char = word[i];
        bytes.push(
            if (c as u32) < 0x80 {
                c as u8
            } else {
                0xff
            },
        );
        proof {
            assert(bytes@ =~= word@.take(i + 1).map_values(|c: char| code_byte(c)));
        }
    }
    proof {
        assert(word@.take(word@.len() as int) =~= word@);
    }
    parse_number(bytes.as_slice())
}

/// The bytes that a line of the status file tells in units of 1024.
pub open spec fn kib_field(line: Seq<char>) -> Option<int> {
    let (from, to) = second_word(line);
    if from < to <= line.len() {
        match word_number(line.subrange(from, to)) {
            Some(kib) => if kib * 1024 <= usize::MAX {
                Some(kib * 1024)
            } else {
                None
            },
            None => None,
        }
    } else {
        None
    }
}

pub open spec fn as_size(value: Option<int>) -> Option<usize> {
    match value {
        Some(bytes) => Some(bytes as usize),
        None => None,
    }
}

fn parse_kib_field(line: &[char]) -> (bytes: Option<usize>)
    ensures
        bytes == as_size(kib_field(line@)),
        kib_field(line@) matches Some(value) ==> 0 <= value <= usize::MAX,
{
    let first: usize = find_where(line, 0, false);
    let gap: usize = find_where(line, first, true);
    let second: usize = find_where(line, gap, false);
    let end: usize = find_where(line, second, true);
    if second >= end {
        return None;
    }
    match parse_word(vstd::slice::slice_subrange(line, second, end)) {
        Some(kib) => kib.checked_mul(1024),
        None => None,
    }
}

/// The bytes that a line of the status file tells: its second word is a number of KiB.
pub fn parse_status_kib_field(line: &str) -> (bytes: Option<usize>)
    ensures
        bytes == as_size(kib_field(line@)),
        kib_field(line@) matches Some(value) ==> 0 <= value <= usize::MAX,
{
    let chars: Vec<char> = chars_of(line);
    parse_kib_field(chars.as_slice())
}

/// `text` starts with `prefix`.
pub open spec fn begins_with(text: Seq<char>, prefix: Seq<char>) -> bool {
    prefix.len() <= text.len() && text.take(prefix.len() as int) == prefix
}

fn has_name(line: &[char], name: &str) -> (result: bool)
    ensures
        result == begins_with(line@, name@),
{
    let prefix: Vec<char> = chars_of(name);
    if prefix.len() > line.len() {
        return false;
    }
    for i in 0..prefix.len()
        invariant
            prefix@ == name@,
            prefix@.len() <= line@.len(),
            forall|j: int| 0 <= j < i ==> #[trigger] line@[j] == prefix@[j],
    {
        if line[i] != prefix[i] {
            proof {
                assert(line@.take(prefix@.len() as int)[i as int] != prefix@[i as int]);
            }
            return false;
        }
    }
    proof {
        assert(line@.take(prefix@.len() as int) =~= prefix@);
    }
    true
}

/// The end of the line that starts at `i`.
pub open spec fn line_end(text: Seq<char>, i: int) -> int
    decreases text.len() - i,
{
    if i < 0 || i >= text.len() || text[i] == '\n' {
        i
    } else {
        line_end(text, i + 1)
    }
}

/// A snapshot after one line of the status file.
pub open spec fn after_line(
    snapshot: ProcessMemorySnapshot,
    line: Seq<char>,
) -> ProcessMemorySnapshot {
    if begins_with(line, "VmRSS:"@) {
        ProcessMemorySnapshot { rss_bytes: as_size(kib_field(line)), ..snapshot }
    } else if begins_with(line, "VmHWM:"@) {
        ProcessMemorySnapshot { hwm_bytes: as_size(kib_field(line)), ..snapshot }
    } else if begins_with(line, "VmPeak:"@) {
        ProcessMemorySnapshot { vm_peak_bytes: as_size(kib_field(line)), ..snapshot }
    } else {
        snapshot
    }
}

/// The snapshot after the lines from `i` on.
pub open spec fn status_from(
    text: Seq<char>,
    i: int,
    snapshot: ProcessMemorySnapshot,
) -> ProcessMemorySnapshot
    decreases floored(text.len() - i),
{
    if i < 0 || i >= text.len() {
        snapshot
    } else {
        proof {
            lemma_line_end(text, i);
        }
        let end = line_end(text, i);
        status_from(text, end + 1, after_line(snapshot, text.subrange(i, end)))
    }
}

pub proof fn lemma_line_end(text: Seq<char>, i: int)
    requires
        0 <= i <= text.len(),
    ensures
        i <= line_end(text, i) <= text.len(),
    decreases text.len() - i,
{
    if i < text.len() && text[i] != '\n' {
        lemma_line_end(text, i + 1);
    }
}

fn find_line_end(text: &[char], from: usize) -> (end: usize)
    requires
        from <= text@.len(),
    ensures
        end == line_end(text@, from as int),
        from <= end <= text@.len(),
{
    let mut end: usize = from;
    while end < text.len() && text[end] != '\n'
        invariant
            from <= end <= text@.len(),
            line_end(text@, end as int) == line_end(text@, from as int),
        decreases text@.len() - end,
    {
        end = end + 1;
    }
    end
}

/// What the text of the status file tells.
pub fn parse_proc_self_status(status: &str) -> (snapshot: ProcessMemorySnapshot)
    ensures
        snapshot == status_from(status@, 0, ProcessMemorySnapshot::unknown()),
{
    let text: Vec<char> = chars_of(status);
    let mut snapshot: ProcessMemorySnapshot = ProcessMemorySnapshot::new();
    let total: usize = text.len();
    let mut at: usize = 0;
    let mut done: bool = total == 0;
    while !done
        invariant
            total == text@.len(),
            !done ==> at < total,
            if done {
                snapshot == status_from(text@, 0, ProcessMemorySnapshot::unknown())
            } else {
                status_from(text@, at as int, snapshot) == status_from(
                    text@,
                    0,
                    ProcessMemorySnapshot::unknown(),
                )
            },
        decreases total - at, (if done {
            0int
        } else {
            1int
        }),
    {
        let end: usize = find_line_end(text.as_slice(), at);
        let ghost before = snapshot;
        let line: &[char] = vstd::slice::slice_subrange(text.as_slice(), at, end);
        if has_name(line, "VmRSS:") {
            snapshot.rss_bytes = parse_kib_field(line);
        } else if has_name(line, "VmHWM:") {
            snapshot.hwm_bytes = parse_kib_field(line);
        } else if has_name(line, "VmPeak:") {
            snapshot.vm_peak_bytes = parse_kib_field(line);
        }
        proof {
            assert(status_from(text@, at as int, before) == status_from(
                text@,
                end + 1,
                snapshot,
            ));
        }
        if end >= total || end + 1 >= total {
            proof {
                assert(status_from(text@, end + 1, snapshot) == snapshot);
            }
            done = true;
        } else {
            at = end + 1;
        }
    }
    snapshot
}

/// The points of a build at which memory is looked at.
#[derive(Clone, Copy, Debug, PartialEq, Eq, Structural)]
pub enum MemoryStage {
    Start,
    AfterSketches,
    AfterRoot,
    AfterStreaming,
    AfterReduce,
    Last,
}

/// Memory at each stage, and what it came to.
#[derive(Debug)]
pub struct OomMemoryReport {
    pub start: ProcessMemorySnapshot,
    pub after_sketches: ProcessMemorySnapshot,
    pub after_root: ProcessMemorySnapshot,
    pub after_streaming: ProcessMemorySnapshot,
    pub after_reduce: ProcessMemorySnapshot,
    pub last: ProcessMemorySnapshot,
    pub rss_kb_samples: Vec<u64>,
    pub rss_hwm_kb: Option<usize>,
    pub vm_peak_kb: Option<usize>,
}

/// The known values of the first `n`, in units of 1024.
pub open spec fn known_kb(values: Seq<Option<usize>>, n: int) -> Seq<u64>
    decreases n,
{
    if n <= 0 {
        Seq::<u64>::empty()
    } else {
        match values[n - 1] {
            Some(bytes) => known_kb(values, n - 1).push((bytes as int / 1024) as u64),
            None => known_kb(values, n - 1),
        }
    }
}

/// The largest of the known values of the first `n`, in units of 1024.
pub open spec fn most_kb(values: Seq<Option<usize>>, n: int) -> Option<usize>
    decreases n,
{
    if n <= 0 {
        None
    } else {
        let before = most_kb(values, n - 1);
        match values[n - 1] {
            Some(bytes) => {
                let kb = (bytes as int / 1024) as usize;
                match before {
                    Some(most) => if most > kb {
                        Some(most)
                    } else {
                        Some(kb)
                    },
                    None => Some(kb),
                }
            },
            None => before,
        }
    }
}

fn largest_kb(values: &[Option<usize>]) -> (most: Option<usize>)
    ensures
        most == most_kb(values@, values@.len() as int),
{
    let mut most: Option<usize> = None;
    for i in 0..values.len()
        invariant
            most == most_kb(values@, i as int),
    {
        if let Some(bytes) = values[i] {
            let kb: usize = bytes / 1024;
            most = match most {
                Some(held) => if held > kb {
                    Some(held)
                } else {
                    Some(kb)
                },
                None => Some(kb),
            };
        }
    }
    most
}

impl OomMemoryReport {
    /// The stages in the order of their names.
    pub open spec fn by_name(&self) -> Seq<ProcessMemorySnapshot> {
        seq![
            self.after_reduce,
            self.after_root,
            self.after_sketches,
            self.after_streaming,
            self.last,
            self.start,
        ]
    }

    pub open spec fn stage(&self, stage: MemoryStage) -> ProcessMemorySnapshot {
        match stage {
            MemoryStage::Start => self.start,
            MemoryStage::AfterSketches => self.after_sketches,
            MemoryStage::AfterRoot => self.after_root,
            MemoryStage::AfterStreaming => self.after_streaming,
            MemoryStage::AfterReduce => self.after_reduce,
            MemoryStage::Last => self.last,
        }
    }

    /// No stage was looked at.
    pub fn new() -> (report: Self)
        ensures
            forall|s: MemoryStage|
                #[trigger] report.stage(s) == ProcessMemorySnapshot::unknown(),
            report.rss_kb_samples@ == Seq::<u64>::empty(),
            report.rss_hwm_kb is None,
            report.vm_peak_kb is None,
    {
        let none: ProcessMemorySnapshot = ProcessMemorySnapshot::new();
        OomMemoryReport {
            start: none,
            after_sketches: none,
            after_root: none,
            after_streaming: none,
            after_reduce: none,
            last: none,
            rss_kb_samples: Vec::new(),
            rss_hwm_kb: None,
            vm_peak_kb: None,
        }
    }

    /// Keeps what was seen at a stage.
    pub fn capture_stage(&mut self, stage: MemoryStage, snapshot: ProcessMemorySnapshot)
        ensures
            forall|s: MemoryStage|
                #[trigger] final(self).stage(s) == if s == stage {
                    snapshot
                } else {
                    old(self).stage(s)
                },
            final(self).rss_kb_samples@ == old(self).rss_kb_samples@,
            final(self).rss_hwm_kb == old(self).rss_hwm_kb,
            final(self).vm_peak_kb == old(self).vm_peak_kb,
    {
        match stage {
            MemoryStage::Start => {
                self.start = snapshot;
            },
            MemoryStage::AfterSketches => {
                self.after_sketches = snapshot;
            },
            MemoryStage::AfterRoot => {
                self.after_root = snapshot;
            },
            MemoryStage::AfterStreaming => {
                self.after_streaming = snapshot;
            },
            MemoryStage::AfterReduce => {
                self.after_reduce = snapshot;
            },
            MemoryStage::Last => {
                self.last = snapshot;
            },
        }
    }

    /// Sums the stages up: the resident sizes in the order of the stages' names, and the
    /// largest of the peaks.
    pub fn refresh_summary_from_stages(&mut self)
        ensures
            forall|s: MemoryStage| #[trigger] final(self).stage(s) == old(self).stage(s),
            final(self).rss_kb_samples@ == known_kb(
                old(self).by_name().map_values(|s: ProcessMemorySnapshot| s.rss_bytes),
                6,
            ),
            final(self).rss_hwm_kb == most_kb(
                old(self).by_name().map_values(|s: ProcessMemorySnapshot| s.hwm_bytes),
                6,
            ),
            final(self).vm_peak_kb == most_kb(
                old(self).by_name().map_values(|s: ProcessMemorySnapshot| s.vm_peak_bytes),
                6,
            ),
    {
        let stages: [ProcessMemorySnapshot; 6] = [
            self.after_reduce,
            self.after_root,
            self.after_sketches,
            self.after_streaming,
            self.last,
            self.start,
        ];
        proof {
            assert(stages@ =~= self.by_name());
        }
        let mut samples: Vec<u64> = Vec::new();
        let mut hwm: Vec<Option<usize>> = Vec::with_capacity(6);
        let mut peak: Vec<Option<usize>> = Vec::with_capacity(6);
        let ghost rss = stages@.map_values(|s: ProcessMemorySnapshot| s.rss_bytes);
        for i in 0..6usize
            invariant
                rss == stages@.map_values(|s: ProcessMemorySnapshot| s.rss_bytes),
                samples@ == known_kb(rss, i as int),
                hwm@ == stages@.map_values(|s: ProcessMemorySnapshot| s.hwm_bytes).take(i as int),
                peak@ == stages@.map_values(|s: ProcessMemorySnapshot| s.vm_peak_bytes).take(
                    i as int,
                ),
        {
            let snapshot: ProcessMemorySnapshot = stages[i];
            if let Some(bytes) = snapshot.rss_bytes {
                samples.push((bytes / 1024) as u64);
            }
            hwm.push(snapshot.hwm_bytes);
            peak.push(snapshot.vm_peak_bytes);
            proof {
                assert(hwm@ =~= stages@.map_values(|s: ProcessMemorySnapshot| s.hwm_bytes).take(
                    i + 1,
                ));
                assert(peak@ =~= stages@.map_values(
                    |s: ProcessMemorySnapshot| s.vm_peak_bytes,
                ).take(i + 1));
            }
        }
        proof {
            assert(hwm@ =~= stages@.map_values(|s: ProcessMemorySnapshot| s.hwm_bytes));
            assert(peak@ =~= stages@.map_values(|s: ProcessMemorySnapshot| s.vm_peak_bytes));
        }
        self.rss_kb_samples = samples;
        self.rss_hwm_kb = largest_kb(hwm.as_slice());
        self.vm_peak_kb = largest_kb(peak.as_slice());
    }
}

pub open spec fn kb_of(value: Option<usize>) -> Seq<char> {
    optional_text(
        match value {
            Some(bytes) => Some((bytes as int / 1024) as usize),
            None => None,
        },
    )
}

/// One stage as JSON.
pub open spec fn snapshot_text(snapshot: ProcessMemorySnapshot) -> Seq<char> {
    object_text(
        seq![
            entry_text("rss_kb"@, kb_of(snapshot.rss_bytes)),
            entry_text("rss_hwm_kb"@, kb_of(snapshot.hwm_bytes)),
            entry_text("vm_peak_kb"@, kb_of(snapshot.vm_peak_bytes)),
        ],
    )
}

fn snapshot_json(snapshot: &ProcessMemorySnapshot) -> (text: String)
    ensures
        text@ == snapshot_text(*snapshot),
{
    let rss: String = format_optional_kb(snapshot.rss_bytes);
    let hwm: String = format_optional_kb(snapshot.hwm_bytes);
    let peak: String = format_optional_kb(snapshot.vm_peak_bytes);
    let mut parts: Vec<String> = Vec::with_capacity(3);
    parts.push(entry("rss_kb", rss.as_str()));
    parts.push(entry("rss_hwm_kb", hwm.as_str()));
    parts.push(entry("vm_peak_kb", peak.as_str()));
    proof {
        assert(text_views(parts@) =~= seq![
            entry_text("rss_kb"@, kb_of(snapshot.rss_bytes)),
            entry_text("rss_hwm_kb"@, kb_of(snapshot.hwm_bytes)),
            entry_text("vm_peak_kb"@, kb_of(snapshot.vm_peak_bytes)),
        ]);
    }
    object_of(&parts)
}

/// All stages as JSON, in the order in which a build passes them.
pub open spec fn stages_text(report: OomMemoryReport) -> Seq<char> {
    object_text(
        seq![
            entry_text("start"@, snapshot_text(report.start)),
            entry_text("after_sketches"@, snapshot_text(report.after_sketches)),
            entry_text("after_root"@, snapshot_text(report.after_root)),
            entry_text("after_streaming"@, snapshot_text(report.after_streaming)),
            entry_text("after_reduce"@, snapshot_text(report.after_reduce)),
            entry_text("final"@, snapshot_text(report.last)),
        ],
    )
}

pub fn memory_stage_profile_json(report: &OomMemoryReport) -> (text: String)
    ensures
        text@ == stages_text(*report),
{
    let start: String = snapshot_json(&report.start);
    let after_sketches: String = snapshot_json(&report.after_sketches);
    let after_root: String = snapshot_json(&report.after_root);
    let after_streaming: String = snapshot_json(&report.after_streaming);
    let after_reduce: String = snapshot_json(&report.after_reduce);
    let last: String = snapshot_json(&report.last);
    let mut parts: Vec<String> = Vec::with_capacity(6);
    parts.push(entry("start", start.as_str()));
    parts.push(entry("after_sketches", after_sketches.as_str()));
    parts.push(entry("after_root", after_root.as_str()));
    parts.push(entry("after_streaming", after_streaming.as_str()));
    parts.push(entry("after_reduce", after_reduce.as_str()));
    parts.push(entry("final", last.as_str()));
    proof {
        assert(text_views(parts@) =~= seq![
            entry_text("start"@, snapshot_text(report.start)),
            entry_text("after_sketches"@, snapshot_text(report.after_sketches)),
            entry_text("after_root"@, snapshot_text(report.after_root)),
            entry_text("after_streaming"@, snapshot_text(report.after_streaming)),
            entry_text("after_reduce"@, snapshot_text(report.after_reduce)),
            entry_text("final"@, snapshot_text(report.last)),
        ]);
    }
    object_of(&parts)
}

} // verus!
