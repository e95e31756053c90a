//! The files of an out-of-core build: where they go, which are its own, and what they take.

use vstd::prelude::*;
use vstd::string::*;
use vstd::utf8::encode_utf8;

use crate::params::ForgeANNParams;

verus! {

/// `text` starts with `prefix`.
pub open spec fn starts_with(text: Seq<u8>, prefix: Seq<u8>) -> bool {
    prefix.len() <= text.len() && text.take(prefix.len() as int) == prefix
}

/// `text` ends with `suffix`.
pub open spec fn ends_with(text: Seq<u8>, suffix: Seq<u8>) -> bool {
    suffix.len() <= text.len() && text.skip(text.len() - suffix.len()) == suffix
}

pub fn has_prefix(text: &[u8], prefix: &[u8]) -> (result: bool)
    ensures
        result == starts_with(text@, prefix@),
{
    if prefix.len() > text.len() {
        return false;
    }
    for i in 0..prefix.len()
        invariant
            prefix@.len() <= text@.len(),
            forall|j: int| 0 <= j < i ==> #[trigger] text@[j] == prefix@[j],
    {
        if text[i] != prefix[i] {
            proof {
                assert(text@.take(prefix@.len() as int)[i as int] != prefix@[i as int]);
            }
            return false;
        }
    }
    proof {
        assert(text@.take(prefix@.len() as int) =~= prefix@);
    }
    true
}

pub fn has_suffix(text: &[u8], suffix: &[u8]) -> (result: bool)
    ensures
        result == ends_with(text@, suffix@),
{
    if suffix.len() > text.len() {
        return false;
    }
    let total: usize = text.len();
    let from: usize = total - suffix.len();
    for i in 0..suffix.len()
        invariant
            total == text@.len(),
            from + suffix@.len() == total,
            forall|j: int| 0 <= j < i ==> #[trigger] text@[from + j] == suffix@[j],
    {
        if text[from + i] != suffix[i] {
            proof {
                assert(text@.skip(from as int)[i as int] != suffix@[i as int]);
            }
            return false;
        }
    }
    proof {
        assert(text@.skip(from as int) =~= suffix@) by {
            assert forall|j: int| 0 <= j < suffix@.len() implies text@.skip(from as int)[j]
                == suffix@[j] by {
                assert(text@[from + j] == suffix@[j]);
            }
        }
    }
    true
}

fn same_bytes(a: &[u8], b: &[u8]) -> (result: bool)
    ensures
        result == (a@ == b@),
{
    if a.len() != b.len() {
        return false;
    }
    let result: bool = has_prefix(a, b);
    proof {
        assert(a@.take(b@.len() as int) =~= a@);
    }
    result
}

pub open spec fn is_digit(byte: u8) -> bool {
    48 <= byte <= 57
}

/// The value of the first `n` digits.
pub open spec fn digits_value(digits: Seq<u8>, n: int) -> int
    decreases n,
{
    if n <= 0 {
        0
    } else {
        digits_value(digits, n - 1) * 10 + (digits[n - 1] - 48)
    }
}

/// A sign may stand in front of a number.
pub open spec fn unsigned_part(text: Seq<u8>) -> Seq<u8> {
    if text.len() > 0 && text[0] == 43 {
        text.skip(1)
    } else {
        text
    }
}

/// The number that a text writes: digits and nothing else, perhaps behind a plus sign,
/// that a machine word holds.
pub open spec fn number_in(text: Seq<u8>) -> Option<int> {
    let digits = unsigned_part(text);
    if digits.len() > 0 && (forall|i: int| 0 <= i < digits.len() ==> is_digit(#[trigger] digits[i]))
        && digits_value(digits, digits.len() as int) <= usize::MAX {
        Some(digits_value(digits, digits.len() as int))
    } else {
        None
    }
}

/// More digits make no smaller number.
proof fn lemma_digits_grow(digits: Seq<u8>, a: int, b: int)
    requires
        0 <= a <= b <= digits.len(),
        forall|i: int| 0 <= i < digits.len() ==> is_digit(#[trigger] digits[i]),
    ensures
        0 <= digits_value(digits, a) <= digits_value(digits, b),
    decreases b,
{
    if b > 0 {
        lemma_digits_grow(digits, if a < b {
            a
        } else {
            b - 1
        }, b - 1);
        assert(is_digit(digits[b - 1]));
    }
}

pub fn parse_number(text: &[u8]) -> (number: Option<usize>)
    ensures
        match number {
            Some(value) => number_in(text@) == Some(value as int),
            None => number_in(text@) is None,
        },
{
    let signed: bool = text.len() > 0 && text[0] == 43;
    let from: usize = if signed {
        1
    } else {
        0
    };
    let ghost digits = unsigned_part(text@);
    if text.len() <= from {
        return None;
    }
    let mut value: usize = 0;
    for i in from..text.len()
        invariant
            from <= 1,
            from <= text@.len(),
            digits == text@.skip(from as int),
            digits == unsigned_part(text@),
            digits.len() == text@.len() - from,
            value == digits_value(digits, i - from),
            forall|j: int| 0 <= j < i - from ==> is_digit(#[trigger] digits[j]),
    {
        let byte: u8 = text[i];
        proof {
            assert(digits[i - from] == byte);
        }
        if byte < 48 || byte > 57 {
            return None;
        }
        let digit: usize = (byte - 48) as usize;
        let next: Option<usize> = match value.checked_mul(10) {
            Some(tens) => tens.checked_add(digit),
            None => None,
        };
        proof {
            assert(digits_value(digits, i - from + 1) == digits_value(digits, i - from) * 10 + (byte
                - 48));
        }
        match next {
            Some(sum) => {
                value = sum;
            },
            None => {
                proof {
                    if forall|j: int| 0 <= j < digits.len() ==> is_digit(#[trigger] digits[j]) {
                        lemma_digits_grow(digits, i - from + 1, digits.len() as int);
                    }
                }
                return None;
            },
        }
    }
    Some(value)
}

/// The depth of a partition file: the two characters behind the common start of their
/// names, as a number.
pub open spec fn partition_depth(name: Seq<u8>) -> Option<int> {
    let start = "partition_d".spec_bytes();
    if starts_with(name, start) && name.len() >= start.len() + 2 {
        number_in(name.subrange(start.len() as int, start.len() as int + 2))
    } else {
        None
    }
}

pub fn parse_partition_depth(name: &str) -> (depth: Option<usize>)
    ensures
        match depth {
            Some(value) => partition_depth(name.spec_bytes()) == Some(value as int),
            None => partition_depth(name.spec_bytes()) is None,
        },
{
    let bytes: &[u8] = name.as_bytes();
    let start: &[u8] = "partition_d".as_bytes();
    if !has_prefix(bytes, start) {
        return None;
    }
    if bytes.len() - start.len() < 2 {
        return None;
    }
    parse_number(vstd::slice::slice_subrange(bytes, start.len(), start.len() + 2))
}

/// A log of candidates or their manifest.
pub open spec fn candidate_file(name: Seq<u8>) -> bool {
    (starts_with(name, "candidate_shard".spec_bytes()) && ends_with(name, ".log".spec_bytes()))
        || name == "candidate_segments.manifest".spec_bytes()
}

/// A file that a build leaves behind.
pub open spec fn artifact_file(name: Seq<u8>) -> bool {
    name == "sketches.bin".spec_bytes() || name == "candidate.run".spec_bytes() || candidate_file(
        name,
    ) || partition_depth(name) is Some
}

fn is_candidate_file(name: &str) -> (result: bool)
    ensures
        result == candidate_file(name.spec_bytes()),
{
    let bytes: &[u8] = name.as_bytes();
    (has_prefix(bytes, "candidate_shard".as_bytes()) && has_suffix(bytes, ".log".as_bytes()))
        || same_bytes(bytes, "candidate_segments.manifest".as_bytes())
}

/// Whether a file is one that a build leaves behind, and may be removed.
pub fn is_oom_artifact_file(name: &str) -> (result: bool)
    ensures
        result == artifact_file(name.spec_bytes()),
{
    let bytes: &[u8] = name.as_bytes();
    same_bytes(bytes, "sketches.bin".as_bytes()) || same_bytes(bytes, "candidate.run".as_bytes())
        || is_candidate_file(name) || parse_partition_depth(name).is_some()
}

/// Which of the first `n` files of a directory are removed after a build: those that it
/// left behind, unless they are kept.
pub open spec fn removed_of(keep: bool, names: Seq<String>, n: int) -> Seq<usize>
    decreases n,
{
    if keep || n <= 0 {
        Seq::<usize>::empty()
    } else if artifact_file(encode_utf8(names[n - 1]@)) {
        removed_of(keep, names, n - 1).push((n - 1) as usize)
    } else {
        removed_of(keep, names, n - 1)
    }
}

/// The files of a directory that are removed after a build, by their places.
pub fn artifacts_to_remove(keep: bool, names: &Vec<String>) -> (removed: Vec<usize>)
    ensures
        removed@ == removed_of(keep, names@, names@.len() as int),
{
    let mut removed: Vec<usize> = Vec::new();
    if keep {
        return removed;
    }
    for i in 0..names.len()
        invariant
            !keep,
            removed@ == removed_of(keep, names@, i as int),
    {
        if is_oom_artifact_file(names[i].as_str()) {
            removed.push(i);
        }
    }
    removed
}

/// A file goes exactly where it was left behind by the build and files are not kept.
pub proof fn law_artifacts_are_removed_unless_kept(keep: bool, names: Seq<String>, n: int, i: int)
    requires
        0 <= i < n <= names.len() <= usize::MAX,
    ensures
        removed_of(keep, names, n).contains(i as usize) <==> !keep && artifact_file(
            encode_utf8(names[i]@),
        ),
    decreases n,
{
    if !keep {
        let before = removed_of(keep, names, n - 1);
        let after = removed_of(keep, names, n);
        lemma_removed_below(keep, names, n - 1);
        if i < n - 1 {
            law_artifacts_are_removed_unless_kept(keep, names, n - 1, i);
            if before.contains(i as usize) {
                let k = choose|k: int| 0 <= k < before.len() && before[k] == i as usize;
                assert(after[k] == i as usize);
            }
        } else if artifact_file(encode_utf8(names[i]@)) {
            assert(after[after.len() - 1] == i as usize);
        }
    }
}

proof fn lemma_removed_below(keep: bool, names: Seq<String>, n: int)
    requires
        0 <= n <= names.len() <= usize::MAX,
    ensures
        forall|k: int|
            0 <= k < removed_of(keep, names, n).len() ==> #[trigger] removed_of(keep, names, n)[k]
                < n,
    decreases n,
{
    if n > 0 {
        lemma_removed_below(keep, names, n - 1);
        let before = removed_of(keep, names, n - 1);
        let after = removed_of(keep, names, n);
        assert forall|k: int| 0 <= k < after.len() implies #[trigger] after[k] < n by {
            if k < before.len() {
                assert(after[k] == before[k]);
            }
        }
    }
}

/// Files of one kind.
#[derive(Clone, Copy, Debug, PartialEq, Eq, Structural)]
pub struct FileCategoryStats {
    pub files: usize,
    pub bytes: u64,
}

impl FileCategoryStats {
    pub open spec fn zero() -> FileCategoryStats {
        FileCategoryStats { files: 0, bytes: 0 }
    }

    pub open spec fn plus(self, files: int, bytes: int) -> FileCategoryStats {
        FileCategoryStats {
            files: (self.files + files) as usize,
            bytes: (self.bytes + bytes) as u64,
        }
    }

    fn add(&mut self, files: usize, bytes: u64)
        requires
            old(self).files + files <= usize::MAX,
            old(self).bytes + bytes <= u64::MAX,
        ensures
            *final(self) == old(self).plus(files as int, bytes as int),
    {
        self.files = self.files + files;
        self.bytes = self.bytes + bytes;
    }
}

/// Temporary files by kind.
#[derive(Clone, Copy, Debug, PartialEq, Eq, Structural)]
pub struct TempFileReport {
    pub total: FileCategoryStats,
    pub candidate: FileCategoryStats,
    pub partition_depth0: FileCategoryStats,
    pub partition_depth1: FileCategoryStats,
    pub partition_depth2: FileCategoryStats,
    pub partition_depth3: FileCategoryStats,
    pub other: FileCategoryStats,
}

impl TempFileReport {
    pub open spec fn zero() -> TempFileReport {
        TempFileReport {
            total: FileCategoryStats::zero(),
            candidate: FileCategoryStats::zero(),
            partition_depth0: FileCategoryStats::zero(),
            partition_depth1: FileCategoryStats::zero(),
            partition_depth2: FileCategoryStats::zero(),
            partition_depth3: FileCategoryStats::zero(),
            other: FileCategoryStats::zero(),
        }
    }

    pub fn new() -> (report: Self)
        ensures
            report == TempFileReport::zero(),
            report.wf(),
    {
        let none: FileCategoryStats = FileCategoryStats { files: 0, bytes: 0 };
        TempFileReport {
            total: none,
            candidate: none,
            partition_depth0: none,
            partition_depth1: none,
            partition_depth2: none,
            partition_depth3: none,
            other: none,
        }
    }

    /// Every file is of exactly one kind: the kinds add up to the total.
    pub open spec fn wf(self) -> bool {
        &&& self.total.files == self.candidate.files + self.partition_depth0.files
            + self.partition_depth1.files + self.partition_depth2.files
            + self.partition_depth3.files + self.other.files
        &&& self.total.bytes == self.candidate.bytes + self.partition_depth0.bytes
            + self.partition_depth1.bytes + self.partition_depth2.bytes
            + self.partition_depth3.bytes + self.other.bytes
    }

    /// The report with one more file.
    pub open spec fn with_file(self, name: Seq<u8>, bytes: int) -> TempFileReport {
        let total = self.total.plus(1, bytes);
        let depth = partition_depth(name);
        if candidate_file(name) {
            TempFileReport { total, candidate: self.candidate.plus(1, bytes), ..self }
        } else if depth == Some(0int) {
            TempFileReport { total, partition_depth0: self.partition_depth0.plus(1, bytes), ..self }
        } else if depth == Some(1int) {
            TempFileReport { total, partition_depth1: self.partition_depth1.plus(1, bytes), ..self }
        } else if depth == Some(2int) {
            TempFileReport { total, partition_depth2: self.partition_depth2.plus(1, bytes), ..self }
        } else if depth == Some(3int) {
            TempFileReport { total, partition_depth3: self.partition_depth3.plus(1, bytes), ..self }
        } else {
            TempFileReport { total, other: self.other.plus(1, bytes), ..self }
        }
    }

    /// Counts a file.
    pub fn record(&mut self, name: &str, bytes: u64)
        requires
            old(self).wf(),
            old(self).total.files < usize::MAX,
            old(self).total.bytes + bytes <= u64::MAX,
        ensures
            final(self).wf(),
            *final(self) == old(self).with_file(name.spec_bytes(), bytes as int),
    {
        self.total.add(1, bytes);
        if is_candidate_file(name) {
            self.candidate.add(1, bytes);
        } else {
            match parse_partition_depth(name) {
                Some(0) => self.partition_depth0.add(1, bytes),
                Some(1) => self.partition_depth1.add(1, bytes),
                Some(2) => self.partition_depth2.add(1, bytes),
                Some(3) => self.partition_depth3.add(1, bytes),
                _ => self.other.add(1, bytes),
            }
        }
    }

    /// Both reports together.
    pub open spec fn merged(self, other: TempFileReport) -> TempFileReport {
        TempFileReport {
            total: self.total.plus(other.total.files as int, other.total.bytes as int),
            candidate: self.candidate.plus(
                other.candidate.files as int,
                other.candidate.bytes as int,
            ),
            partition_depth0: self.partition_depth0.plus(
                other.partition_depth0.files as int,
                other.partition_depth0.bytes as int,
            ),
            partition_depth1: self.partition_depth1.plus(
                other.partition_depth1.files as int,
                other.partition_depth1.bytes as int,
            ),
            partition_depth2: self.partition_depth2.plus(
                other.partition_depth2.files as int,
                other.partition_depth2.bytes as int,
            ),
            partition_depth3: self.partition_depth3.plus(
                other.partition_depth3.files as int,
                other.partition_depth3.bytes as int,
            ),
            other: self.other.plus(other.other.files as int, other.other.bytes as int),
        }
    }

    /// Adds the files of another directory.
    pub fn merge(&mut self, other: &TempFileReport)
        requires
            old(self).wf(),
            other.wf(),
            old(self).total.files + other.total.files <= usize::MAX,
            old(self).total.bytes + other.total.bytes <= u64::MAX,
        ensures
            final(self).wf(),
            *final(self) == old(self).merged(*other),
    {
        self.total.add(other.total.files, other.total.bytes);
        self.candidate.add(other.candidate.files, other.candidate.bytes);
        self.partition_depth0.add(other.partition_depth0.files, other.partition_depth0.bytes);
        self.partition_depth1.add(other.partition_depth1.files, other.partition_depth1.bytes);
        self.partition_depth2.add(other.partition_depth2.files, other.partition_depth2.bytes);
        self.partition_depth3.add(other.partition_depth3.files, other.partition_depth3.bytes);
        self.other.add(other.other.files, other.other.bytes);
    }
}

/// The directories of a build.
#[derive(Debug)]
pub struct OomArtifactDirs {
    pub root_dir: String,
    pub sketch_dir: String,
    pub spill_dir: String,
    pub partition_dir: String,
    pub vector_dir: String,
}

/// The directory that is set, or the default one.
pub open spec fn resolved(default_dir: Seq<char>, override_dir: Seq<char>) -> Seq<char> {
    if override_dir.len() == 0 {
        default_dir
    } else {
        override_dir
    }
}

pub fn resolve_oom_artifact_dir(default_dir: &str, override_dir: &str) -> (dir: String)
    ensures
        dir@ == resolved(default_dir@, override_dir@),
{
    if override_dir.unicode_len() == 0 {
        default_dir.to_owned()
    } else {
        override_dir.to_owned()
    }
}

/// The texts without those that stand before them already, up to the `n`-th.
pub open spec fn first_mentions(dirs: Seq<Seq<char>>, n: int) -> Seq<Seq<char>>
    decreases n,
{
    if n <= 0 {
        Seq::<Seq<char>>::empty()
    } else {
        let before = first_mentions(dirs, n - 1);
        if before.contains(dirs[n - 1]) {
            before
        } else {
            before.push(dirs[n - 1])
        }
    }
}

fn mentions(dirs: &Vec<String>, dir: &String) -> (result: bool)
    ensures
        result == dirs@.map_values(|d: String| d@).contains(dir@),
{
    for i in 0..dirs.len()
        invariant
            forall|j: int| 0 <= j < i ==> (#[trigger] dirs@[j])@ != dir@,
    {
        if dirs[i] == *dir {
            proof {
                assert(dirs@.map_values(|d: String| d@)[i as int] == dir@);
            }
            return true;
        }
    }
    proof {
        let views = dirs@.map_values(|d: String| d@);
        assert forall|j: int| 0 <= j < views.len() implies views[j] != dir@ by {
            assert(dirs@[j]@ != dir@);
        }
    }
    false
}

impl OomArtifactDirs {
    /// The directories in order.
    pub open spec fn listed(self) -> Seq<Seq<char>> {
        seq![self.root_dir@, self.sketch_dir@, self.spill_dir@, self.partition_dir@, self.vector_dir@]
    }

    /// What the parameters ask for. Where no root is set, it is `default_root`. All go
    /// to the root by default, but vectors go with the partitions.
    pub fn from_params(params: &ForgeANNParams, default_root: &str) -> (dirs: Self)
        ensures
            ({
                let root = resolved(default_root@, params.oom_temp_dir@);
                let partition = resolved(root, params.oom_partition_temp_dir@);
                &&& dirs.root_dir@ == root
                &&& dirs.sketch_dir@ == resolved(root, params.oom_sketch_temp_dir@)
                &&& dirs.spill_dir@ == resolved(root, params.oom_spill_temp_dir@)
                &&& dirs.partition_dir@ == partition
                &&& dirs.vector_dir@ == resolved(partition, params.oom_vector_temp_dir@)
            }),
    {
        let root_dir: String = resolve_oom_artifact_dir(default_root, params.oom_temp_dir.as_str());
        let sketch_dir: String = resolve_oom_artifact_dir(
            root_dir.as_str(),
            params.oom_sketch_temp_dir.as_str(),
        );
        let spill_dir: String = resolve_oom_artifact_dir(
            root_dir.as_str(),
            params.oom_spill_temp_dir.as_str(),
        );
        let partition_dir: String = resolve_oom_artifact_dir(
            root_dir.as_str(),
            params.oom_partition_temp_dir.as_str(),
        );
        let vector_dir: String = resolve_oom_artifact_dir(
            partition_dir.as_str(),
            params.oom_vector_temp_dir.as_str(),
        );
        OomArtifactDirs { root_dir, sketch_dir, spill_dir, partition_dir, vector_dir }
    }

    /// Each directory once, in order.
    pub fn unique_dirs(&self) -> (dirs: Vec<String>)
        ensures
            dirs@.map_values(|d: String| d@) == first_mentions(self.listed(), 5),
    {
        let mut all: Vec<String> = Vec::with_capacity(5);
        all.push(self.root_dir.clone());
        all.push(self.sketch_dir.clone());
        all.push(self.spill_dir.clone());
        all.push(self.partition_dir.clone());
        all.push(self.vector_dir.clone());
        proof {
            assert(all@.map_values(|d: String| d@) =~= self.listed());
        }
        let mut dirs: Vec<String> = Vec::new();
        proof {
            assert(dirs@.map_values(|d: String| d@) =~= first_mentions(self.listed(), 0));
        }
        for i in 0..all.len()
            invariant
                all@.map_values(|d: String| d@) == self.listed(),
                all@.len() == 5,
                dirs@.map_values(|d: String| d@) == first_mentions(self.listed(), i as int),
        {
            proof {
                assert(self.listed()[i as int] == all@.map_values(|d: String| d@)[i as int]);
            }
            if !mentions(&dirs, &all[i]) {
                let ghost before = dirs@;
                dirs.push(all[i].clone());
                proof {
                    assert(dirs@.map_values(|d: String| d@) =~= before.map_values(
                        |d: String| d@,
                    ).push(all@[i as int]@));
                }
            }
        }
        dirs
    }
}

/// Each text is mentioned once, and none is lost.
pub proof fn law_first_mentions_keep_every_dir(dirs: Seq<Seq<char>>, n: int, i: int)
    requires
        0 <= n <= dirs.len(),
    ensures
        first_mentions(dirs, n).no_duplicates(),
        0 <= i < n ==> first_mentions(dirs, n).contains(dirs[i]),
    decreases n,
{
    if n > 0 {
        law_first_mentions_keep_every_dir(dirs, n - 1, i);
        let before = first_mentions(dirs, n - 1);
        let after = first_mentions(dirs, n);
        if 0 <= i < n - 1 {
            let p = choose|p: int| 0 <= p < before.len() && before[p] == dirs[i];
            assert(after[p] == dirs[i]);
        } else if i == n - 1 && !before.contains(dirs[i]) {
            assert(after[before.len() as int] == dirs[i]);
        }
    }
}

} // verus!
