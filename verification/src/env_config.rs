//! What the environment configures, and the threads of the linear algebra library.

use vstd::prelude::*;
use vstd::string::*;
use vstd::utf8::*;

use crate::oom_files::{number_in, parse_number};
use crate::scheduler::{forgeann_rayon_worker_stack_bytes, stack_mb};
use crate::text::white_space;

verus! {

/// A text without the white space at both ends.
pub open spec fn trimmed(text: Seq<char>) -> Seq<char>
    decreases text.len(),
{
    if text.len() == 0 {
        text
    } else if white_space(text[0]) {
        trimmed(text.drop_first())
    } else if white_space(text.last()) {
        trimmed(text.drop_last())
    } else {
        text
    }
}

/// `str::trim`: the text without leading and trailing white space, which is that of
/// Unicode.
#[verifier::external_body]
pub(crate) fn trim(text: &str) -> (result: &str)
    ensures
        result@ == trimmed(text@),
{
    text.trim()
}

/// A letter from `A` to `Z` in lower case, any other character as it is.
pub open spec fn ascii_lower(c: char) -> char {
    if 'A' <= c && c <= 'Z' {
        (c as u32 + 32) as char
    } else {
        c
    }
}

/// `str::to_ascii_lowercase`: the letters from `A` to `Z` become lower case, and every
/// other character stays as it is.
#[verifier::external_body]
fn to_ascii_lowercase(text: &str) -> (result: String)
    ensures
        result@ == text@.map_values(|c: char| ascii_lower(c)),
{
    text.to_ascii_lowercase()
}

/// The words that switch detailed profiling on.
pub open spec fn profiling_word(word: Seq<char>) -> bool {
    ||| word == "1"@
    ||| word == "true"@
    ||| word == "yes"@
    ||| word == "on"@
    ||| word == "detail"@
    ||| word == "detailed"@
}

pub fn is_profiling_word(word: &String) -> (result: bool)
    ensures
        result == profiling_word(word@),
{
    *word == "1".to_owned() || *word == "true".to_owned() || *word == "yes".to_owned() || *word
        == "on".to_owned() || *word == "detail".to_owned() || *word == "detailed".to_owned()
}

/// Whether a value of `FORGEANN_PROFILE` switches detailed profiling on; an unset one
/// does not.
pub fn detailed_forgeann_profiling_enabled(value: Option<&str>) -> (enabled: bool)
    ensures
        enabled == (value matches Some(text) && profiling_word(
            trimmed(text@).map_values(|c: char| ascii_lower(c)),
        )),
{
    match value {
        Some(text) => {
            let word: String = to_ascii_lowercase(trim(text));
            is_profiling_word(&word)
        },
        None => false,
    }
}

/// The number of MiB that a trimmed value of `FORGEANN_RAYON_STACK_MB` configures.
pub fn stack_mb_of(word: &str) -> (mb: Option<usize>)
    ensures
        match mb {
            Some(mb) => number_in(encode_utf8(word@)) == Some(mb as int),
            None => number_in(encode_utf8(word@)) is None,
        },
{
    parse_number(word.as_bytes())
}

/// The stack of a worker in bytes for a value of `FORGEANN_RAYON_STACK_MB`.
pub fn worker_stack_bytes_for(value: Option<&str>) -> (bytes: usize)
    ensures
        match value {
            None => bytes == stack_mb(None) * 0x10_0000,
            Some(text) => bytes == stack_mb(number_in(encode_utf8(trimmed(text@)))) * 0x10_0000,
        },
{
    match value {
        None => forgeann_rayon_worker_stack_bytes(None),
        Some(text) => {
            let word: &str = trim(text);
            forgeann_rayon_worker_stack_bytes(stack_mb_of(word))
        },
    }
}

/// Keys of the environment by which linear algebra libraries choose their threads.
pub const BLAS_KEYS: usize = 6;

pub open spec fn blas_key_text(index: int) -> Seq<char> {
    if index == 0 {
        "OPENBLAS_NUM_THREADS"@
    } else if index == 1 {
        "OMP_NUM_THREADS"@
    } else if index == 2 {
        "MKL_NUM_THREADS"@
    } else if index == 3 {
        "BLIS_NUM_THREADS"@
    } else if index == 4 {
        "GOTO_NUM_THREADS"@
    } else {
        "MKL_DYNAMIC"@
    }
}

pub fn blas_key(index: usize) -> (key: &'static str)
    requires
        index < BLAS_KEYS,
    ensures
        key@ == blas_key_text(index as int),
{
    if index == 0 {
        "OPENBLAS_NUM_THREADS"
    } else if index == 1 {
        "OMP_NUM_THREADS"
    } else if index == 2 {
        "MKL_NUM_THREADS"
    } else if index == 3 {
        "BLIS_NUM_THREADS"
    } else if index == 4 {
        "GOTO_NUM_THREADS"
    } else {
        "MKL_DYNAMIC"
    }
}

/// A variable that is set, or removed where there is no value.
#[derive(Debug)]
pub struct EnvChange {
    pub key: &'static str,
    pub value: Option<String>,
}

impl EnvChange {
    pub open spec fn applied(self, env: Map<Seq<char>, Seq<char>>) -> Map<Seq<char>, Seq<char>> {
        match self.value {
            Some(value) => env.insert(self.key@, value@),
            None => env.remove(self.key@),
        }
    }
}

/// The environment after the first `n` changes.
pub open spec fn changed(env: Map<Seq<char>, Seq<char>>, changes: Seq<EnvChange>, n: int) -> Map<
    Seq<char>,
    Seq<char>,
>
    decreases n,
{
    if n <= 0 {
        env
    } else {
        changes[n - 1].applied(changed(env, changes, n - 1))
    }
}

/// What is written to the key at `index`: one thread, and none chosen at run time.
pub open spec fn single_threaded_text(index: int) -> Seq<char> {
    if index == 5 {
        "0"@
    } else {
        "1"@
    }
}

/// The values of the thread keys at some moment.
#[derive(Debug)]
pub struct BlasThreadEnv {
    pub values: Vec<Option<String>>,
}

/// `saved` holds the value of each thread key in `env`.
pub open spec fn captures(saved: Seq<Option<String>>, env: Map<Seq<char>, Seq<char>>) -> bool {
    &&& saved.len() == BLAS_KEYS
    &&& forall|i: int|
        0 <= i < BLAS_KEYS ==> match #[trigger] saved[i] {
            Some(value) => env.contains_key(blas_key_text(i)) && env[blas_key_text(i)] == value@,
            None => !env.contains_key(blas_key_text(i)),
        }
}

/// Each change pins one thread key.
pub open spec fn pins(changes: Seq<EnvChange>) -> bool {
    &&& changes.len() == BLAS_KEYS
    &&& forall|i: int|
        0 <= i < BLAS_KEYS ==> (#[trigger] changes[i]).key@ == blas_key_text(i)
            && changes[i].value is Some && changes[i].value->0@ == single_threaded_text(i)
}

/// Each change gives one thread key its saved value.
pub open spec fn restores(changes: Seq<EnvChange>, saved: Seq<Option<String>>) -> bool {
    &&& changes.len() == BLAS_KEYS
    &&& forall|i: int|
        0 <= i < BLAS_KEYS ==> (#[trigger] changes[i]).key@ == blas_key_text(i) && match (
            changes[i].value,
            saved[i],
        ) {
            (Some(new), Some(old_value)) => new@ == old_value@,
            (None, None) => true,
            _ => false,
        }
}

impl BlasThreadEnv {
    /// The changes that leave the libraries one thread each.
    pub fn set_single_threaded() -> (changes: Vec<EnvChange>)
        ensures
            pins(changes@),
    {
        let mut changes: Vec<EnvChange> = Vec::with_capacity(BLAS_KEYS);
        for i in 0..BLAS_KEYS
            invariant
                changes@.len() == i,
                forall|k: int|
                    0 <= k < i ==> (#[trigger] changes@[k]).key@ == blas_key_text(k)
                        && changes@[k].value is Some && changes@[k].value->0@
                        == single_threaded_text(k),
        {
            let value: String = if i == 5 {
                "0".to_owned()
            } else {
                "1".to_owned()
            };
            changes.push(EnvChange { key: blas_key(i), value: Some(value) });
        }
        changes
    }

    /// The changes that bring the saved values back.
    pub fn restore(&self) -> (changes: Vec<EnvChange>)
        requires
            self.values@.len() == BLAS_KEYS,
        ensures
            restores(changes@, self.values@),
    {
        let mut changes: Vec<EnvChange> = Vec::with_capacity(BLAS_KEYS);
        for i in 0..BLAS_KEYS
            invariant
                self.values@.len() == BLAS_KEYS,
                changes@.len() == i,
                forall|k: int|
                    0 <= k < i ==> (#[trigger] changes@[k]).key@ == blas_key_text(k) && match (
                        changes@[k].value,
                        self.values@[k],
                    ) {
                        (Some(new), Some(old_value)) => new@ == old_value@,
                        (None, None) => true,
                        _ => false,
                    },
        {
            let value: Option<String> = match &self.values[i] {
                Some(text) => Some(text.clone()),
                None => None,
            };
            changes.push(EnvChange { key: blas_key(i), value });
        }
        changes
    }
}

proof fn lemma_changed_elsewhere(
    env: Map<Seq<char>, Seq<char>>,
    changes: Seq<EnvChange>,
    n: int,
    key: Seq<char>,
)
    requires
        0 <= n <= changes.len(),
        forall|i: int| 0 <= i < n ==> (#[trigger] changes[i]).key@ != key,
    ensures
        changed(env, changes, n).contains_key(key) == env.contains_key(key),
        env.contains_key(key) ==> changed(env, changes, n)[key] == env[key],
    decreases n,
{
    if n > 0 {
        lemma_changed_elsewhere(env, changes, n - 1, key);
        assert(changes[n - 1].key@ != key);
    }
}

proof fn lemma_restored_key(
    env: Map<Seq<char>, Seq<char>>,
    later: Map<Seq<char>, Seq<char>>,
    saved: Seq<Option<String>>,
    changes: Seq<EnvChange>,
    n: int,
    index: int,
)
    requires
        captures(saved, env),
        restores(changes, saved),
        0 <= index < n <= BLAS_KEYS,
    ensures
        changed(later, changes, n).contains_key(blas_key_text(index)) == env.contains_key(
            blas_key_text(index),
        ),
        env.contains_key(blas_key_text(index)) ==> changed(later, changes, n)[blas_key_text(index)]
            == env[blas_key_text(index)],
    decreases n,
{
    let last = changes[n - 1];
    assert(last.key@ == blas_key_text(n - 1));
    if last.key@ == blas_key_text(index) {
        assert(saved[n - 1] is Some || saved[n - 1] is None);
    } else {
        lemma_restored_key(env, later, saved, changes, n - 1, index);
    }
}

/// Values that were saved, pinned and then restored are what they were, whatever else the
/// environment holds.
pub proof fn law_restore_undoes_pinning(
    env: Map<Seq<char>, Seq<char>>,
    saved: Seq<Option<String>>,
    pinning: Seq<EnvChange>,
    restoring: Seq<EnvChange>,
)
    requires
        captures(saved, env),
        pins(pinning),
        restores(restoring, saved),
    ensures
        changed(changed(env, pinning, BLAS_KEYS as int), restoring, BLAS_KEYS as int) == env,
{
    let pinned = changed(env, pinning, BLAS_KEYS as int);
    let after = changed(pinned, restoring, BLAS_KEYS as int);
    assert forall|key: Seq<char>| #[trigger]
        after.contains_key(key) == env.contains_key(key) && (env.contains_key(key) ==> after[key]
            == env[key]) by {
        if exists|i: int| 0 <= i < BLAS_KEYS && #[trigger] blas_key_text(i) == key {
            let index = choose|i: int| 0 <= i < BLAS_KEYS && #[trigger] blas_key_text(i) == key;
            lemma_restored_key(env, pinned, saved, restoring, BLAS_KEYS as int, index);
        } else {
            assert forall|i: int| 0 <= i < BLAS_KEYS implies (#[trigger] pinning[i]).key@
                != key by {
                assert(blas_key_text(i) != key);
            }
            assert forall|i: int| 0 <= i < BLAS_KEYS implies (#[trigger] restoring[i]).key@
                != key by {
                assert(blas_key_text(i) != key);
            }
            lemma_changed_elsewhere(env, pinning, BLAS_KEYS as int, key);
            lemma_changed_elsewhere(pinned, restoring, BLAS_KEYS as int, key);
        }
    }
    assert(after =~= env);
}

} // verus!
