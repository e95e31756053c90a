//! What texts hold, said of their characters.

use vstd::prelude::*;

use crate::env_config::trimmed;
use crate::json_text::text_joined;
use crate::oom_memory::{
    after_line, begins_with, kib_field, next_where, second_word, ProcessMemorySnapshot,
};
use crate::storage_laws::law_written_numbers_are_read_back;
use crate::text::{decimal, white_space};

verus! {

/// Parts that are joined stand in their order, each behind the one before and one separator:
/// `at` is where the `i`-th starts.
pub proof fn law_joined_parts_stand_in_order(
    parts: Seq<Seq<char>>,
    sep: Seq<char>,
    i: int,
) -> (at: int)
    requires
        0 <= i < parts.len(),
    ensures
        ({
            let text = text_joined(parts, sep);
            &&& 0 <= at
            &&& at + parts[i].len() <= text.len()
            &&& text.subrange(at, at + parts[i].len()) == parts[i]
            &&& i == 0 ==> at == 0
            &&& i > 0 ==> at >= sep.len() && text.subrange(at - sep.len(), at) == sep
            &&& i == parts.len() - 1 ==> at + parts[i].len() == text.len()
            &&& i < parts.len() - 1 ==> at + parts[i].len() + sep.len() <= text.len()
                && text.subrange(at + parts[i].len(), at + parts[i].len() + sep.len()) == sep
        }),
    decreases parts.len(),
{
    let text = text_joined(parts, sep);
    if parts.len() == 1 {
        assert(text.subrange(0, text.len() as int) =~= parts[0]);
        0
    } else {
        let fewer = parts.drop_last();
        let head = text_joined(fewer, sep);
        assert(text == head + sep + parts.last());
        if i == parts.len() - 1 {
            let at = (head.len() + sep.len()) as int;
            assert(text.subrange(at, text.len() as int) =~= parts[i]);
            assert(text.subrange(at - sep.len(), at) =~= sep);
            at
        } else {
            let at = law_joined_parts_stand_in_order(fewer, sep, i);
            let end = at + parts[i].len();
            assert(text.subrange(at, end) =~= head.subrange(at, end));
            if i > 0 {
                assert(text.subrange(at - sep.len(), at) =~= head.subrange(at - sep.len(), at));
            }
            if i < fewer.len() - 1 {
                assert(text.subrange(end, end + sep.len()) =~= head.subrange(
                    end,
                    end + sep.len(),
                ));
            } else {
                assert(text.subrange(end, end + sep.len()) =~= sep);
            }
            at
        }
    }
}

/// A text that was trimmed starts and ends with no white space, and is a part of the text
/// with nothing but white space around it.
pub proof fn law_trimmed_text_lies_between_white_space(text: Seq<char>) -> (span: (int, int))
    ensures
        0 <= span.0 <= span.1 <= text.len(),
        trimmed(text) == text.subrange(span.0, span.1),
        forall|i: int| 0 <= i < span.0 ==> white_space(#[trigger] text[i]),
        forall|i: int| span.1 <= i < text.len() ==> white_space(#[trigger] text[i]),
        span.0 < span.1 ==> !white_space(text[span.0]) && !white_space(text[span.1 - 1]),
    decreases text.len(),
{
    let n = text.len() as int;
    if n == 0 {
        assert(text.subrange(0, 0) =~= text);
        (0, 0)
    } else if white_space(text[0]) {
        let rest = text.drop_first();
        let (a, b) = law_trimmed_text_lies_between_white_space(rest);
        assert(text.subrange(a + 1, b + 1) =~= rest.subrange(a, b));
        assert forall|i: int| 0 <= i < a + 1 implies white_space(#[trigger] text[i]) by {
            if i > 0 {
                assert(rest[i - 1] == text[i]);
            }
        }
        assert forall|i: int| b + 1 <= i < n implies white_space(#[trigger] text[i]) by {
            assert(rest[i - 1] == text[i]);
        }
        (a + 1, b + 1)
    } else if white_space(text.last()) {
        let rest = text.drop_last();
        let (a, b) = law_trimmed_text_lies_between_white_space(rest);
        assert(text.subrange(a, b) =~= rest.subrange(a, b));
        assert forall|i: int| 0 <= i < a implies white_space(#[trigger] text[i]) by {
            assert(rest[i] == text[i]);
        }
        assert forall|i: int| b <= i < n implies white_space(#[trigger] text[i]) by {
            if i < n - 1 {
                assert(rest[i] == text[i]);
            }
        }
        (a, b)
    } else {
        assert(text.subrange(0, n) =~= text);
        (0, n)
    }
}

proof fn lemma_next_where(line: Seq<char>, i: int, to: int, blank: bool)
    requires
        0 <= i <= to <= line.len(),
        forall|k: int| i <= k < to ==> white_space(#[trigger] line[k]) != blank,
        to < line.len() ==> white_space(line[to]) == blank,
    ensures
        next_where(line, i, blank) == to,
    decreases to - i,
{
    if i < to {
        assert(white_space(line[i]) != blank);
        lemma_next_where(line, i + 1, to, blank);
    }
}

/// A line of a status file with a name, white space and a number gives the number in units
/// of 1024 bytes, whatever stands behind it.
pub proof fn law_status_lines_give_their_bytes(
    line: Seq<char>,
    name: int,
    number: int,
    end: int,
    n: nat,
)
    requires
        0 < name < number < end <= line.len(),
        forall|k: int| 0 <= k < name ==> !white_space(#[trigger] line[k]),
        forall|k: int| name <= k < number ==> white_space(#[trigger] line[k]),
        forall|k: int| number <= k < end ==> !white_space(#[trigger] line[k]),
        end < line.len() ==> white_space(line[end]),
        line.subrange(number, end) == decimal(n),
        n * 1024 <= usize::MAX,
    ensures
        kib_field(line) == Some(1024 * n as int),
{
    lemma_next_where(line, 0, 0, false);
    lemma_next_where(line, 0, name, true);
    lemma_next_where(line, name, number, false);
    lemma_next_where(line, number, end, true);
    assert(second_word(line) == (number, end));
    law_written_numbers_are_read_back(n);
}

/// A line tells of one size alone: that of its name. The others stay as they are, and so do
/// all where the line has another name.
pub proof fn law_status_lines_tell_of_one_size(snapshot: ProcessMemorySnapshot, line: Seq<char>)
    ensures
        ({
            let after = after_line(snapshot, line);
            &&& !begins_with(line, "VmRSS:"@) ==> after.rss_bytes == snapshot.rss_bytes
            &&& !begins_with(line, "VmHWM:"@) ==> after.hwm_bytes == snapshot.hwm_bytes
            &&& !begins_with(line, "VmPeak:"@) ==> after.vm_peak_bytes == snapshot.vm_peak_bytes
            &&& begins_with(line, "VmRSS:"@) && kib_field(line) is Some ==> after.rss_bytes is Some
                && after.rss_bytes->0 == kib_field(line)->0 as usize
            &&& begins_with(line, "VmHWM:"@) && kib_field(line) is Some ==> after.hwm_bytes is Some
                && after.hwm_bytes->0 == kib_field(line)->0 as usize
            &&& begins_with(line, "VmPeak:"@) && kib_field(line) is Some ==> after.vm_peak_bytes
                is Some && after.vm_peak_bytes->0 == kib_field(line)->0 as usize
        }),
{
    reveal_strlit("VmRSS:");
    reveal_strlit("VmHWM:");
    reveal_strlit("VmPeak:");
    if begins_with(line, "VmRSS:"@) {
        assert(line.take(6)[2] == 'R');
        assert(line[2] == 'R');
    }
    if begins_with(line, "VmHWM:"@) {
        assert(line.take(6)[2] == 'H');
        assert(line[2] == 'H');
    }
    if begins_with(line, "VmPeak:"@) {
        assert(line.take(7)[2] == 'P');
        assert(line[2] == 'P');
    }
}

} // verus!
