//! The text of JSON values.

use vstd::prelude::*;
use vstd::string::*;

use crate::text::{decimal, number_text};

verus! {

/// The parts one behind the other, with `sep` between them.
pub open spec fn text_joined(parts: Seq<Seq<char>>, sep: Seq<char>) -> Seq<char>
    decreases parts.len(),
{
    if parts.len() == 0 {
        Seq::<char>::empty()
    } else if parts.len() == 1 {
        parts[0]
    } else {
        text_joined(parts.drop_last(), sep) + sep + parts.last()
    }
}

pub open spec fn text_views(parts: Seq<String>) -> Seq<Seq<char>> {
    parts.map_values(|part: String| part@)
}

pub open spec fn quoted(text: Seq<char>) -> Seq<char> {
    "\""@ + text + "\""@
}

/// A key with its value.
pub open spec fn entry_text(key: Seq<char>, value: Seq<char>) -> Seq<char> {
    "\""@ + key + "\": "@ + value
}

pub open spec fn object_text(entries: Seq<Seq<char>>) -> Seq<char> {
    "{ "@ + text_joined(entries, ", "@) + " }"@
}

pub open spec fn list_text(items: Seq<Seq<char>>) -> Seq<char> {
    "["@ + text_joined(items, ", "@) + "]"@
}

/// An object with one entry on each line.
pub open spec fn document_text(entries: Seq<Seq<char>>) -> Seq<char> {
    "{\n  "@ + text_joined(entries, ",\n  "@) + "\n}\n"@
}

/// A key with its value, without spaces.
pub open spec fn compact_entry_text(key: Seq<char>, value: Seq<char>) -> Seq<char> {
    "\""@ + key + "\":"@ + value
}

pub open spec fn compact_object_text(entries: Seq<Seq<char>>) -> Seq<char> {
    "{"@ + text_joined(entries, ","@) + "}"@
}

pub open spec fn compact_list_text(items: Seq<Seq<char>>) -> Seq<char> {
    "["@ + text_joined(items, ","@) + "]"@
}

pub open spec fn bool_text(value: bool) -> Seq<char> {
    if value {
        "true"@
    } else {
        "false"@
    }
}

/// The number, or `null`.
pub open spec fn optional_text(value: Option<usize>) -> Seq<char> {
    match value {
        Some(number) => decimal(number as nat),
        None => "null"@,
    }
}

pub fn join_text(parts: &Vec<String>, sep: &str) -> (text: String)
    ensures
        text@ == text_joined(text_views(parts@), sep@),
{
    let mut text: String = String::new();
    for i in 0..parts.len()
        invariant
            text@ == text_joined(text_views(parts@.take(i as int)), sep@),
    {
        let ghost before = text@;
        if i > 0 {
            text.append(sep);
        }
        text.append(parts[i].as_str());
        proof {
            let shorter = text_views(parts@.take(i as int));
            let longer = text_views(parts@.take(i + 1));
            assert(longer.drop_last() =~= shorter);
            assert(longer.last() == parts@[i as int]@);
            if i == 0 {
                assert(shorter.len() == 0);
                assert(text@ =~= longer[0]);
            } else {
                assert(text@ =~= before + sep@ + parts@[i as int]@);
            }
        }
    }
    proof {
        assert(parts@.take(parts@.len() as int) =~= parts@);
    }
    text
}

fn wrapped(head: &str, body: &String, tail: &str) -> (text: String)
    ensures
        text@ == head@ + body@ + tail@,
{
    let mut text: String = head.to_owned();
    text.append(body.as_str());
    text.append(tail);
    text
}

pub fn object_of(entries: &Vec<String>) -> (text: String)
    ensures
        text@ == object_text(text_views(entries@)),
{
    let body: String = join_text(entries, ", ");
    wrapped("{ ", &body, " }")
}

pub fn list_of(items: &Vec<String>) -> (text: String)
    ensures
        text@ == list_text(text_views(items@)),
{
    let body: String = join_text(items, ", ");
    wrapped("[", &body, "]")
}

pub fn document_of(entries: &Vec<String>) -> (text: String)
    ensures
        text@ == document_text(text_views(entries@)),
{
    let body: String = join_text(entries, ",\n  ");
    wrapped("{\n  ", &body, "\n}\n")
}

pub fn entry(key: &str, value: &str) -> (text: String)
    ensures
        text@ == entry_text(key@, value@),
{
    let mut text: String = "\"".to_owned();
    text.append(key);
    text.append("\": ");
    text.append(value);
    text
}

pub fn number_entry(key: &str, value: u64) -> (text: String)
    ensures
        text@ == entry_text(key@, decimal(value as nat)),
{
    let digits: String = number_text(value);
    entry(key, digits.as_str())
}

pub fn bool_entry(key: &str, value: bool) -> (text: String)
    ensures
        text@ == entry_text(key@, bool_text(value)),
{
    if value {
        entry(key, "true")
    } else {
        entry(key, "false")
    }
}

pub fn string_entry(key: &str, value: &str) -> (text: String)
    ensures
        text@ == entry_text(key@, quoted(value@)),
{
    let mut text: String = "\"".to_owned();
    text.append(value);
    text.append("\"");
    entry(key, text.as_str())
}

pub fn compact_entry(key: &str, value: &str) -> (text: String)
    ensures
        text@ == compact_entry_text(key@, value@),
{
    let mut text: String = "\"".to_owned();
    text.append(key);
    text.append("\":");
    text.append(value);
    text
}

pub fn compact_number_entry(key: &str, value: u64) -> (text: String)
    ensures
        text@ == compact_entry_text(key@, decimal(value as nat)),
{
    let digits: String = number_text(value);
    compact_entry(key, digits.as_str())
}

pub fn compact_bool_entry(key: &str, value: bool) -> (text: String)
    ensures
        text@ == compact_entry_text(key@, bool_text(value)),
{
    if value {
        compact_entry(key, "true")
    } else {
        compact_entry(key, "false")
    }
}

pub fn compact_object(entries: &Vec<String>) -> (text: String)
    ensures
        text@ == compact_object_text(text_views(entries@)),
{
    let body: String = join_text(entries, ",");
    wrapped("{", &body, "}")
}

pub fn compact_list(items: &Vec<String>) -> (text: String)
    ensures
        text@ == compact_list_text(text_views(items@)),
{
    let body: String = join_text(items, ",");
    wrapped("[", &body, "]")
}

/// A list of numbers.
pub fn number_list(values: &[u64]) -> (text: String)
    ensures
        text@ == list_text(values@.map_values(|value: u64| decimal(value as nat))),
{
    let mut items: Vec<String> = Vec::with_capacity(values.len());
    for i in 0..values.len()
        invariant
            text_views(items@) == values@.take(i as int).map_values(
                |value: u64| decimal(value as nat),
            ),
    {
        let ghost before = items@;
        items.push(number_text(values[i]));
        proof {
            assert(text_views(items@) =~= text_views(before).push(
                decimal(values@[i as int] as nat),
            ));
            assert(values@.take(i + 1).map_values(|value: u64| decimal(value as nat))
                =~= values@.take(i as int).map_values(|value: u64| decimal(value as nat)).push(
                decimal(values@[i as int] as nat),
            ));
        }
    }
    proof {
        assert(values@.take(values@.len() as int) =~= values@);
    }
    list_of(&items)
}

/// The number, or `null`.
pub fn format_optional_number(value: Option<usize>) -> (text: String)
    ensures
        text@ == optional_text(value),
{
    match value {
        Some(number) => number_text(number as u64),
        None => "null".to_owned(),
    }
}

/// The bytes in units of 1024, or `null`.
pub fn format_optional_kb(value: Option<usize>) -> (text: String)
    ensures
        text@ == optional_text(
            match value {
                Some(bytes) => Some((bytes as int / 1024) as usize),
                None => None,
            },
        ),
{
    match value {
        Some(bytes) => number_text((bytes / 1024) as u64),
        None => "null".to_owned(),
    }
}

/// The bytes, or `n/a`.
pub fn format_optional_bytes(value: Option<usize>) -> (text: String)
    ensures
        text@ == match value {
            Some(bytes) => decimal(bytes as nat),
            None => "n/a"@,
        },
{
    match value {
        Some(bytes) => number_text(bytes as u64),
        None => "n/a".to_owned(),
    }
}

} // verus!
