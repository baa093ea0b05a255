//! Resource records as the scheduler hands them out, with the values that
//! they hold as JSON, and what the chart displays of them.

use crate::cpuset::{
    cpuset_text, decimal_text, extract_ints_from_str, extracted_ints, format_cpuset_grid5000,
    push_decimal, strictly_increasing,
};
use crate::labels::text_of;
use crate::text::{chars_of, find_first, first_index, string_of, trim_range, trimmed};
use vstd::prelude::*;

verus! {

/// A JSON value, with numbers and objects as JSON writes them.
#[derive(Debug)]
pub enum JsonValue {
    Null,
    Bool(bool),
    /// A number: its text, and its value where it is an integer that an `i64`
    /// holds.
    Number { text: String, integer: Option<i64> },
    Text(String),
    Array(Vec<JsonValue>),
    /// An object: its text, and whether it has no member.
    Object { text: String, empty: bool },
}

/// One resource record: what the scheduler knows of a resource and its host.
#[derive(Debug)]
pub struct Strata {
    pub host: Option<String>,
    pub cluster: Option<String>,
    pub network_address: Option<String>,
    pub comment: Option<String>,
    pub cpuset: Option<JsonValue>,
    pub cputype: Option<String>,
    pub nodemodel: Option<String>,
    pub besteffort: Option<String>,
    pub deploy: Option<String>,
    pub drain: Option<String>,
    pub gpudevice: Option<JsonValue>,
    pub kind: Option<String>,
    pub state: Option<String>,
    pub chassis: Option<String>,
    pub resource_id: Option<u32>,
    pub core_count: Option<i32>,
    pub thread_count: Option<i32>,
    /// Clock frequency as the record gives it, in thousandths.
    pub cpufreq: Option<u32>,
}

/// The texts `parts`, up to the one at `upto`, with a comma and a space
/// between them.
pub open spec fn joined(parts: Seq<Seq<char>>, upto: int) -> Seq<char>
    decreases upto,
{
    if upto <= 0 {
        Seq::empty()
    } else if upto == 1 {
        parts[0]
    } else {
        joined(parts, upto - 1) + seq![',', ' '] + parts[upto - 1]
    }
}

/// How a JSON value is displayed on one line: nothing for null, the text of
/// a number, a string or an object, `true` or `false`, and for an array what
/// its items display, trimmed, with commas between them, or nothing where
/// none of them displays anything.
pub open spec fn inline_text(v: JsonValue) -> Option<Seq<char>>
    decreases v, 0int,
{
    match v {
        JsonValue::Null => None,
        JsonValue::Bool(b) => Some(
            if b {
                seq!['t', 'r', 'u', 'e']
            } else {
                seq!['f', 'a', 'l', 's', 'e']
            },
        ),
        JsonValue::Number { text, integer } => Some(text@),
        JsonValue::Text(s) => Some(s@),
        JsonValue::Array(items) => {
            let parts = inline_parts(items@, items@.len() as int);
            if parts.len() == 0 {
                None
            } else {
                Some(joined(parts, parts.len() as int))
            }
        },
        JsonValue::Object { text, empty } => Some(text@),
    }
}

/// What the first `upto` of `items` display, trimmed, leaving out those that
/// display nothing.
pub open spec fn inline_parts(items: Seq<JsonValue>, upto: int) -> Seq<Seq<char>>
    decreases items, upto,
{
    if upto <= 0 || upto > items.len() {
        Seq::empty()
    } else {
        let rest = inline_parts(items, upto - 1);
        match inline_text(items[upto - 1]) {
            Some(text) => if trimmed(text).len() > 0 {
                rest.push(trimmed(text))
            } else {
                rest
            },
            None => rest,
        }
    }
}

/// The text `s` without the white space at its ends.
pub fn trim_text(s: &str) -> (text: String)
    ensures
        text@ == trimmed(s@),
{
    let v = chars_of(s);
    let (a, b) = trim_range(&v, 0, v.len());
    proof {
        assert(v@.subrange(0, v.len() as int) =~= v@);
    }
    string_of(&v, a, b)
}

/// The text `s` without the white space at its ends, unless nothing is left.
pub fn trimmed_part(s: &str) -> (text: Option<String>)
    ensures
        match text {
            Some(text) => text@ == trimmed(s@) && text@.len() > 0,
            None => trimmed(s@).len() == 0,
        },
{
    let v = chars_of(s);
    let (a, b) = trim_range(&v, 0, v.len());
    proof {
        assert(v@.subrange(0, v.len() as int) =~= v@);
    }
    if a == b {
        None
    } else {
        Some(string_of(&v, a, b))
    }
}

/// Displays a JSON value on one line.
#[verifier::loop_isolation(false)]
pub fn json_value_to_inline(v: &JsonValue) -> (text: Option<String>)
    ensures
        text_of(text) == inline_text(*v),
    decreases v,
{
    match v {
        JsonValue::Null => None,
        JsonValue::Bool(b) => {
            let mut text = String::new();
            if *b {
                text.push('t');
                text.push('r');
                text.push('u');
                text.push('e');
                assert(text@ =~= seq!['t', 'r', 'u', 'e']);
            } else {
                text.push('f');
                text.push('a');
                text.push('l');
                text.push('s');
                text.push('e');
                assert(text@ =~= seq!['f', 'a', 'l', 's', 'e']);
            }
            Some(text)
        },
        JsonValue::Number { text, integer } => Some(text.clone()),
        JsonValue::Text(s) => Some(s.clone()),
        JsonValue::Array(items) => {
            let mut out = String::new();
            let mut count: usize = 0;
            let mut i: usize = 0;
            while i < items.len()
                invariant
                    i <= items.len(),
                    count <= i,
                    count == inline_parts(items@, i as int).len(),
                    out@ == joined(inline_parts(items@, i as int), count as int),
                decreases items.len() - i,
            {
                let ghost before = inline_parts(items@, i as int);
                let part = match json_value_to_inline(&items[i]) {
                    Some(whole) => trimmed_part(whole.as_str()),
                    None => None,
                };
                match part {
                    Some(part) => {
                        proof {
                            let after = inline_parts(items@, i + 1);
                            assert(after == before.push(part@));
                            assert(after.drop_last() =~= before);
                            lemma_joined_prefix(after, count as int);
                        }
                        if count > 0 {
                            out.push(',');
                            out.push(' ');
                        }
                        out.append(part.as_str());
                        proof {
                            let after = inline_parts(items@, i + 1);
                            if count > 0 {
                                assert(out@ =~= joined(after, count as int) + seq![',', ' ']
                                    + part@);
                            } else {
                                assert(out@ =~= part@);
                            }
                        }
                        count = count + 1;
                    },
                    None => {},
                }
                i = i + 1;
            }
            if count == 0 {
                None
            } else {
                Some(out)
            }
        },
        JsonValue::Object { text, empty } => Some(text.clone()),
    }
}

/// Joining a prefix of some texts does not depend on what follows it.
pub proof fn lemma_joined_prefix(parts: Seq<Seq<char>>, upto: int)
    requires
        0 <= upto < parts.len(),
    ensures
        joined(parts, upto) == joined(parts.drop_last(), upto),
    decreases upto,
{
    if upto > 1 {
        lemma_joined_prefix(parts, upto - 1);
    }
}

/// Whether `integer` is an index that an `i32` holds: it is there and not
/// negative.
pub open spec fn is_index(integer: Option<i64>) -> bool {
    match integer {
        Some(i) => 0 <= i <= i32::MAX,
        None => false,
    }
}

/// The indexes that the first `upto` of `items` hold: the value of a number
/// that is an index, and the integers in a string.
pub open spec fn array_ints(items: Seq<JsonValue>, upto: int) -> Seq<i32>
    decreases upto,
{
    if upto <= 0 {
        Seq::empty()
    } else {
        let rest = array_ints(items, upto - 1);
        match items[upto - 1] {
            JsonValue::Number { text, integer } => if is_index(integer) {
                rest.push(integer->0 as i32)
            } else {
                rest
            },
            JsonValue::Text(s) => rest + extracted_ints(s@),
            _ => rest,
        }
    }
}

/// Whether `text` displays the set of the values `values`: the values in
/// order, each once.
pub open spec fn displays_set(values: Seq<i32>, text: Option<Seq<char>>) -> bool {
    exists|ordered: Seq<i32>|
        {
            &&& strictly_increasing(ordered)
            &&& forall|y: i32| ordered.contains(y) <==> values.contains(y)
            &&& #[trigger] cpuset_text(ordered) == text
        }
}

/// What is displayed for a record that lists no CPUs: the range from 0 that
/// its number of cores, or else of threads, gives.
pub open spec fn counted_cpuset(s: Strata) -> Option<Seq<char>> {
    let count = match s.core_count {
        Some(cores) => cores,
        None => match s.thread_count {
            Some(threads) => threads,
            None => 0,
        },
    };
    if count <= 0 {
        None
    } else {
        Some(seq!['0', '-'] + decimal_text(count - 1))
    }
}

/// Whether `text` displays the CPUs of the record `s`.
///
/// An array displays the set of the indexes it holds, a string that of the
/// integers in it if they are more than one, a number that is an index
/// itself, in brackets. Where that gives nothing, the number of cores or of
/// threads gives a range from 0.
pub open spec fn displays_cpuset(s: Strata, text: Option<Seq<char>>) -> bool {
    match s.cpuset {
        Some(JsonValue::Array(items)) => {
            let ints = array_ints(items@, items@.len() as int);
            if ints.len() > 0 {
                displays_set(ints, text)
            } else {
                text == counted_cpuset(s)
            }
        },
        Some(JsonValue::Text(raw)) => {
            let ints = extracted_ints(raw@);
            if ints.len() > 1 {
                displays_set(ints, text)
            } else {
                text == counted_cpuset(s)
            }
        },
        Some(JsonValue::Number { text: written, integer }) => if is_index(integer) {
            text == Some(seq!['['] + decimal_text(integer->0 as int) + seq![']'])
        } else {
            text == counted_cpuset(s)
        },
        _ => text == counted_cpuset(s),
    }
}

/// What is displayed for a record that lists no CPUs.
fn cpuset_from_counts(s: &Strata) -> (text: Option<String>)
    ensures
        text_of(text) == counted_cpuset(*s),
{
    let count: i32 = match s.core_count {
        Some(cores) => cores,
        None => match s.thread_count {
            Some(threads) => threads,
            None => 0,
        },
    };
    if count <= 0 {
        None
    } else {
        let mut text = String::new();
        text.push('0');
        text.push('-');
        push_decimal(&mut text, count - 1);
        proof {
            assert(text@ =~= seq!['0', '-'] + decimal_text(count - 1));
        }
        Some(text)
    }
}

/// Displays the set of the values `values`; nothing where there is none.
fn display_set(values: Vec<i32>) -> (text: Option<String>)
    ensures
        values@.len() > 0 ==> displays_set(values@, text_of(text)),
        values@.len() == 0 ==> text is None,
{
    let mut values = values;
    let ghost given = values@;
    let text = format_cpuset_grid5000(&mut values);
    proof {
        if given.len() > 0 {
            assert(cpuset_text(values@) == text_of(text));
        } else {
            if values@.len() > 0 {
                assert(values@.contains(values@[0]));
                assert(given.contains(values@[0]));
            }
        }
    }
    text
}

/// Displays the CPUs of a record as the chart does: a set of indexes where
/// the record lists them, else the range that its number of cores gives.
pub fn cpuset_like_grid5000(s: &Strata) -> (text: Option<String>)
    ensures
        displays_cpuset(*s, text_of(text)),
{
    match &s.cpuset {
        Some(JsonValue::Array(items)) => {
            let mut ints: Vec<i32> = Vec::new();
            let mut i: usize = 0;
            while i < items.len()
                invariant
                    i <= items.len(),
                    ints@ == array_ints(items@, i as int),
                decreases items.len() - i,
            {
                match &items[i] {
                    JsonValue::Number { text, integer } => {
                        match integer {
                            Some(value) => {
                                if 0 <= *value && *value <= i32::MAX as i64 {
                                    ints.push(*value as i32);
                                }
                            },
                            None => {},
                        }
                    },
                    JsonValue::Text(inner) => {
                        let mut found = extract_ints_from_str(inner.as_str());
                        ints.append(&mut found);
                    },
                    _ => {},
                }
                i = i + 1;
            }
            if ints.len() > 0 {
                display_set(ints)
            } else {
                cpuset_from_counts(s)
            }
        },
        Some(JsonValue::Text(raw)) => {
            let ints = extract_ints_from_str(raw.as_str());
            if ints.len() > 1 {
                display_set(ints)
            } else {
                cpuset_from_counts(s)
            }
        },
        Some(JsonValue::Number { text, integer }) => {
            match integer {
                Some(value) => {
                    if 0 <= *value && *value <= i32::MAX as i64 {
                        let mut out = String::new();
                        out.push('[');
                        push_decimal(&mut out, *value as i32);
                        out.push(']');
                        proof {
                            assert(out@ =~= seq!['['] + decimal_text(*value as int) + seq![']']);
                        }
                        Some(out)
                    } else {
                        cpuset_from_counts(s)
                    }
                },
                None => cpuset_from_counts(s),
            }
        },
        _ => cpuset_from_counts(s),
    }
}

/// Whether a JSON value holds something: a boolean, a number, a string that
/// is not blank, an object with a member, or an array with such an item.
pub open spec fn spec_non_empty_value(v: JsonValue) -> bool
    decreases v, 0int,
{
    match v {
        JsonValue::Null => false,
        JsonValue::Bool(b) => true,
        JsonValue::Number { text, integer } => true,
        JsonValue::Text(s) => trimmed(s@).len() > 0,
        JsonValue::Array(items) => any_non_empty(items@, items@.len() as int),
        JsonValue::Object { text, empty } => !empty,
    }
}

/// Whether one of the first `upto` of `items` holds something.
pub open spec fn any_non_empty(items: Seq<JsonValue>, upto: int) -> bool
    decreases items, upto,
{
    if upto <= 0 || upto > items.len() {
        false
    } else {
        any_non_empty(items, upto - 1) || spec_non_empty_value(items[upto - 1])
    }
}

/// An item that holds something among the first items is one among more.
pub proof fn lemma_any_non_empty(items: Seq<JsonValue>, upto: int, more: int)
    requires
        0 <= upto <= more <= items.len(),
        any_non_empty(items, upto),
    ensures
        any_non_empty(items, more),
    decreases more - upto,
{
    if upto < more {
        lemma_any_non_empty(items, upto, more - 1);
    }
}

/// Whether a JSON value holds something.
#[verifier::loop_isolation(false)]
pub fn non_empty_value(v: &JsonValue) -> (holds: bool)
    ensures
        holds == spec_non_empty_value(*v),
    decreases v,
{
    match v {
        JsonValue::Null => false,
        JsonValue::Bool(b) => true,
        JsonValue::Number { text, integer } => true,
        JsonValue::Text(s) => trimmed_part(s.as_str()).is_some(),
        JsonValue::Array(items) => {
            let mut i: usize = 0;
            while i < items.len()
                invariant
                    i <= items.len(),
                    !any_non_empty(items@, i as int),
                decreases items.len() - i,
            {
                if non_empty_value(&items[i]) {
                    proof {
                        lemma_any_non_empty(items@, i + 1, items@.len() as int);
                    }
                    return true;
                }
                i = i + 1;
            }
            false
        },
        JsonValue::Object { text, empty } => !*empty,
    }
}

/// Whether an optional text is there and not blank.
pub open spec fn is_filled(field: Option<String>) -> bool {
    match field {
        Some(text) => trimmed(text@).len() > 0,
        None => false,
    }
}

/// Whether an optional text is there and not blank.
pub fn has_text(field: &Option<String>) -> (filled: bool)
    ensures
        filled == is_filled(*field),
{
    match field {
        Some(text) => trimmed_part(text.as_str()).is_some(),
        None => false,
    }
}

/// How much a record tells of its host: the number of those of its comment,
/// its CPUs, its kind of CPU and its model that are filled in.
pub open spec fn spec_strata_score(s: Strata) -> int {
    (if is_filled(s.comment) {
        1int
    } else {
        0int
    }) + (if s.cpuset is Some && spec_non_empty_value(s.cpuset->0) {
        1int
    } else {
        0int
    }) + (if is_filled(s.cputype) {
        1int
    } else {
        0int
    }) + (if is_filled(s.nodemodel) {
        1int
    } else {
        0int
    })
}

/// How much a record tells of its host, from 0 to 4.
pub fn strata_score(s: &Strata) -> (score: u8)
    ensures
        score == spec_strata_score(*s),
{
    let mut score: u8 = 0;
    if has_text(&s.comment) {
        score = score + 1;
    }
    let cpus = match &s.cpuset {
        Some(v) => non_empty_value(v),
        None => false,
    };
    if cpus {
        score = score + 1;
    }
    if has_text(&s.cputype) {
        score = score + 1;
    }
    if has_text(&s.nodemodel) {
        score = score + 1;
    }
    score
}

/// A name under which a record is found.
#[derive(Clone, Debug)]
pub struct Alias {
    pub key: String,
    /// Position of the record in the list of records.
    pub record: usize,
}

/// Mathematical content of an `Alias`.
pub struct AliasView {
    pub key: Seq<char>,
    pub record: usize,
}

/// The content of a list of aliases.
pub open spec fn aliases_view(list: Seq<Alias>) -> Seq<AliasView> {
    Seq::new(list.len(), |i: int| AliasView { key: list[i].key@, record: list[i].record })
}

/// Position of the first alias with the key `key`, or the length of the list.
pub open spec fn alias_position(list: Seq<AliasView>, key: Seq<char>) -> int
    decreases list.len(),
{
    if list.len() == 0 || list[0].key == key {
        0
    } else {
        1 + alias_position(list.drop_first(), key)
    }
}

/// The list with the record at `record` found under `key`, unless the key is
/// empty or taken.
pub open spec fn put_absent(list: Seq<AliasView>, key: Seq<char>, record: usize) -> Seq<AliasView> {
    if key.len() == 0 || alias_position(list, key) < list.len() {
        list
    } else {
        list.push(AliasView { key: key, record: record })
    }
}

/// The list with the record at `record` found under `key` in place of the
/// one found there, if it tells more of its host.
pub open spec fn put_better(
    list: Seq<AliasView>,
    key: Seq<char>,
    record: usize,
    records: Seq<Strata>,
) -> Seq<AliasView> {
    let at = alias_position(list, key);
    if key.len() != 0 && at < list.len() && spec_strata_score(records[record as int])
        > spec_strata_score(records[list[at].record as int]) {
        list.update(at, AliasView { key: key, record: record })
    } else {
        list
    }
}

/// The name of a host or an address, trimmed; empty where it is left out.
pub open spec fn alias_name(field: Option<String>) -> Seq<char> {
    match field {
        Some(text) => trimmed(text@),
        None => Seq::empty(),
    }
}

/// The part of a name up to its first dot, trimmed.
pub open spec fn short_name(name: Seq<char>) -> Seq<char> {
    trimmed(name.take(first_index(name, '.') as int))
}

/// The list after the record at `record` was entered: it is found under the
/// name of its host and under its address, in full and up to the first dot,
/// wherever no record is found yet; and under the full name and address it
/// takes the place of a record that tells less.
pub open spec fn aliases_after(list: Seq<AliasView>, record: usize, records: Seq<Strata>) -> Seq<
    AliasView,
> {
    let host = alias_name(records[record as int].host);
    let net = alias_name(records[record as int].network_address);
    let a = put_absent(list, host, record);
    let b = if host.len() != 0 {
        put_absent(a, short_name(host), record)
    } else {
        a
    };
    let c = put_absent(b, net, record);
    let d = if net.len() != 0 {
        put_absent(c, short_name(net), record)
    } else {
        c
    };
    put_better(put_better(d, host, record, records), net, record, records)
}

/// The names under which the first `upto` of `records` are found.
pub open spec fn spec_index(records: Seq<Strata>, upto: int) -> Seq<AliasView>
    decreases upto,
{
    if upto <= 0 {
        Seq::empty()
    } else {
        aliases_after(spec_index(records, upto - 1), (upto - 1) as usize, records)
    }
}

/// Every alias names a record among the first `count`.
pub open spec fn aliases_within(list: Seq<AliasView>, count: int) -> bool {
    forall|i: int| 0 <= i < list.len() ==> (#[trigger] list[i]).record < count
}

/// Position of the first alias with the key `key`, or the length of the list.
pub fn find_alias(list: &Vec<Alias>, key: &str) -> (at: usize)
    ensures
        at == alias_position(aliases_view(list@), key@),
        at <= list@.len(),
{
    let ghost views = aliases_view(list@);
    let mut at: usize = 0;
    proof {
        assert(views.skip(0) =~= views);
    }
    while at < list.len()
        invariant
            at <= list.len(),
            views == aliases_view(list@),
            alias_position(views, key@) == at + alias_position(views.skip(at as int), key@),
        decreases list.len() - at,
    {
        proof {
            assert(views.skip(at as int)[0] == views[at as int]);
            assert(views.skip(at as int).drop_first() =~= views.skip(at + 1));
        }
        if crate::text::same_text(list[at].key.as_str(), key) {
            return at;
        }
        at = at + 1;
    }
    proof {
        assert(views.skip(at as int) =~= Seq::<AliasView>::empty());
    }
    at
}

/// Enters the record at `record` under `key`, unless the key is empty or
/// taken.
fn enter_absent(list: &mut Vec<Alias>, key: &str, record: usize)
    ensures
        aliases_view(final(list)@) == put_absent(aliases_view(old(list)@), key@, record),
{
    if key.is_empty() {
        return ;
    }
    if find_alias(list, key) < list.len() {
        return ;
    }
    let ghost before = aliases_view(list@);
    list.push(Alias { key: key.to_owned(), record: record });
    proof {
        assert(aliases_view(list@) =~= before.push(AliasView { key: key@, record: record }));
    }
}

/// Enters the record at `record` under `key` in place of the one found
/// there, if it tells more of its host.
fn enter_better(list: &mut Vec<Alias>, key: &str, record: usize, records: &[Strata])
    requires
        record < records@.len(),
        aliases_within(aliases_view(old(list)@), records@.len() as int),
    ensures
        aliases_view(final(list)@) == put_better(
            aliases_view(old(list)@),
            key@,
            record,
            records@,
        ),
        aliases_within(aliases_view(final(list)@), records@.len() as int),
{
    if key.is_empty() {
        return ;
    }
    let at = find_alias(list, key);
    if at < list.len() {
        let ghost before = aliases_view(list@);
        proof {
            assert(before[at as int].record < records@.len());
        }
        if strata_score(&records[record]) > strata_score(&records[list[at].record]) {
            list[at].record = record;
            proof {
                lemma_alias_position_key(before, key@);
                assert(aliases_view(list@) =~= before.update(
                    at as int,
                    AliasView { key: key@, record: record },
                ));
            }
        }
    }
}

/// The alias at the position of a key has that key.
pub proof fn lemma_alias_position_key(list: Seq<AliasView>, key: Seq<char>)
    ensures
        0 <= alias_position(list, key) <= list.len(),
        alias_position(list, key) < list.len() ==> list[alias_position(list, key)].key == key,
    decreases list.len(),
{
    if list.len() > 0 && list[0].key != key {
        lemma_alias_position_key(list.drop_first(), key);
    }
}

/// The name of a host or an address, trimmed; empty where it is left out.
fn name_of_alias(field: &Option<String>) -> (name: String)
    ensures
        name@ == alias_name(*field),
{
    match field {
        Some(text) => trim_text(text.as_str()),
        None => String::new(),
    }
}

/// The part of a name up to its first dot, trimmed.
fn shorten_name(name: &str) -> (short: String)
    ensures
        short@ == short_name(name@),
{
    let v = chars_of(name);
    let dot = find_first(&v, 0, v.len(), '.');
    let (a, b) = trim_range(&v, 0, dot);
    proof {
        assert(v@.subrange(0, v.len() as int) =~= v@);
        assert(v@.subrange(0, dot as int) =~= name@.take(dot as int));
    }
    string_of(&v, a, b)
}

/// Builds the index of the records: the names under which each is found.
///
/// A record is found under the name of its host and under its network
/// address, both in full and up to the first dot. Where two records share a
/// name, the first is found, unless a later one tells more of its host under
/// the full name or address.
pub fn index_strata(records: &[Strata]) -> (index: Vec<Alias>)
    ensures
        aliases_view(index@) == spec_index(records@, records@.len() as int),
        aliases_within(aliases_view(index@), records@.len() as int),
{
    let mut index: Vec<Alias> = Vec::new();
    let mut r: usize = 0;
    proof {
        assert(aliases_view(index@) =~= Seq::<AliasView>::empty());
    }
    while r < records.len()
        invariant
            r <= records.len(),
            aliases_view(index@) == spec_index(records@, r as int),
            aliases_within(aliases_view(index@), records@.len() as int),
        decreases records.len() - r,
    {
        let host = name_of_alias(&records[r].host);
        let net = name_of_alias(&records[r].network_address);
        enter_absent(&mut index, host.as_str(), r);
        if !host.as_str().is_empty() {
            let short = shorten_name(host.as_str());
            enter_absent(&mut index, short.as_str(), r);
        }
        enter_absent(&mut index, net.as_str(), r);
        if !net.as_str().is_empty() {
            let short = shorten_name(net.as_str());
            enter_absent(&mut index, short.as_str(), r);
        }
        proof {
            lemma_entered_within(spec_index(records@, r as int), aliases_view(index@), r, records@);
        }
        enter_better(&mut index, host.as_str(), r, records);
        enter_better(&mut index, net.as_str(), r, records);
        r = r + 1;
    }
    index
}

/// Entering a record under new names keeps the aliases within the records.
proof fn lemma_entered_within(
    before: Seq<AliasView>,
    after: Seq<AliasView>,
    record: usize,
    records: Seq<Strata>,
)
    requires
        record < records.len(),
        aliases_within(before, records.len() as int),
        ({
            let host = alias_name(records[record as int].host);
            let net = alias_name(records[record as int].network_address);
            let a = put_absent(before, host, record);
            let b = if host.len() != 0 {
                put_absent(a, short_name(host), record)
            } else {
                a
            };
            let c = put_absent(b, net, record);
            after == if net.len() != 0 {
                put_absent(c, short_name(net), record)
            } else {
                c
            }
        }),
    ensures
        aliases_within(after, records.len() as int),
{
}

/// The record that is found under `key`, if any.
pub fn find_strata(index: &Vec<Alias>, key: &str) -> (found: Option<usize>)
    ensures
        found == if alias_position(aliases_view(index@), key@) < index@.len() {
            Some(index@[alias_position(aliases_view(index@), key@)].record)
        } else {
            None
        },
{
    let at = find_alias(index, key);
    if at < index.len() {
        Some(index[at].record)
    } else {
        None
    }
}

} // verus!
