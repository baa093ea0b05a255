//! The set of CPUs of a host, as the resource records write it and as the
//! chart displays it.

use crate::natural_order::{decimal_value, lemma_run_len_bounds, run_end, run_len};
use crate::text::{chars_of, is_ascii_digit, is_digit};
use vstd::prelude::*;

verus! {

/// The integers that a text holds: the value of each of its runs of digits,
/// in order, but for those that an `i32` does not hold.
pub open spec fn extracted_ints(s: Seq<char>) -> Seq<i32>
    decreases s.len(),
    via extracted_ints_decreases
{
    if s.len() == 0 {
        Seq::empty()
    } else if !is_digit(s[0]) {
        extracted_ints(s.drop_first())
    } else {
        let n = run_len(s, true) as int;
        let value = decimal_value(s.take(n));
        let rest = extracted_ints(s.skip(n));
        if value <= i32::MAX {
            seq![value as i32] + rest
        } else {
            rest
        }
    }
}

#[via_fn]
proof fn extracted_ints_decreases(s: Seq<char>) {
    if s.len() != 0 && is_digit(s[0]) {
        lemma_run_len_bounds(s, true);
    }
}

/// The character of the digit `d`.
pub open spec fn digit_char(d: int) -> char {
    if d == 0 {
        '0'
    } else if d == 1 {
        '1'
    } else if d == 2 {
        '2'
    } else if d == 3 {
        '3'
    } else if d == 4 {
        '4'
    } else if d == 5 {
        '5'
    } else if d == 6 {
        '6'
    } else if d == 7 {
        '7'
    } else if d == 8 {
        '8'
    } else {
        '9'
    }
}

/// The digits that write `n` in base ten.
pub open spec fn digits_of(n: nat) -> Seq<char>
    decreases n,
{
    if n < 10 {
        seq![digit_char(n as int)]
    } else {
        digits_of(n / 10).push(digit_char((n % 10) as int))
    }
}

/// The text that writes `n` in base ten, with a minus sign where it is
/// negative.
pub open spec fn decimal_text(n: int) -> Seq<char> {
    if n < 0 {
        seq!['-'] + digits_of((-n) as nat)
    } else {
        digits_of(n as nat)
    }
}

/// Whether each value but the last is followed by the next larger integer.
pub open spec fn is_contiguous(values: Seq<i32>) -> bool {
    forall|i: int| 0 <= i < values.len() - 1 ==> #[trigger] values[i] + 1 == values[i + 1]
}

/// Whether the values grow strictly.
pub open spec fn strictly_increasing(values: Seq<i32>) -> bool {
    forall|i: int| 0 <= i < values.len() - 1 ==> #[trigger] values[i] < values[i + 1]
}

/// The first `upto` values written in base ten, with a comma and a space
/// between them.
pub open spec fn listed_text(values: Seq<i32>, upto: int) -> Seq<char>
    decreases upto,
{
    if upto <= 0 {
        Seq::empty()
    } else if upto == 1 {
        decimal_text(values[0] as int)
    } else {
        listed_text(values, upto - 1) + seq![',', ' '] + decimal_text(values[upto - 1] as int)
    }
}

/// How a set of CPUs is displayed: nothing for no value, the value for one,
/// the first and the last with a dash for a range without gaps, and the list
/// of the values otherwise.
pub open spec fn cpuset_text(values: Seq<i32>) -> Option<Seq<char>> {
    if values.len() == 0 {
        None
    } else if values.len() == 1 {
        Some(decimal_text(values[0] as int))
    } else if is_contiguous(values) {
        Some(
            decimal_text(values[0] as int) + seq!['-'] + decimal_text(
                values[values.len() - 1] as int,
            ),
        )
    } else {
        Some(listed_text(values, values.len() as int))
    }
}

/// The value of the digits `v[from..to]`, if an `i32` holds it.
fn parse_digits(v: &Vec<char>, from: usize, to: usize) -> (value: Option<i32>)
    requires
        from <= to <= v.len(),
        forall|k: int| from <= k < to ==> is_digit(#[trigger] v@[k]),
    ensures
        match value {
            Some(x) => decimal_value(v@.subrange(from as int, to as int)) == x,
            None => decimal_value(v@.subrange(from as int, to as int)) > i32::MAX,
        },
{
    let mut acc: u64 = 0;
    let mut over = false;
    let mut k: usize = from;
    proof {
        assert(v@.subrange(from as int, from as int) =~= Seq::<char>::empty());
    }
    while k < to
        invariant
            from <= k <= to <= v.len(),
            forall|i: int| from <= i < to ==> is_digit(#[trigger] v@[i]),
            !over ==> acc == decimal_value(v@.subrange(from as int, k as int)) && acc <= i32::MAX,
            over ==> decimal_value(v@.subrange(from as int, k as int)) > i32::MAX,
        decreases to - k,
    {
        let c = v[k];
        proof {
            let next = v@.subrange(from as int, k + 1);
            assert(next.drop_last() =~= v@.subrange(from as int, k as int));
            assert(next.last() == c);
            assert(is_digit(v@[k as int]));
        }
        if !over {
            let d: u64 = (c as u32 - '0' as u32) as u64;
            let next: u64 = acc * 10 + d;
            if next > i32::MAX as u64 {
                over = true;
            } else {
                acc = next;
            }
        }
        k = k + 1;
    }
    if over {
        None
    } else {
        Some(acc as i32)
    }
}

/// Extracts the integers that a text holds: the value of each of its runs of
/// digits, in order, but for those that an `i32` does not hold.
pub fn extract_ints_from_str(s: &str) -> (out: Vec<i32>)
    ensures
        out@ == extracted_ints(s@),
{
    let v = chars_of(s);
    let mut out: Vec<i32> = Vec::new();
    let mut i: usize = 0;
    proof {
        assert(v@.skip(0) =~= v@);
        assert(out@ + extracted_ints(v@) =~= extracted_ints(v@));
    }
    while i < v.len()
        invariant
            i <= v.len(),
            v@ == s@,
            out@ + extracted_ints(v@.skip(i as int)) == extracted_ints(v@),
        decreases v.len() - i,
    {
        let ghost rest = v@.skip(i as int);
        proof {
            assert(rest[0] == v@[i as int]);
        }
        if !is_ascii_digit(v[i]) {
            proof {
                assert(rest.drop_first() =~= v@.skip(i + 1));
            }
            i = i + 1;
        } else {
            let end = run_end(&v, i, true);
            proof {
                lemma_run_len_bounds(rest, true);
                assert(rest.take(end - i) =~= v@.subrange(i as int, end as int));
                assert(rest.skip(end - i) =~= v@.skip(end as int));
                assert forall|k: int| i <= k < end implies is_digit(#[trigger] v@[k]) by {
                    assert(rest[k - i] == v@[k]);
                }
            }
            match parse_digits(&v, i, end) {
                Some(value) => {
                    let ghost before = out@;
                    out.push(value);
                    proof {
                        assert(out@ + extracted_ints(v@.skip(end as int)) =~= before + (seq![value]
                            + extracted_ints(v@.skip(end as int))));
                    }
                },
                None => {},
            }
            i = end;
        }
    }
    proof {
        assert(v@.skip(i as int) =~= Seq::<char>::empty());
        assert(out@ + Seq::<i32>::empty() =~= out@);
    }
    out
}

/// Puts `x` into the strictly growing `values`, unless it is there.
fn insert_sorted(values: &mut Vec<i32>, x: i32)
    requires
        strictly_increasing(old(values)@),
    ensures
        strictly_increasing(final(values)@),
        forall|y: i32| final(values)@.contains(y) <==> old(values)@.contains(y) || y == x,
{
    let mut p: usize = 0;
    while p < values.len() && values[p] < x
        invariant
            p <= values.len(),
            values@ == old(values)@,
            forall|k: int| 0 <= k < p ==> #[trigger] values@[k] < x,
            strictly_increasing(values@),
        decreases values.len() - p,
    {
        p = p + 1;
    }
    if p < values.len() && values[p] == x {
        assert(values@.contains(x));
        return ;
    }
    let ghost before = values@;
    proof {
        before.insert_ensures(p as int, x);
    }
    values.insert(p, x);
    proof {
        let after = values@;
        assert forall|i: int| 0 <= i < after.len() - 1 implies #[trigger] after[i] < after[i
            + 1] by {
            if i + 1 < p {
                assert(after[i] == before[i]);
                assert(after[i + 1] == before[i + 1]);
            } else if i + 1 == p {
                assert(after[i] == before[i]);
            } else if i == p {
                assert(after[i + 1] == before[i]);
            } else {
                assert(after[i - 1 + 1] == before[i - 1]);
                assert(after[i + 1] == before[i]);
                assert(before[i - 1] < before[i - 1 + 1]);
            }
        }
        assert forall|y: i32| after.contains(y) <==> before.contains(y) || y == x by {
            if after.contains(y) {
                let i = choose|i: int| 0 <= i < after.len() && after[i] == y;
                if i < p {
                    assert(before[i] == y);
                } else if i > p {
                    assert(after[i - 1 + 1] == before[i - 1]);
                    assert(before[i - 1] == y);
                }
            }
            if before.contains(y) {
                let i = choose|i: int| 0 <= i < before.len() && before[i] == y;
                if i < p {
                    assert(after[i] == y);
                } else {
                    assert(after[i + 1] == y);
                }
            }
            if y == x {
                assert(after[p as int] == y);
            }
        }
    }
}

/// The character of the digit `d`.
fn char_of_digit(d: u32) -> (c: char)
    requires
        d < 10,
    ensures
        c == digit_char(d as int),
{
    match d {
        0 => '0',
        1 => '1',
        2 => '2',
        3 => '3',
        4 => '4',
        5 => '5',
        6 => '6',
        7 => '7',
        8 => '8',
        _ => '9',
    }
}

/// The digits of `buf` from the last to the first.
pub open spec fn backwards(buf: Seq<char>) -> Seq<char> {
    Seq::new(buf.len(), |i: int| buf[buf.len() - 1 - i])
}

/// Appends to `s` the text that writes `n` in base ten.
pub fn push_decimal(s: &mut String, n: i32)
    ensures
        final(s)@ == old(s)@ + decimal_text(n as int),
{
    let ghost start = s@;
    let mut rest: u32 = if n < 0 {
        s.push('-');
        (-(n as i64)) as u32
    } else {
        n as u32
    };
    let ghost sign = s@;
    let ghost magnitude = rest as nat;
    let mut buf: Vec<char> = Vec::new();
    proof {
        assert(digits_of(magnitude) =~= digits_of(rest as nat) + backwards(buf@));
    }
    while rest >= 10
        invariant
            digits_of(magnitude) == digits_of(rest as nat) + backwards(buf@),
        decreases rest,
    {
        let c = char_of_digit(rest % 10);
        let ghost prior = buf@;
        buf.push(c);
        proof {
            assert(backwards(buf@) =~= seq![c] + backwards(prior));
            assert(digits_of(rest as nat) == digits_of((rest / 10) as nat).push(c));
            assert(digits_of((rest / 10) as nat).push(c) + backwards(prior) =~= digits_of(
                (rest / 10) as nat,
            ) + backwards(buf@));
        }
        rest = rest / 10;
    }
    let c = char_of_digit(rest);
    let ghost prior = buf@;
    buf.push(c);
    proof {
        assert(backwards(buf@) =~= seq![c] + backwards(prior));
        assert(digits_of(magnitude) =~= backwards(buf@));
    }
    let mut k: usize = buf.len();
    while k > 0
        invariant
            k <= buf.len(),
            s@ == sign + backwards(buf@).take(buf.len() - k),
        decreases k,
    {
        k = k - 1;
        s.push(buf[k]);
        proof {
            assert(backwards(buf@).take(buf.len() - k) =~= backwards(buf@).take(
                buf.len() - k - 1,
            ).push(buf@[k as int]));
        }
    }
    proof {
        assert(backwards(buf@).take(buf.len() as int) =~= backwards(buf@));
        if n < 0 {
            assert(s@ =~= start + (seq!['-'] + digits_of(magnitude)));
        }
    }
}

/// The values in order, each once.
pub fn sorted_distinct(values: &Vec<i32>) -> (sorted: Vec<i32>)
    ensures
        strictly_increasing(sorted@),
        forall|y: i32| sorted@.contains(y) <==> values@.contains(y),
{
    let mut sorted: Vec<i32> = Vec::new();
    let mut i: usize = 0;
    while i < values.len()
        invariant
            i <= values.len(),
            strictly_increasing(sorted@),
            forall|y: i32| sorted@.contains(y) <==> values@.take(i as int).contains(y),
        decreases values.len() - i,
    {
        insert_sorted(&mut sorted, values[i]);
        proof {
            let x = values@[i as int];
            assert(values@.take(i + 1) =~= values@.take(i as int).push(x));
            assert forall|y: i32| sorted@.contains(y) <==> values@.take(i + 1).contains(y) by {
                crate::groups::lemma_contains_push(values@.take(i as int), x, y);
            }
        }
        i = i + 1;
    }
    proof {
        assert(values@.take(i as int) =~= values@);
    }
    sorted
}

/// Orders the values, leaves out those that come twice, and writes the set
/// of CPUs that they make up as the chart displays it: nothing for no value,
/// the value for one, the first and the last with a dash for a range without
/// gaps, and the list of the values otherwise.
pub fn format_cpuset_grid5000(values: &mut Vec<i32>) -> (text: Option<String>)
    ensures
        strictly_increasing(final(values)@),
        forall|y: i32| final(values)@.contains(y) <==> old(values)@.contains(y),
        match text {
            Some(text) => cpuset_text(final(values)@) == Some(text@),
            None => cpuset_text(final(values)@) is None,
        },
{
    let sorted = sorted_distinct(values);
    *values = sorted;
    if values.len() == 0 {
        return None;
    }
    let mut text = String::new();
    push_decimal(&mut text, values[0]);
    if values.len() == 1 {
        return Some(text);
    }
    let mut contiguous = true;
    let mut k: usize = 0;
    while k + 1 < values.len()
        invariant
            k + 1 <= values.len(),
            contiguous <==> forall|j: int| 0 <= j < k ==> #[trigger] values@[j] + 1 == values@[j + 1],
        decreases values.len() - k,
    {
        if values[k + 1] as i64 != values[k] as i64 + 1 {
            contiguous = false;
        }
        k = k + 1;
    }
    if contiguous {
        text.push('-');
        push_decimal(&mut text, values[values.len() - 1]);
        proof {
            assert(text@ =~= decimal_text(values@[0] as int) + seq!['-'] + decimal_text(
                values@[values@.len() - 1] as int,
            ));
        }
        return Some(text);
    }
    let mut n: usize = 1;
    while n < values.len()
        invariant
            1 <= n <= values.len(),
            text@ == listed_text(values@, n as int),
        decreases values.len() - n,
    {
        let ghost before = text@;
        text.push(',');
        text.push(' ');
        push_decimal(&mut text, values[n]);
        proof {
            assert(text@ =~= before + seq![',', ' '] + decimal_text(values@[n as int] as int));
        }
        n = n + 1;
    }
    Some(text)
}

} // verus!
