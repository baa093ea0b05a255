//! Character-level helpers for names and labels.

use vstd::prelude::*;

verus! {

/// Taken on trust of the standard library: `String::push` appends the
/// character `c` to the end of the string and leaves the characters before
/// it as they are.
pub assume_specification[ String::push ](s: &mut String, c: char)
    ensures
        final(s)@ == old(s)@.push(c),
;

/// Whether `c` is one of the ten ASCII digits.
pub open spec fn is_digit(c: char) -> bool {
    '0' <= c && c <= '9'
}

/// The value of an ASCII digit.
pub open spec fn digit_value(c: char) -> nat {
    (c as u32 - '0' as u32) as nat
}

/// Sign of an integer: -1, 0 or 1.
pub open spec fn sign(x: int) -> int {
    if x < 0 {
        -1
    } else if x > 0 {
        1
    } else {
        0
    }
}

/// Lexicographic order of two character sequences by code point: -1 when `a`
/// comes first, 1 when `b` does, 0 when they are equal.
pub open spec fn lexical_order(a: Seq<char>, b: Seq<char>) -> int
    decreases a.len(),
{
    if a.len() == 0 && b.len() == 0 {
        0
    } else if a.len() == 0 {
        -1
    } else if b.len() == 0 {
        1
    } else if a[0] < b[0] {
        -1
    } else if a[0] > b[0] {
        1
    } else {
        lexical_order(a.drop_first(), b.drop_first())
    }
}

/// Sequences that agree on their first `k` characters compare as their rests do.
pub proof fn lemma_lexical_skip(a: Seq<char>, b: Seq<char>, k: int)
    requires
        0 <= k <= a.len(),
        k <= b.len(),
        a.take(k) == b.take(k),
    ensures
        lexical_order(a, b) == lexical_order(a.skip(k), b.skip(k)),
    decreases k,
{
    if k == 0 {
        assert(a.skip(0) =~= a);
        assert(b.skip(0) =~= b);
    } else {
        assert(a[0] == a.take(k)[0]);
        assert(b[0] == b.take(k)[0]);
        assert(a.drop_first().take(k - 1) =~= a.take(k).drop_first());
        assert(b.drop_first().take(k - 1) =~= b.take(k).drop_first());
        lemma_lexical_skip(a.drop_first(), b.drop_first(), k - 1);
        assert(a.drop_first().skip(k - 1) =~= a.skip(k));
        assert(b.drop_first().skip(k - 1) =~= b.skip(k));
    }
}

/// Lexical order is 0 exactly for equal sequences.
pub proof fn lemma_lexical_equal(a: Seq<char>, b: Seq<char>)
    ensures
        lexical_order(a, b) == 0 <==> a == b,
    decreases a.len(),
{
    if a.len() > 0 && b.len() > 0 && a[0] == b[0] {
        lemma_lexical_equal(a.drop_first(), b.drop_first());
        if a.drop_first() == b.drop_first() {
            assert(a =~= seq![a[0]] + a.drop_first());
            assert(b =~= seq![b[0]] + b.drop_first());
        }
    } else if a.len() == 0 && b.len() == 0 {
        assert(a =~= b);
    }
}

/// Swapping the arguments of the lexical order flips its sign.
pub proof fn lemma_lexical_antisymmetric(a: Seq<char>, b: Seq<char>)
    ensures
        lexical_order(b, a) == -lexical_order(a, b),
    decreases a.len(),
{
    if a.len() > 0 && b.len() > 0 && a[0] == b[0] {
        lemma_lexical_antisymmetric(a.drop_first(), b.drop_first());
    }
}

/// The lexical order is transitive: what comes no later than a second
/// sequence, which comes no later than a third, comes no later than the
/// third, and earlier if one of the two steps is strict.
pub proof fn lemma_lexical_transitive(a: Seq<char>, b: Seq<char>, c: Seq<char>)
    requires
        lexical_order(a, b) <= 0,
        lexical_order(b, c) <= 0,
    ensures
        lexical_order(a, c) <= 0,
        lexical_order(a, b) < 0 || lexical_order(b, c) < 0 ==> lexical_order(a, c) < 0,
    decreases a.len(),
{
    if a.len() > 0 && b.len() > 0 && c.len() > 0 && a[0] == b[0] && b[0] == c[0] {
        lemma_lexical_transitive(a.drop_first(), b.drop_first(), c.drop_first());
    }
}

/// The characters of a string slice, in order.
pub fn chars_of(s: &str) -> (v: Vec<char>)
    ensures
        v@ == s@,
{
    let mut v: Vec<char> = Vec::new();
    for c in it: s.chars()
        invariant
            v@ == it.seq().take(it.index() as int),
            it.seq() == s@,
    {
        v.push(c);
    }
    v
}

/// The string made of the characters `v[from..to]`.
pub fn string_of(v: &Vec<char>, from: usize, to: usize) -> (s: String)
    requires
        from <= to <= v.len(),
    ensures
        s@ == v@.subrange(from as int, to as int),
{
    let mut s = String::new();
    let mut i: usize = from;
    while i < to
        invariant
            from <= i <= to <= v.len(),
            s@ == v@.subrange(from as int, i as int),
        decreases to - i,
    {
        s.push(v[i]);
        proof {
            assert(v@.subrange(from as int, i + 1) =~= v@.subrange(from as int, i as int).push(
                v@[i as int],
            ));
        }
        i = i + 1;
    }
    s
}

/// Whether two string slices hold the same characters.
pub fn same_text(a: &str, b: &str) -> (same: bool)
    ensures
        same == (a@ == b@),
{
    a.to_owned() == b.to_owned()
}

/// Whether `c` is an ASCII digit.
pub fn is_ascii_digit(c: char) -> (digit: bool)
    ensures
        digit == is_digit(c),
{
    c >= '0' && c <= '9'
}

/// Compares the slices `a[a_from..a_to]` and `b[b_from..b_to]` lexicographically.
pub fn compare_lexical(
    a: &Vec<char>,
    a_from: usize,
    a_to: usize,
    b: &Vec<char>,
    b_from: usize,
    b_to: usize,
) -> (order: i32)
    requires
        a_from <= a_to <= a.len(),
        b_from <= b_to <= b.len(),
    ensures
        order == lexical_order(
            a@.subrange(a_from as int, a_to as int),
            b@.subrange(b_from as int, b_to as int),
        ),
{
    let ghost sa = a@.subrange(a_from as int, a_to as int);
    let ghost sb = b@.subrange(b_from as int, b_to as int);
    let mut k: usize = 0;
    loop
        invariant
            a_from <= a_to <= a.len(),
            b_from <= b_to <= b.len(),
            sa == a@.subrange(a_from as int, a_to as int),
            sb == b@.subrange(b_from as int, b_to as int),
            k <= sa.len(),
            k <= sb.len(),
            sa.take(k as int) == sb.take(k as int),
        decreases sa.len() - k,
    {
        proof {
            lemma_lexical_skip(sa, sb, k as int);
        }
        let a_done = k >= a_to - a_from;
        let b_done = k >= b_to - b_from;
        if a_done && b_done {
            return 0;
        } else if a_done {
            return -1;
        } else if b_done {
            return 1;
        }
        let ca = a[a_from + k];
        let cb = b[b_from + k];
        proof {
            assert(sa.skip(k as int)[0] == ca);
            assert(sb.skip(k as int)[0] == cb);
        }
        if ca < cb {
            return -1;
        } else if ca > cb {
            return 1;
        }
        proof {
            assert(sa.take(k + 1) =~= sa.take(k as int).push(ca));
            assert(sb.take(k + 1) =~= sb.take(k as int).push(cb));
        }
        k = k + 1;
    }
}

/// The character sequences of a list of strings, in order.
pub open spec fn names_of(v: Seq<String>) -> Seq<Seq<char>> {
    Seq::new(v.len(), |i: int| v[i]@)
}

/// Length of the longest prefix of `s` whose characters all satisfy `keep`.
pub open spec fn prefix_while(s: Seq<char>, keep: spec_fn(char) -> bool) -> nat
    decreases s.len(),
{
    if s.len() == 0 || !keep(s[0]) {
        0
    } else {
        1 + prefix_while(s.drop_first(), keep)
    }
}

/// Length of the longest suffix of `s` whose characters all satisfy `keep`.
pub open spec fn suffix_while(s: Seq<char>, keep: spec_fn(char) -> bool) -> nat
    decreases s.len(),
{
    if s.len() == 0 || !keep(s.last()) {
        0
    } else {
        1 + suffix_while(s.drop_last(), keep)
    }
}

/// A prefix whose characters satisfy `keep`, and which ends the sequence or is
/// followed by a character that does not, is the longest such prefix.
pub proof fn lemma_prefix_while_is(s: Seq<char>, keep: spec_fn(char) -> bool, n: int)
    requires
        0 <= n <= s.len(),
        forall|k: int| 0 <= k < n ==> keep(#[trigger] s[k]),
        n < s.len() ==> !keep(s[n]),
    ensures
        prefix_while(s, keep) == n,
    decreases n,
{
    if n > 0 {
        let t = s.drop_first();
        assert(keep(s[0]));
        assert forall|k: int| 0 <= k < n - 1 implies keep(#[trigger] t[k]) by {
            assert(t[k] == s[k + 1]);
        }
        if n - 1 < t.len() {
            assert(t[n - 1] == s[n]);
        }
        lemma_prefix_while_is(t, keep, n - 1);
    }
}

/// A suffix of `n` characters that satisfy `keep`, and which is the whole
/// sequence or is preceded by a character that does not, is the longest such
/// suffix.
pub proof fn lemma_suffix_while_is(s: Seq<char>, keep: spec_fn(char) -> bool, n: int)
    requires
        0 <= n <= s.len(),
        forall|k: int| s.len() - n <= k < s.len() ==> keep(#[trigger] s[k]),
        n < s.len() ==> !keep(s[s.len() - n - 1]),
    ensures
        suffix_while(s, keep) == n,
    decreases n,
{
    if n > 0 {
        let t = s.drop_last();
        assert(keep(s[s.len() - 1]));
        assert forall|k: int| t.len() - (n - 1) <= k < t.len() implies keep(#[trigger] t[k]) by {
            assert(t[k] == s[k]);
        }
        if n - 1 < t.len() {
            assert(t[t.len() - (n - 1) - 1] == s[s.len() - n - 1]);
        }
        lemma_suffix_while_is(t, keep, n - 1);
    }
}

/// The property of being another character than `c`.
pub open spec fn other_than(c: char) -> spec_fn(char) -> bool {
    |x: char| x != c
}

/// The property of being white space.
pub open spec fn space() -> spec_fn(char) -> bool {
    |x: char| is_space(x)
}

/// Index of the first `c` in `s`, or the length of `s` when it holds none.
pub open spec fn first_index(s: Seq<char>, c: char) -> nat {
    prefix_while(s, other_than(c))
}

/// Number of characters of `s` after its last `c`; the length of `s` when it
/// holds none.
pub open spec fn after_last(s: Seq<char>, c: char) -> nat {
    suffix_while(s, other_than(c))
}

/// Whether `c` is white space: a character with the Unicode property
/// White_Space.
pub open spec fn is_space(c: char) -> bool {
    let u = c as u32;
    ||| 0x09 <= u <= 0x0d
    ||| u == 0x20
    ||| u == 0x85
    ||| u == 0xa0
    ||| u == 0x1680
    ||| 0x2000 <= u <= 0x200a
    ||| u == 0x2028
    ||| u == 0x2029
    ||| u == 0x202f
    ||| u == 0x205f
    ||| u == 0x3000
}

/// `s` without the white space at its two ends.
pub open spec fn trimmed(s: Seq<char>) -> Seq<char> {
    let from = prefix_while(s, space()) as int;
    let rest = s.skip(from);
    rest.take(rest.len() - suffix_while(rest, space()))
}

/// Whether `c` is white space.
pub fn is_whitespace(c: char) -> (space: bool)
    ensures
        space == is_space(c),
{
    let u = c as u32;
    (0x09 <= u && u <= 0x0d) || u == 0x20 || u == 0x85 || u == 0xa0 || u == 0x1680 || (0x2000 <= u
        && u <= 0x200a) || u == 0x2028 || u == 0x2029 || u == 0x202f || u == 0x205f || u == 0x3000
}

/// Index of the first `c` in `v[from..to]`, or `to` when it holds none.
pub fn find_first(v: &Vec<char>, from: usize, to: usize, c: char) -> (at: usize)
    requires
        from <= to <= v.len(),
    ensures
        from <= at <= to,
        at - from == first_index(v@.subrange(from as int, to as int), c),
{
    let mut at: usize = from;
    while at < to && v[at] != c
        invariant
            from <= at <= to <= v.len(),
            forall|k: int| from <= k < at ==> #[trigger] v@[k] != c,
        decreases to - at,
    {
        at = at + 1;
    }
    proof {
        let s = v@.subrange(from as int, to as int);
        let keep = other_than(c);
        assert forall|k: int| 0 <= k < at - from implies keep(#[trigger] s[k]) by {
            assert(s[k] == v@[k + from]);
        }
        if at - from < s.len() {
            assert(s[at - from] == v@[at as int]);
        }
        lemma_prefix_while_is(s, keep, at - from);
    }
    at
}

/// Index just after the last `c` in `v[from..to]`, or `from` when it holds
/// none.
pub fn find_after_last(v: &Vec<char>, from: usize, to: usize, c: char) -> (at: usize)
    requires
        from <= to <= v.len(),
    ensures
        from <= at <= to,
        to - at == after_last(v@.subrange(from as int, to as int), c),
{
    let mut at: usize = to;
    while at > from && v[at - 1] != c
        invariant
            from <= at <= to <= v.len(),
            forall|k: int| at <= k < to ==> #[trigger] v@[k] != c,
        decreases at - from,
    {
        at = at - 1;
    }
    proof {
        let s = v@.subrange(from as int, to as int);
        let keep = other_than(c);
        assert forall|k: int| s.len() - (to - at) <= k < s.len() implies keep(#[trigger] s[k]) by {
            assert(s[k] == v@[k + from]);
        }
        if to - at < s.len() {
            assert(s[s.len() - (to - at) - 1] == v@[at - 1]);
        }
        lemma_suffix_while_is(s, keep, to - at);
    }
    at
}

/// The bounds of `v[from..to]` without the white space at its two ends.
pub fn trim_range(v: &Vec<char>, from: usize, to: usize) -> (bounds: (usize, usize))
    requires
        from <= to <= v.len(),
    ensures
        from <= bounds.0 <= bounds.1 <= to,
        v@.subrange(bounds.0 as int, bounds.1 as int) == trimmed(
            v@.subrange(from as int, to as int),
        ),
{
    let mut a: usize = from;
    while a < to && is_whitespace(v[a])
        invariant
            from <= a <= to <= v.len(),
            forall|k: int| from <= k < a ==> is_space(#[trigger] v@[k]),
        decreases to - a,
    {
        a = a + 1;
    }
    let mut b: usize = to;
    while b > a && is_whitespace(v[b - 1])
        invariant
            a <= b <= to <= v.len(),
            forall|k: int| b <= k < to ==> is_space(#[trigger] v@[k]),
        decreases b - a,
    {
        b = b - 1;
    }
    proof {
        let s = v@.subrange(from as int, to as int);
        let keep = space();
        assert forall|k: int| 0 <= k < a - from implies keep(#[trigger] s[k]) by {
            assert(s[k] == v@[k + from]);
        }
        if a - from < s.len() {
            assert(s[a - from] == v@[a as int]);
        }
        lemma_prefix_while_is(s, keep, a - from);
        let rest = s.skip(a - from);
        assert(rest =~= v@.subrange(a as int, to as int));
        assert forall|k: int| rest.len() - (to - b) <= k < rest.len() implies keep(
            #[trigger] rest[k],
        ) by {
            assert(rest[k] == v@[k + a]);
        }
        if to - b < rest.len() {
            assert(rest[rest.len() - (to - b) - 1] == v@[b - 1]);
        }
        lemma_suffix_while_is(rest, keep, to - b);
        assert(rest.take(rest.len() - (to - b)) =~= v@.subrange(a as int, b as int));
    }
    (a, b)
}

/// Whether `s` holds nothing but white space.
pub fn is_blank(s: &str) -> (blank: bool)
    ensures
        blank == (trimmed(s@).len() == 0),
{
    let v = chars_of(s);
    let (a, b) = trim_range(&v, 0, v.len());
    proof {
        assert(v@.subrange(0, v.len() as int) =~= v@);
    }
    a == b
}

} // verus!
