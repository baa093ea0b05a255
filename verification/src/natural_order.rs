//! Natural ordering of names: runs of digits are ordered by their numeric
//! value, runs of other characters lexically, so that `node9` comes before
//! `node10`.

use crate::text::{
    chars_of, compare_lexical, digit_value, is_ascii_digit, is_digit, lemma_lexical_antisymmetric,
    lemma_lexical_equal, lemma_lexical_transitive, lexical_order, sign,
};
use vstd::prelude::*;

verus! {

/// Length of the longest prefix of `s` made of digits (`digits` true) or of
/// non-digits (`digits` false).
pub open spec fn run_len(s: Seq<char>, digits: bool) -> nat
    decreases s.len(),
{
    if s.len() == 0 || is_digit(s[0]) != digits {
        0
    } else {
        1 + run_len(s.drop_first(), digits)
    }
}

/// The number that a sequence of digits writes in base ten.
pub open spec fn decimal_value(s: Seq<char>) -> nat
    decreases s.len(),
{
    if s.len() == 0 {
        0
    } else {
        10 * decimal_value(s.drop_last()) + digit_value(s.last())
    }
}

/// Order of the leading runs of `a` and `b`, both of the kind `digits`:
/// by value for digits, lexical otherwise.
pub open spec fn run_order(a: Seq<char>, b: Seq<char>, digits: bool) -> int {
    let ra = a.take(run_len(a, digits) as int);
    let rb = b.take(run_len(b, digits) as int);
    if digits {
        sign(decimal_value(ra) - decimal_value(rb))
    } else {
        lexical_order(ra, rb)
    }
}

/// Natural order of two names: -1 when `a` comes first, 1 when `b` does, 0
/// when neither does.
///
/// Both names are cut into maximal runs of digits and of non-digits, and the
/// runs are compared pairwise from the left. Two runs of digits are ordered by
/// the numbers they write, two runs of other characters lexically; a run of
/// digits against a run of other characters is ordered by the first
/// characters. The first pair that differs decides; a name that ends first
/// comes first.
pub open spec fn natural_order(a: Seq<char>, b: Seq<char>) -> int
    decreases a.len() + b.len(),
    via natural_order_decreases
{
    if a.len() == 0 || b.len() == 0 {
        sign(a.len() - b.len())
    } else if is_digit(a[0]) != is_digit(b[0]) {
        if a[0] < b[0] {
            -1
        } else {
            1
        }
    } else {
        let digits = is_digit(a[0]);
        let c = run_order(a, b, digits);
        if c != 0 {
            c
        } else {
            natural_order(a.skip(run_len(a, digits) as int), b.skip(run_len(b, digits) as int))
        }
    }
}

#[via_fn]
proof fn natural_order_decreases(a: Seq<char>, b: Seq<char>) {
    if a.len() != 0 && b.len() != 0 && is_digit(a[0]) == is_digit(b[0]) {
        lemma_run_len_bounds(a, is_digit(a[0]));
        lemma_run_len_bounds(b, is_digit(a[0]));
    }
}

/// A run is no longer than the sequence, and not empty when the sequence
/// starts with a character of its kind.
pub proof fn lemma_run_len_bounds(s: Seq<char>, digits: bool)
    ensures
        run_len(s, digits) <= s.len(),
        s.len() > 0 && is_digit(s[0]) == digits ==> run_len(s, digits) >= 1,
        forall|k: int| 0 <= k < run_len(s, digits) ==> is_digit(#[trigger] s[k]) == digits,
        run_len(s, digits) < s.len() ==> is_digit(s[run_len(s, digits) as int]) != digits,
    decreases s.len(),
{
    if s.len() != 0 && is_digit(s[0]) == digits {
        let t = s.drop_first();
        lemma_run_len_bounds(t, digits);
        assert forall|k: int| 0 <= k < run_len(s, digits) implies is_digit(#[trigger] s[k])
            == digits by {
            if k > 0 {
                assert(s[k] == t[k - 1]);
            }
        }
        if run_len(s, digits) < s.len() {
            assert(s[run_len(s, digits) as int] == t[run_len(t, digits) as int]);
        }
    }
}

/// A prefix of characters of one kind that ends the sequence, or is followed
/// by a character of the other kind, is the leading run.
pub proof fn lemma_run_len_is(s: Seq<char>, digits: bool, n: int)
    requires
        0 <= n <= s.len(),
        forall|k: int| 0 <= k < n ==> is_digit(#[trigger] s[k]) == digits,
        n < s.len() ==> is_digit(s[n]) != digits,
    ensures
        run_len(s, digits) == n,
    decreases n,
{
    if n > 0 {
        let t = s.drop_first();
        assert(is_digit(s[0]) == digits);
        assert forall|k: int| 0 <= k < n - 1 implies is_digit(#[trigger] t[k]) == digits by {
            assert(t[k] == s[k + 1]);
        }
        if n - 1 < t.len() {
            assert(t[n - 1] == s[n]);
        }
        lemma_run_len_is(t, digits, n - 1);
    }
}

/// Ten to the power `n`.
pub open spec fn pow10(n: nat) -> nat
    decreases n,
{
    if n == 0 {
        1
    } else {
        10 * pow10((n - 1) as nat)
    }
}

/// Whether every character of `s` is a digit.
pub open spec fn all_digits(s: Seq<char>) -> bool {
    forall|k: int| 0 <= k < s.len() ==> is_digit(#[trigger] s[k])
}

/// A number of `n` digits is below ten to the `n`.
pub proof fn lemma_decimal_upper(s: Seq<char>)
    requires
        all_digits(s),
    ensures
        decimal_value(s) < pow10(s.len()),
    decreases s.len(),
{
    if s.len() > 0 {
        assert(is_digit(s.last()));
        assert(all_digits(s.drop_last())) by {
            assert forall|k: int| 0 <= k < s.drop_last().len() implies is_digit(
                #[trigger] s.drop_last()[k],
            ) by {
                assert(s.drop_last()[k] == s[k]);
            }
        }
        lemma_decimal_upper(s.drop_last());
    }
}

/// The value of a number splits into its first digit, weighted, and the rest.
pub proof fn lemma_decimal_front(s: Seq<char>)
    requires
        s.len() > 0,
    ensures
        decimal_value(s) == digit_value(s[0]) * pow10((s.len() - 1) as nat) + decimal_value(
            s.drop_first(),
        ),
    decreases s.len(),
{
    if s.len() == 1 {
        assert(s.drop_last() =~= Seq::<char>::empty());
        assert(s.drop_first() =~= Seq::<char>::empty());
        assert(decimal_value(Seq::<char>::empty()) == 0);
        assert(s.last() == s[0]);
        assert(pow10(0) == 1);
        assert(digit_value(s[0]) * 1 == digit_value(s[0]));
    } else {
        let init = s.drop_last();
        let tail = s.drop_first();
        lemma_decimal_front(init);
        assert(init[0] == s[0]);
        assert(init.drop_first() =~= tail.drop_last());
        assert(tail.last() == s.last());
        let p = pow10((init.len() - 1) as nat);
        let d = digit_value(s[0]);
        assert(pow10((s.len() - 1) as nat) == 10 * p);
        assert(decimal_value(init) == d * p + decimal_value(tail.drop_last()));
        assert(decimal_value(tail) == 10 * decimal_value(tail.drop_last()) + digit_value(
            s.last(),
        ));
        assert(10 * (d * p) == d * (10 * p)) by (nonlinear_arith);
    }
}

/// Leading zeros do not change the value of a number.
pub proof fn lemma_decimal_leading_zeros(s: Seq<char>, z: int)
    requires
        0 <= z <= s.len(),
        forall|k: int| 0 <= k < z ==> #[trigger] s[k] == '0',
    ensures
        decimal_value(s) == decimal_value(s.skip(z)),
    decreases z,
{
    if z == 0 {
        assert(s.skip(0) =~= s);
    } else {
        lemma_decimal_front(s);
        assert(s[0] == '0');
        assert(digit_value(s[0]) == 0);
        let t = s.drop_first();
        assert forall|k: int| 0 <= k < z - 1 implies #[trigger] t[k] == '0' by {
            assert(t[k] == s[k + 1]);
        }
        lemma_decimal_leading_zeros(t, z - 1);
        assert(t.skip(z - 1) =~= s.skip(z));
        assert(0 * pow10((s.len() - 1) as nat) == 0);
    }
}

/// A number whose first digit is not zero is at least ten to the number of
/// its other digits.
pub proof fn lemma_decimal_lower(s: Seq<char>)
    requires
        s.len() > 0,
        is_digit(s[0]),
        s[0] != '0',
    ensures
        decimal_value(s) >= pow10((s.len() - 1) as nat),
{
    lemma_decimal_front(s);
    let p = pow10((s.len() - 1) as nat);
    let d = digit_value(s[0]);
    assert(d >= 1);
    assert(d * p >= p) by (nonlinear_arith)
        requires
            d >= 1,
    ;
}

/// Ten to a larger power is larger.
pub proof fn lemma_pow10_monotonic(m: nat, n: nat)
    requires
        m <= n,
    ensures
        pow10(m) <= pow10(n),
        pow10(m) >= 1,
    decreases n,
{
    if n == 0 {
    } else if m < n {
        lemma_pow10_monotonic(m, (n - 1) as nat);
    } else {
        lemma_pow10_monotonic((m - 1) as nat, (n - 1) as nat);
    }
}

/// Numbers of equally many digits are ordered as their digits are, lexically.
pub proof fn lemma_decimal_same_length(a: Seq<char>, b: Seq<char>)
    requires
        a.len() == b.len(),
        all_digits(a),
        all_digits(b),
    ensures
        sign(decimal_value(a) - decimal_value(b)) == lexical_order(a, b),
    decreases a.len(),
{
    if a.len() > 0 {
        lemma_decimal_front(a);
        lemma_decimal_front(b);
        let ta = a.drop_first();
        let tb = b.drop_first();
        assert(all_digits(ta)) by {
            assert forall|k: int| 0 <= k < ta.len() implies is_digit(#[trigger] ta[k]) by {
                assert(ta[k] == a[k + 1]);
            }
        }
        assert(all_digits(tb)) by {
            assert forall|k: int| 0 <= k < tb.len() implies is_digit(#[trigger] tb[k]) by {
                assert(tb[k] == b[k + 1]);
            }
        }
        lemma_decimal_upper(ta);
        lemma_decimal_upper(tb);
        let p = pow10(ta.len());
        let da = digit_value(a[0]);
        let db = digit_value(b[0]);
        assert(is_digit(a[0]) && is_digit(b[0]));
        if a[0] < b[0] {
            assert(da + 1 <= db);
            assert(da * p + p <= db * p) by (nonlinear_arith)
                requires
                    da + 1 <= db,
            ;
        } else if a[0] > b[0] {
            assert(db + 1 <= da);
            assert(db * p + p <= da * p) by (nonlinear_arith)
                requires
                    db + 1 <= da,
            ;
        } else {
            lemma_decimal_same_length(ta, tb);
        }
    }
}

/// Order of two numbers written with digits, told from the digits alone: the
/// number with more digits after its leading zeros is larger, and numbers
/// with equally many are ordered lexically.
pub proof fn lemma_decimal_order(a: Seq<char>, za: int, b: Seq<char>, zb: int)
    requires
        all_digits(a),
        all_digits(b),
        0 <= za <= a.len(),
        0 <= zb <= b.len(),
        forall|k: int| 0 <= k < za ==> #[trigger] a[k] == '0',
        forall|k: int| 0 <= k < zb ==> #[trigger] b[k] == '0',
        za < a.len() ==> a[za] != '0',
        zb < b.len() ==> b[zb] != '0',
    ensures
        sign(decimal_value(a) - decimal_value(b)) == if a.len() - za != b.len() - zb {
            sign((a.len() - za) - (b.len() - zb))
        } else {
            lexical_order(a.skip(za), b.skip(zb))
        },
{
    let sa = a.skip(za);
    let sb = b.skip(zb);
    lemma_decimal_leading_zeros(a, za);
    lemma_decimal_leading_zeros(b, zb);
    assert(all_digits(sa)) by {
        assert forall|k: int| 0 <= k < sa.len() implies is_digit(#[trigger] sa[k]) by {
            assert(sa[k] == a[k + za]);
        }
    }
    assert(all_digits(sb)) by {
        assert forall|k: int| 0 <= k < sb.len() implies is_digit(#[trigger] sb[k]) by {
            assert(sb[k] == b[k + zb]);
        }
    }
    lemma_decimal_upper(sa);
    lemma_decimal_upper(sb);
    if sa.len() == sb.len() {
        lemma_decimal_same_length(sa, sb);
    } else if sa.len() < sb.len() {
        assert(sb[0] == b[zb]);
        lemma_decimal_lower(sb);
        lemma_pow10_monotonic(sa.len(), (sb.len() - 1) as nat);
    } else {
        assert(sa[0] == a[za]);
        lemma_decimal_lower(sa);
        lemma_pow10_monotonic(sb.len(), (sa.len() - 1) as nat);
    }
}

/// Swapping the two names flips the sign of their natural order.
pub proof fn lemma_natural_antisymmetric(a: Seq<char>, b: Seq<char>)
    ensures
        natural_order(b, a) == -natural_order(a, b),
    decreases a.len() + b.len(),
{
    if a.len() != 0 && b.len() != 0 && is_digit(a[0]) == is_digit(b[0]) {
        let digits = is_digit(a[0]);
        lemma_run_len_bounds(a, digits);
        lemma_run_len_bounds(b, digits);
        let ra = a.take(run_len(a, digits) as int);
        let rb = b.take(run_len(b, digits) as int);
        lemma_lexical_antisymmetric(ra, rb);
        assert(run_order(b, a, digits) == -run_order(a, b, digits));
        if run_order(a, b, digits) == 0 {
            lemma_natural_antisymmetric(
                a.skip(run_len(a, digits) as int),
                b.skip(run_len(b, digits) as int),
            );
        }
    }
}

/// A name is in natural order neither before nor after itself.
pub proof fn lemma_natural_reflexive(a: Seq<char>)
    ensures
        natural_order(a, a) == 0,
{
    lemma_natural_antisymmetric(a, a);
}

/// The order of runs of one kind is transitive.
pub proof fn lemma_run_order_transitive(a: Seq<char>, b: Seq<char>, c: Seq<char>, digits: bool)
    requires
        run_order(a, b, digits) <= 0,
        run_order(b, c, digits) <= 0,
    ensures
        run_order(a, c, digits) <= 0,
        run_order(a, b, digits) < 0 || run_order(b, c, digits) < 0 ==> run_order(a, c, digits)
            < 0,
        run_order(a, b, digits) == 0 && run_order(b, c, digits) == 0 ==> run_order(a, c, digits)
            == 0,
{
    if !digits {
        let ra = a.take(run_len(a, digits) as int);
        let rb = b.take(run_len(b, digits) as int);
        let rc = c.take(run_len(c, digits) as int);
        lemma_lexical_transitive(ra, rb, rc);
        lemma_lexical_equal(ra, rb);
        lemma_lexical_equal(rb, rc);
        lemma_lexical_equal(ra, rc);
    }
}

/// Runs of text are ordered as their first characters, where these differ.
pub proof fn lemma_text_runs_by_first(a: Seq<char>, b: Seq<char>)
    requires
        a.len() > 0,
        b.len() > 0,
        !is_digit(a[0]),
        !is_digit(b[0]),
    ensures
        run_order(a, b, false) <= 0 ==> a[0] <= b[0],
        a[0] < b[0] ==> run_order(a, b, false) < 0,
{
    lemma_run_len_bounds(a, false);
    lemma_run_len_bounds(b, false);
    let ra = a.take(run_len(a, false) as int);
    let rb = b.take(run_len(b, false) as int);
    assert(ra[0] == a[0]);
    assert(rb[0] == b[0]);
}

/// The natural order is transitive: a name that comes no later than a
/// second, which comes no later than a third, comes no later than the third,
/// and earlier if one of the two steps is strict.
pub proof fn lemma_natural_transitive(a: Seq<char>, b: Seq<char>, c: Seq<char>)
    requires
        natural_order(a, b) <= 0,
        natural_order(b, c) <= 0,
    ensures
        natural_order(a, c) <= 0,
        natural_order(a, b) < 0 || natural_order(b, c) < 0 ==> natural_order(a, c) < 0,
    decreases a.len() + b.len() + c.len(),
{
    if a.len() != 0 {
        assert(b.len() != 0);
        assert(c.len() != 0);
        let ka = is_digit(a[0]);
        let kb = is_digit(b[0]);
        let kc = is_digit(c[0]);
        if ka == kb && kb == kc {
            lemma_run_order_transitive(a, b, c, ka);
            lemma_run_len_bounds(a, ka);
            lemma_run_len_bounds(b, ka);
            lemma_run_len_bounds(c, ka);
            if run_order(a, b, ka) == 0 && run_order(b, c, ka) == 0 {
                lemma_natural_transitive(
                    a.skip(run_len(a, ka) as int),
                    b.skip(run_len(b, ka) as int),
                    c.skip(run_len(c, ka) as int),
                );
            }
        } else if ka != kb && kb != kc {
            assert(a[0] < b[0] && b[0] < c[0]);
            assert(!ka);
            lemma_text_runs_by_first(a, c);
        } else if ka != kb {
            assert(a[0] < b[0]);
            if !kb {
                lemma_text_runs_by_first(b, c);
            }
        } else {
            assert(b[0] < c[0]);
            if !ka {
                lemma_text_runs_by_first(a, b);
            }
        }
    }
}

/// Index of the first character at or after `from` that is not of the kind
/// `digits`, or the length of `s` when there is none.
pub fn run_end(s: &Vec<char>, from: usize, digits: bool) -> (end: usize)
    requires
        from <= s.len(),
    ensures
        from <= end <= s.len(),
        end - from == run_len(s@.skip(from as int), digits),
{
    let mut end: usize = from;
    while end < s.len() && is_ascii_digit(s[end]) == digits
        invariant
            from <= end <= s.len(),
            forall|k: int| from <= k < end ==> is_digit(#[trigger] s@[k]) == digits,
        decreases s.len() - end,
    {
        end = end + 1;
    }
    proof {
        let t = s@.skip(from as int);
        assert forall|k: int| 0 <= k < end - from implies is_digit(#[trigger] t[k]) == digits by {
            assert(t[k] == s@[k + from]);
        }
        if end - from < t.len() {
            assert(t[end - from] == s@[end as int]);
        }
        lemma_run_len_is(t, digits, end - from);
    }
    end
}

/// Index of the first character in `s[from..to]` that is not `'0'`, or `to`.
fn skip_zeros(s: &Vec<char>, from: usize, to: usize) -> (at: usize)
    requires
        from <= to <= s.len(),
    ensures
        from <= at <= to,
        forall|k: int| from <= k < at ==> #[trigger] s@[k] == '0',
        at < to ==> s@[at as int] != '0',
{
    let mut at: usize = from;
    while at < to && s[at] == '0'
        invariant
            from <= at <= to <= s.len(),
            forall|k: int| from <= k < at ==> #[trigger] s@[k] == '0',
        decreases to - at,
    {
        at = at + 1;
    }
    at
}

/// Compares two names in natural order and returns -1, 0 or 1.
pub fn compare_string_with_number(a: &str, b: &str) -> (order: i32)
    ensures
        order == natural_order(a@, b@),
{
    let va = chars_of(a);
    let vb = chars_of(b);
    compare_natural(&va, &vb)
}

/// Compares two names, given by their characters, in natural order.
pub fn compare_natural(a: &Vec<char>, b: &Vec<char>) -> (order: i32)
    ensures
        order == natural_order(a@, b@),
{
    let mut i: usize = 0;
    let mut j: usize = 0;
    proof {
        assert(a@.skip(0) =~= a@);
        assert(b@.skip(0) =~= b@);
    }
    loop
        invariant
            i <= a.len(),
            j <= b.len(),
            natural_order(a@, b@) == natural_order(a@.skip(i as int), b@.skip(j as int)),
        decreases a.len() - i + b.len() - j,
    {
        let ghost ra = a@.skip(i as int);
        let ghost rb = b@.skip(j as int);
        if i == a.len() || j == b.len() {
            if i < a.len() {
                return 1;
            } else if j < b.len() {
                return -1;
            } else {
                return 0;
            }
        }
        let ca = a[i];
        let cb = b[j];
        proof {
            assert(ra[0] == ca);
            assert(rb[0] == cb);
        }
        let digits = is_ascii_digit(ca);
        if digits != is_ascii_digit(cb) {
            if ca < cb {
                return -1;
            } else {
                return 1;
            }
        }
        let a_end = run_end(a, i, digits);
        let b_end = run_end(b, j, digits);
        proof {
            lemma_run_len_bounds(ra, digits);
            lemma_run_len_bounds(rb, digits);
            assert(ra.take(a_end - i) =~= a@.subrange(i as int, a_end as int));
            assert(rb.take(b_end - j) =~= b@.subrange(j as int, b_end as int));
        }
        let c = if digits {
            let a_at = skip_zeros(a, i, a_end);
            let b_at = skip_zeros(b, j, b_end);
            proof {
                let xa = a@.subrange(i as int, a_end as int);
                let xb = b@.subrange(j as int, b_end as int);
                assert(all_digits(xa)) by {
                    assert forall|k: int| 0 <= k < xa.len() implies is_digit(#[trigger] xa[k]) by {
                        assert(xa[k] == ra[k]);
                    }
                }
                assert(all_digits(xb)) by {
                    assert forall|k: int| 0 <= k < xb.len() implies is_digit(#[trigger] xb[k]) by {
                        assert(xb[k] == rb[k]);
                    }
                }
                assert forall|k: int| 0 <= k < a_at - i implies #[trigger] xa[k] == '0' by {
                    assert(xa[k] == a@[k + i]);
                }
                assert forall|k: int| 0 <= k < b_at - j implies #[trigger] xb[k] == '0' by {
                    assert(xb[k] == b@[k + j]);
                }
                lemma_decimal_order(xa, a_at - i, xb, b_at - j);
                assert(xa.skip(a_at - i) =~= a@.subrange(a_at as int, a_end as int));
                assert(xb.skip(b_at - j) =~= b@.subrange(b_at as int, b_end as int));
            }
            if a_end - a_at < b_end - b_at {
                -1
            } else if a_end - a_at > b_end - b_at {
                1
            } else {
                compare_lexical(a, a_at, a_end, b, b_at, b_end)
            }
        } else {
            compare_lexical(a, i, a_end, b, j, b_end)
        };
        assert(c == run_order(ra, rb, digits));
        if c != 0 {
            return c;
        }
        proof {
            assert(ra.skip(a_end - i) =~= a@.skip(a_end as int));
            assert(rb.skip(b_end - j) =~= b@.skip(b_end as int));
        }
        i = a_end;
        j = b_end;
    }
}

} // verus!
