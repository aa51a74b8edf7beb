use vstd::prelude::*;

use crate::bound::{lemma_pow10_positive, pow10};

verus! {

/// The largest magnitude, in hundredths, that a parsed number may have
/// (the largest `i64`).
pub const MAX_HUNDREDTHS: u64 = 9223372036854775807;

/// The largest whole part whose hundredths can still stay within
/// `MAX_HUNDREDTHS`.
const MAX_WHOLE: u64 = 92233720368547758;

pub open spec fn is_digit(c: char) -> bool {
    '0' <= c && c <= '9'
}

pub open spec fn digit_value(c: char) -> int {
    c as int - '0' as int
}

pub open spec fn all_digits(s: Seq<char>) -> bool {
    forall|i: int| 0 <= i < s.len() ==> is_digit(#[trigger] s[i])
}

/// The value of a run of decimal digits, most significant first.
pub open spec fn digits_value(s: Seq<char>) -> int
    decreases s.len(),
{
    if s.len() == 0 {
        0
    } else {
        digits_value(s.drop_last()) * 10 + digit_value(s.last())
    }
}

pub open spec fn is_sign(c: char) -> bool {
    c == '+' || c == '-'
}

/// `s` without its leading sign, if it has one.
pub open spec fn unsigned_part(s: Seq<char>) -> Seq<char> {
    if s.len() > 0 && is_sign(s[0]) {
        s.drop_first()
    } else {
        s
    }
}

pub open spec fn is_negative(s: Seq<char>) -> bool {
    s.len() > 0 && s[0] == '-'
}

/// A decimal separator: a point, or a comma as some sites write it.
pub open spec fn is_separator(c: char) -> bool {
    c == '.' || c == ','
}

/// The index of the first separator in `s`, or `s.len()` when there is none.
pub open spec fn dot_index(s: Seq<char>) -> int
    decreases s.len(),
{
    if s.len() == 0 {
        0
    } else if is_separator(s[0]) {
        0
    } else {
        1 + dot_index(s.drop_first())
    }
}

/// The digits before the decimal separator.
pub open spec fn whole_digits(b: Seq<char>) -> Seq<char> {
    b.take(dot_index(b))
}

/// The digits after the decimal separator (none when there is none).
pub open spec fn fraction_digits(b: Seq<char>) -> Seq<char> {
    if dot_index(b) < b.len() {
        b.skip(dot_index(b) + 1)
    } else {
        Seq::empty()
    }
}

/// `s` is an optionally signed decimal number with at most one decimal
/// separator and at least one digit: `[+-]?[0-9]*([.,][0-9]*)?`.
pub open spec fn is_decimal(s: Seq<char>) -> bool {
    let b = unsigned_part(s);
    &&& all_digits(whole_digits(b))
    &&& all_digits(fraction_digits(b))
    &&& whole_digits(b).len() + fraction_digits(b).len() > 0
}

pub open spec fn fraction_digit(f: Seq<char>, i: int) -> int {
    if i < f.len() {
        digit_value(f[i])
    } else {
        0
    }
}

/// The magnitude of an unsigned decimal in hundredths, rounded half away
/// from zero on the third fraction digit.
pub open spec fn magnitude_hundredths(b: Seq<char>) -> int {
    let f = fraction_digits(b);
    digits_value(whole_digits(b)) * 100 + fraction_digit(f, 0) * 10 + fraction_digit(f, 1) + if fraction_digit(f, 2) >= 5 {
        1int
    } else {
        0int
    }
}

/// The signed value of a decimal in hundredths.
pub open spec fn decimal_hundredths(s: Seq<char>) -> int {
    let m = magnitude_hundredths(unsigned_part(s));
    if is_negative(s) {
        -m
    } else {
        m
    }
}

/// What `parse_hundredths` yields: the value in hundredths of a decimal
/// whose magnitude fits, and nothing for any other text.
pub open spec fn hundredths_of(s: Seq<char>) -> Option<int> {
    if is_decimal(s) && magnitude_hundredths(unsigned_part(s)) <= MAX_HUNDREDTHS {
        Some(decimal_hundredths(s))
    } else {
        None
    }
}

proof fn lemma_dot_index_bounds(s: Seq<char>)
    ensures
        0 <= dot_index(s) <= s.len(),
        dot_index(s) < s.len() ==> is_separator(s[dot_index(s)]),
    decreases s.len(),
{
    if s.len() > 0 && !is_separator(s[0]) {
        lemma_dot_index_bounds(s.drop_first());
    }
}

/// A decimal holds only a sign, digits and a separator: never `c`, when
/// `c` is none of those.
pub proof fn lemma_decimal_chars(s: Seq<char>, c: char)
    requires
        is_decimal(s),
        !is_sign(c),
        !is_digit(c),
        !is_separator(c),
    ensures
        !s.contains(c),
{
    let b = unsigned_part(s);
    let off: int = if s.len() > 0 && is_sign(s[0]) {
        1
    } else {
        0
    };
    lemma_dot_index_bounds(b);
    let k = dot_index(b);
    assert forall|i: int| 0 <= i < s.len() implies s[i] != c by {
        if i >= off {
            let j = i - off;
            assert(b[j] == s[i]);
            if j < k {
                assert(whole_digits(b)[j] == b[j]);
            } else if j > k {
                assert(fraction_digits(b)[j - k - 1] == b[j]);
            }
        }
    }
}

proof fn lemma_dot_index(s: Seq<char>, k: int)
    requires
        0 <= k <= s.len(),
        forall|j: int| 0 <= j < k ==> !is_separator(s[j]),
        k == s.len() || is_separator(s[k]),
    ensures
        dot_index(s) == k,
    decreases k,
{
    if k > 0 {
        lemma_dot_index(s.drop_first(), k - 1);
    }
}

/// A run of digits is worth at least as much as any of its prefixes.
pub proof fn lemma_digits_value_prefix(s: Seq<char>, j: int)
    requires
        all_digits(s),
        0 <= j <= s.len(),
    ensures
        0 <= digits_value(s.take(j)) <= digits_value(s),
    decreases s.len(),
{
    if j == s.len() {
        assert(s.take(j) =~= s);
        if s.len() > 0 {
            lemma_digits_value_prefix(s.drop_last(), j - 1);
        }
    } else {
        let p = s.drop_last();
        lemma_digits_value_prefix(p, j);
        assert(p.take(j) =~= s.take(j));
        assert(is_digit(s[s.len() - 1]));
    }
}

/// Appending a digit multiplies the value by ten and adds the digit.
pub proof fn lemma_digits_value_step(s: Seq<char>, i: int)
    requires
        0 <= i < s.len(),
    ensures
        digits_value(s.take(i + 1)) == digits_value(s.take(i)) * 10 + digit_value(s[i]),
{
    assert(s.take(i + 1).drop_last() =~= s.take(i));
}

/// Parses an optionally signed decimal number into hundredths, rounding
/// half away from zero; text that is no such number, or whose magnitude
/// exceeds `MAX_HUNDREDTHS`, gives `None`.
pub fn parse_hundredths(s: &str) -> (r: Option<i64>)
    ensures
        match r {
            Some(v) => hundredths_of(s@) == Some(v as int),
            None => hundredths_of(s@) is None,
        },
{
    let n = s.unicode_len();
    let mut start: usize = 0;
    let mut negative = false;
    if n > 0 {
        let c0 = s.get_char(0);
        if c0 == '+' || c0 == '-' {
            start = 1;
            negative = c0 == '-';
        }
    }
    let ghost b = unsigned_part(s@);
    assert(b =~= s@.skip(start as int));

    let mut k: usize = start;
    loop
        invariant
            start <= k <= n,
            n == s@.len(),
            forall|j: int| start <= j < k ==> !is_separator(s@[j]),
        ensures
            k == n || is_separator(s@[k as int]),
        decreases n - k,
    {
        if k == n {
            break;
        }
        let c = s.get_char(k);
        if c == '.' || c == ',' {
            break;
        }
        k = k + 1;
    }
    proof {
        lemma_dot_index(b, k - start);
    }
    let ghost w = whole_digits(b);
    assert(w =~= s@.subrange(start as int, k as int));

    let mut whole: u64 = 0;
    let mut i: usize = start;
    while i < k
        invariant
            start <= i <= k <= n,
            n == s@.len(),
            w =~= s@.subrange(start as int, k as int),
            b == unsigned_part(s@),
            w == whole_digits(b),
            dot_index(b) == k - start,
            all_digits(w.take(i - start)),
            whole as int == digits_value(w.take(i - start)),
            whole <= MAX_WHOLE,
        decreases k - i,
    {
        let c = s.get_char(i);
        if c < '0' || c > '9' {
            assert(!is_digit(w[i - start]));
            assert(!all_digits(whole_digits(unsigned_part(s@))));
            return None;
        }
        let d = (c as u32 - '0' as u32) as u64;
        proof {
            lemma_digits_value_step(w, i - start);
            assert(w.take(i - start + 1) =~= w.take(i - start).push(c));
        }
        whole = whole * 10 + d;
        i = i + 1;
        if whole > MAX_WHOLE {
            proof {
                assert(all_digits(w.take(i - start)));
                if all_digits(w) {
                    lemma_digits_value_prefix(w, i - start);
                    if all_digits(fraction_digits(b)) {
                        let f = fraction_digits(b);
                        assert(fraction_digit(f, 0) >= 0 && fraction_digit(f, 1) >= 0) by {
                            if f.len() > 0 {
                                assert(is_digit(f[0]));
                            }
                            if f.len() > 1 {
                                assert(is_digit(f[1]));
                            }
                        }
                        assert(magnitude_hundredths(b) > MAX_HUNDREDTHS);
                    }
                }
            }
            return None;
        }
    }
    assert(w.take(k - start) =~= w);
    let ghost f = fraction_digits(b);

    let mut f0: u64 = 0;
    let mut f1: u64 = 0;
    let mut f2: u64 = 0;
    let mut n_frac: usize = 0;
    if k < n {
        assert(f =~= s@.subrange(k as int + 1, n as int));
        let mut i: usize = k + 1;
        while i < n
            invariant
                k < n,
                k + 1 <= i <= n,
                n == s@.len(),
                f =~= s@.subrange(k as int + 1, n as int),
                b == unsigned_part(s@),
                f == fraction_digits(b),
                all_digits(f.take(i - k - 1)),
                n_frac == i - k - 1,
                f0 as int == fraction_digit(f, 0) || n_frac < 1,
                f1 as int == fraction_digit(f, 1) || n_frac < 2,
                f2 as int == fraction_digit(f, 2) || n_frac < 3,
                n_frac < 1 ==> f0 == 0,
                n_frac < 2 ==> f1 == 0,
                n_frac < 3 ==> f2 == 0,
                f0 <= 9 && f1 <= 9 && f2 <= 9,
            decreases n - i,
        {
            let c = s.get_char(i);
            if c < '0' || c > '9' {
                assert(!is_digit(f[i - k - 1]));
                assert(!all_digits(fraction_digits(unsigned_part(s@))));
                return None;
            }
            let d = (c as u32 - '0' as u32) as u64;
            if n_frac == 0 {
                f0 = d;
            } else if n_frac == 1 {
                f1 = d;
            } else if n_frac == 2 {
                f2 = d;
            }
            assert(f.take(i - k) =~= f.take(i - k - 1).push(c));
            n_frac = n_frac + 1;
            i = i + 1;
        }
        assert(f.take(n - k - 1) =~= f);
    } else {
        assert(f.len() == 0);
    }
    assert(f0 as int == fraction_digit(f, 0));
    assert(f1 as int == fraction_digit(f, 1));
    assert(f2 as int == fraction_digit(f, 2));
    assert(n_frac == f.len());

    if (k - start) + n_frac == 0 {
        return None;
    }
    let round: u64 = if f2 >= 5 { 1 } else { 0 };
    let magnitude: u64 = whole * 100 + f0 * 10 + f1 + round;
    if magnitude > MAX_HUNDREDTHS {
        return None;
    }
    let value: i64 = magnitude as i64;
    if negative {
        Some(-value)
    } else {
        Some(value)
    }
}

/// What `parse_count` yields: the value of a non-empty run of digits that
/// fits in a `u64`, and nothing for any other text.
pub open spec fn count_of(s: Seq<char>) -> Option<int> {
    if s.len() > 0 && all_digits(s) && digits_value(s) <= u64::MAX {
        Some(digits_value(s))
    } else {
        None
    }
}

/// Parses a non-negative whole number written in decimal digits.
pub fn parse_count(s: &str) -> (r: Option<u64>)
    ensures
        match r {
            Some(v) => count_of(s@) == Some(v as int),
            None => count_of(s@) is None,
        },
{
    let n = s.unicode_len();
    if n == 0 {
        return None;
    }
    let mut acc: u64 = 0;
    let mut i: usize = 0;
    while i < n
        invariant
            i <= n,
            n == s@.len(),
            all_digits(s@.take(i as int)),
            acc as int == digits_value(s@.take(i as int)),
        decreases n - i,
    {
        let c = s.get_char(i);
        if c < '0' || c > '9' {
            assert(!is_digit(s@[i as int]));
            return None;
        }
        let d = (c as u32 - '0' as u32) as u64;
        proof {
            lemma_digits_value_step(s@, i as int);
            assert(s@.take(i + 1) =~= s@.take(i as int).push(c));
        }
        if acc > (u64::MAX - d) / 10 {
            proof {
                assert(all_digits(s@.take(i + 1)));
                if all_digits(s@) {
                    lemma_digits_value_prefix(s@, i + 1);
                }
            }
            return None;
        }
        acc = acc * 10 + d;
        i = i + 1;
    }
    assert(s@.take(n as int) =~= s@);
    Some(acc)
}

/// The digits of an unsigned decimal, its separator left out.
pub open spec fn decimal_digits(b: Seq<char>) -> Seq<char> {
    whole_digits(b) + fraction_digits(b)
}

/// The exact value of a decimal is `decimal_numerator(s) / decimal_scale(s)`.
pub open spec fn decimal_numerator(s: Seq<char>) -> int {
    let n = digits_value(decimal_digits(unsigned_part(s)));
    if is_negative(s) {
        -n
    } else {
        n
    }
}

/// A power of ten: one unit of the last fraction digit of `s` is
/// `1 / decimal_scale(s)`.
pub open spec fn decimal_scale(s: Seq<char>) -> nat {
    pow10(fraction_digits(unsigned_part(s)).len())
}

proof fn lemma_digits_value_concat(a: Seq<char>, b: Seq<char>)
    ensures
        digits_value(a + b) == digits_value(a) * pow10(b.len()) + digits_value(b),
    decreases b.len(),
{
    if b.len() == 0 {
        assert(a + b =~= a);
        assert(pow10(0) == 1);
        assert(digits_value(a) * 1 == digits_value(a));
    } else {
        lemma_digits_value_concat(a, b.drop_last());
        assert(pow10(b.len()) == 10 * pow10((b.len() - 1) as nat));
        assert((a + b).drop_last() =~= a + b.drop_last());
        assert((a + b).last() == b.last());
        let x = digits_value(a);
        let y = pow10((b.len() - 1) as nat);
        let z = digits_value(b.drop_last());
        let d = digit_value(b.last());
        assert((x * y + z) * 10 + d == x * (10 * y) + (z * 10 + d)) by (nonlinear_arith);
    }
}

proof fn lemma_digits_value_bound(s: Seq<char>)
    requires
        all_digits(s),
    ensures
        0 <= digits_value(s) < pow10(s.len()),
    decreases s.len(),
{
    if s.len() > 0 {
        lemma_digits_value_bound(s.drop_last());
        assert(is_digit(s[s.len() - 1]));
    }
}

proof fn lemma_pow10_add(a: nat, b: nat)
    ensures
        pow10(a + b) == pow10(a) * pow10(b),
    decreases b,
{
    if b > 0 {
        lemma_pow10_add(a, (b - 1) as nat);
        let x = pow10(a);
        let y = pow10((b - 1) as nat);
        assert(pow10(a + b) == 10 * pow10((a + b - 1) as nat));
        assert(pow10(b) == 10 * y);
        assert((a + b - 1) as nat == a + (b - 1) as nat);
        assert(10 * (x * y) == x * (10 * y)) by (nonlinear_arith);
    } else {
        assert(a + b == a);
        assert(pow10(0) == 1);
        assert(pow10(a) * 1 == pow10(a));
    }
}

/// The magnitude in hundredths is the value times a hundred, rounded half
/// up: `2 * scale * m <= 200 * numerator + scale < 2 * scale * (m + 1)`.
proof fn lemma_magnitude_rounds(b: Seq<char>)
    requires
        all_digits(whole_digits(b)),
        all_digits(fraction_digits(b)),
    ensures
        ({
            let m = magnitude_hundredths(b);
            let n = digits_value(decimal_digits(b));
            let p = pow10(fraction_digits(b).len()) as int;
            2 * p * m <= 200 * n + p && 200 * n + p < 2 * p * (m + 1)
        }),
{
    let w = whole_digits(b);
    let f = fraction_digits(b);
    let fl = f.len();
    lemma_digits_value_concat(w, f);
    let wv = digits_value(w);
    let fr = digits_value(f);
    let p = pow10(fl) as int;
    let g = fraction_digit(f, 0) * 10 + fraction_digit(f, 1) + if fraction_digit(f, 2) >= 5 {
        1int
    } else {
        0int
    };
    assert(magnitude_hundredths(b) == wv * 100 + g);
    if fl < 3 {
        reveal_with_fuel(digits_value, 3);
        reveal_with_fuel(pow10, 3);
        if fl == 0 {
            assert(p == 1 && fr == 0 && g == 0);
        } else if fl == 1 {
            assert(f.drop_last() =~= Seq::<char>::empty());
            assert(p == 10);
            assert(fr == fraction_digit(f, 0));
            assert(g == 10 * fraction_digit(f, 0));
        } else {
            assert(f.drop_last().drop_last() =~= Seq::<char>::empty());
            assert(f.drop_last().last() == f[0]);
            assert(f.last() == f[1]);
            assert(p == 100);
            assert(fr == 10 * fraction_digit(f, 0) + fraction_digit(f, 1));
            assert(g == 10 * fraction_digit(f, 0) + fraction_digit(f, 1));
        }
        assert(2 * p * g <= 200 * fr + p && 200 * fr + p < 2 * p * (g + 1)) by (nonlinear_arith)
            requires
                (p == 1 && fr == 0 && g == 0) || (p == 10 && g == 10 * fr) || (p == 100 && g
                    == fr),
        ;
    } else {
        let head = f.take(3);
        let tail = f.skip(3);
        assert(f =~= head + tail);
        lemma_digits_value_concat(head, tail);
        reveal_with_fuel(digits_value, 4);
        assert(head.drop_last().drop_last().drop_last() =~= Seq::<char>::empty());
        assert(head.drop_last().drop_last().last() == f[0]);
        assert(head.drop_last().last() == f[1]);
        assert(head.last() == f[2]);
        assert(is_digit(f[0]) && is_digit(f[1]) && is_digit(f[2]));
        let t = digits_value(head);
        assert(t == fraction_digit(f, 0) * 100 + fraction_digit(f, 1) * 10 + fraction_digit(f, 2));
        let r = digits_value(tail);
        assert(all_digits(tail));
        lemma_digits_value_bound(tail);
        let q = pow10(tail.len()) as int;
        lemma_pow10_add(3, tail.len());
        reveal_with_fuel(pow10, 4);
        assert(p == 1000 * q);
        assert(fr == t * q + r);
        let h = fraction_digit(f, 0) * 10 + fraction_digit(f, 1);
        let f2 = fraction_digit(f, 2);
        assert(t == 10 * h + f2);
        assert(0 <= f2 <= 9);
        if f2 >= 5 {
            assert(2 * p * g <= 200 * fr + p && 200 * fr + p < 2 * p * (g + 1)) by (nonlinear_arith)
                requires
                    p == 1000 * q,
                    fr == t * q + r,
                    t == 10 * h + f2,
                    g == h + 1,
                    5 <= f2 <= 9,
                    0 <= r < q,
            ;
        } else {
            assert(2 * p * g <= 200 * fr + p && 200 * fr + p < 2 * p * (g + 1)) by (nonlinear_arith)
                requires
                    p == 1000 * q,
                    fr == t * q + r,
                    t == 10 * h + f2,
                    g == h,
                    0 <= f2 <= 4,
                    0 <= r < q,
            ;
        }
    }
    let n = digits_value(decimal_digits(b));
    assert(n == wv * p + fr);
    let m = wv * 100 + g;
    assert(2 * p * m <= 200 * n + p && 200 * n + p < 2 * p * (m + 1)) by (nonlinear_arith)
        requires
            n == wv * p + fr,
            m == wv * 100 + g,
            2 * p * g <= 200 * fr + p,
            200 * fr + p < 2 * p * (g + 1),
    ;
}

proof fn lemma_rounding_monotone(m1: int, n1: int, p1: int, m2: int, n2: int, p2: int)
    requires
        p1 >= 1,
        p2 >= 1,
        2 * p1 * m1 <= 200 * n1 + p1,
        200 * n2 + p2 < 2 * p2 * (m2 + 1),
        n1 * p2 <= n2 * p1,
    ensures
        m1 <= m2,
{
    assert(2 * p1 * p2 * m1 <= 200 * n1 * p2 + p1 * p2) by (nonlinear_arith)
        requires
            p2 >= 1,
            2 * p1 * m1 <= 200 * n1 + p1,
    ;
    assert(200 * n2 * p1 + p1 * p2 < 2 * p1 * p2 * (m2 + 1)) by (nonlinear_arith)
        requires
            p1 >= 1,
            200 * n2 + p2 < 2 * p2 * (m2 + 1),
    ;
    assert(200 * n1 * p2 <= 200 * n2 * p1) by (nonlinear_arith)
        requires
            n1 * p2 <= n2 * p1,
    ;
    assert(m1 < m2 + 1) by (nonlinear_arith)
        requires
            p1 >= 1,
            p2 >= 1,
            2 * p1 * p2 * m1 < 2 * p1 * p2 * (m2 + 1),
    ;
}

/// Rounding to hundredths keeps order: of two decimals, the one of smaller
/// exact value never gets more hundredths than the other.
pub proof fn lemma_hundredths_monotone(x: Seq<char>, y: Seq<char>)
    requires
        hundredths_of(x) is Some,
        hundredths_of(y) is Some,
        decimal_numerator(x) * decimal_scale(y) <= decimal_numerator(y) * decimal_scale(x),
    ensures
        hundredths_of(x)->0 <= hundredths_of(y)->0,
{
    let bx = unsigned_part(x);
    let by_ = unsigned_part(y);
    lemma_magnitude_rounds(bx);
    lemma_magnitude_rounds(by_);
    let mx = magnitude_hundredths(bx);
    let my = magnitude_hundredths(by_);
    let nx = digits_value(decimal_digits(bx));
    let ny = digits_value(decimal_digits(by_));
    let px = decimal_scale(x) as int;
    let py = decimal_scale(y) as int;
    lemma_pow10_positive(fraction_digits(bx).len());
    lemma_pow10_positive(fraction_digits(by_).len());
    assert(all_digits(decimal_digits(bx))) by {
        assert forall|i: int| 0 <= i < decimal_digits(bx).len() implies is_digit(
            #[trigger] decimal_digits(bx)[i],
        ) by {
            if i >= whole_digits(bx).len() {
                assert(decimal_digits(bx)[i] == fraction_digits(bx)[i - whole_digits(bx).len()]);
            }
        }
    }
    assert(all_digits(decimal_digits(by_))) by {
        assert forall|i: int| 0 <= i < decimal_digits(by_).len() implies is_digit(
            #[trigger] decimal_digits(by_)[i],
        ) by {
            if i >= whole_digits(by_).len() {
                assert(decimal_digits(by_)[i] == fraction_digits(by_)[i - whole_digits(by_).len()]);
            }
        }
    }
    lemma_digits_value_prefix(decimal_digits(bx), 0);
    lemma_digits_value_prefix(decimal_digits(by_), 0);
    assert(0 <= mx) by (nonlinear_arith)
        requires
            px >= 1,
            nx >= 0,
            200 * nx + px < 2 * px * (mx + 1),
    ;
    assert(0 <= my) by (nonlinear_arith)
        requires
            py >= 1,
            ny >= 0,
            200 * ny + py < 2 * py * (my + 1),
    ;
    if !is_negative(x) && !is_negative(y) {
        lemma_rounding_monotone(mx, nx, px, my, ny, py);
    } else if is_negative(x) && is_negative(y) {
        assert(ny * px <= nx * py) by (nonlinear_arith)
            requires
                (-nx) * py <= (-ny) * px,
        ;
        lemma_rounding_monotone(my, ny, py, mx, nx, px);
    } else if !is_negative(x) && is_negative(y) {
        assert(nx == 0 && ny == 0) by (nonlinear_arith)
            requires
                nx * py <= (-ny) * px,
                nx >= 0,
                ny >= 0,
                px >= 1,
                py >= 1,
        ;
        assert(mx == 0 && my == 0) by (nonlinear_arith)
            requires
                nx == 0,
                ny == 0,
                2 * px * mx <= px,
                2 * py * my <= py,
                mx >= 0,
                my >= 0,
                px >= 1,
                py >= 1,
        ;
    }
}

} // verus!
