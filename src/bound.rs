use vstd::prelude::*;

use crate::decimal::{
    all_digits, digit_value, digits_value, is_digit, is_negative, is_sign,
    lemma_digits_value_prefix, lemma_digits_value_step, unsigned_part, MAX_HUNDREDTHS,
};
use crate::text::chars_of;

verus! {

/// Exponents whose magnitude exceeds this are told apart only by their
/// sign: past it, any number with a non-zero digit is out of range, and
/// any negative exponent leaves less than a thousandth.
const EXPONENT_CAP: u128 = 1267650600228229401496703205376;

pub open spec fn is_exponent_mark(c: char) -> bool {
    c == 'e' || c == 'E'
}

/// The index of the first `c` in `s`, or `s.len()` when there is none.
pub open spec fn index_of(s: Seq<char>, c: char) -> int
    decreases s.len(),
{
    if s.len() == 0 {
        0
    } else if s[0] == c {
        0
    } else {
        1 + index_of(s.drop_first(), c)
    }
}

/// The index of the first exponent mark in `s`, or `s.len()`.
pub open spec fn exponent_index(s: Seq<char>) -> int
    decreases s.len(),
{
    if s.len() == 0 {
        0
    } else if is_exponent_mark(s[0]) {
        0
    } else {
        1 + exponent_index(s.drop_first())
    }
}

/// What precedes the exponent mark of an unsigned number.
pub open spec fn mantissa(b: Seq<char>) -> Seq<char> {
    b.take(exponent_index(b))
}

/// The digits of a mantissa before its point.
pub open spec fn point_whole(m: Seq<char>) -> Seq<char> {
    m.take(index_of(m, '.'))
}

/// The digits of a mantissa after its point (none when there is no point).
pub open spec fn point_fraction(m: Seq<char>) -> Seq<char> {
    if index_of(m, '.') < m.len() {
        m.skip(index_of(m, '.') + 1)
    } else {
        Seq::empty()
    }
}

/// What follows the exponent mark of an unsigned number, if it has one.
pub open spec fn exponent_text(b: Seq<char>) -> Option<Seq<char>> {
    if exponent_index(b) < b.len() {
        Some(b.skip(exponent_index(b) + 1))
    } else {
        None
    }
}

/// `s` is a floating-point number written in decimal:
/// `[+-]?[0-9]*(\.[0-9]*)?([eE][+-]?[0-9]+)?` with at least one digit
/// before the exponent.
pub open spec fn is_float_token(s: Seq<char>) -> bool {
    let b = unsigned_part(s);
    let m = mantissa(b);
    &&& all_digits(point_whole(m))
    &&& all_digits(point_fraction(m))
    &&& point_whole(m).len() + point_fraction(m).len() > 0
    &&& match exponent_text(b) {
        Some(x) => unsigned_part(x).len() > 0 && all_digits(unsigned_part(x)),
        None => true,
    }
}

/// The exponent of an unsigned number; zero when it has none.
pub open spec fn exponent_value(b: Seq<char>) -> int {
    match exponent_text(b) {
        Some(x) => if is_negative(x) {
            -digits_value(unsigned_part(x))
        } else {
            digits_value(unsigned_part(x))
        },
        None => 0,
    }
}

/// All digits of the mantissa, the point left out.
pub open spec fn mantissa_digits(b: Seq<char>) -> Seq<char> {
    point_whole(mantissa(b)) + point_fraction(mantissa(b))
}

/// Where the point of the value in hundredths falls among the mantissa
/// digits.
pub open spec fn hundredths_point(b: Seq<char>) -> int {
    point_whole(mantissa(b)).len() + exponent_value(b) + 2
}

pub open spec fn pow10(k: nat) -> nat
    decreases k,
{
    if k == 0 {
        1
    } else {
        10 * pow10((k - 1) as nat)
    }
}

/// The whole part of the number whose digits are `d` with the point after
/// the first `q` of them (zeros added where `q` goes past them).
pub open spec fn shifted_value(d: Seq<char>, q: int) -> int {
    if q <= 0 {
        0
    } else if q <= d.len() {
        digits_value(d.take(q))
    } else {
        digits_value(d) * pow10((q - d.len()) as nat)
    }
}

/// Whether the first digit dropped by `shifted_value` rounds it up.
pub open spec fn rounds_up(d: Seq<char>, q: int) -> bool {
    0 <= q < d.len() && digit_value(d[q]) >= 5
}

/// The magnitude of an unsigned number in hundredths, rounded half away
/// from zero.
pub open spec fn bound_magnitude(b: Seq<char>) -> int {
    let d = mantissa_digits(b);
    let q = hundredths_point(b);
    shifted_value(d, q) + if rounds_up(d, q) {
        1int
    } else {
        0int
    }
}

/// What `parse_bound` yields: the value in hundredths of a floating-point
/// number whose magnitude fits, and nothing for any other text.
pub open spec fn bound_hundredths(s: Seq<char>) -> Option<int> {
    let m = bound_magnitude(unsigned_part(s));
    if is_float_token(s) && m <= MAX_HUNDREDTHS {
        Some(
            if is_negative(s) {
                -m
            } else {
                m
            },
        )
    } else {
        None
    }
}

proof fn lemma_index_of(s: Seq<char>, c: char, k: int)
    requires
        0 <= k <= s.len(),
        forall|j: int| 0 <= j < k ==> s[j] != c,
        k == s.len() || s[k] == c,
    ensures
        index_of(s, c) == k,
    decreases k,
{
    if k > 0 {
        lemma_index_of(s.drop_first(), c, k - 1);
    }
}

proof fn lemma_exponent_index(s: Seq<char>, k: int)
    requires
        0 <= k <= s.len(),
        forall|j: int| 0 <= j < k ==> !is_exponent_mark(s[j]),
        k == s.len() || is_exponent_mark(s[k]),
    ensures
        exponent_index(s) == k,
    decreases k,
{
    if k > 0 {
        lemma_exponent_index(s.drop_first(), k - 1);
    }
}

proof fn lemma_index_of_bounds(s: Seq<char>, c: char)
    ensures
        0 <= index_of(s, c) <= s.len(),
        index_of(s, c) < s.len() ==> s[index_of(s, c)] == c,
    decreases s.len(),
{
    if s.len() > 0 && s[0] != c {
        lemma_index_of_bounds(s.drop_first(), c);
    }
}

proof fn lemma_exponent_index_bounds(s: Seq<char>)
    ensures
        0 <= exponent_index(s) <= s.len(),
        exponent_index(s) < s.len() ==> is_exponent_mark(s[exponent_index(s)]),
    decreases s.len(),
{
    if s.len() > 0 && !is_exponent_mark(s[0]) {
        lemma_exponent_index_bounds(s.drop_first());
    }
}

pub proof fn lemma_pow10_positive(k: nat)
    ensures
        pow10(k) >= 1,
    decreases k,
{
    if k > 0 {
        lemma_pow10_positive((k - 1) as nat);
    }
}

proof fn lemma_pow10_monotone(a: nat, b: nat)
    requires
        a <= b,
    ensures
        pow10(a) <= pow10(b),
    decreases b,
{
    if a < b {
        lemma_pow10_monotone(a, (b - 1) as nat);
        lemma_pow10_positive((b - 1) as nat);
    }
}

proof fn lemma_pow10_large(k: nat)
    requires
        k >= 19,
    ensures
        pow10(k) > MAX_HUNDREDTHS,
{
    reveal_with_fuel(pow10, 20);
    lemma_pow10_monotone(19, k);
}

proof fn lemma_digits_value_nonneg(s: Seq<char>)
    requires
        all_digits(s),
    ensures
        digits_value(s) >= 0,
{
    lemma_digits_value_prefix(s, 0);
}

proof fn lemma_digits_zero(s: Seq<char>)
    requires
        all_digits(s),
    ensures
        digits_value(s) == 0 <==> forall|j: int| 0 <= j < s.len() ==> s[j] == '0',
    decreases s.len(),
{
    if s.len() > 0 {
        let p = s.drop_last();
        lemma_digits_zero(p);
        lemma_digits_value_nonneg(p);
        assert(is_digit(s[s.len() - 1]));
        if digits_value(s) == 0 {
            assert forall|j: int| 0 <= j < s.len() implies s[j] == '0' by {
                if j < s.len() - 1 {
                    assert(s[j] == p[j]);
                }
            }
        }
        if forall|j: int| 0 <= j < s.len() ==> s[j] == '0' {
            assert forall|j: int| 0 <= j < p.len() implies p[j] == '0' by {
                assert(s[j] == p[j]);
            }
            assert(s[s.len() - 1] == '0');
        }
    }
}

/// A floating-point number holds only signs, digits, a point and an
/// exponent mark: never `c`, when `c` is none of those.
pub proof fn lemma_float_chars(s: Seq<char>, c: char)
    requires
        is_float_token(s),
        !is_sign(c),
        !is_digit(c),
        c != '.',
        !is_exponent_mark(c),
    ensures
        !s.contains(c),
{
    let b = unsigned_part(s);
    let off: int = if s.len() > 0 && is_sign(s[0]) {
        1
    } else {
        0
    };
    lemma_exponent_index_bounds(b);
    let k = exponent_index(b);
    let m = mantissa(b);
    lemma_index_of_bounds(m, '.');
    let p = index_of(m, '.');
    assert forall|i: int| 0 <= i < s.len() implies s[i] != c by {
        if i >= off {
            let j = i - off;
            assert(b[j] == s[i]);
            if j < k {
                assert(m[j] == b[j]);
                if j < p {
                    assert(point_whole(m)[j] == m[j]);
                } else if j > p {
                    assert(point_fraction(m)[j - p - 1] == m[j]);
                }
            } else if j > k {
                let x = b.skip(k + 1);
                assert(x[j - k - 1] == b[j]);
                if !(j - k - 1 == 0 && is_sign(x[0])) {
                    let xo: int = if x.len() > 0 && is_sign(x[0]) {
                        1
                    } else {
                        0
                    };
                    assert(unsigned_part(x)[j - k - 1 - xo] == x[j - k - 1]);
                }
            }
        }
    }
}

/// The digits of the mantissa `cs[start..k]`, the point left out, and how
/// many stand before the point; `None` where the mantissa is not digits with
/// at most one point.
fn mantissa_parts(cs: &Vec<char>, start: usize, k: usize) -> (r: Option<(Vec<char>, usize)>)
    requires
        start <= k <= cs@.len(),
    ensures
        ({
            let m = cs@.subrange(start as int, k as int);
            match r {
                Some((d, wl)) => all_digits(point_whole(m)) && all_digits(point_fraction(m))
                    && d@ == point_whole(m) + point_fraction(m) && wl == point_whole(m).len(),
                None => !(all_digits(point_whole(m)) && all_digits(point_fraction(m))),
            }
        }),
        r matches Some((_, wl)) ==> wl <= k - start,
{
    let ghost m = cs@.subrange(start as int, k as int);
    let mut p: usize = start;
    loop
        invariant
            start <= p <= k <= cs@.len(),
            forall|j: int| start <= j < p ==> cs@[j] != '.',
        ensures
            p == k || cs@[p as int] == '.',
        decreases k - p,
    {
        if p == k {
            break;
        }
        if cs[p] == '.' {
            break;
        }
        p = p + 1;
    }
    proof {
        lemma_index_of(m, '.', p - start);
    }
    let ghost whole = point_whole(m);
    let ghost frac = point_fraction(m);
    assert(whole =~= cs@.subrange(start as int, p as int));
    let mut d: Vec<char> = Vec::new();
    let mut i: usize = start;
    while i < p
        invariant
            start <= i <= p <= k <= cs@.len(),
            m == cs@.subrange(start as int, k as int),
            whole == point_whole(m),
            whole =~= cs@.subrange(start as int, p as int),
            d@ =~= cs@.subrange(start as int, i as int),
            all_digits(d@),
        decreases p - i,
    {
        let c = cs[i];
        if c < '0' || c > '9' {
            assert(!is_digit(whole[i - start]));
            return None;
        }
        d.push(c);
        i = i + 1;
    }
    if p < k {
        assert(frac =~= cs@.subrange(p + 1, k as int));
        let mut i: usize = p + 1;
        while i < k
            invariant
                p < i <= k <= cs@.len(),
                m == cs@.subrange(start as int, k as int),
                whole == point_whole(m),
                frac == point_fraction(m),
                frac =~= cs@.subrange(p + 1, k as int),
                d@ =~= whole + cs@.subrange(p + 1, i as int),
                all_digits(whole),
                all_digits(d@),
            decreases k - i,
        {
            let c = cs[i];
            if c < '0' || c > '9' {
                assert(!is_digit(frac[i - p - 1]));
                return None;
            }
            d.push(c);
            i = i + 1;
        }
        assert(d@ =~= whole + frac);
        assert forall|j: int| 0 <= j < frac.len() implies is_digit(#[trigger] frac[j]) by {
            assert(frac[j] == d@[whole.len() + j]);
        }
    } else {
        assert(frac.len() == 0);
        assert(d@ =~= whole + frac);
    }
    Some((d, p - start))
}

/// The sign of the exponent `cs[j0..]` and its value, exact up to
/// `EXPONENT_CAP` and only known to exceed it beyond; `None` where it is not
/// an optional sign and at least one digit.
fn exponent_parts(cs: &Vec<char>, j0: usize) -> (r: Option<(bool, u128)>)
    requires
        j0 <= cs@.len(),
    ensures
        ({
            let x = cs@.skip(j0 as int);
            let u = unsigned_part(x);
            match r {
                Some((neg, e)) => {
                    &&& u.len() > 0
                    &&& all_digits(u)
                    &&& neg == is_negative(x)
                    &&& e <= EXPONENT_CAP ==> e as int == digits_value(u)
                    &&& e > EXPONENT_CAP ==> digits_value(u) > EXPONENT_CAP
                },
                None => !(u.len() > 0 && all_digits(u)),
            }
        }),
{
    let ghost x = cs@.skip(j0 as int);
    let n = cs.len();
    let mut j: usize = j0;
    let mut neg = false;
    if j < n && (cs[j] == '+' || cs[j] == '-') {
        neg = cs[j] == '-';
        j = j + 1;
    }
    let ghost u = unsigned_part(x);
    assert(x.len() > 0 ==> x[0] == cs@[j0 as int]);
    assert(u =~= cs@.subrange(j as int, n as int));
    if j == n {
        assert(u.len() == 0);
        return None;
    }
    let j1 = j;
    let mut e: u128 = 0;
    while j < n
        invariant
            j0 <= j1 <= j <= n == cs@.len(),
            x == cs@.skip(j0 as int),
            u == unsigned_part(x),
            u =~= cs@.subrange(j1 as int, n as int),
            all_digits(u.take(j - j1)),
            e <= EXPONENT_CAP ==> e as int == digits_value(u.take(j - j1)),
            e > EXPONENT_CAP ==> digits_value(u.take(j - j1)) > EXPONENT_CAP,
            e <= 10 * EXPONENT_CAP + 9,
        decreases n - j,
    {
        let c = cs[j];
        if c < '0' || c > '9' {
            assert(!is_digit(u[j - j1]));
            return None;
        }
        let dg = (c as u32 - '0' as u32) as u128;
        proof {
            lemma_digits_value_step(u, j - j1);
            assert(u.take(j - j1 + 1) =~= u.take(j - j1).push(c));
            lemma_digits_value_nonneg(u.take(j - j1));
        }
        if e <= EXPONENT_CAP {
            e = e * 10 + dg;
        }
        j = j + 1;
    }
    assert(u.take(n - j1) =~= u);
    Some((neg, e))
}

/// Whether some digit of `d` is not zero.
fn has_nonzero(d: &Vec<char>) -> (r: bool)
    requires
        all_digits(d@),
    ensures
        r == (digits_value(d@) != 0),
{
    proof {
        lemma_digits_zero(d@);
    }
    let mut t: usize = 0;
    while t < d.len()
        invariant
            t <= d@.len(),
            all_digits(d@),
            forall|j: int| 0 <= j < t ==> d@[j] == '0',
        decreases d.len() - t,
    {
        if d[t] != '0' {
            assert(d@[t as int] != '0');
            proof {
                lemma_digits_zero(d@);
            }
            return true;
        }
        t = t + 1;
    }
    false
}

/// The value of the first `q` digits of `d`, which must not exceed
/// `MAX_HUNDREDTHS`.
fn prefix_value(d: &Vec<char>, q: usize) -> (r: Option<u128>)
    requires
        all_digits(d@),
        q <= d@.len(),
    ensures
        match r {
            Some(v) => v as int == digits_value(d@.take(q as int)) && v <= MAX_HUNDREDTHS,
            None => digits_value(d@.take(q as int)) > MAX_HUNDREDTHS,
        },
{
    let ghost t = d@.take(q as int);
    let mut v: u128 = 0;
    let mut i: usize = 0;
    while i < q
        invariant
            i <= q <= d@.len(),
            t == d@.take(q as int),
            all_digits(d@),
            v as int == digits_value(d@.take(i as int)),
            v <= MAX_HUNDREDTHS,
        decreases q - i,
    {
        let c = d[i];
        proof {
            lemma_digits_value_step(d@, i as int);
        }
        v = v * 10 + (c as u32 - '0' as u32) as u128;
        i = i + 1;
        if v > MAX_HUNDREDTHS as u128 {
            proof {
                assert(t.take(i as int) =~= d@.take(i as int));
                assert(all_digits(t));
                lemma_digits_value_prefix(t, i as int);
            }
            return None;
        }
    }
    Some(v)
}

/// `shifted_value(d, q)` where it does not exceed `MAX_HUNDREDTHS`.
fn shifted_of(d: &Vec<char>, q: i128) -> (r: Option<u128>)
    requires
        all_digits(d@),
    ensures
        match r {
            Some(v) => v as int == shifted_value(d@, q as int) && v <= MAX_HUNDREDTHS,
            None => shifted_value(d@, q as int) > MAX_HUNDREDTHS,
        },
{
    let len = d.len();
    if q <= 0 {
        return Some(0);
    }
    if q <= len as i128 {
        return prefix_value(d, q as usize);
    }
    assert(d@.take(len as int) =~= d@);
    let ghost dv = digits_value(d@);
    proof {
        lemma_digits_value_nonneg(d@);
    }
    let extra: i128 = q - len as i128;
    proof {
        lemma_pow10_positive(extra as nat);
    }
    let mut v = match prefix_value(d, len) {
        Some(v) => v,
        None => {
            proof {
                let pw = pow10(extra as nat);
                assert(dv * pw >= dv) by (nonlinear_arith)
                    requires
                        dv >= 0,
                        pw >= 1,
                ;
            }
            return None;
        },
    };
    let mut t: i128 = 0;
    assert(pow10(0) == 1);
    assert(dv * 1 == dv);
    while t < extra && v != 0
        invariant
            0 <= t <= extra,
            extra as int == q - d@.len(),
            dv == digits_value(d@),
            dv >= 0,
            v as int == dv * pow10(t as nat),
            v <= MAX_HUNDREDTHS,
        decreases extra - t,
    {
        proof {
            let a = pow10(t as nat);
            assert(pow10((t + 1) as nat) == 10 * a);
            assert(dv * (10 * a) == 10 * (dv * a)) by (nonlinear_arith);
        }
        v = v * 10;
        t = t + 1;
        if v > MAX_HUNDREDTHS as u128 {
            proof {
                lemma_pow10_monotone(t as nat, extra as nat);
                let a = pow10(t as nat);
                let c = pow10(extra as nat);
                assert(dv * c >= dv * a) by (nonlinear_arith)
                    requires
                        dv >= 0,
                        c >= a,
                ;
            }
            return None;
        }
    }
    proof {
        if v == 0 && t < extra {
            lemma_pow10_positive(t as nat);
            let a = pow10(t as nat);
            assert(dv == 0) by (nonlinear_arith)
                requires
                    dv * a == 0,
                    a >= 1,
                    dv >= 0,
            ;
            assert(shifted_value(d@, q as int) == dv * pow10(extra as nat));
            assert(0 * pow10(extra as nat) == 0);
        } else {
            assert(t == extra);
        }
    }
    Some(v)
}

/// Parses a floating-point number written in decimal, with an optional
/// exponent, into hundredths, rounding half away from zero; text that is no
/// such number, or whose magnitude exceeds `MAX_HUNDREDTHS`, gives `None`.
#[verifier::rlimit(80)]
pub fn parse_bound(s: &str) -> (r: Option<i64>)
    ensures
        match r {
            Some(v) => bound_hundredths(s@) == Some(v as int),
            None => bound_hundredths(s@) is None,
        },
{
    let cs = chars_of(s);
    let n = cs.len();
    let mut start: usize = 0;
    let mut negative = false;
    if n > 0 && (cs[0] == '+' || cs[0] == '-') {
        start = 1;
        negative = cs[0] == '-';
    }
    let ghost b = unsigned_part(s@);
    assert(b =~= cs@.skip(start as int));

    let mut k: usize = start;
    loop
        invariant
            start <= k <= n,
            n == cs@.len(),
            forall|j: int| start <= j < k ==> !is_exponent_mark(cs@[j]),
        ensures
            k == n || is_exponent_mark(cs@[k as int]),
        decreases n - k,
    {
        if k == n {
            break;
        }
        if cs[k] == 'e' || cs[k] == 'E' {
            break;
        }
        k = k + 1;
    }
    proof {
        lemma_exponent_index(b, k - start);
    }
    let ghost m = mantissa(b);
    assert(m =~= cs@.subrange(start as int, k as int));
    let (d, whole_len) = match mantissa_parts(&cs, start, k) {
        Some(parts) => parts,
        None => {
            return None;
        },
    };
    let ghost digits = mantissa_digits(b);
    assert(d@ == digits);
    if d.len() == 0 {
        return None;
    }
    let mut exp_negative = false;
    let mut exp: u128 = 0;
    if k < n {
        assert(exponent_text(b) == Some(cs@.skip(k + 1)));
        assert(b.skip(k - start + 1) =~= cs@.skip(k + 1));
        match exponent_parts(&cs, k + 1) {
            Some((neg, e)) => {
                exp_negative = neg;
                exp = e;
            },
            None => {
                return None;
            },
        }
    } else {
        assert(exponent_text(b) is None);
    }
    assert(is_float_token(s@));
    assert(exp <= EXPONENT_CAP ==> exp as int == if exp_negative {
        -exponent_value(b)
    } else {
        exponent_value(b)
    });
    proof {
        lemma_digits_value_nonneg(digits);
    }

    if exp > EXPONENT_CAP {
        // Past the cap only the sign of the exponent and whether any digit
        // is non-zero decide.
        assert(whole_len <= n);
        if exp_negative {
            assert(hundredths_point(b) < 0);
            return Some(0);
        }
        assert(hundredths_point(b) - digits.len() >= 19);
        proof {
            lemma_pow10_large((hundredths_point(b) - digits.len()) as nat);
        }
        if has_nonzero(&d) {
            proof {
                let pw = pow10((hundredths_point(b) - digits.len()) as nat);
                let dv = digits_value(digits);
                assert(dv * pw >= pw) by (nonlinear_arith)
                    requires
                        dv >= 1,
                        pw >= 1,
                ;
            }
            return None;
        }
        proof {
            let pw = pow10((hundredths_point(b) - digits.len()) as nat);
            assert(digits_value(digits) * pw == 0);
        }
        return Some(0);
    }

    let q: i128 = if exp_negative {
        whole_len as i128 + 2 - exp as i128
    } else {
        whole_len as i128 + 2 + exp as i128
    };
    assert(q as int == hundredths_point(b));
    let shifted = match shifted_of(&d, q) {
        Some(v) => v,
        None => {
            return None;
        },
    };
    let len = d.len();
    let round: u128 = if q >= 0 && q < len as i128 && d[q as usize] >= '5' {
        1
    } else {
        0
    };
    proof {
        if 0 <= q < len {
            assert(is_digit(digits[q as int]));
        }
    }
    let magnitude = shifted + round;
    if magnitude > MAX_HUNDREDTHS as u128 {
        return None;
    }
    let value = magnitude as i64;
    if negative {
        Some(-value)
    } else {
        Some(value)
    }
}

/// A single digit is a number worth that many units.
pub proof fn lemma_single_digit_bound(c: char)
    requires
        is_digit(c),
    ensures
        bound_hundredths(seq![c]) == Some(digit_value(c) * 100),
{
    let s = seq![c];
    assert(unsigned_part(s) == s);
    lemma_exponent_index(s, 1);
    assert(mantissa(s) =~= s);
    lemma_index_of(s, '.', 1);
    assert(point_whole(s) =~= s);
    assert(point_fraction(s) =~= Seq::<char>::empty());
    assert(exponent_text(s) is None);
    assert(mantissa_digits(s) =~= s);
    assert(s.drop_last() =~= Seq::<char>::empty());
    reveal_with_fuel(digits_value, 2);
    assert(s.last() == c);
    assert(digits_value(s) == digit_value(c));
    assert(hundredths_point(s) == 3);
    reveal_with_fuel(pow10, 3);
    assert(shifted_value(s, 3) == digit_value(c) * 100);
}

} // verus!
