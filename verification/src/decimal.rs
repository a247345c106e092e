//! Decimal number texts: runs of digits and their values, and the number
//! syntax that `f64` parsing accepts for finite values (an optional sign,
//! digits with at most one `.`, an optional exponent).

use vstd::prelude::*;

verus! {

// ---------------------------------------------------------------------------
// Digits and their values.
// ---------------------------------------------------------------------------

/// An ASCII decimal digit.
pub open spec fn is_digit_char(c: char) -> bool {
    '0' <= c && c <= '9'
}

/// Value of a decimal digit character.
pub open spec fn digit_value(c: char) -> int {
    c as int - '0' as int
}

/// Every character of `s` is a decimal digit.
pub open spec fn all_digits(s: Seq<char>) -> bool {
    forall|i: int| 0 <= i < s.len() ==> is_digit_char(#[trigger] s[i])
}

/// Every character of `s` is `0`.
pub open spec fn all_zeros(s: Seq<char>) -> bool {
    forall|i: int| 0 <= i < s.len() ==> #[trigger] s[i] == '0'
}

/// Value of a run of decimal digits, most significant first.
pub open spec fn digits_value(s: Seq<char>) -> int
    decreases s.len(),
{
    if s.len() == 0 {
        0
    } else {
        digits_value(s.drop_last()) * 10 + digit_value(s.last())
    }
}

/// `10` to the power `n`.
pub open spec fn pow10(n: nat) -> int
    decreases n,
{
    if n == 0 {
        1
    } else {
        10 * pow10((n - 1) as nat)
    }
}

/// The first `t` digits of `d`, continued with `0`s past its end.
pub open spec fn padded_prefix(d: Seq<char>, t: int) -> Seq<char> {
    Seq::new(t as nat, |i: int| if i < d.len() { d[i] } else { '0' })
}

/// `m × 10^e`, rounded down.
pub open spec fn scaled_floor(m: int, e: int) -> int {
    if e >= 0 {
        m * pow10(e as nat)
    } else {
        m / pow10((-e) as nat)
    }
}

/// `m × 10^e` is a whole number.
pub open spec fn scaled_exact(m: int, e: int) -> bool {
    e >= 0 || m % pow10((-e) as nat) == 0
}

pub(crate) proof fn lemma_pow10_pos(n: nat)
    ensures
        pow10(n) > 0,
    decreases n,
{
    if n > 0 {
        lemma_pow10_pos((n - 1) as nat);
    }
}

proof fn lemma_pow10_add(a: nat, b: nat)
    ensures
        pow10(a + b) == pow10(a) * pow10(b),
    decreases a,
{
    if a > 0 {
        lemma_pow10_add((a - 1) as nat, b);
        assert(pow10(a + b) == 10 * pow10((a - 1 + b) as nat));
        assert(10 * (pow10((a - 1) as nat) * pow10(b)) == (10 * pow10((a - 1) as nat)) * pow10(b))
            by (nonlinear_arith);
    }
}

pub(crate) proof fn lemma_pow10_mono(a: nat, b: nat)
    requires
        a <= b,
    ensures
        pow10(a) <= pow10(b),
    decreases b,
{
    if a < b {
        lemma_pow10_mono(a, (b - 1) as nat);
        lemma_pow10_pos((b - 1) as nat);
    }
}

proof fn lemma_pow10_values()
    ensures
        pow10(8) == 100_000_000,
        pow10(11) == 100_000_000_000,
{
    reveal_with_fuel(pow10, 12);
}

pub(crate) proof fn lemma_digits_concat(a: Seq<char>, b: Seq<char>)
    ensures
        digits_value(a + b) == digits_value(a) * pow10(b.len()) + digits_value(b),
    decreases b.len(),
{
    if b.len() == 0 {
        assert(a + b =~= a);
    } else {
        let b1 = b.drop_last();
        lemma_digits_concat(a, b1);
        assert((a + b).drop_last() =~= a + b1);
        assert((a + b).last() == b.last());
        let x = digits_value(a);
        let p = pow10(b1.len());
        let y = digits_value(b1);
        assert(pow10(b.len()) == 10 * p);
        assert((x * p + y) * 10 == x * (10 * p) + y * 10) by (nonlinear_arith);
    }
}

proof fn lemma_digits_bound(s: Seq<char>)
    requires
        all_digits(s),
    ensures
        0 <= digits_value(s) < pow10(s.len()),
    decreases s.len(),
{
    if s.len() > 0 {
        let s1 = s.drop_last();
        assert(all_digits(s1)) by {
            assert forall|i: int| 0 <= i < s1.len() implies is_digit_char(#[trigger] s1[i]) by {
                assert(s1[i] == s[i]);
            }
        }
        lemma_digits_bound(s1);
        assert(is_digit_char(s[s.len() - 1]));
        let v = digits_value(s1);
        let p = pow10(s1.len());
        assert(v * 10 + 9 < 10 * p) by (nonlinear_arith)
            requires
                0 <= v < p,
        ;
    }
}

pub(crate) proof fn lemma_digits_zero(s: Seq<char>)
    requires
        all_digits(s),
    ensures
        digits_value(s) == 0 <==> all_zeros(s),
    decreases s.len(),
{
    if s.len() > 0 {
        let s1 = s.drop_last();
        assert(all_digits(s1)) by {
            assert forall|i: int| 0 <= i < s1.len() implies is_digit_char(#[trigger] s1[i]) by {
                assert(s1[i] == s[i]);
            }
        }
        lemma_digits_zero(s1);
        lemma_digits_bound(s1);
        assert(is_digit_char(s[s.len() - 1]));
        if all_zeros(s) {
            assert forall|i: int| 0 <= i < s1.len() implies #[trigger] s1[i] == '0' by {
                assert(s1[i] == s[i]);
            }
            assert(s[s.len() - 1] == '0');
        }
        if digits_value(s) == 0 {
            assert(digits_value(s1) == 0);
            assert forall|i: int| 0 <= i < s.len() implies #[trigger] s[i] == '0' by {
                if i < s1.len() {
                    assert(s1[i] == s[i]);
                }
            }
        }
    }
}

pub(crate) proof fn lemma_digits_lead(s: Seq<char>)
    requires
        all_digits(s),
        s.len() > 0,
        s[0] != '0',
    ensures
        digits_value(s) >= pow10((s.len() - 1) as nat),
{
    let a = s.take(1);
    let b = s.skip(1);
    assert(a + b =~= s);
    lemma_digits_concat(a, b);
    assert(a.drop_last() =~= Seq::<char>::empty());
    assert(a.last() == s[0]);
    assert(digits_value(a.drop_last()) == 0);
    assert(digits_value(a) == digit_value(s[0]));
    assert(all_digits(b)) by {
        assert forall|i: int| 0 <= i < b.len() implies is_digit_char(#[trigger] b[i]) by {
            assert(b[i] == s[i + 1]);
        }
    }
    lemma_digits_bound(b);
    lemma_pow10_pos(b.len());
    let p = pow10(b.len());
    let d = digit_value(s[0]);
    assert(d * p >= p) by (nonlinear_arith)
        requires
            d >= 1,
            p > 0,
    ;
}

/// Leading zeros add nothing to the value of a run of digits.
pub(crate) proof fn lemma_digits_skip_zeros(d: Seq<char>, lz: int)
    requires
        0 <= lz <= d.len(),
        all_zeros(d.take(lz)),
    ensures
        digits_value(d) == digits_value(d.skip(lz)),
{
    let a = d.take(lz);
    assert(a + d.skip(lz) =~= d);
    lemma_digits_concat(a, d.skip(lz));
    assert(all_digits(a)) by {
        assert forall|i: int| 0 <= i < a.len() implies is_digit_char(#[trigger] a[i]) by {
            assert(a[i] == '0');
        }
    }
    lemma_digits_zero(a);
}

/// Zero scaled by any power of ten is zero.
pub(crate) proof fn lemma_scaled_zero(e: int)
    ensures
        scaled_floor(0, e) == 0,
{
    if e < 0 {
        lemma_pow10_pos((-e) as nat);
    }
}

/// Scaling a run of digits that starts with a non-zero digit, when the
/// result has `t` integer digits: rounded down, it is the value of the
/// first `t` digits (continued with zeros), and it is whole exactly when
/// the digits past those `t` are all zeros.
pub(crate) proof fn lemma_scaled_digits(dp: Seq<char>, e: int, t: int)
    requires
        all_digits(dp),
        dp.len() > 0,
        dp[0] != '0',
        t == dp.len() + e,
        t >= 0,
    ensures
        scaled_floor(digits_value(dp), e) == digits_value(padded_prefix(dp, t)),
        scaled_exact(digits_value(dp), e) == (t >= dp.len() || all_zeros(dp.skip(t))),
{
    let k = dp.len() as int;
    let m = digits_value(dp);
    if e >= 0 {
        let zeros = Seq::new(e as nat, |i: int| '0');
        assert(padded_prefix(dp, t) =~= dp + zeros);
        lemma_digits_concat(dp, zeros);
        assert(all_digits(zeros));
        lemma_digits_zero(zeros);
    } else {
        let a = dp.take(t);
        let b = dp.skip(t);
        assert(padded_prefix(dp, t) =~= a);
        assert(a + b =~= dp);
        lemma_digits_concat(a, b);
        assert(b.len() == -e);
        assert(all_digits(b)) by {
            assert forall|i: int| 0 <= i < b.len() implies is_digit_char(#[trigger] b[i]) by {
                assert(b[i] == dp[i + t]);
            }
        }
        lemma_digits_bound(b);
        lemma_digits_zero(b);
        let p = pow10(b.len());
        assert(m == digits_value(a) * p + digits_value(b));
        vstd::arithmetic::div_mod::lemma_fundamental_div_mod_converse(m, p, digits_value(a), digits_value(b));
    }
}

/// Scaling a run of digits that starts with a non-zero digit: with fewer
/// than `t` integer digits the result is below `10^8`; with more than 11
/// it is at least `10^11`.
pub(crate) proof fn lemma_scaled_digits_magnitude(dp: Seq<char>, e: int)
    requires
        all_digits(dp),
        dp.len() > 0,
        dp[0] != '0',
    ensures
        dp.len() + e < 9 ==> scaled_floor(digits_value(dp), e) < 100_000_000,
        dp.len() + e > 11 ==> scaled_floor(digits_value(dp), e) >= 100_000_000_000,
{
    let k = dp.len() as int;
    let m = digits_value(dp);
    lemma_digits_bound(dp);
    lemma_digits_lead(dp);
    lemma_pow10_values();
    if e >= 0 {
        let pe = pow10(e as nat);
        lemma_pow10_pos(e as nat);
        if k + e < 9 {
            lemma_pow10_add(k as nat, e as nat);
            lemma_pow10_mono((k + e) as nat, 8);
            let pk = pow10(k as nat);
            assert(m * pe < pk * pe) by (nonlinear_arith)
                requires
                    m < pk,
                    pe > 0,
            ;
        }
        if k + e > 11 {
            lemma_pow10_add((k - 1) as nat, e as nat);
            lemma_pow10_mono(11, (k - 1 + e) as nat);
            let pk1 = pow10((k - 1) as nat);
            assert(m * pe >= pk1 * pe) by (nonlinear_arith)
                requires
                    m >= pk1,
                    pe > 0,
            ;
        }
    } else {
        let ee = (-e) as nat;
        let pe = pow10(ee);
        lemma_pow10_pos(ee);
        if k + e < 9 {
            // m < 10^k <= 10^(8 + ee) = 10^8 * 10^ee
            lemma_pow10_mono(k as nat, (8 + ee) as nat);
            lemma_pow10_add(8, ee);
            let q = m / pe;
            vstd::arithmetic::div_mod::lemma_fundamental_div_mod(m, pe);
            assert(q < 100_000_000) by (nonlinear_arith)
                requires
                    m == pe * q + m % pe,
                    0 <= m % pe,
                    m < 100_000_000 * pe,
                    pe > 0,
            ;
        }
        if k + e > 11 {
            // m >= 10^(k-1) >= 10^(11 + ee) = 10^11 * 10^ee
            lemma_pow10_mono((11 + ee) as nat, (k - 1) as nat);
            lemma_pow10_add(11, ee);
            let q = m / pe;
            vstd::arithmetic::div_mod::lemma_fundamental_div_mod(m, pe);
            vstd::arithmetic::div_mod::lemma_mod_bound(m, pe);
            assert(q >= 100_000_000_000) by (nonlinear_arith)
                requires
                    m == pe * q + m % pe,
                    m % pe < pe,
                    m >= 100_000_000_000 * pe,
                    pe > 0,
            ;
        }
    }
}


// ---------------------------------------------------------------------------
// Number syntax.
// ---------------------------------------------------------------------------

/// Position of the first `.` in `s`, or its length when there is none.
pub open spec fn first_dot(s: Seq<char>) -> int
    decreases s.len(),
{
    if s.len() == 0 {
        0
    } else if s[0] == '.' {
        0
    } else {
        1 + first_dot(s.drop_first())
    }
}

/// Digits, at most one `.`, and at least one digit.
pub open spec fn is_decimal_text(s: Seq<char>) -> bool {
    &&& forall|i: int| 0 <= i < s.len() ==> is_digit_char(#[trigger] s[i]) || s[i] == '.'
    &&& forall|i: int, j: int| 0 <= i < j < s.len() && #[trigger] s[i] == '.' ==> #[trigger] s[j] != '.'
    &&& exists|i: int| 0 <= i < s.len() && is_digit_char(#[trigger] s[i])
}

/// The digits of a decimal text before its `.`.
pub open spec fn whole_digits(s: Seq<char>) -> Seq<char> {
    s.take(first_dot(s))
}

/// The digits of a decimal text after its `.`.
pub open spec fn fraction_digits(s: Seq<char>) -> Seq<char> {
    if first_dot(s) < s.len() {
        s.skip(first_dot(s) + 1)
    } else {
        Seq::empty()
    }
}

/// A sign character.
pub open spec fn is_sign_char(c: char) -> bool {
    c == '+' || c == '-'
}

/// An exponent marker.
pub open spec fn is_exp_char(c: char) -> bool {
    c == 'e' || c == 'E'
}

/// Length of the sign that `s` starts with: 1 or 0.
pub open spec fn sign_len(s: Seq<char>) -> int {
    if s.len() > 0 && is_sign_char(s[0]) {
        1
    } else {
        0
    }
}

/// Position of the first exponent marker in `s`, or its length.
pub open spec fn first_exp(s: Seq<char>) -> int
    decreases s.len(),
{
    if s.len() == 0 {
        0
    } else if is_exp_char(s[0]) {
        0
    } else {
        1 + first_exp(s.drop_first())
    }
}

/// A number text past its sign.
pub open spec fn number_body(s: Seq<char>) -> Seq<char> {
    s.skip(sign_len(s))
}

/// The mantissa of a number text: between the sign and the exponent
/// marker.
pub open spec fn mantissa_text(s: Seq<char>) -> Seq<char> {
    number_body(s).take(first_exp(number_body(s)))
}

/// What follows the exponent marker of a number text, if it has one.
pub open spec fn exponent_text(s: Seq<char>) -> Option<Seq<char>> {
    let b = number_body(s);
    if first_exp(b) < b.len() {
        Some(b.skip(first_exp(b) + 1))
    } else {
        None
    }
}

/// An optional sign followed by at least one digit.
pub open spec fn is_integer_text(t: Seq<char>) -> bool {
    t.len() > sign_len(t) && all_digits(t.skip(sign_len(t)))
}

/// Value of an integer text.
pub open spec fn integer_value(t: Seq<char>) -> int {
    let v = digits_value(t.skip(sign_len(t)));
    if sign_len(t) == 1 && t[0] == '-' {
        -v
    } else {
        v
    }
}

/// A finite number as `f64` parsing reads it: an optional sign, digits
/// with at most one `.` (at least one digit), and an optional exponent
/// (`e` or `E`, an optional sign, at least one digit).
pub open spec fn is_number_text(s: Seq<char>) -> bool {
    &&& is_decimal_text(mantissa_text(s))
    &&& match exponent_text(s) {
        Some(t) => is_integer_text(t),
        None => true,
    }
}

/// The number text starts with `-`.
pub open spec fn is_negative_text(s: Seq<char>) -> bool {
    s.len() > 0 && s[0] == '-'
}

/// The digits of a number text's mantissa, without its `.`.
pub open spec fn mantissa_digits(s: Seq<char>) -> Seq<char> {
    whole_digits(mantissa_text(s)) + fraction_digits(mantissa_text(s))
}

/// The power of ten that the mantissa digits are scaled by: a number text
/// (without its sign) is `digits_value(mantissa_digits(s)) × 10^e`.
pub open spec fn decimal_exponent(s: Seq<char>) -> int {
    let x = match exponent_text(s) {
        Some(t) => integer_value(t),
        None => 0,
    };
    x - fraction_digits(mantissa_text(s)).len()
}

proof fn lemma_first_dot(s: Seq<char>, d: int)
    requires
        0 <= d <= s.len(),
        d == s.len() || s[d] == '.',
        forall|i: int| 0 <= i < d ==> s[i] != '.',
    ensures
        first_dot(s) == d,
    decreases s.len(),
{
    if s.len() > 0 && d > 0 {
        assert forall|i: int| 0 <= i < d - 1 implies s.drop_first()[i] != '.' by {
            assert(s.drop_first()[i] == s[i + 1]);
        }
        lemma_first_dot(s.drop_first(), d - 1);
    }
}

proof fn lemma_first_exp(s: Seq<char>, d: int)
    requires
        0 <= d <= s.len(),
        d == s.len() || is_exp_char(s[d]),
        forall|i: int| 0 <= i < d ==> !is_exp_char(#[trigger] s[i]),
    ensures
        first_exp(s) == d,
    decreases s.len(),
{
    if s.len() > 0 && d > 0 {
        assert(!is_exp_char(s[0]));
        assert forall|i: int| 0 <= i < d - 1 implies !is_exp_char(#[trigger] s.drop_first()[i]) by {
            assert(s.drop_first()[i] == s[i + 1]);
        }
        lemma_first_exp(s.drop_first(), d - 1);
    }
}

// ---------------------------------------------------------------------------
// Reading number texts.
// ---------------------------------------------------------------------------

/// The characters of `v` from `a` up to `b`.
pub(crate) fn copy_range(v: &Vec<char>, a: usize, b: usize) -> (r: Vec<char>)
    requires
        a <= b <= v@.len(),
    ensures
        r@ == v@.subrange(a as int, b as int),
{
    let mut r: Vec<char> = Vec::new();
    for i in a..b
        invariant
            a <= b <= v@.len(),
            r@ == v@.subrange(a as int, i as int),
    {
        r.push(v[i]);
        assert(r@ =~= v@.subrange(a as int, i + 1));
    }
    r
}

/// Position of the first exponent marker in `v`, or its length.
pub(crate) fn find_exponent_marker(v: &Vec<char>) -> (r: usize)
    ensures
        r == first_exp(v@),
        r <= v@.len(),
{
    let n = v.len();
    let mut i: usize = 0;
    while i < n
        invariant
            i <= n,
            n == v@.len(),
            forall|j: int| 0 <= j < i ==> !is_exp_char(#[trigger] v@[j]),
        decreases n - i,
    {
        if v[i] == 'e' || v[i] == 'E' {
            proof {
                lemma_first_exp(v@, i as int);
            }
            return i;
        }
        i = i + 1;
    }
    proof {
        lemma_first_exp(v@, n as int);
    }
    n
}

fn digit_of(c: char) -> (d: u64)
    requires
        is_digit_char(c),
    ensures
        d == digit_value(c),
        d <= 9,
{
    (c as u32 - '0' as u32) as u64
}

/// The digits of a decimal text without its `.`, and how many follow the
/// `.`; `None` when `m` is not a decimal text.
pub(crate) fn split_mantissa(m: &Vec<char>) -> (r: Option<(Vec<char>, usize)>)
    ensures
        r is Some <==> is_decimal_text(m@),
        r matches Some((d, f)) ==> d@ == whole_digits(m@) + fraction_digits(m@)
            && f == fraction_digits(m@).len() && all_digits(d@),
{
    let n = m.len();
    let mut dot: usize = n;
    let mut ok = true;
    let mut has_digit = false;
    for i in 0..n
        invariant
            n == m@.len(),
            dot == n || (dot < i && m@[dot as int] == '.'),
            forall|j: int| 0 <= j < i && j < dot ==> m@[j] != '.',
            ok ==> forall|j: int| 0 <= j < i ==> is_digit_char(#[trigger] m@[j]) || m@[j] == '.',
            ok ==> forall|j: int, k: int| 0 <= j < k < i && #[trigger] m@[j] == '.' ==> #[trigger] m@[k] != '.',
            !ok ==> !is_decimal_text(m@),
            has_digit <==> exists|j: int| 0 <= j < i && is_digit_char(#[trigger] m@[j]),
    {
        let c = m[i];
        if c == '.' {
            if dot == n {
                dot = i;
            } else {
                if ok {
                    assert(m@[dot as int] == '.' && m@[i as int] == '.');
                }
                ok = false;
            }
        } else if '0' <= c && c <= '9' {
            has_digit = true;
        } else {
            ok = false;
        }
    }
    proof {
        lemma_first_dot(m@, dot as int);
    }
    if !ok || !has_digit {
        return None;
    }
    assert(is_decimal_text(m@));
    let start: usize = if dot < n { dot + 1 } else { n };
    let mut d = copy_range(m, 0, dot);
    let tail = copy_range(m, start, n);
    let ghost whole = d@;
    let f = tail.len();
    d.append(&mut tail.clone());
    proof {
        assert(whole =~= whole_digits(m@));
        assert(tail@ =~= fraction_digits(m@));
        assert forall|j: int| 0 <= j < d@.len() implies is_digit_char(#[trigger] d@[j]) by {
            if j < whole.len() {
                assert(d@[j] == m@[j]);
            } else {
                assert(d@[j] == m@[start + j - whole.len()]);
                if m@[start + j - whole.len()] == '.' {
                    assert(m@[dot as int] == '.');
                }
            }
        }
    }
    Some((d, f))
}

/// Bound above which exponents need not be told apart: no text that fits
/// in memory has that many mantissa digits.
pub open spec fn exponent_cap() -> int {
    0x4_0000_0000_0000_0000
}

/// `x` limited to `-exponent_cap() ..= exponent_cap()`.
pub open spec fn clamp_exponent(x: int) -> int {
    if x > exponent_cap() {
        exponent_cap()
    } else if x < -exponent_cap() {
        -exponent_cap()
    } else {
        x
    }
}

/// The value of an integer text, limited to `±exponent_cap()`; `None` when
/// `t` is not an integer text.
pub(crate) fn read_exponent(t: &Vec<char>) -> (r: Option<i128>)
    ensures
        r is Some <==> is_integer_text(t@),
        r matches Some(x) ==> x == clamp_exponent(integer_value(t@)),
{
    let n = t.len();
    let sl: usize = if n > 0 && (t[0] == '+' || t[0] == '-') { 1 } else { 0 };
    let neg = sl == 1 && t[0] == '-';
    if n <= sl {
        assert(sign_len(t@) == sl);
        return None;
    }
    let ghost ds = t@.skip(sl as int);
    assert(sign_len(t@) == sl);
    assert(ds.take(0) =~= Seq::<char>::empty());
    let cap: u128 = 0x4_0000_0000_0000_0000;
    let mut mag: u128 = 0;
    let mut i: usize = sl;
    while i < n
        invariant
            sl <= i <= n,
            n == t@.len(),
            sl == sign_len(t@),
            ds == t@.skip(sl as int),
            cap == exponent_cap(),
            forall|j: int| sl <= j < i ==> is_digit_char(#[trigger] t@[j]),
            mag == (if digits_value(ds.take(i - sl)) < cap { digits_value(ds.take(i - sl)) } else { cap as int }),
            digits_value(ds.take(i - sl)) >= 0,
        decreases n - i,
    {
        let c = t[i];
        if !('0' <= c && c <= '9') {
            proof {
                assert(ds[i - sl] == c);
                assert(!all_digits(ds));
            }
            return None;
        }
        let dv = digit_of(c);
        proof {
            assert(ds.take(i + 1 - sl).drop_last() =~= ds.take(i - sl));
            assert(ds.take(i + 1 - sl).last() == c);
        }
        if mag < cap {
            let nm = mag * 10 + dv as u128;
            mag = if nm < cap { nm } else { cap };
        }
        i = i + 1;
    }
    proof {
        assert(ds.take(n - sl) =~= ds);
        assert forall|j: int| 0 <= j < ds.len() implies is_digit_char(#[trigger] ds[j]) by {
            assert(ds[j] == t@[j + sl]);
        }
    }
    let x: i128 = if neg { -(mag as i128) } else { mag as i128 };
    proof {
        assert(sign_len(t@) == sl);
        assert(neg == (sign_len(t@) == 1 && t@[0] == '-'));
        assert(all_digits(ds));
        assert(is_integer_text(t@));
        assert(digits_value(ds) >= 0);
    }
    Some(x)
}

/// How many `0`s `d` starts with.
pub(crate) fn leading_zeros(d: &Vec<char>) -> (lz: usize)
    ensures
        lz <= d@.len(),
        all_zeros(d@.take(lz as int)),
        lz < d@.len() ==> d@[lz as int] != '0',
{
    let n = d.len();
    let mut i: usize = 0;
    while i < n && d[i] == '0'
        invariant
            i <= n,
            n == d@.len(),
            forall|j: int| 0 <= j < i ==> d@[j] == '0',
        decreases n - i,
    {
        i = i + 1;
    }
    assert forall|j: int| 0 <= j < d@.take(i as int).len() implies #[trigger] d@.take(i as int)[j] == '0' by {
        assert(d@.take(i as int)[j] == d@[j]);
    }
    i
}

/// The value of the first `t` digits of `d` from position `lz` on,
/// continued with zeros past its end.
pub(crate) fn prefix_value(d: &Vec<char>, lz: usize, t: usize) -> (r: u64)
    requires
        lz <= d@.len(),
        all_digits(d@),
        t <= 11,
    ensures
        r == digits_value(padded_prefix(d@.skip(lz as int), t as int)),
{
    let ghost dp = d@.skip(lz as int);
    let ghost full = padded_prefix(dp, t as int);
    let mut r: u64 = 0;
    for j in 0..t
        invariant
            lz <= d@.len(),
            all_digits(d@),
            t <= 11,
            dp == d@.skip(lz as int),
            full == padded_prefix(dp, t as int),
            r == digits_value(full.take(j as int)),
    {
        let dv: u64 = if j < d.len() - lz {
            digit_of(d[lz + j])
        } else {
            0
        };
        proof {
            assert(full.take(j + 1).drop_last() =~= full.take(j as int));
            assert(full.take(j + 1).last() == full[j as int]);
            assert(digit_value(full[j as int]) == dv);
            assert(all_digits(full.take(j as int))) by {
                assert forall|i: int| 0 <= i < j implies is_digit_char(#[trigger] full.take(j as int)[i]) by {
                    assert(full.take(j as int)[i] == full[i]);
                    if i < dp.len() {
                        assert(dp[i] == d@[lz + i]);
                    }
                }
            }
            lemma_digits_bound(full.take(j as int));
            lemma_pow10_mono(j as nat, 10);
            reveal_with_fuel(pow10, 11);
        }
        r = r * 10 + dv;
    }
    assert(full.take(t as int) =~= full);
    r
}

/// Whether every digit of `d` from position `from` on is `0`.
pub(crate) fn zeros_from(d: &Vec<char>, from: usize) -> (r: bool)
    requires
        from <= d@.len(),
    ensures
        r == all_zeros(d@.skip(from as int)),
{
    let n = d.len();
    let mut i: usize = from;
    while i < n
        invariant
            from <= i <= n,
            n == d@.len(),
            forall|j: int| from <= j < i ==> d@[j] == '0',
        decreases n - i,
    {
        if d[i] != '0' {
            assert(d@.skip(from as int)[i - from] == d@[i as int]);
            return false;
        }
        i = i + 1;
    }
    assert forall|j: int| 0 <= j < d@.skip(from as int).len() implies #[trigger] d@.skip(from as int)[j] == '0' by {
        assert(d@.skip(from as int)[j] == d@[j + from]);
    }
    true
}

} // verus!
