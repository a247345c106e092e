//! Text primitives shared by the views: character classes, whitespace
//! splitting, decimal rendering and the small string operations the UI
//! needs, each stated over the character sequence a string holds.

use vstd::prelude::*;

use crate::decimal::{all_digits, digit_value, digits_value, is_digit_char};

verus! {

// ---------------------------------------------------------------------------
// Character classes.
// ---------------------------------------------------------------------------

/// Unicode `White_Space`, as `char::is_whitespace` defines it.
pub open spec fn is_space_char(c: char) -> bool {
    ||| c == ' '
    ||| ('\u{9}' <= c && c <= '\u{d}')
    ||| c == '\u{85}'
    ||| c == '\u{a0}'
    ||| c == '\u{1680}'
    ||| ('\u{2000}' <= c && c <= '\u{200a}')
    ||| c == '\u{2028}'
    ||| c == '\u{2029}'
    ||| c == '\u{202f}'
    ||| c == '\u{205f}'
    ||| c == '\u{3000}'
}

/// Unicode general category `Cc`, as `char::is_control` defines it.
pub open spec fn is_control_char(c: char) -> bool {
    ('\u{0}' <= c && c <= '\u{1f}') || ('\u{7f}' <= c && c <= '\u{9f}')
}

/// Whether `c` is Unicode whitespace (`char::is_whitespace`).
pub fn is_space(c: char) -> (r: bool)
    ensures
        r == is_space_char(c),
{
    c == ' ' || ('\u{9}' <= c && c <= '\u{d}') || c == '\u{85}' || c == '\u{a0}' || c
        == '\u{1680}' || ('\u{2000}' <= c && c <= '\u{200a}') || c == '\u{2028}' || c
        == '\u{2029}' || c == '\u{202f}' || c == '\u{205f}' || c == '\u{3000}'
}

/// Whether `c` is a control character (`char::is_control`).
pub fn is_control(c: char) -> (r: bool)
    ensures
        r == is_control_char(c),
{
    (c <= '\u{1f}') || ('\u{7f}' <= c && c <= '\u{9f}')
}

// ---------------------------------------------------------------------------
// Strings as character sequences.
// ---------------------------------------------------------------------------

/// Appends one character to a string (`String::push`).
#[verifier::external_body]
pub(crate) fn push_char(s: &mut String, c: char)
    ensures
        final(s)@ == old(s)@.push(c),
{
    s.push(c);
}

/// The characters of `s`, in order.
pub fn chars_of(s: &str) -> (v: Vec<char>)
    ensures
        v@ == s@,
{
    let mut v: Vec<char> = Vec::new();
    for c in it: s.chars()
        invariant
            it.seq() == s@,
            v@ == it.seq().take(it.index()),
    {
        v.push(c);
        assert(it.seq().take(it.index() + 1) == it.seq().take(it.index()).push(c));
    }
    v
}

/// Appends the characters of `v` to `out`.
pub fn push_chars(out: &mut String, v: &Vec<char>)
    ensures
        final(out)@ == old(out)@ + v@,
{
    let n = v.len();
    for i in 0..n
        invariant
            n == v@.len(),
            out@ == old(out)@ + v@.take(i as int),
    {
        push_char(out, v[i]);
        assert(v@.take(i + 1) == v@.take(i as int).push(v@[i as int]));
    }
    assert(v@.take(n as int) == v@);
}

/// Appends the characters of `s` to `out`.
pub fn push_str(out: &mut String, s: &str)
    ensures
        final(out)@ == old(out)@ + s@,
{
    let v = chars_of(s);
    push_chars(out, &v);
}

/// A string holding the characters of `v`.
pub fn string_of(v: &Vec<char>) -> (s: String)
    ensures
        s@ == v@,
{
    let mut s = String::new();
    push_chars(&mut s, v);
    s
}

/// A string holding the characters of `s`.
pub fn string_from(s: &str) -> (r: String)
    ensures
        r@ == s@,
{
    let mut r = String::new();
    push_str(&mut r, s);
    r
}

/// Whether `a` and `b` hold the same characters.
pub fn chars_equal(a: &Vec<char>, b: &Vec<char>) -> (r: bool)
    ensures
        r == (a@ == b@),
{
    if a.len() != b.len() {
        return false;
    }
    let n = a.len();
    for i in 0..n
        invariant
            n == a@.len(),
            n == b@.len(),
            forall|j: int| 0 <= j < i ==> a@[j] == b@[j],
    {
        if a[i] != b[i] {
            return false;
        }
    }
    assert(a@ =~= b@);
    true
}

/// Whether the strings `a` and `b` hold the same characters.
pub fn str_equal(a: &str, b: &str) -> (r: bool)
    ensures
        r == (a@ == b@),
{
    let va = chars_of(a);
    let vb = chars_of(b);
    chars_equal(&va, &vb)
}

/// Whether `s` begins with `prefix` (`str::starts_with` on a string
/// pattern).
pub open spec fn has_prefix(s: Seq<char>, prefix: Seq<char>) -> bool {
    prefix.len() <= s.len() && s.take(prefix.len() as int) == prefix
}

/// Whether `s` begins with the characters of `prefix`.
pub fn starts_with_str(s: &str, prefix: &str) -> (r: bool)
    ensures
        r == has_prefix(s@, prefix@),
{
    let vs = chars_of(s);
    let vp = chars_of(prefix);
    chars_have_prefix_at(&vs, 0, &vp)
}

/// Whether `prefix` occurs in `s` at position `at`.
pub open spec fn occurs_at(s: Seq<char>, at: int, pat: Seq<char>) -> bool {
    0 <= at && at + pat.len() <= s.len() && s.subrange(at, at + pat.len()) == pat
}

/// Whether `pat` occurs in `s` starting at position `at`.
pub fn chars_have_prefix_at(s: &Vec<char>, at: usize, pat: &Vec<char>) -> (r: bool)
    requires
        at <= s@.len(),
    ensures
        r == occurs_at(s@, at as int, pat@),
        at == 0 ==> r == has_prefix(s@, pat@),
{
    if pat.len() > s.len() - at {
        return false;
    }
    let n = pat.len();
    for i in 0..n
        invariant
            n == pat@.len(),
            at + n <= s.len(),
            forall|j: int| 0 <= j < i ==> s@[at + j] == pat@[j],
    {
        if s[at + i] != pat[i] {
            assert(s@.subrange(at as int, at + n)[i as int] != pat@[i as int]);
            return false;
        }
    }
    assert(s@.subrange(at as int, at + n) =~= pat@);
    if at == 0 {
        assert(s@.take(n as int) =~= s@.subrange(0, n as int));
    }
    true
}

// ---------------------------------------------------------------------------
// Splitting on whitespace and joining.
// ---------------------------------------------------------------------------

/// Scanning `s` left to right: the words completed so far and the word in
/// progress. A word is a maximal run of non-whitespace characters.
pub open spec fn word_scan(s: Seq<char>) -> (Seq<Seq<char>>, Seq<char>)
    decreases s.len(),
{
    if s.len() == 0 {
        (Seq::empty(), Seq::empty())
    } else {
        let (done, cur) = word_scan(s.drop_last());
        let c = s.last();
        if is_space_char(c) {
            if cur.len() > 0 {
                (done.push(cur), Seq::empty())
            } else {
                (done, Seq::empty())
            }
        } else {
            (done, cur.push(c))
        }
    }
}

/// The whitespace-separated words of `s`, in order (`str::split_whitespace`).
pub open spec fn words(s: Seq<char>) -> Seq<Seq<char>> {
    let (done, cur) = word_scan(s);
    if cur.len() > 0 {
        done.push(cur)
    } else {
        done
    }
}

/// `parts` joined with `sep` between consecutive parts (`[..].join(sep)`).
pub open spec fn join_with(parts: Seq<Seq<char>>, sep: Seq<char>) -> Seq<char>
    decreases parts.len(),
{
    if parts.len() == 0 {
        Seq::empty()
    } else if parts.len() == 1 {
        parts[0]
    } else {
        join_with(parts.drop_last(), sep) + sep + parts.last()
    }
}

/// `s` with every run of whitespace collapsed to one space and leading and
/// trailing whitespace removed.
pub open spec fn collapse_spaces(s: Seq<char>) -> Seq<char> {
    join_with(words(s), seq![' '])
}

proof fn lemma_word_scan_nonempty(s: Seq<char>)
    ensures
        forall|i: int|
            0 <= i < word_scan(s).0.len() ==> #[trigger] word_scan(s).0[i].len() > 0,
        forall|i: int| 0 <= i < word_scan(s).1.len() ==> !is_space_char(#[trigger] word_scan(s).1[i]),
    decreases s.len(),
{
    if s.len() > 0 {
        lemma_word_scan_nonempty(s.drop_last());
        let (done, cur) = word_scan(s.drop_last());
        let c = s.last();
        assert(forall|i: int| 0 <= i < done.len() ==> #[trigger] done[i].len() > 0);
        assert(forall|i: int| 0 <= i < cur.len() ==> !is_space_char(#[trigger] cur[i]));
        if is_space_char(c) {
            if cur.len() > 0 {
                assert(word_scan(s).0 == done.push(cur));
                assert forall|i: int| 0 <= i < done.push(cur).len() implies #[trigger] done.push(cur)[i].len() > 0 by {
                    if i < done.len() {
                        assert(done.push(cur)[i] == done[i]);
                    }
                }
            }
        } else {
            assert(word_scan(s).1 == cur.push(c));
            assert forall|i: int| 0 <= i < cur.push(c).len() implies !is_space_char(#[trigger] cur.push(c)[i]) by {
                if i < cur.len() {
                    assert(cur.push(c)[i] == cur[i]);
                }
            }
        }
    }
}

/// Every word is non-empty and free of whitespace.
pub proof fn lemma_words_are_nonempty(s: Seq<char>)
    ensures
        forall|i: int| 0 <= i < words(s).len() ==> #[trigger] words(s)[i].len() > 0,
{
    lemma_word_scan_nonempty(s);
}

/// The whitespace-separated words of `s`.
pub fn split_words(s: &str) -> (r: Vec<Vec<char>>)
    ensures
        r@.len() == words(s@).len(),
        forall|i: int| 0 <= i < r@.len() ==> #[trigger] r@[i]@ == words(s@)[i],
{
    let v = chars_of(s);
    let n = v.len();
    let mut done: Vec<Vec<char>> = Vec::new();
    let mut cur: Vec<char> = Vec::new();
    for i in 0..n
        invariant
            n == v@.len(),
            v@ == s@,
            done@.len() == word_scan(v@.take(i as int)).0.len(),
            forall|j: int|
                0 <= j < done@.len() ==> #[trigger] done@[j]@ == word_scan(v@.take(i as int)).0[j],
            cur@ == word_scan(v@.take(i as int)).1,
    {
        let c = v[i];
        assert(v@.take(i + 1).drop_last() == v@.take(i as int));
        if is_space(c) {
            if cur.len() > 0 {
                let w = cur;
                done.push(w);
                cur = Vec::new();
            }
        } else {
            cur.push(c);
        }
    }
    assert(v@.take(n as int) == v@);
    if cur.len() > 0 {
        done.push(cur);
    }
    done
}

/// Characters of `parts` joined by `sep`.
pub fn join_chars(parts: &Vec<Vec<char>>, sep: char) -> (r: Vec<char>)
    ensures
        r@ == join_with(Seq::new(parts@.len(), |i: int| parts@[i]@), seq![sep]),
{
    let ghost views = Seq::new(parts@.len(), |i: int| parts@[i]@);
    let mut out: Vec<char> = Vec::new();
    let n = parts.len();
    for i in 0..n
        invariant
            n == parts@.len(),
            views == Seq::new(parts@.len(), |i: int| parts@[i]@),
            out@ == join_with(views.take(i as int), seq![sep]),
    {
        let ghost prev = out@;
        if i > 0 {
            out.push(sep);
        }
        let w = &parts[i];
        let m = w.len();
        for k in 0..m
            invariant
                m == w@.len(),
                out@ == (if i > 0 { prev.push(sep) } else { prev }) + w@.take(k as int),
        {
            out.push(w[k]);
            assert(w@.take(k + 1) == w@.take(k as int).push(w@[k as int]));
        }
        assert(w@.take(m as int) == w@);
        assert(views.take(i + 1).drop_last() == views.take(i as int));
        assert(views.take(i + 1).last() == w@);
        if i > 0 {
            assert(prev.push(sep) == prev + seq![sep]);
        } else {
            assert(views.take(1)[0] == w@);
        }
    }
    assert(views.take(n as int) == views);
    out
}

// ---------------------------------------------------------------------------
// Decimal rendering.
// ---------------------------------------------------------------------------

/// The ASCII digit for `d` (0 ..= 9).
pub open spec fn digit_char(d: int) -> char {
    if d == 0 { '0' }
    else if d == 1 { '1' }
    else if d == 2 { '2' }
    else if d == 3 { '3' }
    else if d == 4 { '4' }
    else if d == 5 { '5' }
    else if d == 6 { '6' }
    else if d == 7 { '7' }
    else if d == 8 { '8' }
    else { '9' }
}

/// The decimal digits of `n`, most significant first, without leading zeros.
pub open spec fn decimal_digits(n: nat) -> Seq<char>
    decreases n,
{
    if n < 10 {
        seq![digit_char(n as int)]
    } else {
        decimal_digits(n / 10).push(digit_char((n % 10) as int))
    }
}

proof fn lemma_digit_char_value(d: int)
    requires
        0 <= d < 10,
    ensures
        is_digit_char(digit_char(d)),
        digit_value(digit_char(d)) == d,
{
}

/// The decimal digits of `n` read back as a number give `n`, and the first
/// of them is not `0` unless `n` is.
pub proof fn lemma_decimal_digits_value(n: nat)
    ensures
        decimal_digits(n).len() > 0,
        all_digits(decimal_digits(n)),
        digits_value(decimal_digits(n)) == n,
        n > 0 ==> decimal_digits(n)[0] != '0',
    decreases n,
{
    if n < 10 {
        lemma_digit_char_value(n as int);
        assert(decimal_digits(n).drop_last() =~= Seq::<char>::empty());
        assert(decimal_digits(n).last() == digit_char(n as int));
        assert(digits_value(Seq::<char>::empty()) == 0);
    } else {
        lemma_decimal_digits_value(n / 10);
        lemma_digit_char_value((n % 10) as int);
        let d = decimal_digits(n / 10);
        let c = digit_char((n % 10) as int);
        assert(d.push(c).drop_last() =~= d);
        assert forall|i: int| 0 <= i < d.push(c).len() implies is_digit_char(#[trigger] d.push(c)[i]) by {
            if i < d.len() {
                assert(d.push(c)[i] == d[i]);
            }
        }
        assert(d.push(c)[0] == d[0]);
        assert(d.push(c).last() == c);
        assert(digits_value(d.push(c)) == digits_value(d) * 10 + digit_value(c));
        assert((n / 10) * 10 + n % 10 == n);
    }
}

/// `int_text` of a non-negative number is its decimal digits, without
/// leading zeros, and reads back as the number; of a negative number it is
/// `-` followed by the digits of its magnitude.
pub proof fn lemma_int_text_value(v: int)
    ensures
        v >= 0 ==> all_digits(int_text(v)) && digits_value(int_text(v)) == v
            && int_text(v).len() > 0 && (v > 0 ==> int_text(v)[0] != '0'),
        v < 0 ==> int_text(v)[0] == '-' && all_digits(int_text(v).drop_first())
            && digits_value(int_text(v).drop_first()) == -v,
{
    if v >= 0 {
        lemma_decimal_digits_value(v as nat);
    } else {
        lemma_decimal_digits_value((-v) as nat);
        assert((seq!['-'] + decimal_digits((-v) as nat)).drop_first() =~= decimal_digits((-v) as nat));
    }
}

/// `s` left-padded with `'0'` to at least `width` characters.
pub open spec fn zero_pad(s: Seq<char>, width: int) -> Seq<char> {
    if s.len() >= width {
        s
    } else {
        Seq::new((width - s.len()) as nat, |i: int| '0') + s
    }
}

/// `format!("{v:0width$}")`: decimal with a leading `-` for negatives,
/// zero-padded (after the sign) to at least `width` characters.
pub open spec fn int_text_padded(v: int, width: int) -> Seq<char> {
    if v < 0 {
        seq!['-'] + zero_pad(decimal_digits((-v) as nat), width - 1)
    } else {
        zero_pad(decimal_digits(v as nat), width)
    }
}

/// `format!("{v}")` for an integer.
pub open spec fn int_text(v: int) -> Seq<char> {
    int_text_padded(v, 0)
}

fn digit(d: u64) -> (c: char)
    requires
        d < 10,
    ensures
        c == digit_char(d as int),
{
    if d == 0 { '0' }
    else if d == 1 { '1' }
    else if d == 2 { '2' }
    else if d == 3 { '3' }
    else if d == 4 { '4' }
    else if d == 5 { '5' }
    else if d == 6 { '6' }
    else if d == 7 { '7' }
    else if d == 8 { '8' }
    else { '9' }
}

fn digits_of(n: u64) -> (r: Vec<char>)
    ensures
        r@ == decimal_digits(n as nat),
    decreases n,
{
    if n < 10 {
        let mut r = Vec::new();
        r.push(digit(n));
        r
    } else {
        let mut r = digits_of(n / 10);
        r.push(digit(n % 10));
        r
    }
}

/// Appends `n` in decimal, zero-padded to at least `width` characters.
pub fn push_u64_padded(out: &mut String, n: u64, width: usize)
    ensures
        final(out)@ == old(out)@ + zero_pad(decimal_digits(n as nat), width as int),
{
    let d = digits_of(n);
    if d.len() < width {
        let pad = width - d.len();
        for i in 0..pad
            invariant
                out@ == old(out)@ + Seq::new(i as nat, |k: int| '0'),
        {
            push_char(out, '0');
            assert(Seq::new((i + 1) as nat, |k: int| '0') == Seq::new(i as nat, |k: int| '0').push('0'));
        }
    }
    push_chars(out, &d);
}

/// Appends `v` in decimal (with a `-` when negative), zero-padded after the
/// sign to at least `width` characters.
pub fn push_i64_padded(out: &mut String, v: i64, width: usize)
    ensures
        final(out)@ == old(out)@ + int_text_padded(v as int, width as int),
{
    if v < 0 {
        push_char(out, '-');
        let mag: u64 = ((-(v + 1)) as u64) + 1;
        let w = if width > 0 { width - 1 } else { 0 };
        push_u64_padded(out, mag, w);
        proof {
            if width == 0 {
                assert(zero_pad(decimal_digits(mag as nat), 0) == zero_pad(decimal_digits(mag as nat), -1));
            }
        }
    } else {
        push_u64_padded(out, v as u64, width);
    }
}

/// Appends `v` in decimal.
pub fn push_i64(out: &mut String, v: i64)
    ensures
        final(out)@ == old(out)@ + int_text(v as int),
{
    push_i64_padded(out, v, 0);
}

/// `v` in decimal (`v.to_string()`).
pub fn i64_to_string(v: i64) -> (s: String)
    ensures
        s@ == int_text(v as int),
{
    let mut s = String::new();
    push_i64(&mut s, v);
    s
}

// ---------------------------------------------------------------------------
// Replacement.
// ---------------------------------------------------------------------------

/// `s` with every occurrence of the non-empty `pat`, found left to right
/// without overlap, replaced by `rep`.
pub open spec fn replace_occurrences(s: Seq<char>, pat: Seq<char>, rep: Seq<char>) -> Seq<char>
    decreases s.len(),
{
    if s.len() == 0 {
        Seq::empty()
    } else if pat.len() > 0 && has_prefix(s, pat) {
        rep + replace_occurrences(s.skip(pat.len() as int), pat, rep)
    } else {
        seq![s[0]] + replace_occurrences(s.drop_first(), pat, rep)
    }
}

/// `rep` before every character of `s` and once more at the end: the
/// empty pattern occurs at every character boundary.
pub open spec fn surround_each(s: Seq<char>, rep: Seq<char>) -> Seq<char>
    decreases s.len(),
{
    if s.len() == 0 {
        rep
    } else {
        rep + seq![s[0]] + surround_each(s.drop_first(), rep)
    }
}

/// `s` with every occurrence of `pat` replaced by `rep` (`str::replace`):
/// non-empty patterns are matched left to right without overlap; the
/// empty pattern matches at every character boundary.
pub open spec fn replace_all(s: Seq<char>, pat: Seq<char>, rep: Seq<char>) -> Seq<char> {
    if pat.len() == 0 {
        surround_each(s, rep)
    } else {
        replace_occurrences(s, pat, rep)
    }
}

/// `s` with every occurrence of `pat` replaced by `rep`.
pub fn replace_str(s: &str, pat: &str, rep: &str) -> (r: String)
    ensures
        r@ == replace_all(s@, pat@, rep@),
{
    let v = chars_of(s);
    let p = chars_of(pat);
    let rv = chars_of(rep);
    let n = v.len();
    let mut out = String::new();
    if p.len() == 0 {
        assert(v@.skip(0) =~= v@);
        assert(out@ + surround_each(v@, rv@) =~= surround_each(v@, rv@));
        for i in 0..n
            invariant
                n == v@.len(),
                v@ == s@,
                rv@ == rep@,
                out@ + surround_each(v@.skip(i as int), rv@) == surround_each(v@, rv@),
        {
            let ghost rest = v@.skip(i as int);
            assert(rest.drop_first() == v@.skip(i + 1));
            assert(rest[0] == v@[i as int]);
            assert(out@ + surround_each(rest, rv@) == out@ + rv@ + seq![v@[i as int]] + surround_each(v@.skip(i + 1), rv@));
            push_chars(&mut out, &rv);
            push_char(&mut out, v[i]);
        }
        assert(v@.skip(n as int).len() == 0);
        push_chars(&mut out, &rv);
        return out;
    }
    let mut i: usize = 0;
    assert(v@.skip(0) == v@);
    while i < n
        invariant
            n == v@.len(),
            v@ == s@,
            p@ == pat@,
            rv@ == rep@,
            p@.len() > 0,
            i <= n,
            out@ + replace_occurrences(v@.skip(i as int), p@, rv@) == replace_occurrences(v@, p@, rv@),
        decreases n - i,
    {
        let hit = chars_have_prefix_at(&v, i, &p);
        let ghost rest = v@.skip(i as int);
        if hit {
            assert(rest.take(p@.len() as int) == v@.subrange(i as int, i + p@.len()));
            assert(has_prefix(rest, p@));
            assert(rest.skip(p@.len() as int) == v@.skip(i + p@.len()));
            push_chars(&mut out, &rv);
            i = i + p.len();
        } else {
            proof {
                if p@.len() <= rest.len() {
                    assert(rest.take(p@.len() as int) == v@.subrange(i as int, i + p@.len()));
                }
            }
            assert(!has_prefix(rest, p@));
            assert(rest.drop_first() == v@.skip(i + 1));
            assert(rest[0] == v@[i as int]);
            push_char(&mut out, v[i]);
            i = i + 1;
        }
    }
    assert(v@.skip(n as int).len() == 0);
    out
}

// ---------------------------------------------------------------------------
// Rounding.
// ---------------------------------------------------------------------------

/// `round(n / d)` with ties to even, as Rust's float formatting rounds.
pub open spec fn round_half_even(n: int, d: int) -> int {
    let q = n / d;
    let r = n % d;
    if 2 * r > d || (2 * r == d && q % 2 == 1) {
        q + 1
    } else {
        q
    }
}

/// `round_half_even(n, d)` is a nearest multiple count: `n` lies within
/// half of `d` of `d` times it.
pub proof fn lemma_round_half_even_nearest(n: int, d: int)
    requires
        d > 0,
    ensures
        -d <= 2 * (n - round_half_even(n, d) * d) <= d,
{
    let q = n / d;
    let r = n % d;
    vstd::arithmetic::div_mod::lemma_fundamental_div_mod(n, d);
    vstd::arithmetic::div_mod::lemma_mod_bound(n, d);
    assert(n == q * d + r) by {
        vstd::arithmetic::mul::lemma_mul_is_commutative(d, q);
    }
    assert((q + 1) * d == q * d + d) by {
        vstd::arithmetic::mul::lemma_mul_is_distributive_add_other_way(d, q, 1);
    }
}

/// `n / d` rounded to nearest, ties to even.
pub fn round_div(n: u64, d: u64) -> (r: u64)
    requires
        d >= 2,
    ensures
        r == round_half_even(n as int, d as int),
{
    let q = n / d;
    let m = n % d;
    proof {
        vstd::arithmetic::div_mod::lemma_fundamental_div_mod(n as int, d as int);
        assert(q * 2 <= n) by (nonlinear_arith)
            requires
                n == d * q + m,
                m >= 0,
                q >= 0,
                d >= 2,
        ;
    }
    if m > d - m || (m == d - m && q % 2 == 1) {
        q + 1
    } else {
        q
    }
}

} // verus!
