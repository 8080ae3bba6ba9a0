//! Numbers as text: decimal digits, and quotients to one decimal place.
//!
//! Quotients are rounded the way binary64 arithmetic rounds them: first to the nearest value with a
//! 53-bit significand, then to the nearest tenth, ties going to the even neighbour both times.

use vstd::prelude::*;

verus! {

/// The digit that stands for `d`.
pub open spec fn digit(d: nat) -> char {
    (('0' as u8) + d) as u8 as char
}

/// `n` in decimal digits, without leading zeros.
pub open spec fn decimal(n: nat) -> Seq<char>
    decreases n,
{
    if n < 10 {
        seq![digit(n)]
    } else {
        decimal(n / 10).push(digit(n % 10))
    }
}

/// Whether a character is a decimal digit.
pub open spec fn is_digit(c: char) -> bool {
    '0' <= c && c <= '9'
}

/// The number that a run of digits spells.
pub open spec fn digits_value(s: Seq<char>) -> nat
    decreases s.len(),
{
    if s.len() == 0 {
        0
    } else {
        digits_value(s.drop_last()) * 10 + ((s.last() as u8) - ('0' as u8)) as nat
    }
}

/// The text after an optional plus sign.
pub open spec fn after_plus(s: Seq<char>) -> Seq<char> {
    if s.len() > 0 && s[0] == '+' {
        s.drop_first()
    } else {
        s
    }
}

/// The number that a text spells, where it spells one that fits in 64 bits: an optional plus sign
/// and at least one digit.
pub open spec fn parsed(s: Seq<char>) -> Option<u64> {
    let digits = after_plus(s);
    if digits.len() > 0 && (forall|i: int| 0 <= i < digits.len() ==> is_digit(#[trigger] digits[i]))
        && digits_value(digits) <= u64::MAX {
        Some(digits_value(digits) as u64)
    } else {
        None
    }
}

/// The number with `n / d` nearest to it, the even one of two that are equally near.
pub open spec fn round_even(n: nat, d: nat) -> nat {
    let q = n / d;
    let r = n % d;
    if 2 * r < d || (2 * r == d && q % 2 == 0) {
        q
    } else {
        q + 1
    }
}

/// The power of two to divide `n / d` by so that the quotient has at most 53 bits before the point.
pub open spec fn shrink(n: nat, d: nat) -> nat
    decreases n / d,
    when d > 0
{
    if n < d * 0x20_0000_0000_0000 {
        1
    } else {
        proof {
            assert(n / (d * 2) < n / d) by (nonlinear_arith)
                requires
                    d > 0,
                    n >= d * 0x20_0000_0000_0000,
            ;
        }
        2 * shrink(n, d * 2)
    }
}

/// The power of two to multiply `n / d` by so that the product has at least 53 bits before the
/// point.
pub open spec fn grow(n: nat, d: nat) -> nat
    decreases
            (if n < d * 0x10_0000_0000_0000 {
                d * 0x10_0000_0000_0000 - n
            } else {
                0
            }),
{
    if n == 0 || n >= d * 0x10_0000_0000_0000 {
        1
    } else {
        2 * grow(n * 2, d)
    }
}

/// The binary64 value nearest to the whole number `n`.
pub open spec fn nearest(n: nat) -> nat {
    round_even(n, shrink(n, 1)) * shrink(n, 1)
}

/// The binary64 value nearest to `n / d`, in tenths, rounded to a whole number of them.
pub open spec fn tenths(n: nat, d: nat) -> nat {
    let up = shrink(n, d);
    let down = grow(n, d);
    round_even(10 * (round_even(n * down, d * up) * up), down)
}

/// A number of tenths as text, with one digit after the point.
pub open spec fn one_place(t: nat) -> Seq<char> {
    decimal(t / 10).push('.').push(digit(t % 10))
}

/// A number in decimal is made of digits.
pub proof fn lemma_decimal_digits(n: nat)
    ensures
        decimal(n).len() > 0,
        forall|i: int| 0 <= i < decimal(n).len() ==> is_digit(#[trigger] decimal(n)[i]),
    decreases n,
{
    if n >= 10 {
        lemma_decimal_digits(n / 10);
    }
}

/// The digits of a number spell it.
proof fn lemma_decimal_value(n: nat)
    ensures
        digits_value(decimal(n)) == n,
    decreases n,
{
    reveal_with_fuel(digits_value, 2);
    if n >= 10 {
        lemma_decimal_value(n / 10);
        assert(decimal(n).drop_last() =~= decimal(n / 10));
    } else {
        assert(decimal(n).drop_last() =~= Seq::empty());
    }
}

/// A number that fits is read back from its digits.
pub proof fn lemma_parsed_decimal(n: nat)
    requires
        n <= u64::MAX,
    ensures
        parsed(decimal(n)) == Some(n as u64),
{
    lemma_decimal_digits(n);
    lemma_decimal_value(n);
    assert(is_digit(decimal(n)[0]));
}

/// Adds `n` in decimal digits to the end of `out`.
pub fn push_decimal(out: &mut String, n: u128)
    ensures
        final(out)@ == old(out)@ + decimal(n as nat),
    decreases n,
{
    if n >= 10 {
        push_decimal(out, n / 10);
    }
    let last: u8 = (n % 10) as u8;
    out.push(('0' as u8 + last) as char);
    assert(out@ =~= old(out)@ + decimal(n as nat));
}

/// `n` in decimal digits.
pub fn to_decimal(n: u64) -> (out: String)
    ensures
        out@ == decimal(n as nat),
{
    let mut out = String::new();
    push_decimal(&mut out, n as u128);
    assert(out@ =~= decimal(n as nat));
    out
}

/// The digits up to a place spell no more than all of them do.
proof fn lemma_digits_grow(s: Seq<char>, n: int)
    requires
        0 <= n <= s.len(),
        forall|i: int| 0 <= i < s.len() ==> is_digit(#[trigger] s[i]),
    ensures
        digits_value(s.take(n)) <= digits_value(s),
    decreases s.len() - n,
{
    if n == s.len() {
        assert(s.take(n) == s);
    } else {
        lemma_digits_grow(s, n + 1);
        assert(s.take(n + 1).drop_last() == s.take(n));
    }
}

/// The number that a text spells, where it spells one that fits in 64 bits.
pub fn parse_u64(s: &[char]) -> (out: Option<u64>)
    ensures
        out == parsed(s@),
{
    let from: usize = if s.len() > 0 && s[0] == '+' {
        1
    } else {
        0
    };
    let ghost digits = after_plus(s@);
    assert(digits =~= s@.skip(from as int));
    if from == s.len() {
        return None;
    }
    let mut value: u64 = 0;
    let mut i: usize = from;
    assert(digits.take(0) =~= Seq::<char>::empty());
    while i < s.len()
        invariant
            from <= i <= s.len(),
            digits == s@.skip(from as int),
            digits == after_plus(s@),
            from < s.len(),
            forall|j: int| 0 <= j < i - from ==> is_digit(#[trigger] digits[j]),
            value == digits_value(digits.take(i - from)),
        decreases s.len() - i,
    {
        let c = s[i];
        assert(c == digits[i - from]);
        if c < '0' || '9' < c {
            return None;
        }
        let d: u64 = (c as u8 - '0' as u8) as u64;
        let ghost now = digits.take(i - from + 1);
        assert(now.drop_last() == digits.take(i - from));
        assert(now.last() == c);
        assert(digits_value(now) == value * 10 + d);
        if value > (u64::MAX - d) / 10 {
            proof {
                assert(digits_value(now) > u64::MAX);
                if forall|k: int| 0 <= k < digits.len() ==> is_digit(#[trigger] digits[k]) {
                    lemma_digits_grow(digits, i - from + 1);
                }
            }
            return None;
        }
        value = value * 10 + d;
        i = i + 1;
    }
    assert(digits.take(i - from) == digits);
    Some(value)
}

/// The whole number nearest to `n / d`, the even one of two that are equally near.
pub fn round_to_even(n: u128, d: u128) -> (out: u128)
    requires
        0 < d <= 0x8000_0000_0000_0000_0000_0000_0000_0000,
        n < 0x8000_0000_0000_0000_0000_0000_0000_0000,
    ensures
        out == round_even(n as nat, d as nat),
        out <= n / d + 1,
{
    let q: u128 = n / d;
    let r: u128 = n % d;
    assert(q <= n) by (nonlinear_arith)
        requires
            q == n / d,
            d > 0,
    ;
    if r < d - r || (r == d - r && q % 2 == 0) {
        q
    } else {
        q + 1
    }
}

/// The power of two that brings `n / d` down to 53 bits.
fn shrink_by(n: u128, d: u128) -> (out: u128)
    requires
        0 < d <= 0x2_0000_0000_0000_0000,
        n < 0x200_0000_0000_0000_0000,
    ensures
        out == shrink(n as nat, d as nat),
        1 <= out,
        out > 1 ==> d * out <= n,
        n < d * out * 0x20_0000_0000_0000,
{
    let mut scaled: u128 = d;
    let mut out: u128 = 1;
    while n / 0x20_0000_0000_0000 >= scaled
        invariant
            0 < d <= 0x2_0000_0000_0000_0000,
            n < 0x200_0000_0000_0000_0000,
            scaled == d * out,
            1 <= out,
            0 < scaled,
            out <= scaled,
            scaled <= 0x2_0000_0000_0000_0000,
            out > 1 ==> scaled <= n,
            shrink(n as nat, d as nat) == out * shrink(n as nat, scaled as nat),
        decreases 0x4_0000_0000_0000_0000 - scaled,
    {
        assert(n >= scaled * 0x20_0000_0000_0000);
        proof {
            let s = shrink(n as nat, (scaled * 2) as nat);
            assert(out * (2 * s) == (out * 2) * s) by (nonlinear_arith);
            assert(d * (out * 2) == (d * out) * 2) by (nonlinear_arith);
        }
        scaled = scaled * 2;
        out = out * 2;
    }
    assert(n < scaled * 0x20_0000_0000_0000);
    assert(out * 1 == out);
    out
}

/// The power of two that brings `n / d` up to 53 bits.
fn grow_by(n: u128, d: u128) -> (out: u128)
    requires
        0 < d <= 0x2_0000_0000_0000_0000,
        n < 0x200_0000_0000_0000_0000,
    ensures
        out == grow(n as nat, d as nat),
        1 <= out,
        out > 1 ==> n * out < d * 0x20_0000_0000_0000,
        out <= 0x40_0000_0000_0000_0000_0000_0000_0000,
{
    let mut scaled: u128 = n;
    let mut out: u128 = 1;
    while scaled != 0 && scaled < d * 0x10_0000_0000_0000
        invariant
            0 < d <= 0x2_0000_0000_0000_0000,
            n < 0x200_0000_0000_0000_0000,
            scaled == n * out,
            1 <= out,
            n > 0 ==> out <= scaled,
            n == 0 ==> out == 1,
            out > 1 ==> scaled < d * 0x20_0000_0000_0000,
            grow(n as nat, d as nat) == out * grow(scaled as nat, d as nat),
        decreases d * 0x20_0000_0000_0000 - scaled,
    {
        proof {
            let g = grow((scaled * 2) as nat, d as nat);
            assert(out * (2 * g) == (out * 2) * g) by (nonlinear_arith);
            assert(n * (out * 2) == (n * out) * 2) by (nonlinear_arith);
        }
        scaled = scaled * 2;
        out = out * 2;
    }
    assert(out * 1 == out);
    out
}

/// The binary64 value nearest to the whole number `n`.
pub fn to_nearest(n: u128) -> (out: u128)
    requires
        n < 0x100_0000_0000_0000_0000,
    ensures
        out == nearest(n as nat),
        out <= 2 * n,
        n > 0 ==> out > 0,
{
    let unit = shrink_by(n, 1);
    let m = round_to_even(n, unit);
    proof {
        let q = n / unit;
        assert(q * unit <= n) by (nonlinear_arith)
            requires
                q == n / unit,
                unit > 0,
        ;
        assert(m * unit <= q * unit + unit) by (nonlinear_arith)
            requires
                m <= q + 1,
        ;
        if unit == 1 {
            assert(n / 1 == n && n % 1 == 0);
            assert(m * 1 == m);
        } else {
            assert(q >= 1) by (nonlinear_arith)
                requires
                    q == n / unit,
                    unit <= n,
                    unit > 0,
            ;
            assert(m * unit > 0) by (nonlinear_arith)
                requires
                    m >= 1,
                    unit > 0,
            ;
        }
    }
    m * unit
}

/// The binary64 value nearest to `n / d`, in tenths, rounded to a whole number of them.
pub fn to_tenths(n: u128, d: u128) -> (out: u128)
    requires
        0 < d < 0x2_0000_0000_0000_0000,
        n < 0x200_0000_0000_0000_0000,
    ensures
        out == tenths(n as nat, d as nat),
{
    let up = shrink_by(n, d);
    let down = grow_by(n, d);
    proof {
        assert(n * down < 0x40_0000_0000_0000_0000_0000_0000_0000) by {
            if down == 1 {
                assert(n * 1 == n);
            }
        }
        assert(d * up > 0) by (nonlinear_arith)
            requires
                d > 0,
                up > 0,
        ;
        if up == 1 {
            assert(d * 1 == d);
        }
    }
    let top: u128 = n * down;
    let bottom: u128 = d * up;
    let m = round_to_even(top, bottom);
    proof {
        let q = top / bottom;
        assert(q * bottom <= top) by (nonlinear_arith)
            requires
                q == top / bottom,
                bottom > 0,
        ;
        assert(q * up <= q * bottom) by (nonlinear_arith)
            requires
                bottom == d * up,
                d > 0,
                q >= 0,
                up >= 0,
        ;
        assert(m * up <= q * up + up) by (nonlinear_arith)
            requires
                m <= q + 1,
        ;
        assert(up <= d * up) by (nonlinear_arith)
            requires
                d > 0,
                up >= 0,
        ;
    }
    round_to_even(10 * (m * up), down)
}

/// Adds a number of tenths to the end of `out`, with one digit after the point.
pub fn push_one_place(out: &mut String, t: u128)
    ensures
        final(out)@ == old(out)@ + one_place(t as nat),
{
    push_decimal(out, t / 10);
    out.push('.');
    let last: u8 = (t % 10) as u8;
    out.push(('0' as u8 + last) as char);
    assert(out@ =~= old(out)@ + one_place(t as nat));
}

/// A number below ten is one digit, and any other is what it has before its last digit, and that
/// digit.
pub proof fn law_decimals(n: nat)
    ensures
        n < 10 ==> decimal(n).len() == 1 && decimal(n)[0] as u32 == 48 + n,
        n >= 10 ==> decimal(n) == decimal(n / 10) + decimal(n % 10),
{
    if n >= 10 {
        assert(decimal(n) =~= decimal(n / 10) + decimal(n % 10));
    } else {
        let b = (48 + n) as u8;
        assert(b as char as u32 == b as u32);
    }
}

/// A zero in front of digits does not count.
proof fn lemma_leading_zero(s: Seq<char>)
    ensures
        digits_value(seq!['0'] + s) == digits_value(s),
    decreases s.len(),
{
    let t = seq!['0'] + s;
    if s.len() == 0 {
        reveal_with_fuel(digits_value, 2);
        assert(t.drop_last() =~= Seq::empty());
    } else {
        lemma_leading_zero(s.drop_last());
        assert(t.drop_last() =~= seq!['0'] + s.drop_last());
    }
}

/// The digits of a number read as the number, with a plus sign or zeros before them too; one that
/// does not fit in 64 bits does not read. Nothing reads that has no digits, or has anything else in
/// it.
pub proof fn law_numbers_are_read(n: nat, s: Seq<char>, i: int)
    ensures
        parsed(decimal(n)) == if n <= u64::MAX {
            Some(n as u64)
        } else {
            None
        },
        parsed(seq!['+'] + decimal(n)) == parsed(decimal(n)),
        s.len() > 0 && s[0] != '+' ==> parsed(seq!['0'] + s) == parsed(s),
        parsed(Seq::empty()) is None,
        parsed(seq!['+']) is None,
        0 <= i < s.len() && !(48 <= s[i] as u32 <= 57) && !(i == 0 && s[i] == '+')
            ==> parsed(s) is None,
{
    lemma_decimal_digits(n);
    lemma_decimal_value(n);
    assert(is_digit(decimal(n)[0]));
    assert((seq!['+'] + decimal(n)).drop_first() =~= decimal(n));
    assert(seq!['+'].drop_first() =~= Seq::empty());
    if s.len() > 0 && s[0] != '+' {
        let t = seq!['0'] + s;
        lemma_leading_zero(s);
        if forall|j: int| 0 <= j < s.len() ==> is_digit(#[trigger] s[j]) {
            assert forall|j: int| 0 <= j < t.len() implies is_digit(#[trigger] t[j]) by {
                if j > 0 {
                    assert(is_digit(s[j - 1]));
                }
            }
        } else {
            let j = choose|j: int| 0 <= j < s.len() && !is_digit(#[trigger] s[j]);
            assert(!is_digit(t[j + 1]));
        }
    }
    if 0 <= i < s.len() && !(48 <= s[i] as u32 <= 57) && !(i == 0 && s[i] == '+') {
        let digits = after_plus(s);
        if s[0] == '+' {
            assert(!is_digit(digits[i - 1]));
        } else {
            assert(!is_digit(digits[i]));
        }
    }
}

/// A quotient is rounded to the nearest whole number, and to the even one of two that are equally
/// near.
pub proof fn law_rounding(n: nat, d: nat)
    requires
        d > 0,
    ensures
        -(d as int) <= 2 * (n - round_even(n, d) * d) <= d,
        2 * (n - round_even(n, d) * d) == d || 2 * (n - round_even(n, d) * d) == -d ==> round_even(
            n,
            d,
        ) % 2 == 0,
{
    let q = n / d;
    let r = n % d;
    assert(n == q * d + r && r < d) by {
        vstd::arithmetic::div_mod::lemma_fundamental_div_mod(n as int, d as int);
        vstd::arithmetic::div_mod::lemma_mod_bound(n as int, d as int);
        assert(d * q == q * d) by (nonlinear_arith);
    }
    assert((q + 1) * d == q * d + d) by (nonlinear_arith);
}

/// The power of two that brings a quotient down to 53 bits.
proof fn lemma_shrink(n: nat, d: nat)
    requires
        d > 0,
    ensures
        shrink(n, d) >= 1,
        n < d * shrink(n, d) * 0x20_0000_0000_0000,
        shrink(n, d) > 1 ==> d * shrink(n, d) * 0x10_0000_0000_0000 <= n,
    decreases n / d,
{
    if n >= d * 0x20_0000_0000_0000 {
        assert(n / (d * 2) < n / d) by (nonlinear_arith)
            requires
                d > 0,
                n >= d * 0x20_0000_0000_0000,
        ;
        lemma_shrink(n, d * 2);
        let s = shrink(n, d * 2);
        assert((d * 2) * s == d * (2 * s)) by (nonlinear_arith);
        if s == 1 {
            assert(d * (2 * s) * 0x10_0000_0000_0000 == d * 0x20_0000_0000_0000) by (nonlinear_arith)
                requires
                    s == 1,
            ;
        }
    } else {
        assert(d * 1 == d);
    }
}

/// A whole number of up to 53 bits is its own nearest, and any other is missed by one part in
/// 2^53 at most.
pub proof fn law_nearest_is_near(n: nat)
    ensures
        n < 0x20_0000_0000_0000 ==> nearest(n) == n,
        -(n as int) <= 0x20_0000_0000_0000 * (n - nearest(n)) <= n,
{
    let u = shrink(n, 1);
    lemma_shrink(n, 1);
    law_rounding(n, u);
    let miss = n - round_even(n, u) * u;
    if u == 1 {
        assert(n / 1 == n && n % 1 == 0);
        assert(round_even(n, 1) * 1 == round_even(n, 1));
    } else {
        assert(u * 0x10_0000_0000_0000 <= n);
        assert(-(n as int) <= 0x20_0000_0000_0000 * miss <= n) by (nonlinear_arith)
            requires
                -(u as int) <= 2 * miss <= u,
                u * 0x10_0000_0000_0000 <= n,
        ;
    }
}

/// The power of two that brings a quotient up to 53 bits.
proof fn lemma_grow(n: nat, d: nat)
    requires
        d > 0,
        n > 0,
    ensures
        grow(n, d) >= 1,
        n * grow(n, d) >= d * 0x10_0000_0000_0000,
    decreases
            (if n < d * 0x10_0000_0000_0000 {
                d * 0x10_0000_0000_0000 - n
            } else {
                0
            }),
{
    if n < d * 0x10_0000_0000_0000 {
        lemma_grow(n * 2, d);
        let g = grow(n * 2, d);
        assert((n * 2) * g == n * (2 * g)) by (nonlinear_arith);
    } else {
        assert(n * 1 == n);
    }
}

/// A quotient in tenths is missed by half of one and a two-hundredth of one at most, as long as it
/// has no more than 40 bits before the point.
pub proof fn law_tenths_are_near(n: nat, d: nat)
    requires
        d > 0,
        n < d * 0x100_0000_0000,
    ensures
        -101 * (d as int) <= 200 * (10 * n - tenths(n, d) * d) <= 101 * d,
{
    let up = shrink(n, d);
    let down = grow(n, d);
    assert(up == 1);
    assert(d * 1 == d);
    let m = round_even(n * down, d * up);
    let t = tenths(n, d);
    assert(m * 1 == m);
    assert(t == round_even(10 * m, down));
    if n == 0 {
        assert(0 * down == 0) by (nonlinear_arith);
        assert(0nat / d == 0 && 0nat % d == 0) by (nonlinear_arith)
            requires
                d > 0,
        ;
        assert(m == 0);
        assert(t == 0);
        assert(0 * d == 0) by (nonlinear_arith);
    } else {
        lemma_grow(n, d);
        assert(down > 0x800) by (nonlinear_arith)
            requires
                n * down >= d * 0x10_0000_0000_0000,
                n < d * 0x100_0000_0000,
                d > 0,
        ;
        law_rounding(n * down, d);
        law_rounding(10 * m, down);
        lemma_two_roundings(n as int, d as int, down as int, m as int, t as int);
    }
}

/// What two roundings miss together.
proof fn lemma_two_roundings(n: int, d: int, down: int, m: int, t: int)
    requires
        d > 0,
        down > 0x800,
        -d <= 2 * (n * down - m * d) <= d,
        -down <= 2 * (10 * m - t * down) <= down,
    ensures
        -101 * d <= 200 * (10 * n - t * d) <= 101 * d,
{
    let a = n * down - m * d;
    let b = 10 * m - t * down;
    let miss = 10 * n - t * d;
    assert(miss * down == 10 * a + b * d) by (nonlinear_arith)
        requires
            a == n * down - m * d,
            b == 10 * m - t * down,
            miss == 10 * n - t * d,
    ;
    assert(-(down * d) <= 2 * (b * d) <= down * d) by (nonlinear_arith)
        requires
            -down <= 2 * b <= down,
            d > 0,
    ;
    assert(2000 * d <= down * d) by (nonlinear_arith)
        requires
            down > 0x800,
            d > 0,
    ;
    assert(-101 * (down * d) <= 200 * (miss * down) <= 101 * (down * d));
    assert(200 * miss <= 101 * d) by (nonlinear_arith)
        requires
            200 * (miss * down) <= 101 * (down * d),
            down > 0,
    ;
    assert(-101 * d <= 200 * miss) by (nonlinear_arith)
        requires
            -101 * (down * d) <= 200 * (miss * down),
            down > 0,
    ;
}

/// A number of tenths is written with the point before its last digit.
pub proof fn law_one_digit_behind_the_point(t: nat)
    ensures
        one_place(t) == decimal(t / 10) + seq!['.'] + decimal(t % 10),
{
    assert(one_place(t) =~= decimal(t / 10) + seq!['.'] + decimal(t % 10));
}

/// Numbers are written and read as stated.
pub proof fn law_numbers_are_written_and_read(
    n: u64,
    written: String,
    s: &[char],
    read: Option<u64>,
)
    requires
        call_ensures(to_decimal, (n,), written),
        call_ensures(parse_u64, (s,), read),
    ensures
        written@ == decimal(n as nat),
        read == parsed(s@),
{
}

/// The power of two to divide by is the smallest that leaves 53 bits before the point, and the one to
/// multiply by the smallest that brings as many about.
pub proof fn law_scaling(n: nat, d: nat)
    requires
        d > 0,
        n > 0,
    ensures
        n < d * 0x20_0000_0000_0000 ==> shrink(n, d) == 1,
        n >= d * 0x20_0000_0000_0000 ==> shrink(n, d) == 2 * shrink(n, 2 * d),
        n >= d * 0x10_0000_0000_0000 ==> grow(n, d) == 1,
        n < d * 0x10_0000_0000_0000 ==> grow(n, d) == 2 * grow(2 * n, d),
{
}

/// A quotient in tenths is rounded twice: to 53 bits, and then to a whole number of tenths.
pub proof fn law_tenths_are_rounded_twice(n: nat, d: nat, up: nat, down: nat, m: nat)
    requires
        up == shrink(n, d),
        down == grow(n, d),
        m == round_even(n * down, d * up),
    ensures
        tenths(n, d) == round_even(10 * (m * up), down),
        nearest(n) == round_even(n, shrink(n, 1)) * shrink(n, 1),
{
}

} // verus!
