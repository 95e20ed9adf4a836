//! Decimal numbers as text: whole numbers, and fixed-point numbers kept as a
//! whole number of units of `10^-width`.

use vstd::prelude::*;
use crate::text::{find_char, find_from, lemma_find_char_after, push_all, slice_of};

verus! {

/// Ten to the power `k`.
pub open spec fn pow10(k: nat) -> nat
    decreases k,
{
    if k == 0 {
        1
    } else {
        10 * pow10((k - 1) as nat)
    }
}

/// A power of ten is positive.
pub proof fn lemma_pow10_positive(k: nat)
    ensures
        pow10(k) > 0,
    decreases k,
{
    if k > 0 {
        lemma_pow10_positive((k - 1) as nat);
    }
}

/// A higher power of ten is not smaller.
pub proof fn lemma_pow10_monotonic(a: nat, b: nat)
    requires
        a <= b,
    ensures
        pow10(a) <= pow10(b),
    decreases b,
{
    if a < b {
        lemma_pow10_monotonic(a, (b - 1) as nat);
    }
}

/// The widest scale whose unit fits a `u64` with room for one more digit.
pub const MAX_WIDTH: u32 = 18;

/// Ten to the power `width`.
pub fn unit_of(width: u32) -> (r: u64)
    requires
        width <= MAX_WIDTH,
    ensures
        r == pow10(width as nat),
        1 <= r <= 1_000_000_000_000_000_000,
{
    let mut r: u64 = 1;
    let mut k: u32 = 0;
    proof {
        reveal_with_fuel(pow10, 19);
    }
    while k < width
        invariant
            k <= width <= 18,
            r == pow10(k as nat),
            pow10(18) == 1_000_000_000_000_000_000,
        decreases width - k,
    {
        proof {
            lemma_pow10_monotonic((k + 1) as nat, 18);
        }
        r = r * 10;
        k += 1;
    }
    proof {
        lemma_pow10_monotonic(width as nat, 18);
        lemma_pow10_positive(width as nat);
    }
    r
}

/// The character of the digit `d`.
pub open spec fn digit_char(d: int) -> char {
    if d == 0 {
        '0'
    } else if d == 1 {
        '1'
    } else if d == 2 {
        '2'
    } else if d == 3 {
        '3'
    } else if d == 4 {
        '4'
    } else if d == 5 {
        '5'
    } else if d == 6 {
        '6'
    } else if d == 7 {
        '7'
    } else if d == 8 {
        '8'
    } else {
        '9'
    }
}

/// Whether `c` is one of the ten decimal digits.
pub open spec fn is_digit(c: char) -> bool {
    '0' <= c <= '9'
}

/// The number that the digit `c` stands for.
pub open spec fn digit_value(c: char) -> int {
    c as int - '0' as int
}

/// The character of the digit `d`.
pub fn digit_of(d: u64) -> (c: char)
    requires
        d < 10,
    ensures
        c == digit_char(d as int),
        is_digit(c),
        digit_value(c) == d,
{
    if d == 0 {
        '0'
    } else if d == 1 {
        '1'
    } else if d == 2 {
        '2'
    } else if d == 3 {
        '3'
    } else if d == 4 {
        '4'
    } else if d == 5 {
        '5'
    } else if d == 6 {
        '6'
    } else if d == 7 {
        '7'
    } else if d == 8 {
        '8'
    } else {
        '9'
    }
}

/// The decimal digits of `n`, without leading zeros; `0` is written "0".
pub open spec fn digits(n: nat) -> Seq<char>
    decreases n,
{
    if n < 10 {
        seq![digit_char(n as int)]
    } else {
        digits(n / 10).push(digit_char((n % 10) as int))
    }
}

/// Appends the decimal digits of `n`.
pub fn push_nat(out: &mut Vec<char>, n: u64)
    ensures
        final(out)@ == old(out)@ + digits(n as nat),
    decreases n,
{
    if n >= 10 {
        push_nat(out, n / 10);
    }
    out.push(digit_of(n % 10));
}

/// `count` zeros.
pub open spec fn zeros(count: nat) -> Seq<char> {
    Seq::new(count, |i: int| '0')
}

/// The decimal digits of `n`, with zeros before them up to `width` digits.
pub open spec fn padded(n: nat, width: nat) -> Seq<char> {
    if digits(n).len() >= width {
        digits(n)
    } else {
        zeros((width - digits(n).len()) as nat) + digits(n)
    }
}

/// Appends the decimal digits of `n`, zero-padded to `width` digits.
pub fn push_padded(out: &mut Vec<char>, n: u64, width: usize)
    ensures
        final(out)@ == old(out)@ + padded(n as nat, width as nat),
{
    let mut text: Vec<char> = Vec::new();
    push_nat(&mut text, n);
    let mut k: usize = text.len();
    while k < width
        invariant
            text.len() <= k,
            k == text.len() || k <= width,
            out@ == old(out)@ + zeros((k - text.len()) as nat),
        decreases width - k,
    {
        out.push('0');
        k += 1;
    }
    push_all(out, &text);
}

/// The digits after the point of `f` units of `10^-width`, where `f` is less
/// than one: as many as are needed, none where `f` is zero.
pub open spec fn fraction_text(f: nat, width: nat) -> Seq<char>
    decreases width,
{
    if f == 0 || width == 0 {
        Seq::empty()
    } else {
        let unit = pow10((width - 1) as nat);
        seq![digit_char((f / unit) as int)] + fraction_text(f % unit, (width - 1) as nat)
    }
}

/// `n` units of `10^-width` as a decimal number: the whole part, then, where
/// the rest is not zero, a point and the digits of the rest without trailing
/// zeros.
pub open spec fn fixed_text(n: nat, width: nat) -> Seq<char> {
    let unit = pow10(width);
    if n % unit == 0 {
        digits(n / unit)
    } else {
        digits(n / unit) + seq!['.'] + fraction_text(n % unit, width)
    }
}

/// Appends `n` units of `10^-width` as a decimal number.
pub fn push_fixed(out: &mut Vec<char>, n: u64, width: u32)
    requires
        width <= MAX_WIDTH,
    ensures
        final(out)@ == old(out)@ + fixed_text(n as nat, width as nat),
{
    let unit = unit_of(width);
    push_nat(out, n / unit);
    let mut f: u64 = n % unit;
    if f != 0 {
        out.push('.');
        let mut u: u64 = unit;
        let mut w: u32 = width;
        let ghost head = out@;
        while f != 0
            invariant
                w <= width,
                u == pow10(w as nat),
                f < u,
                head + fraction_text(n as nat % unit as nat, width as nat) == out@ + fraction_text(
                    f as nat,
                    w as nat,
                ),
            decreases w,
        {
            proof {
                lemma_pow10_positive((w - 1) as nat);
            }
            u = u / 10;
            w -= 1;
            assert(f / u < 10) by (nonlinear_arith)
                requires
                    f < 10 * u,
                    u > 0,
            ;
            out.push(digit_of(f / u));
            f = f % u;
        }
    }
}

/// Whether `s` is made of decimal digits only.
pub open spec fn all_digits(s: Seq<char>) -> bool {
    forall|i: int| 0 <= i < s.len() ==> is_digit(#[trigger] s[i])
}

/// Whether `v` is made of decimal digits only.
pub fn only_digits(v: &Vec<char>) -> (r: bool)
    ensures
        r == all_digits(v@),
{
    let mut i: usize = 0;
    while i < v.len()
        invariant
            i <= v.len(),
            forall|k: int| 0 <= k < i ==> is_digit(#[trigger] v@[k]),
        decreases v.len() - i,
    {
        if !('0' <= v[i] && v[i] <= '9') {
            return false;
        }
        i += 1;
    }
    true
}

/// The number that the digits of `s` denote; zero for no digits.
pub open spec fn dec_value(s: Seq<char>) -> int
    decreases s.len(),
{
    if s.len() == 0 {
        0
    } else {
        dec_value(s.drop_last()) * 10 + digit_value(s.last())
    }
}

/// A number is at least what any beginning of its digits denotes.
pub proof fn lemma_dec_value_prefix(s: Seq<char>, k: int)
    requires
        all_digits(s),
        0 <= k <= s.len(),
    ensures
        0 <= dec_value(s.take(k)) <= dec_value(s),
    decreases s.len(),
{
    if k == s.len() {
        assert(s.take(k) == s);
        if s.len() > 0 {
            lemma_dec_value_prefix(s.drop_last(), k - 1);
        }
    } else {
        assert(s.drop_last().take(k) == s.take(k));
        lemma_dec_value_prefix(s.drop_last(), k);
    }
}

/// The number that the digits of `v` denote, where it fits.
pub fn value_of(v: &Vec<char>) -> (r: Option<u64>)
    requires
        all_digits(v@),
    ensures
        match r {
            Some(n) => n == dec_value(v@),
            None => dec_value(v@) > u64::MAX,
        },
{
    let mut n: u64 = 0;
    let mut i: usize = 0;
    while i < v.len()
        invariant
            i <= v.len(),
            all_digits(v@),
            n == dec_value(v@.take(i as int)),
        decreases v.len() - i,
    {
        let c = v[i];
        let d: u64 = (c as u64) - ('0' as u64);
        proof {
            assert(v@.take(i + 1).drop_last() == v@.take(i as int));
            lemma_dec_value_prefix(v@, i + 1);
        }
        if n > (u64::MAX - d) / 10 {
            return None;
        }
        n = n * 10 + d;
        i += 1;
    }
    assert(v@.take(v.len() as int) == v@);
    Some(n)
}

/// What a count reads as: an optional `+`, then one digit or more, denoting a
/// number that a `usize` holds.
pub open spec fn parse_count(s: Seq<char>) -> Option<usize> {
    let body = if s.len() > 0 && s[0] == '+' {
        s.skip(1)
    } else {
        s
    };
    if body.len() > 0 && all_digits(body) && dec_value(body) <= usize::MAX {
        Some(dec_value(body) as usize)
    } else {
        None
    }
}

/// What a count reads as.
pub fn read_count(v: &Vec<char>) -> (r: Option<usize>)
    ensures
        r == parse_count(v@),
{
    let body = if v.len() > 0 && v[0] == '+' {
        slice_of(v, 1, v.len())
    } else {
        slice_of(v, 0, v.len())
    };
    assert(v@.subrange(0, v.len() as int) == v@);
    if body.len() == 0 || !only_digits(&body) {
        return None;
    }
    proof {
        lemma_dec_value_prefix(body@, 0);
    }
    match value_of(&body) {
        Some(n) => {
            if n <= usize::MAX as u64 {
                Some(n as usize)
            } else {
                None
            }
        },
        None => None,
    }
}

/// A number without the `+` that may stand before it.
pub open spec fn unsigned(s: Seq<char>) -> Seq<char> {
    if s.len() > 0 && s[0] == '+' {
        s.skip(1)
    } else {
        s
    }
}

/// The greatest exponent, up or down, that a number may have.
pub const MAX_EXPONENT: u64 = 4_294_967_295;

/// What an exponent reads as: an optional sign, then one digit or more,
/// denoting no more than `MAX_EXPONENT`.
pub open spec fn parse_exponent(s: Seq<char>) -> Option<int> {
    let signed = s.len() > 0 && (s[0] == '+' || s[0] == '-');
    let body = if signed {
        s.skip(1)
    } else {
        s
    };
    if body.len() > 0 && all_digits(body) && dec_value(body) <= MAX_EXPONENT {
        if s[0] == '-' {
            Some(-dec_value(body))
        } else {
            Some(dec_value(body))
        }
    } else {
        None
    }
}

/// What an exponent reads as.
pub fn read_exponent(v: &Vec<char>) -> (r: Option<i64>)
    ensures
        match r {
            Some(exponent) => parse_exponent(v@) == Some(exponent as int),
            None => parse_exponent(v@) is None,
        },
{
    let signed = v.len() > 0 && (v[0] == '+' || v[0] == '-');
    let body = if signed {
        slice_of(v, 1, v.len())
    } else {
        slice_of(v, 0, v.len())
    };
    assert(v@.subrange(0, v.len() as int) == v@);
    if body.len() == 0 || !only_digits(&body) {
        return None;
    }
    match value_of(&body) {
        Some(n) => {
            if n > MAX_EXPONENT {
                None
            } else if v[0] == '-' {
                Some(-(n as i64))
            } else {
                Some(n as i64)
            }
        },
        None => None,
    }
}

/// Digits moved by `shift` places: with as many zeros after them where the
/// shift is up, and without as many of their last digits where it is down.
pub open spec fn scaled(digits: Seq<char>, shift: int) -> Seq<char> {
    if shift >= 0 {
        digits + zeros(shift as nat)
    } else if digits.len() + shift > 0 {
        digits.take(digits.len() + shift)
    } else {
        Seq::empty()
    }
}

/// Whether `s` is made of zeros only.
pub open spec fn all_zeros(s: Seq<char>) -> bool {
    forall|i: int| 0 <= i < s.len() ==> #[trigger] s[i] == '0'
}

/// Whether `v` is made of zeros only.
pub fn only_zeros(v: &Vec<char>) -> (r: bool)
    ensures
        r == all_zeros(v@),
{
    let mut i: usize = 0;
    while i < v.len()
        invariant
            i <= v.len(),
            forall|k: int| 0 <= k < i ==> #[trigger] v@[k] == '0',
        decreases v.len() - i,
    {
        if v[i] != '0' {
            return false;
        }
        i += 1;
    }
    true
}

/// Digits denote zero where they are all zeros, and more where they are not.
pub proof fn lemma_zero_value(s: Seq<char>)
    requires
        all_digits(s),
    ensures
        dec_value(s) >= 0,
        all_zeros(s) == (dec_value(s) == 0),
    decreases s.len(),
{
    if s.len() > 0 {
        lemma_zero_value(s.drop_last());
        if all_zeros(s) {
            assert(s[s.len() - 1] == '0');
            assert(all_zeros(s.drop_last()));
        }
        if dec_value(s) == 0 {
            assert forall|i: int| 0 <= i < s.len() implies #[trigger] s[i] == '0' by {
                if i < s.len() - 1 {
                    assert(s.drop_last()[i] == s[i]);
                }
            }
        }
    }
}

/// The number that digits moved by `shift` places denote, where it fits.
pub fn scaled_value(digits: &Vec<char>, shift: i128) -> (r: Option<u64>)
    requires
        all_digits(digits@),
    ensures
        match r {
            Some(n) => n == dec_value(scaled(digits@, shift as int)),
            None => dec_value(scaled(digits@, shift as int)) > u64::MAX,
        },
{
    if shift < 0 {
        if shift <= -(digits.len() as i128) {
            return Some(0);
        }
        let kept = digits.len() - ((-shift) as usize);
        let cut = slice_of(digits, 0, kept);
        value_of(&cut)
    } else if shift > 20 {
        proof {
            lemma_zero_value(digits@);
            lemma_zeros_value(shift as nat);
            lemma_dec_value_concat(digits@, zeros(shift as nat));
            lemma_pow10_monotonic(20, shift as nat);
            reveal_with_fuel(pow10, 21);
            assert(pow10(20) == 100_000_000_000_000_000_000);
        }
        if only_zeros(digits) {
            proof {
                assert(dec_value(digits@) * pow10(shift as nat) == 0) by (nonlinear_arith)
                    requires
                        dec_value(digits@) == 0,
                ;
            }
            Some(0)
        } else {
            proof {
                assert(dec_value(digits@) * pow10(shift as nat) >= pow10(20)) by (nonlinear_arith)
                    requires
                        dec_value(digits@) >= 1,
                        pow10(shift as nat) >= pow10(20),
                ;
            }
            None
        }
    } else {
        let mut all: Vec<char> = Vec::new();
        push_all(&mut all, digits);
        let mut k: i128 = 0;
        while k < shift
            invariant
                0 <= k <= shift <= 20,
                all@ == digits@ + zeros(k as nat),
            decreases shift - k,
        {
            all.push('0');
            k += 1;
        }
        value_of(&all)
    }
}

/// The place of the mark of the exponent in `s`: of its first `e` or `E`, or
/// the length of `s` where it holds none.
pub open spec fn find_exponent(s: Seq<char>) -> int {
    if find_char(s, 'e') <= find_char(s, 'E') {
        find_char(s, 'e')
    } else {
        find_char(s, 'E')
    }
}

/// What a fixed-point number reads as, in units of `10^-width`. The number
/// may begin with `+`; it is made of digits with at most one point among
/// them and at least one digit, and may end in an exponent: `e` or `E` and
/// what `parse_exponent` reads. What is less than one unit is cut off. The
/// number of units must fit a `u64`.
pub open spec fn parse_fixed(s: Seq<char>, width: nat) -> Option<u64> {
    let body = unsigned(s);
    let mark = find_exponent(body);
    let mantissa = body.take(mark);
    let exponent = if mark < body.len() {
        parse_exponent(body.skip(mark + 1))
    } else {
        Some(0int)
    };
    let point = find_char(mantissa, '.');
    let whole = mantissa.take(point);
    let decimals = if point < mantissa.len() {
        mantissa.skip(point + 1)
    } else {
        Seq::empty()
    };
    match exponent {
        Some(exponent) => {
            let units = dec_value(scaled(whole + decimals, width + exponent - decimals.len()));
            if whole.len() + decimals.len() > 0 && all_digits(whole) && all_digits(decimals)
                && units <= u64::MAX {
                Some(units as u64)
            } else {
                None
            }
        },
        None => None,
    }
}

/// What a fixed-point number reads as, in units of `10^-width`.
pub fn read_fixed(v: &Vec<char>, width: u32) -> (r: Option<u64>)
    ensures
        r == parse_fixed(v@, width as nat),
{
    let body = if v.len() > 0 && v[0] == '+' {
        slice_of(v, 1, v.len())
    } else {
        slice_of(v, 0, v.len())
    };
    assert(v@.subrange(0, v.len() as int) == v@);
    assert(body@.skip(0) == body@);
    let small = find_from(&body, 0, 'e');
    let large = find_from(&body, 0, 'E');
    let mark = if small <= large {
        small
    } else {
        large
    };
    let mantissa = slice_of(&body, 0, mark);
    let exponent: i64 = if mark < body.len() {
        match read_exponent(&slice_of(&body, mark + 1, body.len())) {
            Some(exponent) => exponent,
            None => {
                return None;
            },
        }
    } else {
        0
    };
    let point = find_from(&mantissa, 0, '.');
    assert(mantissa@.skip(0) == mantissa@);
    let whole = slice_of(&mantissa, 0, point);
    let decimals = if point < mantissa.len() {
        slice_of(&mantissa, point + 1, mantissa.len())
    } else {
        Vec::new()
    };
    if (whole.len() == 0 && decimals.len() == 0) || !only_digits(&whole) || !only_digits(
        &decimals,
    ) {
        return None;
    }
    let mut all: Vec<char> = Vec::new();
    push_all(&mut all, &whole);
    push_all(&mut all, &decimals);
    scaled_value(&all, width as i128 + exponent as i128 - decimals.len() as i128)
}

/// One digit denotes its number.
pub proof fn lemma_digit_value(d: nat)
    requires
        d < 10,
    ensures
        is_digit(digit_char(d as int)),
        digit_value(digit_char(d as int)) == d,
        dec_value(seq![digit_char(d as int)]) == d,
{
    let one = seq![digit_char(d as int)];
    assert(dec_value(one.drop_last()) == 0);
}

/// The digits of a number denote that number.
pub proof fn lemma_digits_value(n: nat)
    ensures
        digits(n).len() >= 1,
        all_digits(digits(n)),
        dec_value(digits(n)) == n,
    decreases n,
{
    if n < 10 {
        lemma_digit_value(n);
    } else {
        lemma_digits_value(n / 10);
        lemma_digit_value(n % 10);
        assert(digits(n).drop_last() == digits(n / 10));
    }
}

/// What two runs of digits denote together: the first, moved up by as many
/// places as the second has, and the second.
pub proof fn lemma_dec_value_concat(a: Seq<char>, b: Seq<char>)
    ensures
        dec_value(a + b) == dec_value(a) * pow10(b.len()) + dec_value(b),
    decreases b.len(),
{
    if b.len() == 0 {
        assert(pow10(0) == 1);
    } else {
        assert((a + b).drop_last() == a + b.drop_last());
        lemma_dec_value_concat(a, b.drop_last());
        let x = dec_value(a);
        let p = pow10(b.drop_last().len()) as int;
        let y = dec_value(b.drop_last());
        let d = digit_value(b.last());
        assert((x * p + y) * 10 + d == x * (10 * p) + (y * 10 + d)) by (nonlinear_arith);
    }
}

/// Zeros denote zero.
pub proof fn lemma_zeros_value(count: nat)
    ensures
        all_digits(zeros(count)),
        dec_value(zeros(count)) == 0,
    decreases count,
{
    if count > 0 {
        lemma_zeros_value((count - 1) as nat);
        assert(zeros(count).drop_last() == zeros((count - 1) as nat));
    }
}

/// The digits after the point are digits, no more than the width, and with
/// zeros after them up to the width they denote the units that they stand
/// for.
pub proof fn lemma_fraction_value(f: nat, width: nat)
    requires
        f < pow10(width),
    ensures
        all_digits(fraction_text(f, width)),
        fraction_text(f, width).len() <= width,
        f > 0 ==> fraction_text(f, width).len() > 0,
        dec_value(
            fraction_text(f, width) + zeros((width - fraction_text(f, width).len()) as nat),
        ) == f,
    decreases width,
{
    if f == 0 || width == 0 {
        lemma_zeros_value(width);
    } else {
        let unit = pow10((width - 1) as nat);
        lemma_pow10_positive((width - 1) as nat);
        let d = f / unit;
        let rest = f % unit;
        assert(d < 10 && d * unit + rest == f) by (nonlinear_arith)
            requires
                f < 10 * unit,
                unit > 0,
                d == f / unit,
                rest == f % unit,
        ;
        lemma_fraction_value(rest, (width - 1) as nat);
        let tail = fraction_text(rest, (width - 1) as nat);
        let text = fraction_text(f, width);
        let fill = zeros((width - text.len()) as nat);
        assert(text + fill == seq![digit_char(d as int)] + (tail + fill));
        lemma_dec_value_concat(seq![digit_char(d as int)], tail + fill);
        lemma_digit_value(d);
    }
}

/// What is written for a number of units reads as that number: nothing is
/// lost between writing a fixed-point number and reading it.
pub proof fn lemma_fixed_round_trip(n: nat, width: nat)
    requires
        n <= u64::MAX,
    ensures
        parse_fixed(fixed_text(n, width), width) == Some(n as u64),
{
    let unit = pow10(width);
    lemma_pow10_positive(width);
    let whole = digits(n / unit);
    let f = n % unit;
    lemma_digits_value(n / unit);
    lemma_fraction_value(f, width);
    let text = fixed_text(n, width);
    let frac = fraction_text(f, width);
    assert(n == (n / unit) * unit + f) by (nonlinear_arith)
        requires
            unit > 0,
            f == n % unit,
    ;
    assert forall|i: int| 0 <= i < whole.len() implies whole[i] != '.' by {
        assert(is_digit(whole[i]));
    }
    assert forall|i: int| 0 <= i < text.len() implies text[i] != 'e' && text[i] != 'E' by {
        if i < whole.len() {
            assert(is_digit(whole[i]));
        } else if i > whole.len() {
            assert(is_digit(frac[i - whole.len() - 1]));
        }
    }
    lemma_find_char_after(text, Seq::<char>::empty(), 'e');
    lemma_find_char_after(text, Seq::<char>::empty(), 'E');
    assert(text.take(text.len() as int) == text);
    if f == 0 {
        lemma_find_char_after(whole, Seq::<char>::empty(), '.');
        lemma_zeros_value(width);
        lemma_dec_value_concat(whole, zeros(width));
    } else {
        let tail = seq!['.'] + frac;
        assert(text == whole + tail);
        lemma_find_char_after(whole, tail, '.');
        assert(text.take(whole.len() as int) == whole);
        assert(text.skip(whole.len() as int + 1) == frac);
        let fill = zeros((width - frac.len()) as nat);
        assert(scaled(whole + frac, width - frac.len()) == whole + (frac + fill));
        lemma_dec_value_concat(whole, frac + fill);
    }
}

} // verus!
