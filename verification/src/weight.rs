//! Weights of hands within a range.

use vstd::prelude::*;
use vstd::arithmetic::div_mod::lemma_fundamental_div_mod_converse;
use vstd::string::*;
use crate::error::ParseError;

verus! {

/// The number of billionths in one.
pub const BILLION: u32 = 1_000_000_000;

/// The value of a decimal digit, if the character is one.
pub open spec fn digit_value(c: char) -> Option<nat> {
    if c == '0' {
        Some(0nat)
    } else if c == '1' {
        Some(1nat)
    } else if c == '2' {
        Some(2nat)
    } else if c == '3' {
        Some(3nat)
    } else if c == '4' {
        Some(4nat)
    } else if c == '5' {
        Some(5nat)
    } else if c == '6' {
        Some(6nat)
    } else if c == '7' {
        Some(7nat)
    } else if c == '8' {
        Some(8nat)
    } else if c == '9' {
        Some(9nat)
    } else {
        None
    }
}

/// Whether every character of a text is a decimal digit.
pub open spec fn all_digits(s: Seq<char>) -> bool {
    forall|i: int| 0 <= i < s.len() ==> digit_value(#[trigger] s[i]) is Some
}

/// The number that a run of decimal digits writes; 0 for the empty run.
pub open spec fn digits_value(s: Seq<char>) -> nat
    decreases s.len(),
{
    if s.len() == 0 {
        0
    } else {
        10 * digits_value(s.drop_last()) + match digit_value(s.last()) {
            Some(d) => d,
            None => 0,
        }
    }
}

/// Ten to the power `n`.
pub open spec fn pow10(n: nat) -> nat
    decreases n,
{
    if n == 0 {
        1
    } else {
        10 * pow10((n - 1) as nat)
    }
}

/// Where the run of decimal digits that starts at `from` ends.
pub open spec fn digits_end(s: Seq<char>, from: int) -> int
    decreases s.len() - from,
{
    if 0 <= from < s.len() && digit_value(s[from]) is Some {
        digits_end(s, from + 1)
    } else {
        from
    }
}

/// How many characters the sign at a place takes: one, or none where no
/// sign stands there.
pub open spec fn sign_len(s: Seq<char>, at: int) -> int {
    if 0 <= at < s.len() && (s[at] == '+' || s[at] == '-') {
        1
    } else {
        0
    }
}

/// Whether a minus sign stands at a place.
pub open spec fn minus_at(s: Seq<char>, at: int) -> bool {
    0 <= at < s.len() && s[at] == '-'
}

/// Where the digits before the decimal point end.
pub open spec fn point_index(s: Seq<char>) -> int {
    digits_end(s, sign_len(s, 0))
}

/// Whether a decimal point follows the digits at the front.
pub open spec fn has_point(s: Seq<char>) -> bool {
    point_index(s) < s.len() && s[point_index(s)] == '.'
}

/// Where the digits of the number end, those after the point included.
pub open spec fn mantissa_end(s: Seq<char>) -> int {
    if has_point(s) {
        digits_end(s, point_index(s) + 1)
    } else {
        point_index(s)
    }
}

/// The digits before the decimal point.
pub open spec fn whole_part(s: Seq<char>) -> Seq<char> {
    s.subrange(sign_len(s, 0), point_index(s))
}

/// The digits after the decimal point; empty where there is none.
pub open spec fn fraction_part(s: Seq<char>) -> Seq<char> {
    if has_point(s) {
        s.subrange(point_index(s) + 1, mantissa_end(s))
    } else {
        Seq::empty()
    }
}

/// Whether anything follows the digits of the number.
pub open spec fn has_exponent(s: Seq<char>) -> bool {
    mantissa_end(s) < s.len()
}

/// The digits of the exponent: what follows the exponent's letter and sign.
pub open spec fn exponent_digits(s: Seq<char>) -> Seq<char> {
    if has_exponent(s) {
        s.subrange(mantissa_end(s) + 1 + sign_len(s, mantissa_end(s) + 1), s.len() as int)
    } else {
        Seq::empty()
    }
}

/// The power of ten that the number is scaled by; 0 without an exponent.
pub open spec fn exponent(s: Seq<char>) -> int {
    if minus_at(s, mantissa_end(s) + 1) {
        -(digits_value(exponent_digits(s)) as int)
    } else {
        digits_value(exponent_digits(s)) as int
    }
}

/// Whether what follows the digits of the number is an exponent: the letter
/// `e` or `E`, an optional sign, and at least one digit up to the end.
pub open spec fn exponent_written(s: Seq<char>) -> bool {
    &&& s[mantissa_end(s)] == 'e' || s[mantissa_end(s)] == 'E'
    &&& exponent_digits(s).len() >= 1
    &&& all_digits(exponent_digits(s))
}

/// Whether a text is a number in decimal notation: an optional sign, digits
/// with at most one decimal point among them, at least one digit, and
/// optionally the letter `e` or `E` with an exponent, which is an optional
/// sign and at least one digit.
pub open spec fn is_number(s: Seq<char>) -> bool {
    &&& whole_part(s).len() + fraction_part(s).len() >= 1
    &&& has_exponent(s) ==> exponent_written(s)
}

/// The number `n` times ten to the power `k`, rounded up to a whole number.
pub open spec fn scaled(n: nat, k: int) -> nat {
    if k >= 0 {
        n * pow10(k as nat)
    } else {
        (n / pow10((-k) as nat) + if n % pow10((-k) as nat) > 0 {
            1int
        } else {
            0int
        }) as nat
    }
}

/// The billionths in the size of the number that a text writes, rounded up.
pub open spec fn billionths_of_text(s: Seq<char>) -> nat {
    scaled(
        digits_value(whole_part(s) + fraction_part(s)),
        exponent(s) + 9 - fraction_part(s).len(),
    )
}

/// The weight, in billionths, that a text writes, if it writes one: a number
/// in decimal notation from zero to one. What lies beyond the ninth decimal
/// place is rounded up, so that only zero gives the weight zero.
pub open spec fn weight_of_text(s: Seq<char>) -> Option<nat> {
    let value = billionths_of_text(s);
    if is_number(s) && value <= BILLION && (minus_at(s, 0) ==> value == 0) {
        Some(value)
    } else {
        None
    }
}

/// A run of digits writes at least what a run of its first digits writes.
pub proof fn lemma_digits_grow(s: Seq<char>, i: int)
    requires
        0 <= i <= s.len(),
    ensures
        digits_value(s.subrange(0, i)) <= digits_value(s),
    decreases s.len() - i,
{
    if i < s.len() {
        assert(s.subrange(0, i + 1).drop_last() =~= s.subrange(0, i));
        lemma_digits_grow(s, i + 1);
    } else {
        assert(s.subrange(0, i) =~= s);
    }
}

/// A run of digits writes a number below ten to the power of its length.
pub proof fn lemma_digits_bound(s: Seq<char>)
    ensures
        digits_value(s) < pow10(s.len()),
    decreases s.len(),
{
    if s.len() > 0 {
        lemma_digits_bound(s.drop_last());
    }
}

/// Two runs of digits written one after the other: the first counts ten to
/// the power of the length of the second.
pub proof fn lemma_digits_split(a: Seq<char>, b: Seq<char>)
    ensures
        digits_value(a + b) == digits_value(a) * pow10(b.len()) + digits_value(b),
    decreases b.len(),
{
    if b.len() == 0 {
        assert(a + b =~= a);
        assert(digits_value(a) * pow10(0) == digits_value(a)) by (nonlinear_arith)
            requires
                pow10(0) == 1,
        ;
    } else {
        assert((a + b).drop_last() =~= a + b.drop_last());
        assert((a + b).last() == b.last());
        lemma_digits_split(a, b.drop_last());
        let d: nat = match digit_value(b.last()) {
            Some(d) => d,
            None => 0,
        };
        let x = digits_value(a);
        let p = pow10(b.drop_last().len());
        let y = digits_value(b.drop_last());
        assert(pow10(b.len()) == 10 * p);
        assert(10 * (x * p + y) + d == x * (10 * p) + (10 * y + d)) by (nonlinear_arith);
    }
}

/// The powers of ten grow with the exponent, from one on.
pub proof fn lemma_pow10_grows(a: nat, b: nat)
    requires
        a <= b,
    ensures
        1 <= pow10(a) <= pow10(b),
    decreases b,
{
    if b > 0 {
        if a < b {
            lemma_pow10_grows(a, (b - 1) as nat);
        } else {
            lemma_pow10_grows((a - 1) as nat, (b - 1) as nat);
        }
    }
}

/// With an exponent beyond the bound of exponents the billionths are what
/// they are at the bound: zero, one, or more than a billion.
pub proof fn lemma_same_rounding(d: Seq<char>, q: int, exact: int)
    requires
        q == exact || (q >= d.len() + 10 && exact >= q) || (q <= 0 && exact <= q),
    ensures
        scaled(digits_value(d), q - d.len()) <= BILLION ==> scaled(
            digits_value(d),
            exact - d.len(),
        ) == scaled(digits_value(d), q - d.len()),
        scaled(digits_value(d), q - d.len()) > BILLION ==> scaled(
            digits_value(d),
            exact - d.len(),
        ) > BILLION,
{
    lemma_scaled_far(d, q);
    lemma_scaled_far(d, exact);
}

/// How many digits of a run of `len` digits stand before the place `q`.
pub open spec fn cut(len: nat, q: int) -> int {
    if q < 0 {
        0
    } else if q > len {
        len as int
    } else {
        q
    }
}

/// The digits before the place `q` of a run make the whole part of what the
/// run writes with `q` digits before the point; where digits follow the
/// place, one is added unless all of them are zero.
pub proof fn lemma_scaled_parts(d: Seq<char>, q: int)
    ensures
        ({
            let c = cut(d.len(), q);
            let kept = digits_value(d.subrange(0, c));
            let rest = digits_value(d.subrange(c, d.len() as int));
            scaled(digits_value(d), q - d.len()) == if q >= d.len() {
                kept * pow10((q - d.len()) as nat)
            } else {
                kept + if rest > 0 {
                    1nat
                } else {
                    0nat
                }
            }
        }),
{
    let n = d.len() as int;
    let c = cut(d.len(), q);
    let front = d.subrange(0, c);
    let back = d.subrange(c, n);
    let kept = digits_value(front);
    let rest = digits_value(back);
    let total = digits_value(d);
    assert(front + back =~= d);
    lemma_digits_split(front, back);
    lemma_digits_bound(back);
    if q >= n {
        assert(front =~= d);
    } else {
        let m = pow10((n - q) as nat);
        lemma_pow10_grows((n - c) as nat, (n - q) as nat);
        if q < 0 {
            assert(front =~= Seq::<char>::empty());
            assert(kept == 0);
            assert(total == rest);
        }
        assert(total == kept * m + rest) by {
            if q < 0 {
                assert(0 * m + rest == rest);
            }
        }
        lemma_fundamental_div_mod_converse(total as int, m as int, kept as int, rest as int);
    }
}

/// Far to the left of the point nothing but zero stays within a billion;
/// far to the right of all digits everything but zero rounds up to one.
pub proof fn lemma_scaled_far(d: Seq<char>, q: int)
    ensures
        q >= d.len() + 10 && digits_value(d) > 0 ==> scaled(digits_value(d), q - d.len())
            > BILLION,
        q >= d.len() && digits_value(d) == 0 ==> scaled(digits_value(d), q - d.len()) == 0,
        q <= 0 && digits_value(d) > 0 ==> scaled(digits_value(d), q - d.len()) == 1,
        q <= 0 && digits_value(d) == 0 ==> scaled(digits_value(d), q - d.len()) == 0,
{
    let n = d.len() as int;
    let total = digits_value(d);
    lemma_scaled_parts(d, q);
    if q >= n {
        assert(d.subrange(0, n) =~= d);
        if q >= n + 10 && total > 0 {
            lemma_pow10_grows(10, (q - n) as nat);
            reveal_with_fuel(pow10, 11);
            assert(total * pow10((q - n) as nat) > BILLION) by (nonlinear_arith)
                requires
                    total >= 1,
                    pow10((q - n) as nat) > BILLION,
            ;
        }
        if total == 0 {
            assert(0 * pow10((q - n) as nat) == 0);
        }
    } else if q <= 0 {
        assert(d.subrange(0, 0) =~= Seq::<char>::empty());
        assert(d.subrange(0, n) =~= d);
    }
}

/// The value of a decimal digit.
pub fn digit_of(c: char) -> (d: Option<u32>)
    ensures
        match digit_value(c) {
            Some(v) => d == Some(v as u32),
            None => d is None,
        },
{
    if c == '0' {
        Some(0)
    } else if c == '1' {
        Some(1)
    } else if c == '2' {
        Some(2)
    } else if c == '3' {
        Some(3)
    } else if c == '4' {
        Some(4)
    } else if c == '5' {
        Some(5)
    } else if c == '6' {
        Some(6)
    } else if c == '7' {
        Some(7)
    } else if c == '8' {
        Some(8)
    } else if c == '9' {
        Some(9)
    } else {
        None
    }
}

/// Exponents are counted exactly below this bound. No text has so many
/// characters, so that a greater exponent moves every digit as far as this
/// one does.
const EXPONENT_CAP: u128 = 1_000_000_000_000_000_000_000_000_000_000;

/// The characters of a text.
fn chars_of(text: &str) -> (chars: Vec<char>)
    ensures
        chars@ == text@,
{
    let n = text.unicode_len();
    let mut chars: Vec<char> = Vec::new();
    let mut i: usize = 0;
    while i < n
        invariant
            i <= n,
            n == text@.len(),
            chars@ == text@.subrange(0, i as int),
        decreases n - i,
    {
        chars.push(text.get_char(i));
        i += 1;
        assert(chars@ =~= text@.subrange(0, i as int));
    }
    assert(chars@ =~= text@);
    chars
}

/// Where the run of decimal digits that starts at `from` ends.
fn scan_digits(chars: &Vec<char>, from: usize) -> (end: usize)
    requires
        from <= chars@.len(),
    ensures
        end == digits_end(chars@, from as int),
        from <= end <= chars@.len(),
        all_digits(chars@.subrange(from as int, end as int)),
        end < chars@.len() ==> digit_value(chars@[end as int]) is None,
{
    let mut i: usize = from;
    while i < chars.len()
        invariant
            from <= i <= chars@.len(),
            digits_end(chars@, from as int) == digits_end(chars@, i as int),
            forall|j: int| from <= j < i ==> digit_value(#[trigger] chars@[j]) is Some,
        decreases chars@.len() - i,
    {
        if digit_of(chars[i]).is_none() {
            return i;
        }
        i += 1;
    }
    i
}

/// Adds the characters of a stretch to a run.
fn append_stretch(run: &mut Vec<char>, chars: &Vec<char>, from: usize, to: usize)
    requires
        from <= to <= chars@.len(),
    ensures
        final(run)@ == old(run)@ + chars@.subrange(from as int, to as int),
{
    let mut i: usize = from;
    assert(run@ =~= old(run)@ + chars@.subrange(from as int, i as int));
    while i < to
        invariant
            from <= i <= to <= chars@.len(),
            run@ == old(run)@ + chars@.subrange(from as int, i as int),
        decreases to - i,
    {
        run.push(chars[i]);
        i += 1;
        assert(run@ =~= old(run)@ + chars@.subrange(from as int, i as int));
    }
}

/// What a run of digits writes, as far as it stays below the bound of
/// exponents, else that bound.
fn capped_value(digits: &Vec<char>) -> (value: u128)
    requires
        all_digits(digits@),
    ensures
        value <= EXPONENT_CAP,
        value < EXPONENT_CAP ==> value == digits_value(digits@),
        value == EXPONENT_CAP ==> digits_value(digits@) >= EXPONENT_CAP,
{
    let mut value: u128 = 0;
    let mut i: usize = 0;
    assert(digits@.subrange(0, 0) =~= Seq::<char>::empty());
    while i < digits.len()
        invariant
            i <= digits@.len(),
            all_digits(digits@),
            value <= EXPONENT_CAP,
            value < EXPONENT_CAP ==> value == digits_value(digits@.subrange(0, i as int)),
            value == EXPONENT_CAP ==> digits_value(digits@.subrange(0, i as int))
                >= EXPONENT_CAP,
        decreases digits@.len() - i,
    {
        let digit = digit_of(digits[i]);
        proof {
            assert(digits@.subrange(0, i + 1).drop_last() =~= digits@.subrange(0, i as int));
            assert(digits@.subrange(0, i + 1).last() == digits@[i as int]);
        }
        match digit {
            Some(d) => {
                if value < EXPONENT_CAP {
                    value = value * 10 + d as u128;
                    if value > EXPONENT_CAP {
                        value = EXPONENT_CAP;
                    }
                }
            },
            None => {},
        }
        i += 1;
    }
    assert(digits@.subrange(0, i as int) =~= digits@);
    value
}

/// The digits of the number at the front of a text, those before and after
/// the decimal point in one run; how many of them stand before the point;
/// and where the digits of the number end.
fn read_digits(chars: &Vec<char>) -> (parts: (Vec<char>, usize, usize))
    ensures
        parts.0@ == whole_part(chars@) + fraction_part(chars@),
        all_digits(parts.0@),
        parts.1 == whole_part(chars@).len(),
        parts.2 == mantissa_end(chars@),
        parts.2 <= chars@.len(),
{
    let ghost s = chars@;
    let n = chars.len();
    let sign: usize = if n > 0 && (chars[0] == '+' || chars[0] == '-') {
        1
    } else {
        0
    };
    let point = scan_digits(chars, sign);
    let pointed = point < n && chars[point] == '.';
    let end = if pointed {
        scan_digits(chars, point + 1)
    } else {
        point
    };
    let mut digits: Vec<char> = Vec::new();
    append_stretch(&mut digits, chars, sign, point);
    if pointed {
        append_stretch(&mut digits, chars, point + 1, end);
    }
    proof {
        assert(sign == sign_len(s, 0));
        assert(point == point_index(s));
        assert(pointed == has_point(s));
        assert(end == mantissa_end(s));
        assert(digits@ =~= whole_part(s) + fraction_part(s));
    }
    (digits, point - sign, end)
}

/// The exponent that follows the digits of a number: its size, as far as
/// it stays below the bound of exponents, and whether it is negative. None
/// where no exponent is written there.
fn read_exponent(chars: &Vec<char>, end: usize) -> (parts: Option<(u128, bool)>)
    requires
        end == mantissa_end(chars@),
        end < chars@.len(),
    ensures
        parts is Some == exponent_written(chars@),
        parts matches Some((size, minus)) ==> {
            &&& minus == minus_at(chars@, end + 1)
            &&& size <= EXPONENT_CAP
            &&& size < EXPONENT_CAP ==> size == digits_value(exponent_digits(chars@))
            &&& size == EXPONENT_CAP ==> digits_value(exponent_digits(chars@)) >= EXPONENT_CAP
        },
{
    let ghost s = chars@;
    let n = chars.len();
    let signed: usize = if end + 1 < n && (chars[end + 1] == '+' || chars[end + 1] == '-') {
        1
    } else {
        0
    };
    let minus = end + 1 < n && chars[end + 1] == '-';
    let start = end + 1 + signed;
    proof {
        assert(signed == sign_len(s, end + 1));
        assert(exponent_digits(s) =~= s.subrange(start as int, n as int));
    }
    if chars[end] != 'e' && chars[end] != 'E' {
        return None;
    }
    let stop = scan_digits(chars, start);
    if stop < n || start == n {
        proof {
            if stop < n {
                assert(exponent_digits(s)[stop - start] == s[stop as int]);
            }
        }
        return None;
    }
    let mut power: Vec<char> = Vec::new();
    append_stretch(&mut power, chars, start, n);
    assert(power@ =~= exponent_digits(s));
    let size = capped_value(&power);
    Some((size, minus))
}

/// The billionths that a run of digits writes with `q - 9` of them before
/// the decimal point, rounded up; none where they are more than a billion.
fn round_digits(digits: &Vec<char>, q: i128) -> (r: Option<u32>)
    requires
        all_digits(digits@),
        -2 * EXPONENT_CAP <= q <= 2 * EXPONENT_CAP,
    ensures
        match r {
            Some(v) => v <= BILLION && v == scaled(digits_value(digits@), q - digits@.len()),
            None => scaled(digits_value(digits@), q - digits@.len()) > BILLION,
        },
{
    let n = digits.len();
    let ghost d = digits@;
    let c: usize = if q < 0 {
        0
    } else if q > n as i128 {
        n
    } else {
        q as usize
    };
    proof {
        lemma_scaled_parts(d, q as int);
        assert(c == cut(d.len(), q as int));
        assert(d.subrange(0, 0) =~= Seq::<char>::empty());
    }
    let ghost front = digits_value(d.subrange(0, c as int));
    // the digits that count
    let mut kept: u64 = 0;
    let mut i: usize = 0;
    while i < c
        invariant
            i <= c <= n,
            n == d.len(),
            d == digits@,
            all_digits(d),
            kept <= BILLION,
            kept == digits_value(d.subrange(0, i as int)),
            front == digits_value(d.subrange(0, c as int)),
            q >= n ==> scaled(digits_value(d), q - n) == front * pow10((q - n) as nat),
            q < n ==> scaled(digits_value(d), q - n) >= front,
        decreases c - i,
    {
        let digit = digit_of(digits[i]);
        proof {
            assert(d.subrange(0, i + 1).drop_last() =~= d.subrange(0, i as int));
            assert(d.subrange(0, i + 1).last() == d[i as int]);
        }
        match digit {
            Some(v) => {
                kept = kept * 10 + v as u64;
            },
            None => {},
        }
        i += 1;
        if kept > BILLION as u64 {
            proof {
                let lead = d.subrange(0, c as int);
                assert(lead.subrange(0, i as int) =~= d.subrange(0, i as int));
                lemma_digits_grow(lead, i as int);
                if q >= n {
                    lemma_pow10_grows(0, (q - n) as nat);
                    assert(front * pow10((q - n) as nat) >= front) by (nonlinear_arith)
                        requires
                            pow10((q - n) as nat) >= 1,
                    ;
                }
            }
            return None;
        }
    }
    if q >= n as i128 {
        // nothing is cut off: zeros follow the digits
        if kept == 0 {
            assert(0 * pow10((q - n) as nat) == 0);
            return Some(0);
        }
        let more: i128 = q - n as i128;
        let mut j: i128 = 0;
        proof {
            assert(front * pow10(0) == front) by (nonlinear_arith)
                requires
                    pow10(0) == 1,
            ;
        }
        while j < more
            invariant
                0 <= j <= more,
                more == q - n,
                n == d.len(),
                d == digits@,
                1 <= kept <= BILLION,
                kept == front * pow10(j as nat),
                scaled(digits_value(d), q - n) == front * pow10(more as nat),
            decreases more - j,
        {
            proof {
                assert(pow10((j + 1) as nat) == 10 * pow10(j as nat));
                assert(front * pow10((j + 1) as nat) == 10 * (front * pow10(j as nat)))
                    by (nonlinear_arith)
                    requires
                        pow10((j + 1) as nat) == 10 * pow10(j as nat),
                ;
            }
            kept = kept * 10;
            j += 1;
            if kept > BILLION as u64 {
                proof {
                    lemma_pow10_grows(j as nat, more as nat);
                    assert(front * pow10(more as nat) >= front * pow10(j as nat))
                        by (nonlinear_arith)
                        requires
                            pow10(more as nat) >= pow10(j as nat),
                    ;
                }
                return None;
            }
        }
        Some(kept as u32)
    } else {
        // whether anything but zeros is cut off
        let mut rest: bool = false;
        let mut k: usize = c;
        assert(d.subrange(c as int, c as int) =~= Seq::<char>::empty());
        while k < n
            invariant
                c <= k <= n,
                n == d.len(),
                d == digits@,
                all_digits(d),
                rest == (digits_value(d.subrange(c as int, k as int)) > 0),
            decreases n - k,
        {
            let digit = digit_of(digits[k]);
            proof {
                assert(d.subrange(c as int, k + 1).drop_last() =~= d.subrange(
                    c as int,
                    k as int,
                ));
                assert(d.subrange(c as int, k + 1).last() == d[k as int]);
            }
            match digit {
                Some(v) => {
                    if v > 0 {
                        rest = true;
                    }
                },
                None => {},
            }
            k += 1;
        }
        let value: u64 = if rest {
            kept + 1
        } else {
            kept
        };
        if value > BILLION as u64 {
            None
        } else {
            Some(value as u32)
        }
    }
}

/// How much a hand counts within a range: a number from zero to one,
/// counted in billionths.
#[derive(Debug, Clone, Copy, PartialEq, Eq, Hash, PartialOrd, Ord, Structural)]
pub struct Weight {
    billionths: u32,
}

impl Weight {
    /// The weight in billionths.
    pub closed spec fn value(self) -> nat {
        self.billionths as nat
    }

    /// The weight of so many billionths.
    pub closed spec fn of_value(billionths: nat) -> Weight {
        Weight { billionths: billionths as u32 }
    }

    /// The weight one.
    pub closed spec fn full() -> Weight {
        Weight { billionths: BILLION }
    }

    /// The weight one.
    pub fn one() -> (weight: Weight)
        ensures
            weight == Weight::full(),
            weight == Weight::of_value(BILLION as nat),
            weight.value() == BILLION,
    {
        Weight { billionths: BILLION }
    }

    /// The weight zero.
    pub fn zero() -> (weight: Weight)
        ensures
            weight.value() == 0,
    {
        Weight { billionths: 0 }
    }

    /// The weight of so many billionths; none where they are more than one.
    pub fn from_billionths(billionths: u32) -> (weight: Option<Weight>)
        ensures
            billionths <= BILLION ==> (weight matches Some(w) && w.value() == billionths),
            billionths > BILLION ==> weight is None,
    {
        if billionths <= BILLION {
            Some(Weight { billionths })
        } else {
            None
        }
    }

    /// The weight in billionths.
    pub fn billionths(&self) -> (n: u32)
        ensures
            n == self.value(),
    {
        self.billionths
    }

    /// Whether the weight is zero.
    pub fn is_zero(&self) -> (zero: bool)
        ensures
            zero == (self.value() == 0),
    {
        self.billionths == 0
    }

    /// Reads a weight from decimal notation, with or without a sign and an
    /// exponent. Text that writes no number from zero to one is rejected and
    /// handed back in the error.
    pub fn from_str(text: &str) -> (r: Result<Weight, ParseError>)
        ensures
            match weight_of_text(text@) {
                Some(value) => r matches Ok(weight) && weight.value() == value && weight
                    == Weight::of_value(value),
                None => r matches Err(ParseError::InvalidWeight(t)) && t@ == text@,
            },
    {
        let chars = chars_of(text);
        let ghost s = text@;
        let negative = chars.len() > 0 && chars[0] == '-';
        let (digits, before, end) = read_digits(&chars);
        if digits.len() == 0 {
            return Err(ParseError::InvalidWeight(String::from_str(text)));
        }
        let mut shift: u128 = 0;
        let mut down: bool = false;
        if end < chars.len() {
            match read_exponent(&chars, end) {
                Some((size, minus)) => {
                    shift = size;
                    down = minus;
                },
                None => {
                    return Err(ParseError::InvalidWeight(String::from_str(text)));
                },
            }
        } else {
            assert(exponent_digits(s) =~= Seq::<char>::empty());
        }
        let q: i128 = if down {
            before as i128 + 9 - shift as i128
        } else {
            before as i128 + 9 + shift as i128
        };
        let rounded = round_digits(&digits, q);
        proof {
            let exact = whole_part(s).len() + exponent(s) + 9;
            assert(exact - digits@.len() == exponent(s) + 9 - fraction_part(s).len());
            lemma_same_rounding(digits@, q as int, exact);
        }
        match rounded {
            Some(value) => {
                if negative && value != 0 {
                    Err(ParseError::InvalidWeight(String::from_str(text)))
                } else {
                    Ok(Weight { billionths: value })
                }
            },
            None => Err(ParseError::InvalidWeight(String::from_str(text))),
        }
    }
}

} // verus!
