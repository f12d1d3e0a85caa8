//! The display form of a bit rate: whole thousands of bits per second.
//!
//! A raw bit rate is read as a decimal number: an optional sign, digits,
//! optionally a point with more digits, and optionally an exponent of ten.
//! Such a number is divided by 1000 and rounded to the nearest integer, a
//! tie going away from zero. All of it is done on the digits themselves, so
//! no number is too long to be exact.

use crate::text::chars_of;
use vstd::arithmetic::div_mod::lemma_fundamental_div_mod_converse;
use vstd::prelude::*;

verus! {

/// Whether a character is one of the ten decimal digits.
pub open spec fn is_digit(c: char) -> bool {
    '0' <= c && c <= '9'
}

/// The number that a decimal digit stands for.
pub open spec fn digit_value(c: char) -> nat {
    (c as int - '0' as int) as nat
}

/// The decimal digit that stands for a number below ten.
pub open spec fn digit_char(d: nat) -> char {
    ('0' as int + d) as char
}

/// Whether every character of a text is a decimal digit.
pub open spec fn all_digits(s: Seq<char>) -> bool {
    forall|i: int| 0 <= i < s.len() ==> is_digit(#[trigger] s[i])
}

/// The number that a text of digits denotes; the empty text denotes zero.
pub open spec fn number_value(digits: Seq<char>) -> nat
    decreases digits.len(),
{
    if digits.len() == 0 {
        0
    } else {
        10 * number_value(digits.drop_last()) + digit_value(digits.last())
    }
}

/// Ten to the power `e`.
pub open spec fn pow10(e: nat) -> nat
    decreases e,
{
    if e == 0 {
        1
    } else {
        10 * pow10((e - 1) as nat)
    }
}

/// The decimal text of a number: no leading zero, and `0` for zero.
pub open spec fn decimal_text(n: nat) -> Seq<char>
    decreases n,
{
    if n < 10 {
        seq![digit_char(n)]
    } else {
        decimal_text(n / 10).push(digit_char(n % 10))
    }
}

/// `n / d` rounded to the nearest integer, a tie going up.
pub open spec fn rounded_quotient(n: nat, d: nat) -> nat {
    ((2 * n + d) / (2 * d)) as nat
}

/// The number of characters that the sign takes: one or none.
pub open spec fn sign_len(s: Seq<char>) -> int {
    if s.len() > 0 && (s[0] == '+' || s[0] == '-') {
        1
    } else {
        0
    }
}

/// Whether a text starts with a minus sign.
pub open spec fn is_negative(s: Seq<char>) -> bool {
    s.len() > 0 && s[0] == '-'
}

/// The most zeros that an exponent may put behind the digits of a number
/// that is written out. No number below ten to the power 309 needs more; one
/// that does is no bit rate and comes back as it was written.
pub const MAX_ZEROS: usize = 305;

/// Whether a character starts an exponent.
pub open spec fn is_exponent_mark(c: char) -> bool {
    c == 'e' || c == 'E'
}

/// The place of the first exponent mark at or after `from`, or the length of
/// the text where there is none.
pub open spec fn mark_from(s: Seq<char>, from: int) -> int
    decreases s.len() - from,
{
    if from >= s.len() {
        s.len() as int
    } else if is_exponent_mark(s[from]) {
        from
    } else {
        mark_from(s, from + 1)
    }
}

/// The place of the first point from `from` up to `to`, or `to` where there
/// is none.
pub open spec fn point_from(s: Seq<char>, from: int, to: int) -> int
    decreases to - from,
{
    if from >= to {
        to
    } else if s[from] == '.' {
        from
    } else {
        point_from(s, from + 1, to)
    }
}

/// Where the digits and the point end: at the exponent mark, or at the end
/// of the text.
pub open spec fn mantissa_end(s: Seq<char>) -> int {
    mark_from(s, sign_len(s))
}

/// The place of the point, or `mantissa_end` where there is none.
pub open spec fn point_place(s: Seq<char>) -> int {
    point_from(s, sign_len(s), mantissa_end(s))
}

/// What stands between the sign and the point.
pub open spec fn whole_part(s: Seq<char>) -> Seq<char> {
    s.subrange(sign_len(s), point_place(s))
}

/// What stands between the point and the exponent; empty where there is no
/// point.
pub open spec fn fraction_part(s: Seq<char>) -> Seq<char> {
    if point_place(s) < mantissa_end(s) {
        s.subrange(point_place(s) + 1, mantissa_end(s))
    } else {
        Seq::empty()
    }
}

/// The digits of the number, those before the point and those after it.
pub open spec fn digits_of(s: Seq<char>) -> Seq<char> {
    whole_part(s) + fraction_part(s)
}

/// Whether the text has an exponent mark.
pub open spec fn has_exponent(s: Seq<char>) -> bool {
    mantissa_end(s) < s.len()
}

/// What stands after the exponent mark; empty where there is no mark.
pub open spec fn exponent_text(s: Seq<char>) -> Seq<char> {
    if has_exponent(s) {
        s.subrange(mantissa_end(s) + 1, s.len() as int)
    } else {
        Seq::empty()
    }
}

/// The exponent without its sign.
pub open spec fn exponent_digits(s: Seq<char>) -> Seq<char> {
    exponent_text(s).skip(sign_len(exponent_text(s)))
}

/// The exponent of ten; zero where the text has none.
pub open spec fn exponent_value(s: Seq<char>) -> int {
    if is_negative(exponent_text(s)) {
        -(number_value(exponent_digits(s)) as int)
    } else {
        number_value(exponent_digits(s)) as int
    }
}

/// Whether a text is a decimal number: an optional `+` or `-`; digits, and
/// optionally a point followed by digits, with at least one digit in all;
/// and optionally `e` or `E`, an optional sign and at least one digit. A
/// blank or a word such as `inf` makes a text something else.
pub open spec fn is_decimal(s: Seq<char>) -> bool {
    &&& all_digits(whole_part(s))
    &&& all_digits(fraction_part(s))
    &&& digits_of(s).len() >= 1
    &&& has_exponent(s) ==> exponent_digits(s).len() >= 1 && all_digits(exponent_digits(s))
}

/// By how many places the digits of a number move to the left when the
/// number is written in thousands without a point: the exponent, less the
/// digits after the point, less three.
pub open spec fn shift_of(s: Seq<char>) -> int {
    exponent_value(s) - fraction_part(s).len() - 3
}

/// Whether the thousands of a decimal number are written out: the number is
/// zero, or at most `MAX_ZEROS` zeros go behind its digits.
pub open spec fn is_written_out(s: Seq<char>) -> bool {
    number_value(digits_of(s)) == 0 || shift_of(s) <= MAX_ZEROS
}

/// A number with its digits moved `shift` places to the left: multiplied by
/// a power of ten, or, for a move to the right, divided by one and rounded
/// to the nearest integer, a tie going up.
pub open spec fn moved(number: nat, shift: int) -> nat {
    if shift >= 0 {
        number * pow10(shift as nat)
    } else {
        rounded_quotient(number, pow10((-shift) as nat))
    }
}

/// The magnitude of a decimal number divided by 1000, rounded to the nearest
/// integer, a tie going up.
pub open spec fn kilo_magnitude(s: Seq<char>) -> nat {
    moved(number_value(digits_of(s)), shift_of(s))
}

/// The sign that the display form carries: that of the raw number where it
/// is negative, even where the magnitude rounds to zero.
pub open spec fn sign_text(s: Seq<char>) -> Seq<char> {
    if is_negative(s) {
        seq!['-']
    } else {
        Seq::empty()
    }
}

/// The display form of a raw bit rate: for a decimal number that is written
/// out its thousands, rounded, followed by the unit; any other text as it
/// came.
pub open spec fn bitrate_text(raw: Seq<char>) -> Seq<char> {
    if is_decimal(raw) && is_written_out(raw) {
        sign_text(raw) + decimal_text(kilo_magnitude(raw)) + " kb/s"@
    } else {
        raw
    }
}

/// `count` zeros.
pub open spec fn zeros(count: nat) -> Seq<char> {
    Seq::new(count, |i: int| '0')
}

/// No power of ten is zero.
proof fn lemma_pow10_positive(e: nat)
    ensures
        pow10(e) >= 1,
    decreases e,
{
    if e > 0 {
        lemma_pow10_positive((e - 1) as nat);
    }
}

/// Every part of a text of digits is a text of digits.
proof fn lemma_part_of_digits(s: Seq<char>, from: int, to: int)
    requires
        all_digits(s),
        0 <= from <= to <= s.len(),
    ensures
        all_digits(s.subrange(from, to)),
{
    let part = s.subrange(from, to);
    assert forall|i: int| 0 <= i < part.len() implies is_digit(#[trigger] part[i]) by {
        assert(part[i] == s[from + i]);
    }
}

/// The value of two texts of digits put together.
proof fn lemma_value_of_concat(x: Seq<char>, y: Seq<char>)
    ensures
        number_value(x + y) == number_value(x) * pow10(y.len()) + number_value(y),
    decreases y.len(),
{
    if y.len() == 0 {
        assert(x + y =~= x);
        assert(number_value(x) * 1 == number_value(x)) by (nonlinear_arith);
    } else {
        let rest = y.drop_last();
        assert((x + y).drop_last() =~= x + rest);
        assert((x + y).last() == y.last());
        lemma_value_of_concat(x, rest);
        let a = number_value(x);
        let p = pow10(rest.len());
        let b = number_value(rest);
        let d = digit_value(y.last());
        assert(pow10(y.len()) == 10 * p);
        assert(number_value(x + y) == 10 * (a * p + b) + d);
        assert(number_value(y) == 10 * b + d);
        assert(10 * (a * p + b) == a * (10 * p) + 10 * b) by (nonlinear_arith);
    }
}

/// A text of `n` digits denotes a number below ten to the `n`.
proof fn lemma_value_bound(s: Seq<char>)
    requires
        all_digits(s),
    ensures
        number_value(s) < pow10(s.len()),
    decreases s.len(),
{
    if s.len() > 0 {
        let rest = s.drop_last();
        lemma_part_of_digits(s, 0, s.len() - 1);
        lemma_value_bound(rest);
        assert(is_digit(s[s.len() - 1]));
    }
}

/// The value of a text that is a single digit.
proof fn lemma_value_of_digit(c: char)
    ensures
        number_value(seq![c]) == digit_value(c),
{
    let s = seq![c];
    assert(s.drop_last() =~= Seq::<char>::empty());
    assert(number_value(s.drop_last()) == 0);
    assert(s.last() == c);
}

/// A text of zeros denotes zero.
proof fn lemma_zeros_value(s: Seq<char>)
    requires
        forall|i: int| 0 <= i < s.len() ==> s[i] == '0',
    ensures
        number_value(s) == 0,
    decreases s.len(),
{
    if s.len() > 0 {
        lemma_zeros_value(s.drop_last());
        assert(s[s.len() - 1] == '0');
    }
}

/// A text of digits that starts with a digit other than zero denotes a
/// number other than zero.
proof fn lemma_leading_digit_counts(s: Seq<char>)
    requires
        all_digits(s),
        s.len() >= 1,
        s[0] != '0',
    ensures
        number_value(s) >= 1,
    decreases s.len(),
{
    if s.len() == 1 {
        lemma_value_of_digit(s[0]);
        assert(s =~= seq![s[0]]);
        assert(is_digit(s[0]));
    } else {
        let rest = s.drop_last();
        lemma_part_of_digits(s, 0, s.len() - 1);
        assert(rest[0] == s[0]);
        lemma_leading_digit_counts(rest);
    }
}

/// A text of digits without a leading zero is the decimal text of the
/// number that it denotes.
proof fn lemma_decimal_text_of_value(s: Seq<char>)
    requires
        all_digits(s),
        s.len() >= 1,
        s.len() == 1 || s[0] != '0',
    ensures
        decimal_text(number_value(s)) == s,
    decreases s.len(),
{
    let last = s.last();
    assert(is_digit(s[s.len() - 1]));
    let d = digit_value(last);
    assert(digit_char(d) == last);
    if s.len() == 1 {
        assert(s =~= seq![last]);
        lemma_value_of_digit(last);
    } else {
        let rest = s.drop_last();
        lemma_part_of_digits(s, 0, s.len() - 1);
        assert(rest[0] == s[0]);
        lemma_leading_digit_counts(rest);
        lemma_decimal_text_of_value(rest);
        let v = number_value(rest);
        assert(number_value(s) == 10 * v + d);
        assert((10 * v + d) / 10 == v && (10 * v + d) % 10 == d) by {
            lemma_fundamental_div_mod_converse((10 * v + d) as int, 10, v as int, d as int);
        }
        assert(s =~= rest.push(last));
    }
}

/// A greater power of ten is a greater number.
proof fn lemma_pow10_grows(low: nat, high: nat)
    requires
        low <= high,
    ensures
        pow10(low) <= pow10(high),
    decreases high,
{
    if low < high {
        lemma_pow10_grows(low, (high - 1) as nat);
    }
}

/// A number times a power of ten is written as the number followed by as
/// many zeros as the power has.
proof fn lemma_zeros_behind(n: nat, count: nat)
    requires
        n >= 1,
    ensures
        n * pow10(count) >= 1,
        decimal_text(n * pow10(count)) == decimal_text(n) + zeros(count),
    decreases count,
{
    if count == 0 {
        assert(n * 1 == n) by (nonlinear_arith);
        assert(decimal_text(n) + zeros(0) =~= decimal_text(n));
    } else {
        let before = (count - 1) as nat;
        lemma_zeros_behind(n, before);
        let m = n * pow10(before);
        assert(n * pow10(count) == 10 * m) by (nonlinear_arith)
            requires
                pow10(count) == 10 * pow10(before),
                m == n * pow10(before),
        ;
        assert((10 * m) / 10 == m && (10 * m) % 10 == 0) by {
            lemma_fundamental_div_mod_converse((10 * m) as int, 10, m as int, 0);
        }
        assert(digit_char(0) == '0');
        assert(zeros(count) =~= zeros(before).push('0'));
        assert(decimal_text(10 * m) =~= decimal_text(n) + zeros(count));
    }
}

/// Rounding a number of tens of some power looks at the digit of that power
/// and at nothing below it.
proof fn lemma_round_by_one_digit(kept: nat, digit: nat, below: nat, power: nat)
    requires
        digit <= 9,
        power >= 1,
        below < power,
    ensures
        rounded_quotient(kept * (10 * power) + digit * power + below, 10 * power) == kept
            + if digit >= 5 {
            1nat
        } else {
            0nat
        },
{
    let total = 2 * (kept * (10 * power) + digit * power + below) + 10 * power;
    if digit >= 5 {
        let rest = 2 * (digit * power) + 2 * below - 10 * power;
        assert(digit * power >= 5 * power && digit * power <= 9 * power) by (nonlinear_arith)
            requires
                5 <= digit <= 9,
                power >= 1,
        ;
        assert(total == (kept + 1) * (2 * (10 * power)) + rest) by (nonlinear_arith)
            requires
                total == 2 * (kept * (10 * power) + digit * power + below) + 10 * power,
                rest == 2 * (digit * power) + 2 * below - 10 * power,
        ;
        lemma_fundamental_div_mod_converse(
            total as int,
            (2 * (10 * power)) as int,
            (kept + 1) as int,
            rest as int,
        );
    } else {
        let rest = 2 * (digit * power) + 2 * below + 10 * power;
        assert(digit * power <= 4 * power && digit * power >= 0) by (nonlinear_arith)
            requires
                0 <= digit <= 4,
                power >= 1,
        ;
        assert(total == kept * (2 * (10 * power)) + rest) by (nonlinear_arith)
            requires
                total == 2 * (kept * (10 * power) + digit * power + below) + 10 * power,
                rest == 2 * (digit * power) + 2 * below + 10 * power,
        ;
        lemma_fundamental_div_mod_converse(
            total as int,
            (2 * (10 * power)) as int,
            kept as int,
            rest as int,
        );
    }
}

/// Dividing a number by a power of ten and rounding keeps the digits in
/// front of those that the power takes away, and adds one where the first
/// digit taken away is five or more.
pub proof fn rounding_looks_at_one_digit(digits: Seq<char>, taken: nat)
    requires
        all_digits(digits),
        1 <= taken <= digits.len(),
    ensures
        rounded_quotient(number_value(digits), pow10(taken)) == number_value(
            digits.take(digits.len() - taken),
        ) + if digits[digits.len() - taken] >= '5' {
            1nat
        } else {
            0nat
        },
{
    let at = digits.len() - taken;
    let kept = digits.take(at);
    let first = seq![digits[at]];
    let below = digits.skip(at + 1);
    assert(kept + (first + below) =~= digits);
    assert(is_digit(digits[at]));
    assert(below =~= digits.subrange(at + 1, digits.len() as int));
    lemma_part_of_digits(digits, at + 1, digits.len() as int);
    lemma_value_of_concat(kept, first + below);
    lemma_value_of_concat(first, below);
    lemma_value_of_digit(digits[at]);
    lemma_value_bound(below);
    let power = pow10(below.len());
    lemma_pow10_positive(below.len());
    assert(pow10(taken) == 10 * power);
    assert((first + below).len() == taken);
    lemma_round_by_one_digit(
        number_value(kept),
        digit_value(digits[at]),
        number_value(below),
        power,
    );
}

/// A number with fewer digits than a power of ten takes away rounds to
/// zero.
proof fn lemma_rounds_to_zero(digits: Seq<char>, taken: nat)
    requires
        all_digits(digits),
        taken > digits.len(),
    ensures
        rounded_quotient(number_value(digits), pow10(taken)) == 0,
{
    lemma_value_bound(digits);
    let power = pow10((taken - 1) as nat);
    lemma_pow10_grows(digits.len(), (taken - 1) as nat);
    lemma_pow10_positive((taken - 1) as nat);
    assert(pow10(taken) == 10 * power);
    lemma_round_by_one_digit(0, 0, number_value(digits), power);
    assert(0 * (10 * power) + 0 * power + number_value(digits) == number_value(digits))
        by (nonlinear_arith);
}

/// The decimal text of a number is made of digits, denotes that number, and
/// starts with a zero only where the number is zero.
pub proof fn decimal_text_denotes_its_number(n: nat)
    ensures
        decimal_text(n).len() >= 1,
        all_digits(decimal_text(n)),
        number_value(decimal_text(n)) == n,
        decimal_text(n)[0] == '0' <==> n == 0,
    decreases n,
{
    if n < 10 {
        lemma_value_of_digit(digit_char(n));
    } else {
        let front = decimal_text(n / 10);
        let text = front.push(digit_char(n % 10));
        decimal_text_denotes_its_number(n / 10);
        assert(text.drop_last() =~= front);
        assert(text[0] == front[0]);
        assert(all_digits(text)) by {
            assert forall|i: int| 0 <= i < text.len() implies is_digit(#[trigger] text[i]) by {
                if i < front.len() {
                    assert(text[i] == front[i]);
                }
            }
        }
        vstd::arithmetic::div_mod::lemma_fundamental_div_mod(n as int, 10);
    }
}

/// `rounded_quotient(n, d)` is the integer nearest to `n / d`: it is at most
/// a half away from it, and where two integers are that near it is the
/// greater of them.
pub proof fn rounded_quotient_is_nearest(n: nat, d: nat)
    requires
        d >= 1,
    ensures
        2 * rounded_quotient(n, d) * d - d <= 2 * n < 2 * rounded_quotient(n, d) * d + d,
{
    let q = (2 * n + d) / (2 * d);
    let r = (2 * n + d) % (2 * d);
    vstd::arithmetic::div_mod::lemma_fundamental_div_mod((2 * n + d) as int, (2 * d) as int);
    assert(0 <= r < 2 * d) by {
        vstd::arithmetic::div_mod::lemma_mod_bound((2 * n + d) as int, (2 * d) as int);
    }
    assert(0 <= q) by {
        vstd::arithmetic::div_mod::lemma_div_pos_is_pos((2 * n + d) as int, (2 * d) as int);
    }
    assert((2 * d) * q == 2 * q * d) by (nonlinear_arith);
}

/// A bound that no exponent needs to be told from: one at or above it moves
/// the digits further than a text can be long.
const EXPONENT_CAP: u128 = 1_000_000_000_000_000_000_000_000_000_000;

/// Finds the first exponent mark at or after `from`.
fn find_mark(chars: &Vec<char>, from: usize) -> (mark: usize)
    requires
        from <= chars.len(),
    ensures
        mark == mark_from(chars@, from as int),
        from <= mark <= chars.len(),
{
    let mut mark = from;
    while mark < chars.len() && chars[mark] != 'e' && chars[mark] != 'E'
        invariant
            from <= mark <= chars.len(),
            mark_from(chars@, from as int) == mark_from(chars@, mark as int),
        decreases chars.len() - mark,
    {
        mark = mark + 1;
    }
    mark
}

/// Finds the first point from `from` up to `to`.
fn find_point(chars: &Vec<char>, from: usize, to: usize) -> (point: usize)
    requires
        from <= to <= chars.len(),
    ensures
        point == point_from(chars@, from as int, to as int),
        from <= point <= to,
{
    let mut point = from;
    while point < to && chars[point] != '.'
        invariant
            from <= point <= to <= chars.len(),
            point_from(chars@, from as int, to as int) == point_from(
                chars@,
                point as int,
                to as int,
            ),
        decreases to - point,
    {
        point = point + 1;
    }
    point
}

/// The number that stands from `from` up to `to`, or `EXPONENT_CAP` where
/// the number is that large or larger.
fn capped_value(chars: &Vec<char>, from: usize, to: usize) -> (value: u128)
    requires
        from <= to <= chars.len(),
        all_digits(chars@.subrange(from as int, to as int)),
    ensures
        value <= EXPONENT_CAP,
        value == if number_value(chars@.subrange(from as int, to as int)) < EXPONENT_CAP {
            number_value(chars@.subrange(from as int, to as int))
        } else {
            EXPONENT_CAP as nat
        },
{
    let ghost part = chars@.subrange(from as int, to as int);
    let mut value: u128 = 0;
    let mut i = from;
    proof {
        assert(part.take(0) =~= Seq::<char>::empty());
    }
    while i < to
        invariant
            from <= i <= to <= chars.len(),
            part == chars@.subrange(from as int, to as int),
            all_digits(part),
            value <= EXPONENT_CAP,
            value == if number_value(part.take(i - from)) < EXPONENT_CAP {
                number_value(part.take(i - from))
            } else {
                EXPONENT_CAP as nat
            },
        decreases to - i,
    {
        let c = chars[i];
        proof {
            let seen = part.take(i - from + 1);
            assert(seen.drop_last() =~= part.take(i - from));
            assert(seen.last() == c);
            assert(is_digit(part[i - from]));
        }
        let next = value * 10 + ((c as u8 - 48u8) as u128);
        value = if next >= EXPONENT_CAP {
            EXPONENT_CAP
        } else {
            next
        };
        i = i + 1;
    }
    proof {
        assert(part.take(to - from) =~= part);
    }
    value
}

/// Copies the characters of two parts of a text, one after the other.
fn joined(
    chars: &Vec<char>,
    from: usize,
    to: usize,
    next_from: usize,
    next_to: usize,
) -> (both: Vec<char>)
    requires
        from <= to <= chars.len(),
        next_from <= next_to <= chars.len(),
    ensures
        both@ == chars@.subrange(from as int, to as int) + chars@.subrange(
            next_from as int,
            next_to as int,
        ),
{
    let mut both = copy_of(chars, from, to);
    let ghost front = both@;
    let mut i = next_from;
    proof {
        assert(chars@.subrange(next_from as int, next_from as int) =~= Seq::<char>::empty());
        assert(front + Seq::<char>::empty() =~= front);
    }
    while i < next_to
        invariant
            next_from <= i <= next_to <= chars.len(),
            both@ == front + chars@.subrange(next_from as int, i as int),
        decreases next_to - i,
    {
        both.push(chars[i]);
        assert(both@ =~= front + chars@.subrange(next_from as int, i + 1));
        i = i + 1;
    }
    both
}

/// Puts `count` zeros behind some digits.
fn with_zeros(digits: Vec<char>, count: usize) -> (longer: Vec<char>)
    requires
        all_digits(digits@),
    ensures
        longer@ == digits@ + zeros(count as nat),
        all_digits(longer@),
{
    let ghost front = digits@;
    let mut longer = digits;
    let mut i: usize = 0;
    proof {
        assert(front + zeros(0) =~= front);
    }
    while i < count
        invariant
            i <= count,
            all_digits(longer@),
            longer@ == front + zeros(i as nat),
        decreases count - i,
    {
        let ghost before = longer@;
        longer.push('0');
        proof {
            assert(longer@ =~= front + zeros((i + 1) as nat));
            assert forall|k: int| 0 <= k < longer@.len() implies is_digit(#[trigger] longer@[k]) by {
                if k < before.len() {
                    assert(longer@[k] == before[k]);
                }
            }
        }
        i = i + 1;
    }
    longer
}

/// Whether the characters from `from` up to `to` are all digits.
fn digits_only(chars: &Vec<char>, from: usize, to: usize) -> (ok: bool)
    requires
        from <= to <= chars.len(),
    ensures
        ok == all_digits(chars@.subrange(from as int, to as int)),
{
    let ghost part = chars@.subrange(from as int, to as int);
    let mut i = from;
    while i < to
        invariant
            from <= i <= to <= chars.len(),
            part == chars@.subrange(from as int, to as int),
            forall|k: int| 0 <= k < i - from ==> is_digit(#[trigger] part[k]),
        decreases to - i,
    {
        let c = chars[i];
        if !('0' <= c && c <= '9') {
            assert(!is_digit(part[i - from]));
            return false;
        }
        i = i + 1;
    }
    true
}

/// Copies the characters from `from` up to `to`.
fn copy_of(chars: &Vec<char>, from: usize, to: usize) -> (part: Vec<char>)
    requires
        from <= to <= chars.len(),
    ensures
        part@ == chars@.subrange(from as int, to as int),
{
    let mut part: Vec<char> = Vec::new();
    let mut i = from;
    while i < to
        invariant
            from <= i <= to <= chars.len(),
            part@ == chars@.subrange(from as int, i as int),
        decreases to - i,
    {
        part.push(chars[i]);
        assert(part@ =~= chars@.subrange(from as int, i + 1));
        i = i + 1;
    }
    part
}

/// Adds one to the number that a text of digits denotes.
fn successor(digits: Vec<char>) -> (next: Vec<char>)
    requires
        all_digits(digits@),
    ensures
        all_digits(next@),
        number_value(next@) == number_value(digits@) + 1,
{
    let ghost before = digits@;
    let mut out = digits;
    let len = out.len();
    let mut i = len;
    let mut carry = true;
    proof {
        assert(out@.skip(len as int) =~= Seq::<char>::empty());
    }
    while i > 0 && carry
        invariant
            len == out.len() == before.len(),
            i <= len,
            all_digits(before),
            all_digits(out@),
            out@.take(i as int) == before.take(i as int),
            number_value(out@.skip(i as int)) + (if carry {
                pow10((len - i) as nat)
            } else {
                0nat
            }) == number_value(before.skip(i as int)) + 1,
        decreases i,
    {
        let ghost old_out = out@;
        i = i - 1;
        let c = out[i];
        assert(is_digit(old_out[i as int]));
        assert(c == before[i as int]) by {
            assert(old_out.take(i + 1)[i as int] == before.take(i + 1)[i as int]);
        }
        let d: char = if c == '9' {
            '0'
        } else {
            ((c as u8) + 1) as char
        };
        out.set(i, d);
        if c != '9' {
            carry = false;
        }
        proof {
            let tail = old_out.skip(i + 1);
            assert(out@.skip(i as int) =~= seq![d] + tail);
            assert(before.skip(i as int) =~= seq![c] + before.skip(i + 1));
            lemma_value_of_concat(seq![d], tail);
            lemma_value_of_concat(seq![c], before.skip(i + 1));
            lemma_value_of_digit(d);
            lemma_value_of_digit(c);
            assert(pow10((len - i) as nat) == 10 * pow10((len - i - 1) as nat));
            assert(out@.take(i as int) =~= before.take(i as int)) by {
                assert forall|k: int| 0 <= k < i implies out@[k] == before[k] by {
                    assert(old_out.take(i + 1)[k] == before.take(i + 1)[k]);
                }
            }
            assert(all_digits(out@)) by {
                assert forall|k: int| 0 <= k < out@.len() implies is_digit(#[trigger] out@[k]) by {
                    if k != i {
                        assert(out@[k] == old_out[k]);
                    }
                }
            }
            // The digit either takes the carry, or turns to zero and hands
            // it on: nine and one make ten.
            let p = pow10((len - i - 1) as nat);
            let dc = digit_value(c);
            let dd = digit_value(d);
            if c == '9' {
                assert(dd * p + 10 * p == dc * p + p) by (nonlinear_arith)
                    requires
                        dd == 0,
                        dc == 9,
                ;
            } else {
                assert(dd * p == dc * p + p) by (nonlinear_arith)
                    requires
                        dd == dc + 1,
                ;
            }
        }
    }
    proof {
        lemma_value_of_concat(out@.take(i as int), out@.skip(i as int));
        lemma_value_of_concat(before.take(i as int), before.skip(i as int));
        assert(out@.take(i as int) + out@.skip(i as int) =~= out@);
        assert(before.take(i as int) + before.skip(i as int) =~= before);
    }
    if carry {
        let mut next: Vec<char> = Vec::new();
        next.push('1');
        let mut k: usize = 0;
        while k < len
            invariant
                len == out.len(),
                k <= len,
                next@ == seq!['1'] + out@.take(k as int),
            decreases len - k,
        {
            next.push(out[k]);
            assert(next@ =~= seq!['1'] + out@.take(k + 1));
            k = k + 1;
        }
        proof {
            assert(out@.take(len as int) =~= out@);
            assert(out@.skip(0) =~= out@);
            assert(before.skip(0) =~= before);
            lemma_value_of_concat(seq!['1'], out@);
            lemma_value_of_digit('1');
            assert(1 * pow10(len as nat) == pow10(len as nat)) by (nonlinear_arith);
            assert(all_digits(next@)) by {
                assert forall|j: int| 0 <= j < next@.len() implies is_digit(#[trigger] next@[j]) by {
                    if j > 0 {
                        assert(next@[j] == out@[j - 1]);
                    }
                }
            }
        }
        next
    } else {
        out
    }
}

/// Writes the number that a text of digits denotes without leading zeros.
fn trimmed(digits: &Vec<char>) -> (text: Vec<char>)
    requires
        all_digits(digits@),
    ensures
        text@ == decimal_text(number_value(digits@)),
        all_digits(text@),
{
    let len = digits.len();
    let mut first: usize = 0;
    while first < len && digits[first] == '0'
        invariant
            first <= len == digits.len(),
            forall|k: int| 0 <= k < first ==> digits@[k] == '0',
        decreases len - first,
    {
        first = first + 1;
    }
    proof {
        let zeros = digits@.take(first as int);
        let rest = digits@.skip(first as int);
        assert(zeros + rest =~= digits@);
        lemma_value_of_concat(zeros, rest);
        lemma_zeros_value(zeros);
        assert(0 * pow10(rest.len()) == 0) by (nonlinear_arith);
        assert(number_value(digits@) == number_value(rest));
    }
    if first == len {
        let mut text: Vec<char> = Vec::new();
        text.push('0');
        proof {
            assert(digits@.skip(first as int) =~= Seq::<char>::empty());
            assert(text@ =~= seq![digit_char(0)]);
        }
        text
    } else {
        let text = copy_of(digits, first, len);
        proof {
            assert(text@ =~= digits@.skip(first as int));
            lemma_part_of_digits(digits@, first as int, len as int);
            lemma_decimal_text_of_value(text@);
        }
        text
    }
}

/// The text of a single digit.
fn digit_text(c: char) -> (text: &'static str)
    requires
        is_digit(c),
    ensures
        text@ == seq![c],
{
    proof {
        reveal_strlit("0");
        reveal_strlit("1");
        reveal_strlit("2");
        reveal_strlit("3");
        reveal_strlit("4");
        reveal_strlit("5");
        reveal_strlit("6");
        reveal_strlit("7");
        reveal_strlit("8");
        reveal_strlit("9");
    }
    let text = match c {
        '0' => "0",
        '1' => "1",
        '2' => "2",
        '3' => "3",
        '4' => "4",
        '5' => "5",
        '6' => "6",
        '7' => "7",
        '8' => "8",
        _ => "9",
    };
    assert(text@ =~= seq![c]);
    text
}

/// Appends a text of digits to a string.
fn push_digits(text: &mut String, digits: &Vec<char>)
    requires
        all_digits(digits@),
    ensures
        final(text)@ == old(text)@ + digits@,
{
    let mut i: usize = 0;
    while i < digits.len()
        invariant
            i <= digits.len(),
            all_digits(digits@),
            text@ == old(text)@ + digits@.take(i as int),
        decreases digits.len() - i,
    {
        assert(is_digit(digits@[i as int]));
        text.append(digit_text(digits[i]));
        assert(text@ =~= old(text)@ + digits@.take(i + 1));
        i = i + 1;
    }
    assert(digits@.take(i as int) =~= digits@);
}

/// The parts of a decimal number as its text gives them.
struct Parts {
    digits: Vec<char>,
    fraction_len: usize,
    below_zero: bool,
    exponent: u128,
}

/// Takes a text apart as a decimal number; `None` for a text that is none.
/// An exponent at or above `EXPONENT_CAP` is given as `EXPONENT_CAP`.
fn parts_of(chars: &Vec<char>) -> (parts: Option<Parts>)
    ensures
        parts is Some <==> is_decimal(chars@),
        parts matches Some(found) ==> {
            &&& found.digits@ == digits_of(chars@)
            &&& all_digits(found.digits@)
            &&& found.fraction_len == fraction_part(chars@).len()
            &&& found.below_zero == is_negative(exponent_text(chars@))
            &&& found.exponent <= EXPONENT_CAP
            &&& found.exponent == if number_value(exponent_digits(chars@)) < EXPONENT_CAP {
                number_value(exponent_digits(chars@))
            } else {
                EXPONENT_CAP as nat
            }
        },
{
    let len = chars.len();
    let start: usize = if len > 0 && (chars[0] == '+' || chars[0] == '-') {
        1
    } else {
        0
    };
    let end = find_mark(chars, start);
    let point = find_point(chars, start, end);
    let after: usize = if point < end {
        point + 1
    } else {
        end
    };
    proof {
        assert(whole_part(chars@) == chars@.subrange(start as int, point as int));
        assert(fraction_part(chars@) =~= chars@.subrange(after as int, end as int));
    }
    let digit_count = (point - start) + (end - after);
    if digit_count == 0 || !digits_only(chars, start, point) || !digits_only(chars, after, end) {
        return None;
    }
    let mut below_zero = false;
    let mut exponent: u128 = 0;
    if end < len {
        let signed = end + 1 < len && (chars[end + 1] == '+' || chars[end + 1] == '-');
        let first: usize = if signed {
            end + 2
        } else {
            end + 1
        };
        proof {
            let x = exponent_text(chars@);
            assert(x == chars@.subrange(end + 1, len as int));
            assert(x.len() > 0 ==> x[0] == chars@[end + 1]);
            assert(exponent_digits(chars@) =~= chars@.subrange(first as int, len as int));
        }
        if first == len || !digits_only(chars, first, len) {
            return None;
        }
        below_zero = signed && chars[end + 1] == '-';
        exponent = capped_value(chars, first, len);
    } else {
        proof {
            assert(exponent_digits(chars@) =~= Seq::<char>::empty());
        }
    }
    let digits = joined(chars, start, point, after, end);
    proof {
        let whole = whole_part(chars@);
        let fraction = fraction_part(chars@);
        assert forall|k: int| 0 <= k < digits@.len() implies is_digit(#[trigger] digits@[k]) by {
            if k < whole.len() {
                assert(digits@[k] == whole[k]);
            } else {
                assert(digits@[k] == fraction[k - whole.len()]);
            }
        }
    }
    Some(Parts { digits, fraction_len: end - after, below_zero, exponent })
}

/// Writes a number with its digits moved: `exponent` places to the left, or
/// to the right where `below_zero` holds, and `fraction_len` and three more
/// to the right. `None` for a number that is not zero and would get more
/// than `MAX_ZEROS` zeros behind its digits.
fn moved_digits(
    digits: &Vec<char>,
    fraction_len: usize,
    below_zero: bool,
    exponent: u128,
    power: Ghost<nat>,
) -> (text: Option<Vec<char>>)
    requires
        all_digits(digits@),
        exponent <= EXPONENT_CAP,
        exponent == if power@ < EXPONENT_CAP {
            power@
        } else {
            EXPONENT_CAP as nat
        },
    ensures
        ({
            let number = number_value(digits@);
            let shift = (if below_zero {
                -(power@ as int)
            } else {
                power@ as int
            }) - fraction_len - 3;
            match text {
                Some(written) => {
                    &&& number == 0 || shift <= MAX_ZEROS
                    &&& written@ == decimal_text(moved(number, shift))
                    &&& all_digits(written@)
                },
                None => number != 0 && shift > MAX_ZEROS,
            }
        }),
{
    let ghost number = number_value(digits@);
    let ghost shift = (if below_zero {
        -(power@ as int)
    } else {
        power@ as int
    }) - fraction_len - 3;
    proof {
        decimal_text_denotes_its_number(number);
    }
    let taken_base: u128 = fraction_len as u128 + 3;
    let count: u128 = digits.len() as u128;
    if !below_zero && exponent >= taken_base {
        let base = trimmed(digits);
        let is_zero = base.len() == 1 && base[0] == '0';
        if is_zero {
            proof {
                assert(0 * pow10(shift as nat) == 0) by (nonlinear_arith);
            }
            Some(base)
        } else if exponent - taken_base > MAX_ZEROS as u128 {
            None
        } else {
            let zeros_behind: usize = (exponent - taken_base) as usize;
            proof {
                lemma_zeros_behind(number, zeros_behind as nat);
            }
            Some(with_zeros(base, zeros_behind))
        }
    } else {
        let taken: u128 = if below_zero {
            taken_base + exponent
        } else {
            taken_base - exponent
        };
        if taken > count {
            proof {
                lemma_rounds_to_zero(digits@, (-shift) as nat);
            }
            let mut zero: Vec<char> = Vec::new();
            zero.push('0');
            proof {
                assert(zero@ =~= decimal_text(0));
                assert(is_digit(zero@[0]));
            }
            Some(zero)
        } else {
            let at: usize = (count - taken) as usize;
            proof {
                rounding_looks_at_one_digit(digits@, taken as nat);
                lemma_part_of_digits(digits@, 0, at as int);
            }
            let kept = copy_of(digits, 0, at);
            let tip = digits[at] >= '5';
            proof {
                assert(kept@ =~= digits@.take(at as int));
            }
            let sum = if tip {
                successor(kept)
            } else {
                kept
            };
            Some(trimmed(&sum))
        }
    }
}

/// Formats a raw bit rate for display. A decimal number is divided by 1000,
/// rounded to the nearest integer with a tie going away from zero, and
/// followed by ` kb/s`; its sign is kept. Any other text is returned as it
/// came, and so is a number that is not zero and would need more than
/// `MAX_ZEROS` zeros behind its digits.
pub fn format_bitrate(bitrate: &str) -> (text: String)
    ensures
        text@ == bitrate_text(bitrate@),
        is_decimal(bitrate@) && is_written_out(bitrate@) ==> text@ == sign_text(bitrate@)
            + decimal_text(kilo_magnitude(bitrate@)) + " kb/s"@,
        !is_decimal(bitrate@) ==> text@ == bitrate@,
{
    let chars = chars_of(bitrate);
    let parts = match parts_of(&chars) {
        Some(parts) => parts,
        None => {
            return bitrate.to_owned();
        },
    };
    let written = moved_digits(
        &parts.digits,
        parts.fraction_len,
        parts.below_zero,
        parts.exponent,
        Ghost(number_value(exponent_digits(chars@))),
    );
    let thousands = match written {
        Some(thousands) => thousands,
        None => {
            return bitrate.to_owned();
        },
    };
    let mut text = String::new();
    if chars[0] == '-' {
        proof {
            reveal_strlit("-");
        }
        text.append("-");
    }
    assert(text@ =~= sign_text(bitrate@));
    push_digits(&mut text, &thousands);
    text.append(" kb/s");
    text
}

} // verus!
