//! Durations written the way Go writes them: `1h30m`, `-30s`, `1.5h`, `250ms`.
//!
//! A duration is an optional `-`, then one or more segments, each a number and a unit, with
//! nothing between them. A number is decimal digits with at most one `.` among them and at
//! least one digit. The units are `h`, `m`, `s`, `ms`, `us` and `ns`. The text `0` alone is
//! the zero duration. A segment counts for its number times its unit in nanoseconds, any
//! fraction of a nanosecond dropped, and the duration is the sum of its segments.

use vstd::prelude::*;
use crate::quantity::pow10;
use crate::text::chars_of;

verus! {

/// Whether `c` is a decimal digit.
pub open spec fn is_digit(c: char) -> bool {
    '0' <= c && c <= '9'
}

/// The number that the decimal digit `c` stands for.
pub open spec fn digit_value(c: char) -> nat
    recommends
        is_digit(c),
{
    (c as int - '0' as int) as nat
}

/// Whether `c` can stand in a number: a digit or the point.
pub open spec fn is_numeric(c: char) -> bool {
    is_digit(c) || c == '.'
}

/// Whether every character of `s` is a decimal digit.
pub open spec fn all_digits(s: Seq<char>) -> bool {
    forall|i: int| 0 <= i < s.len() ==> is_digit(#[trigger] s[i])
}

/// The number that the decimal digits `digits` write.
pub open spec fn decimal_value(digits: Seq<char>) -> nat
    decreases digits.len(),
{
    if digits.len() == 0 {
        0
    } else {
        decimal_value(digits.drop_last()) * 10 + digit_value(digits.last())
    }
}

/// The whole part of `unit` times the fraction `0.d1 d2 ..` that `digits` write: each digit
/// from the last to the first adds its share, and tenths are carried down exactly.
pub open spec fn fraction_of(digits: Seq<char>, unit: nat) -> nat
    decreases digits.len(),
{
    if digits.len() == 0 {
        0
    } else {
        (digit_value(digits[0]) * unit + fraction_of(digits.drop_first(), unit)) / 10
    }
}

/// Where the number that starts at `from` ends: the first position from there on that
/// holds no digit and no point.
pub open spec fn numeric_end(s: Seq<char>, from: int) -> int
    decreases s.len() - from,
{
    if 0 <= from < s.len() && is_numeric(s[from]) {
        numeric_end(s, from + 1)
    } else {
        from
    }
}

/// Where the first point of `s` stands, or the length of `s` if it has none.
pub open spec fn point_index(s: Seq<char>) -> int
    decreases s.len(),
{
    if s.len() == 0 {
        0
    } else if s[0] == '.' {
        0
    } else {
        1 + point_index(s.drop_first())
    }
}

/// What the number `number` counts for in a unit of `unit` nanoseconds, where it is
/// well formed.
pub open spec fn scaled_number(number: Seq<char>, unit: nat) -> Option<nat> {
    let point = point_index(number);
    let whole = number.take(point);
    let fraction = if point < number.len() {
        number.skip(point + 1)
    } else {
        Seq::empty()
    };
    if all_digits(whole) && all_digits(fraction) && whole.len() + fraction.len() > 0 {
        Some(decimal_value(whole) * unit + fraction_of(fraction, unit))
    } else {
        None
    }
}

/// The unit that `s` holds at `at`: its nanoseconds and its length. The units of two
/// letters are tried first.
pub open spec fn unit_at(s: Seq<char>, at: int) -> Option<(nat, nat)> {
    if 0 <= at && at + 1 < s.len() && s[at] == 'm' && s[at + 1] == 's' {
        Some((1_000_000nat, 2nat))
    } else if 0 <= at && at + 1 < s.len() && s[at] == 'u' && s[at + 1] == 's' {
        Some((1_000nat, 2nat))
    } else if 0 <= at && at + 1 < s.len() && s[at] == 'n' && s[at + 1] == 's' {
        Some((1nat, 2nat))
    } else if 0 <= at < s.len() && s[at] == 'h' {
        Some((3_600_000_000_000nat, 1nat))
    } else if 0 <= at < s.len() && s[at] == 'm' {
        Some((60_000_000_000nat, 1nat))
    } else if 0 <= at < s.len() && s[at] == 's' {
        Some((1_000_000_000nat, 1nat))
    } else {
        None
    }
}

/// The nanoseconds that the segments of `s` from `from` on add up to, where they are
/// well formed up to the end of `s`.
pub open spec fn total_from(s: Seq<char>, from: int) -> Option<nat>
    decreases s.len() - from,
{
    if from < 0 {
        None
    } else if from >= s.len() {
        Some(0)
    } else {
        let end = numeric_end(s, from);
        match unit_at(s, end) {
            None => None,
            Some((unit, width)) => match scaled_number(s.subrange(from, end), unit) {
                None => None,
                Some(first) => {
                    proof {
                        lemma_numeric_end(s, from);
                    }
                    match total_from(s, end + width) {
                        None => None,
                        Some(rest) => Some(first + rest),
                    }
                },
            },
        }
    }
}

/// The duration that `text` writes, in nanoseconds; nothing where `text` is no duration or
/// the duration does not fit 64 bits.
pub open spec fn go_duration(text: Seq<char>) -> Option<int> {
    let negative = text.len() > 0 && text[0] == '-';
    let start: int = if negative {
        1
    } else {
        0
    };
    if text.len() == start + 1 && text[start] == '0' {
        Some(0)
    } else if text.len() == start {
        None
    } else {
        match total_from(text, start) {
            Some(total) => if total <= i64::MAX {
                Some(
                    if negative {
                        -(total as int)
                    } else {
                        total as int
                    },
                )
            } else {
                None
            },
            None => None,
        }
    }
}

/// The number that starts at `from` ends between `from` and the end of `s`, and holds
/// numeric characters only.
pub proof fn lemma_numeric_end(s: Seq<char>, from: int)
    requires
        0 <= from <= s.len(),
    ensures
        from <= numeric_end(s, from) <= s.len(),
        forall|i: int| from <= i < numeric_end(s, from) ==> is_numeric(#[trigger] s[i]),
        numeric_end(s, from) < s.len() ==> !is_numeric(s[numeric_end(s, from)]),
    decreases s.len() - from,
{
    if from < s.len() && is_numeric(s[from]) {
        lemma_numeric_end(s, from + 1);
    }
}


/// A number is its first digit, as many places up as digits follow, and the number that
/// the other digits write.
pub proof fn lemma_decimal_value_first(digits: Seq<char>)
    requires
        digits.len() > 0,
    ensures
        decimal_value(digits) == digit_value(digits[0]) * pow10((digits.len() - 1) as nat)
            + decimal_value(digits.drop_first()),
    decreases digits.len(),
{
    if digits.len() == 1 {
        assert(digits.drop_last() =~= Seq::<char>::empty());
        assert(digits.drop_first() =~= Seq::<char>::empty());
        assert(pow10(0) == 1);
        assert(decimal_value(digits.drop_last()) == 0);
        assert(digit_value(digits[0]) * 1 == digit_value(digits[0]));
    } else {
        let front = digits.drop_last();
        lemma_decimal_value_first(front);
        assert(front.drop_first() =~= digits.drop_first().drop_last());
        assert(front[0] == digits[0]);
        assert(digits.drop_first().last() == digits.last());
        let d = digit_value(digits[0]) as int;
        let p = pow10((digits.len() - 2) as nat) as int;
        let rest = decimal_value(front.drop_first()) as int;
        let last = digit_value(digits.last()) as int;
        assert(pow10((digits.len() - 1) as nat) == 10 * p);
        assert((d * p + rest) * 10 + last == d * (10 * p) + (rest * 10 + last)) by (nonlinear_arith);
    }
}

/// The share of a fraction is the whole part of the unit times the fraction: the unit
/// times the number that the digits write, divided by ten to the power of their count.
pub proof fn lemma_fraction_is_floor(digits: Seq<char>, unit: nat)
    ensures
        fraction_of(digits, unit) == (unit * decimal_value(digits)) / pow10(digits.len()),
    decreases digits.len(),
{
    if digits.len() == 0 {
        assert(pow10(0) == 1);
        assert(unit * 0 == 0);
    } else {
        let rest = digits.drop_first();
        lemma_fraction_is_floor(rest, unit);
        lemma_decimal_value_first(digits);
        crate::quantity::lemma_pow10_grows(0, rest.len());
        let d = digit_value(digits[0]) as int;
        let m = pow10(rest.len()) as int;
        let x = (unit * decimal_value(rest)) as int;
        let u = unit as int;
        assert(x >= 0) by (nonlinear_arith)
            requires
                x == unit * decimal_value(rest),
        ;
        assert(pow10(digits.len()) == 10 * m);
        // (d * u + x / m) / 10 == (x + d * u * m) / (m * 10)
        vstd::arithmetic::div_mod::lemma_hoist_over_denominator(x, d * u, m as nat);
        assert(x + (d * u) * m >= 0) by (nonlinear_arith)
            requires
                x >= 0,
                d >= 0,
                u >= 0,
                m >= 0,
        ;
        vstd::arithmetic::div_mod::lemma_div_denominator(x + (d * u) * m, m, 10);
        assert(u * (d * m + decimal_value(rest)) == x + (d * u) * m) by (nonlinear_arith)
            requires
                x == u * decimal_value(rest),
        ;
        assert(m * 10 == 10 * m);
        assert(d * u + x / m == x / m + d * u);
    }
}

/// The first point of `s` stands at `k`, if no point stands before `k` and `k` is the end
/// of `s` or holds a point.
pub proof fn lemma_point_index(s: Seq<char>, k: int)
    requires
        0 <= k <= s.len(),
        forall|i: int| 0 <= i < k ==> #[trigger] s[i] != '.',
        k < s.len() ==> s[k] == '.',
    ensures
        point_index(s) == k,
    decreases s.len(),
{
    if s.len() > 0 && k > 0 {
        assert(s[0] != '.');
        let rest = s.drop_first();
        assert forall|i: int| 0 <= i < k - 1 implies #[trigger] rest[i] != '.' by {
            assert(rest[i] == s[i + 1]);
        }
        lemma_point_index(rest, k - 1);
    }
}

/// The share of a fraction is never more than the unit.
proof fn lemma_fraction_bound(digits: Seq<char>, unit: nat)
    requires
        all_digits(digits),
    ensures
        fraction_of(digits, unit) <= unit,
    decreases digits.len(),
{
    if digits.len() > 0 {
        let rest = digits.drop_first();
        assert forall|i: int| 0 <= i < rest.len() implies is_digit(#[trigger] rest[i]) by {
            assert(rest[i] == digits[i + 1]);
        }
        lemma_fraction_bound(rest, unit);
        assert(is_digit(digits[0]));
        assert(digit_value(digits[0]) <= 9);
        assert(digit_value(digits[0]) * unit <= 9 * unit) by (nonlinear_arith)
            requires
                digit_value(digits[0]) <= 9,
        ;
    }
}

/// The number that `c` stands for, if it is a decimal digit.
pub fn digit_of(c: char) -> (r: Option<u8>)
    ensures
        match r {
            Some(d) => is_digit(c) && d as nat == digit_value(c) && d <= 9,
            None => !is_digit(c),
        },
{
    if '0' <= c && c <= '9' {
        Some((c as u32 - '0' as u32) as u8)
    } else {
        None
    }
}

fn scan_number(s: &Vec<char>, from: usize) -> (end: usize)
    requires
        from <= s.len(),
    ensures
        end as int == numeric_end(s@, from as int),
        from <= end <= s.len(),
{
    let mut end = from;
    while end < s.len() && (digit_of(s[end]).is_some() || s[end] == '.')
        invariant
            from <= end <= s.len(),
            numeric_end(s@, from as int) == numeric_end(s@, end as int),
        decreases s.len() - end,
    {
        end += 1;
    }
    end
}

fn read_unit(s: &Vec<char>, at: usize) -> (r: Option<(u64, usize)>)
    requires
        at <= s.len(),
    ensures
        match r {
            Some((unit, width)) => unit_at(s@, at as int) == Some((unit as nat, width as nat))
                && 1 <= unit <= 3_600_000_000_000 && 1 <= width <= 2 && at + width <= s.len(),
            None => unit_at(s@, at as int) is None,
        },
{
    let two = at < s.len() && s.len() - at >= 2;
    if two && s[at] == 'm' && s[at + 1] == 's' {
        Some((1_000_000, 2))
    } else if two && s[at] == 'u' && s[at + 1] == 's' {
        Some((1_000, 2))
    } else if two && s[at] == 'n' && s[at + 1] == 's' {
        Some((1, 2))
    } else if at < s.len() && s[at] == 'h' {
        Some((3_600_000_000_000, 1))
    } else if at < s.len() && s[at] == 'm' {
        Some((60_000_000_000, 1))
    } else if at < s.len() && s[at] == 's' {
        Some((1_000_000_000, 1))
    } else {
        None
    }
}

/// The largest number of nanoseconds that a duration can hold.
pub const MAX_NANOS: u128 = 9_223_372_036_854_775_807;

/// The digits of `s` from `from` to `end`, as a number: the number itself where it is at
/// most `MAX_NANOS`, and some number above `MAX_NANOS` where it is more.
fn read_whole(s: &Vec<char>, from: usize, end: usize) -> (r: Option<u128>)
    requires
        from <= end <= s.len(),
    ensures
        match r {
            Some(v) => all_digits(s@.subrange(from as int, end as int)) && v <= MAX_NANOS * 10
                + 9 && if decimal_value(s@.subrange(from as int, end as int)) <= MAX_NANOS {
                v == decimal_value(s@.subrange(from as int, end as int))
            } else {
                v > MAX_NANOS
            },
            None => !all_digits(s@.subrange(from as int, end as int)),
        },
{
    let mut value: u128 = 0;
    let mut i = from;
    while i < end
        invariant
            from <= i <= end <= s.len(),
            all_digits(s@.subrange(from as int, i as int)),
            value <= MAX_NANOS * 10 + 9,
            if decimal_value(s@.subrange(from as int, i as int)) <= MAX_NANOS {
                value == decimal_value(s@.subrange(from as int, i as int))
            } else {
                value > MAX_NANOS
            },
        decreases end - i,
    {
        let ghost before = s@.subrange(from as int, i as int);
        let ghost after = s@.subrange(from as int, i + 1);
        assert(after.drop_last() == before);
        assert(after.last() == s@[i as int]);
        match digit_of(s[i]) {
            None => {
                assert(s@.subrange(from as int, end as int)[i - from] == s@[i as int]);
                return None;
            },
            Some(d) => {
                if value <= MAX_NANOS {
                    value = value * 10 + d as u128;
                }
                assert forall|j: int| 0 <= j < after.len() implies is_digit(
                    #[trigger] after[j],
                ) by {
                    if j < before.len() {
                        assert(after[j] == before[j]);
                    }
                }
            },
        }
        i += 1;
    }
    Some(value)
}

/// The share of the fraction that the digits of `s` from `from` to `end` write, in a unit
/// of `unit` nanoseconds.
fn read_fraction(s: &Vec<char>, from: usize, end: usize, unit: u64) -> (r: Option<u64>)
    requires
        from <= end <= s.len(),
        unit <= 3_600_000_000_000,
    ensures
        match r {
            Some(v) => all_digits(s@.subrange(from as int, end as int)) && v == fraction_of(
                s@.subrange(from as int, end as int),
                unit as nat,
            ) && v <= unit,
            None => !all_digits(s@.subrange(from as int, end as int)),
        },
{
    let mut carry: u64 = 0;
    let mut i = end;
    while i > from
        invariant
            from <= i <= end <= s.len(),
            unit <= 3_600_000_000_000,
            all_digits(s@.subrange(i as int, end as int)),
            carry == fraction_of(s@.subrange(i as int, end as int), unit as nat),
            carry <= unit,
        decreases i - from,
    {
        let ghost before = s@.subrange(i as int, end as int);
        let ghost after = s@.subrange(i - 1, end as int);
        assert(after.drop_first() == before);
        assert(after[0] == s@[i - 1]);
        match digit_of(s[i - 1]) {
            None => {
                assert(s@.subrange(from as int, end as int)[i - 1 - from] == s@[i - 1]);
                return None;
            },
            Some(d) => {
                assert(d as u64 * unit <= 9 * 3_600_000_000_000) by (nonlinear_arith)
                    requires
                        d <= 9,
                        unit <= 3_600_000_000_000,
                ;
                carry = (d as u64 * unit + carry) / 10;
                assert forall|j: int| 0 <= j < after.len() implies is_digit(
                    #[trigger] after[j],
                ) by {
                    if j > 0 {
                        assert(after[j] == before[j - 1]);
                    }
                }
                proof {
                    lemma_fraction_bound(after, unit as nat);
                }
            },
        }
        i -= 1;
    }
    Some(carry)
}

/// What the number that `s` holds from `from` to `end` counts for in a unit of `unit`
/// nanoseconds: the count itself where it is at most `MAX_NANOS`, and some number above
/// `MAX_NANOS` where it is more.
fn scale_number(s: &Vec<char>, from: usize, end: usize, unit: u64) -> (r: Option<u128>)
    requires
        from <= end <= s.len(),
        1 <= unit <= 3_600_000_000_000,
    ensures
        match r {
            Some(v) => match scaled_number(s@.subrange(from as int, end as int), unit as nat) {
                Some(n) => if n <= MAX_NANOS {
                    v == n
                } else {
                    v > MAX_NANOS
                },
                None => false,
            },
            None => scaled_number(s@.subrange(from as int, end as int), unit as nat) is None,
        },
{
    let ghost number = s@.subrange(from as int, end as int);
    let mut point = from;
    while point < end && s[point] != '.'
        invariant
            from <= point <= end <= s.len(),
            forall|i: int| from <= i < point ==> #[trigger] s@[i] != '.',
        decreases end - point,
    {
        point += 1;
    }
    proof {
        assert forall|i: int| 0 <= i < point - from implies #[trigger] number[i] != '.' by {
            assert(number[i] == s@[from + i]);
        }
        lemma_point_index(number, point - from);
        assert(number.take(point - from) == s@.subrange(from as int, point as int));
        if point < end {
            assert(number.skip(point - from + 1) == s@.subrange(point + 1, end as int));
        } else {
            assert(s@.subrange(end as int, end as int) == Seq::<char>::empty());
        }
    }
    let fraction_from = if point < end {
        point + 1
    } else {
        end
    };
    if (point - from) + (end - fraction_from) == 0 {
        return None;
    }
    let whole = match read_whole(s, from, point) {
        Some(v) => v,
        None => {
            return None;
        },
    };
    let fraction = match read_fraction(s, fraction_from, end, unit) {
        Some(v) => v,
        None => {
            return None;
        },
    };
    let ghost exact = decimal_value(s@.subrange(from as int, point as int));
    assert(whole * unit <= (MAX_NANOS * 10 + 9) * 3_600_000_000_000) by (nonlinear_arith)
        requires
            whole <= MAX_NANOS * 10 + 9,
            unit <= 3_600_000_000_000,
    ;
    if whole > MAX_NANOS {
        assert(exact * unit >= exact) by (nonlinear_arith)
            requires
                unit >= 1,
        ;
        Some(whole)
    } else {
        Some(whole * unit as u128 + fraction as u128)
    }
}

/// Reads a duration in Go's notation, in nanoseconds.
///
/// Gives nothing where `input` is no duration, and where the duration is more than 64 bits
/// of nanoseconds hold.
pub fn parse_go_duration(input: &str) -> (r: Option<i64>)
    ensures
        match r {
            Some(n) => go_duration(input@) == Some(n as int),
            None => go_duration(input@) is None,
        },
{
    let s = chars_of(input);
    let negative = s.len() > 0 && s[0] == '-';
    let start: usize = if negative {
        1
    } else {
        0
    };
    if s.len() == start + 1 && s[start] == '0' {
        return Some(0);
    }
    if s.len() == start {
        return None;
    }
    let mut total: u128 = 0;
    let mut i = start;
    while i < s.len()
        invariant
            start <= i <= s.len(),
            s@ == input@,
            negative == (s@.len() > 0 && s@[0] == '-'),
            start == if negative {
                1usize
            } else {
                0usize
            },
            !(s.len() == start + 1 && s@[start as int] == '0'),
            s.len() != start,
            total <= MAX_NANOS,
            total_from(s@, start as int) == match total_from(s@, i as int) {
                Some(rest) => Some(total as nat + rest),
                None => None,
            },
        decreases s.len() - i,
    {
        let end = scan_number(&s, i);
        assert(total_from(s@, i as int) == match unit_at(s@, end as int) {
            None => None,
            Some((unit, width)) => match scaled_number(s@.subrange(i as int, end as int), unit) {
                None => None,
                Some(first) => match total_from(s@, end + width) {
                    None => None,
                    Some(rest) => Some(first + rest),
                },
            },
        });
        let (unit, width) = match read_unit(&s, end) {
            Some(u) => u,
            None => {
                return None;
            },
        };
        let first = match scale_number(&s, i, end, unit) {
            Some(v) => v,
            None => {
                return None;
            },
        };
        if first > MAX_NANOS || total + first > MAX_NANOS {
            return None;
        }
        total = total + first;
        i = end + width;
    }
    if negative {
        Some(-(total as i64))
    } else {
        Some(total as i64)
    }
}

} // verus!
