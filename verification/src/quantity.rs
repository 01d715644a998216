//! Resource quantities such as `1.5Gi`, `500m` or `100n`, held exactly.
//!
//! A quantity is a whole number, the mantissa, times a power of ten, the scale. Binary
//! suffixes (`Ki`, `Mi`, ..) are multiplied out when a quantity is parsed, so every quantity
//! is held the same way. The mantissa never ends in a zero digit: two quantities are the same
//! number exactly when their mantissas and their scales are the same.

use vstd::prelude::*;
use vstd::string::*;
use crate::engine::{
    add_text_function, add_value_method, float_power, float_product, is_opaque, kind_text_of,
    wide_as_float,
};
use crate::model::{CelValue, CelView, FunctionError};
use crate::duration::{
    all_digits, decimal_value, digit_of, is_digit, lemma_point_index, point_index,
};
use crate::text::{
    chars_of, concat3, decimal_chars, decimal_text, int_chars, int_text, same_text, slice_chars,
    text_of, trim_text, trimmed,
};

verus! {

/// Ten to the power `n`.
pub open spec fn pow10(n: nat) -> nat
    decreases n,
{
    if n == 0 {
        1
    } else {
        10 * pow10((n - 1) as nat)
    }
}

/// The size of `m` without its sign.
pub open spec fn magnitude(m: int) -> nat {
    if m < 0 {
        (-m) as nat
    } else {
        m as nat
    }
}

/// How many times `m` can be divided by ten without a remainder; none for zero.
pub open spec fn trailing_zeros(m: int) -> nat
    decreases magnitude(m),
{
    if m != 0 && m % 10 == 0 {
        1 + trailing_zeros(m / 10)
    } else {
        0
    }
}

/// A quantity, equal to `mantissa * 10^scale`.
#[derive(Debug, Clone, Copy, PartialEq, Eq, Structural)]
pub struct KubeQuantity {
    mantissa: i128,
    scale: i32,
}

impl cel::objects::Opaque for KubeQuantity {
    /// The name by which the engine knows values of this kind.
    fn runtime_type_name(&self) -> (r: &str)
        ensures
            r@ == "kubernetes.Quantity"@,
    {
        "kubernetes.Quantity"
    }
}

/// Powers of ten grow, and are never zero.
pub proof fn lemma_pow10_grows(a: nat, b: nat)
    requires
        a <= b,
    ensures
        1 <= pow10(a) <= pow10(b),
    decreases b,
{
    if b > 0 {
        if a == b {
            lemma_pow10_grows((a - 1) as nat, (b - 1) as nat);
        } else {
            lemma_pow10_grows(a, (b - 1) as nat);
        }
    }
}

/// No 128-bit number reaches ten to the power of 39.
pub proof fn lemma_pow10_39()
    ensures
        pow10(38) == 100000000000000000000000000000000000000,
        pow10(39) > i128::MAX,
{
    reveal_with_fuel(pow10, 40);
}

/// A number other than zero is at least ten to the power of its trailing zeros.
pub proof fn lemma_trailing_zeros_bound(m: int)
    requires
        m != 0,
    ensures
        pow10(trailing_zeros(m)) <= magnitude(m),
    decreases magnitude(m),
{
    if m % 10 == 0 {
        lemma_trailing_zeros_bound(m / 10);
    } else {
        assert(pow10(0) == 1);
    }
}

/// A number that 128 bits hold has at most 38 trailing zeros.
pub proof fn lemma_trailing_zeros_small(m: int)
    requires
        fits(m),
    ensures
        trailing_zeros(m) <= 38,
{
    if m != 0 {
        lemma_trailing_zeros_bound(m);
        lemma_pow10_39();
        if trailing_zeros(m) >= 39 {
            lemma_pow10_grows(39, trailing_zeros(m));
        }
    }
}

/// Two quantities in lowest terms are the same number exactly when their mantissas and
/// their scales are the same: equality and the order agree.
pub proof fn lemma_same_number_same_terms(a: KubeQuantity, b: KubeQuantity)
    requires
        a.wf(),
        b.wf(),
    ensures
        a.order(b) == 0 <==> a == b,
{
    if a.order(b) == 0 && a != b {
        let d = a.scale_of() - b.scale_of();
        if d > 0 {
            lemma_unequal_scales(a.mantissa_of(), b.mantissa_of(), d as nat);
        } else if d < 0 {
            lemma_unequal_scales(b.mantissa_of(), a.mantissa_of(), (-d) as nat);
        }
    }
}

/// A number that ends in no zero digit is not another one times a power of ten, unless
/// both are zero.
proof fn lemma_unequal_scales(high: int, low: int, d: nat)
    requires
        d > 0,
        high * pow10(d) == low,
        low != 0 ==> low % 10 != 0,
    ensures
        high == 0 && low == 0,
{
    let p = pow10((d - 1) as nat) as int;
    assert(pow10(d) == 10 * p);
    assert(low == (high * p) * 10) by (nonlinear_arith)
        requires
            high * (10 * p) == low,
    ;
    vstd::arithmetic::div_mod::lemma_mod_multiples_basic(high * p, 10);
    lemma_pow10_grows(0, d);
    if high != 0 {
        assert(high * pow10(d) != 0) by (nonlinear_arith)
            requires
                high != 0,
                pow10(d) >= 1,
        ;
    }
}

/// A number that is no multiple of ten is no multiple of ten times anything.
pub proof fn lemma_not_multiple(m: int, p: int)
    requires
        p >= 1,
        m % 10 != 0,
    ensures
        m % (10 * p) != 0,
{
    if m % (10 * p) == 0 {
        vstd::arithmetic::div_mod::lemma_fundamental_div_mod(m, 10 * p);
        let k = m / (10 * p);
        assert(m == (k * p) * 10) by (nonlinear_arith)
            requires
                m == (10 * p) * k + 0,
        ;
        vstd::arithmetic::div_mod::lemma_mod_multiples_basic(k * p, 10);
    }
}

impl KubeQuantity {
    /// The mantissa.
    pub closed spec fn mantissa_of(self) -> int {
        self.mantissa as int
    }

    /// The scale.
    pub closed spec fn scale_of(self) -> int {
        self.scale as int
    }

    /// Whether the quantity is in lowest terms: zero has scale zero, and the mantissa of
    /// any other quantity does not end in a zero digit.
    #[verifier::type_invariant]
    pub closed spec fn wf(self) -> bool {
        if self.mantissa == 0 {
            self.scale == 0
        } else {
            self.mantissa % 10 != 0
        }
    }

    /// The mantissa.
    pub fn mantissa(&self) -> (r: i128)
        ensures
            r == self.mantissa_of(),
    {
        self.mantissa
    }

    /// The scale.
    pub fn scale(&self) -> (r: i32)
        ensures
            r == self.scale_of(),
    {
        self.scale
    }

    /// The lowest terms of `mantissa * 10^scale`: the mantissa without its trailing zero
    /// digits, and the scale one up for each of them; zero has scale zero. Nothing where
    /// the scale of the lowest terms does not fit its 32 bits.
    pub fn simplify(mantissa: i128, scale: i32) -> (r: Option<(i128, i32)>)
        ensures
            match r {
                Some(terms) => terms.0 * pow10(trailing_zeros(mantissa as int)) == mantissa
                    && terms.1 == if mantissa == 0 {
                    0
                } else {
                    scale + trailing_zeros(mantissa as int)
                } && if terms.0 == 0 {
                    terms.1 == 0
                } else {
                    terms.0 % 10 != 0
                },
                None => mantissa != 0 && scale + trailing_zeros(mantissa as int) > i32::MAX,
            },
            scale <= i32::MAX - 38 ==> r is Some,
    {
        proof {
            lemma_trailing_zeros_small(mantissa as int);
        }
        if mantissa == 0 {
            assert(trailing_zeros(0) == 0);
            assert(pow10(0) == 1);
            return Some((0, 0));
        }
        let mut m = mantissa;
        let mut s = scale;
        let ghost mut done: nat = 0;
        assert(pow10(0) == 1);
        while m % 10 == 0
            invariant
                m != 0,
                m * pow10(done) == mantissa,
                s == scale + done,
                trailing_zeros(mantissa as int) <= 38,
                trailing_zeros(mantissa as int) == done + trailing_zeros(m as int),
            decreases magnitude(m as int),
        {
            if s == i32::MAX {
                assert(trailing_zeros(m as int) >= 1);
                return None;
            }
            proof {
                assert((m / 10) * pow10(done + 1) == m * pow10(done)) by (nonlinear_arith)
                    requires
                        m % 10 == 0,
                        pow10(done + 1) == 10 * pow10(done),
                ;
            }
            m = m / 10;
            s = s + 1;
            proof {
                done = done + 1;
            }
        }
        Some((m, s))
    }

    /// The quantity `mantissa * 10^scale`, in lowest terms. Nothing where the scale of the
    /// lowest terms does not fit its 32 bits.
    pub fn new(mantissa: i128, scale: i32) -> (r: Option<KubeQuantity>)
        ensures
            match r {
                Some(q) => q.is_lowest_terms_of(mantissa as int, scale as int),
                None => mantissa != 0 && scale + trailing_zeros(mantissa as int) > i32::MAX,
            },
            scale <= i32::MAX - 38 ==> r is Some,
    {
        match KubeQuantity::simplify(mantissa, scale) {
            Some(terms) => Some(KubeQuantity { mantissa: terms.0, scale: terms.1 }),
            None => None,
        }
    }

    /// The sign of the quantity: -1, 0 or 1.
    pub fn sign(&self) -> (r: i64)
        ensures
            r == if self.mantissa_of() < 0 {
                -1i64
            } else if self.mantissa_of() == 0 {
                0i64
            } else {
                1i64
            },
    {
        if self.mantissa < 0 {
            -1
        } else if self.mantissa == 0 {
            0
        } else {
            1
        }
    }

    /// Whether the quantity is a whole number.
    pub open spec fn is_whole(self) -> bool {
        self.scale_of() >= 0 || self.mantissa_of() % (pow10((-self.scale_of()) as nat) as int) == 0
    }

    /// Whether the quantity is a whole number.
    pub fn is_integer(&self) -> (r: bool)
        ensures
            r == self.is_whole(),
    {
        proof {
            use_type_invariant(self);
        }
        if self.scale >= 0 {
            return true;
        }
        proof {
            let n = (-self.scale) as nat;
            lemma_pow10_grows(1, n);
            assert(pow10(1) == 10) by {
                reveal_with_fuel(pow10, 2);
            }
            assert(pow10(n) == 10 * pow10((n - 1) as nat));
            if self.mantissa == 0 {
                assert(false);
            }
            let p = pow10((n - 1) as nat) as int;
            lemma_pow10_grows(0, (n - 1) as nat);
            lemma_not_multiple(self.mantissa as int, p);
        }
        false
    }
}

/// Ten to the power `n`, where a 128-bit number holds it.
pub fn power_of_ten(n: u32) -> (r: Option<i128>)
    ensures
        match r {
            Some(p) => p == pow10(n as nat) && n <= 38,
            None => n > 38,
        },
{
    if n > 38 {
        return None;
    }
    let mut p: i128 = 1;
    let mut i: u32 = 0;
    proof {
        lemma_pow10_39();
    }
    while i < n
        invariant
            i <= n <= 38,
            p == pow10(i as nat),
            pow10(38) == 100000000000000000000000000000000000000,
        decreases n - i,
    {
        proof {
            lemma_pow10_grows((i + 1) as nat, 38);
        }
        p = p * 10;
        i += 1;
    }
    Some(p)
}


/// `m` with `diff` zero digits appended; `m` itself where `diff` is not positive.
pub open spec fn scaled(m: int, diff: int) -> int {
    if diff <= 0 {
        m
    } else {
        m * pow10(diff as nat)
    }
}

/// Whether a 128-bit number holds `x`.
pub open spec fn fits(x: int) -> bool {
    i128::MIN <= x <= i128::MAX
}

/// Whether a 64-bit number holds `x`.
pub open spec fn fits_i64(x: int) -> bool {
    i64::MIN <= x <= i64::MAX
}

/// A number other than zero, times ten to the power of 39 or more, is beyond 128 bits.
proof fn lemma_scaled_beyond(m: int, diff: int)
    requires
        m != 0,
        diff > 38,
    ensures
        !fits(scaled(m, diff)),
{
    lemma_pow10_39();
    lemma_pow10_grows(39, diff as nat);
    let p = pow10(diff as nat) as int;
    if m > 0 {
        assert(m * p >= p) by (nonlinear_arith)
            requires
                m >= 1,
                p >= 0,
        ;
    } else {
        assert(m * p <= -p) by (nonlinear_arith)
            requires
                m <= -1,
                p >= 0,
        ;
    }
}

/// The mantissa `mantissa` of scale `from_scale`, written at the scale `to_scale` below
/// it: nothing where 128 bits do not hold that. At a scale that is not below, the mantissa
/// is left as it is.
pub fn scale_mantissa(mantissa: i128, from_scale: i32, to_scale: i32) -> (r: Option<i128>)
    ensures
        match r {
            Some(v) => v == scaled(mantissa as int, from_scale - to_scale),
            None => !fits(scaled(mantissa as int, from_scale - to_scale)),
        },
{
    let diff: i64 = from_scale as i64 - to_scale as i64;
    if diff <= 0 {
        return Some(mantissa);
    }
    if mantissa == 0 {
        assert(0 * pow10(diff as nat) == 0);
        return Some(0);
    }
    if diff > 38 {
        proof {
            lemma_scaled_beyond(mantissa as int, diff as int);
        }
        return None;
    }
    match power_of_ten(diff as u32) {
        Some(p) => mantissa.checked_mul(p),
        None => None,
    }
}

/// Two quantities written at the lower of their scales: their mantissas there, where
/// 128 bits hold both.
pub fn normalize_pair(a: &KubeQuantity, b: &KubeQuantity) -> (r: Option<(i128, i128)>)
    ensures
        match r {
            Some(pair) => pair.0 == a.at_common_scale(*b) && pair.1 == b.at_common_scale(*a),
            None => !fits(a.at_common_scale(*b)) || !fits(b.at_common_scale(*a)),
        },
{
    let min_scale = if a.scale < b.scale {
        a.scale
    } else {
        b.scale
    };
    let x = match scale_mantissa(a.mantissa, a.scale, min_scale) {
        Some(x) => x,
        None => {
            return None;
        },
    };
    let y = match scale_mantissa(b.mantissa, b.scale, min_scale) {
        Some(y) => y,
        None => {
            return None;
        },
    };
    Some((x, y))
}

impl KubeQuantity {
    /// The lower of the scales of two quantities.
    pub open spec fn common_scale(self, other: KubeQuantity) -> int {
        if self.scale_of() < other.scale_of() {
            self.scale_of()
        } else {
            other.scale_of()
        }
    }

    /// The mantissa of this quantity, written at the lower of its scale and that of
    /// `other`.
    pub open spec fn at_common_scale(self, other: KubeQuantity) -> int {
        scaled(self.mantissa_of(), self.scale_of() - self.common_scale(other))
    }

    /// Whether this quantity is `m * 10^s` in lowest terms.
    pub open spec fn is_lowest_terms_of(self, m: int, s: int) -> bool {
        self.mantissa_of() * pow10(trailing_zeros(m)) == m && self.scale_of() == if m == 0 {
            0
        } else {
            s + trailing_zeros(m)
        }
    }

    /// How this quantity stands to `other`: -1 where it is less, 0 where they are the same
    /// number, 1 where it is more.
    pub open spec fn order(self, other: KubeQuantity) -> int {
        if self.at_common_scale(other) < other.at_common_scale(self) {
            -1
        } else if self.at_common_scale(other) == other.at_common_scale(self) {
            0
        } else {
            1
        }
    }

    /// Whether this quantity and `sign` times `other` cannot be added here: 128 bits do
    /// not hold the two mantissas at the lower scale, or their sum, or 32 bits do not hold
    /// the scale of the sum in lowest terms.
    pub open spec fn sum_overflows(self, other: KubeQuantity, sign: int) -> bool {
        !fits(self.at_common_scale(other)) || !fits(other.at_common_scale(self)) || !fits(
            self.at_common_scale(other) + sign * other.at_common_scale(self),
        ) || self.common_scale(other) + trailing_zeros(
            self.at_common_scale(other) + sign * other.at_common_scale(self),
        ) > i32::MAX
    }

    /// The sum of two quantities, in lowest terms. Nothing where 128 bits do not hold the
    /// two mantissas at the lower scale, or their sum, or 32 bits the scale of the sum.
    pub fn add(&self, other: &KubeQuantity) -> (r: Option<KubeQuantity>)
        ensures
            r matches Some(q) ==> q.is_lowest_terms_of(
                self.at_common_scale(*other) + other.at_common_scale(*self),
                self.common_scale(*other),
            ),
            r is None ==> self.sum_overflows(*other, 1),
    {
        let min_scale = if self.scale < other.scale {
            self.scale
        } else {
            other.scale
        };
        match normalize_pair(self, other) {
            Some(pair) => match pair.0.checked_add(pair.1) {
                Some(sum) => KubeQuantity::new(sum, min_scale),
                None => None,
            },
            None => None,
        }
    }

    /// The difference of two quantities, in lowest terms. Nothing where 128 bits do not
    /// hold the two mantissas at the lower scale, or their difference, or 32 bits the
    /// scale of the difference.
    pub fn sub(&self, other: &KubeQuantity) -> (r: Option<KubeQuantity>)
        ensures
            r matches Some(q) ==> q.is_lowest_terms_of(
                self.at_common_scale(*other) - other.at_common_scale(*self),
                self.common_scale(*other),
            ),
            r is None ==> self.sum_overflows(*other, -1),
    {
        let min_scale = if self.scale < other.scale {
            self.scale
        } else {
            other.scale
        };
        match normalize_pair(self, other) {
            Some(pair) => match pair.0.checked_sub(pair.1) {
                Some(difference) => KubeQuantity::new(difference, min_scale),
                None => None,
            },
            None => None,
        }
    }

    /// Compares two quantities as numbers, whatever their scales.
    pub fn compare(&self, other: &KubeQuantity) -> (r: i64)
        ensures
            r == self.order(*other),
    {
        proof {
            self.lemma_common_scale_sign(*other);
        }
        match normalize_pair(self, other) {
            Some(pair) => if pair.0 < pair.1 {
                -1
            } else if pair.0 == pair.1 {
                0
            } else {
                1
            },
            None => {
                // One of the two is beyond 128 bits at the lower scale, and the other is
                // not scaled at all: the first is the larger in size.
                if self.scale > other.scale {
                    if self.mantissa > 0 {
                        1
                    } else {
                        -1
                    }
                } else {
                    if other.mantissa > 0 {
                        -1
                    } else {
                        1
                    }
                }
            },
        }
    }

    /// The mantissa of a quantity keeps its sign at the lower of two scales, and is left as
    /// it is where the quantity has the lower scale.
    proof fn lemma_common_scale_sign(self, other: KubeQuantity)
        ensures
            self.scale_of() <= other.scale_of() ==> self.at_common_scale(other)
                == self.mantissa_of(),
            other.scale_of() <= self.scale_of() ==> other.at_common_scale(self)
                == other.mantissa_of(),
            self.mantissa_of() > 0 ==> self.at_common_scale(other) > 0,
            self.mantissa_of() < 0 ==> self.at_common_scale(other) < 0,
            other.mantissa_of() > 0 ==> other.at_common_scale(self) > 0,
            other.mantissa_of() < 0 ==> other.at_common_scale(self) < 0,
            self.mantissa_of() == 0 ==> self.at_common_scale(other) == 0,
            other.mantissa_of() == 0 ==> other.at_common_scale(self) == 0,
    {
        let d1 = self.scale_of() - self.common_scale(other);
        let d2 = other.scale_of() - other.common_scale(self);
        if d1 > 0 {
            lemma_pow10_grows(0, d1 as nat);
            let p = pow10(d1 as nat) as int;
            let m = self.mantissa_of();
            assert(m > 0 ==> m * p > 0) by (nonlinear_arith)
                requires
                    p >= 1,
            ;
            assert(m < 0 ==> m * p < 0) by (nonlinear_arith)
                requires
                    p >= 1,
            ;
            assert(m == 0 ==> m * p == 0) by (nonlinear_arith);
        }
        if d2 > 0 {
            lemma_pow10_grows(0, d2 as nat);
            let p = pow10(d2 as nat) as int;
            let m = other.mantissa_of();
            assert(m > 0 ==> m * p > 0) by (nonlinear_arith)
                requires
                    p >= 1,
            ;
            assert(m < 0 ==> m * p < 0) by (nonlinear_arith)
                requires
                    p >= 1,
            ;
            assert(m == 0 ==> m * p == 0) by (nonlinear_arith);
        }
    }

    /// The number that a whole quantity is.
    pub open spec fn whole_value(self) -> int {
        if self.scale_of() >= 0 {
            self.mantissa_of() * pow10(self.scale_of() as nat)
        } else {
            self.mantissa_of() / (pow10((-self.scale_of()) as nat) as int)
        }
    }

    /// The quantity as a 64-bit integer: an error where it is no whole number, and where
    /// it is one that 64 bits do not hold.
    pub fn as_integer(&self) -> (r: Result<i64, FunctionError>)
        ensures
            match r {
                Ok(v) => self.is_whole() && v == self.whole_value(),
                Err(e) => if self.is_whole() {
                    !fits_i64(self.whole_value()) && e.says(
                        "asInteger"@,
                        "quantity too large for integer"@,
                    )
                } else {
                    e.says("asInteger"@, "quantity is not an integer"@)
                },
            },
    {
        proof {
            use_type_invariant(self);
        }
        if !self.is_integer() {
            return Err(FunctionError::new("asInteger", "quantity is not an integer"));
        }
        assert(self.scale >= 0) by {
            if self.scale < 0 {
                let n = (-self.scale) as nat;
                lemma_pow10_grows(1, n);
                assert(pow10(1) == 10) by {
                    reveal_with_fuel(pow10, 2);
                }
                lemma_pow10_grows(0, (n - 1) as nat);
                lemma_not_multiple(self.mantissa as int, pow10((n - 1) as nat) as int);
            }
        }
        assert(self.whole_value() == scaled(self.mantissa_of(), self.scale_of() - 0)) by {
            assert(pow10(0) == 1);
            if self.scale == 0 {
                assert(self.mantissa_of() * 1 == self.mantissa_of());
            }
        }
        match scale_mantissa(self.mantissa, self.scale, 0) {
            Some(v) => if v >= i64::MIN as i128 && v <= i64::MAX as i128 {
                Ok(v as i64)
            } else {
                Err(FunctionError::new("asInteger", "quantity too large for integer"))
            },
            None => Err(FunctionError::new("asInteger", "quantity too large for integer")),
        }
    }
}


/// The whole number that `s` writes: an optional sign, then one or more decimal digits.
pub open spec fn signed_value(s: Seq<char>) -> Option<int> {
    if s.len() > 0 && (s[0] == '+' || s[0] == '-') {
        let digits = s.skip(1);
        if digits.len() > 0 && all_digits(digits) {
            Some(
                if s[0] == '-' {
                    -(decimal_value(digits) as int)
                } else {
                    decimal_value(digits) as int
                },
            )
        } else {
            None
        }
    } else if s.len() > 0 && all_digits(s) {
        Some(decimal_value(s) as int)
    } else {
        None
    }
}

/// The mantissa and the scale that the decimal number `s` writes: the digits before and
/// after the point read as one whole number, and one place down for each character after
/// the point.
pub open spec fn decimal_of(s: Seq<char>) -> Option<(int, int)> {
    let point = point_index(s);
    if point < s.len() {
        match signed_value(s.take(point) + s.skip(point + 1)) {
            Some(m) => Some((m, -(s.len() - point - 1))),
            None => None,
        }
    } else {
        match signed_value(s) {
            Some(m) => Some((m, 0int)),
            None => None,
        }
    }
}

/// Where the first `e` or `E` of `s` stands, or the length of `s` if it has none.
pub open spec fn exponent_index(s: Seq<char>) -> int
    decreases s.len(),
{
    if s.len() == 0 {
        0
    } else if s[0] == 'e' || s[0] == 'E' {
        0
    } else {
        1 + exponent_index(s.drop_first())
    }
}

/// The mantissa and the scale that the number `s` writes, with or without an exponent.
pub open spec fn number_of(s: Seq<char>) -> Option<(int, int)> {
    let e = exponent_index(s);
    if e < s.len() {
        match (decimal_of(s.take(e)), signed_value(s.skip(e + 1))) {
            (Some(base), Some(exponent)) => if fits(exponent) {
                Some((base.0, base.1 + exponent))
            } else {
                None
            },
            _ => None,
        }
    } else {
        decimal_of(s)
    }
}

/// What the suffix `s` stands for: a power of ten to add to the scale, or a power of two
/// to multiply the mantissa by.
pub open spec fn suffix_of(s: Seq<char>) -> Option<(int, Option<int>)> {
    if s == ""@ {
        Some((0int, None))
    } else if s == "n"@ {
        Some((-9int, None))
    } else if s == "u"@ {
        Some((-6int, None))
    } else if s == "m"@ {
        Some((-3int, None))
    } else if s == "k"@ {
        Some((3int, None))
    } else if s == "M"@ {
        Some((6int, None))
    } else if s == "G"@ {
        Some((9int, None))
    } else if s == "T"@ {
        Some((12int, None))
    } else if s == "P"@ {
        Some((15int, None))
    } else if s == "E"@ {
        Some((18int, None))
    } else if s == "Ki"@ {
        Some((0int, Some(0x400int)))
    } else if s == "Mi"@ {
        Some((0int, Some(0x10_0000int)))
    } else if s == "Gi"@ {
        Some((0int, Some(0x4000_0000int)))
    } else if s == "Ti"@ {
        Some((0int, Some(0x100_0000_0000int)))
    } else if s == "Pi"@ {
        Some((0int, Some(0x4_0000_0000_0000int)))
    } else if s == "Ei"@ {
        Some((0int, Some(0x1000_0000_0000_0000int)))
    } else {
        None
    }
}

/// Whether `c` can stand in the number of a quantity: a digit, the point or a sign.
pub open spec fn is_number_char(c: char) -> bool {
    is_digit(c) || c == '.' || c == '-' || c == '+'
}

/// Where the number at the start of `s` ends: the first position that holds no digit, no
/// point and no sign.
pub open spec fn number_end(s: Seq<char>) -> int
    decreases s.len(),
{
    if s.len() == 0 {
        0
    } else if !is_number_char(s[0]) {
        0
    } else {
        1 + number_end(s.drop_first())
    }
}

/// Whether `rest`, which follows the number of a quantity, is a decimal exponent: `e` or
/// `E`, but not `Ei`, then one or more digits and signs.
pub open spec fn is_exponent(rest: Seq<char>) -> bool {
    rest.len() > 1 && (rest[0] == 'e' || rest[0] == 'E') && !(rest[0] == 'E' && rest[1] == 'i')
        && forall|i: int| 1 <= i < rest.len() ==> is_digit(#[trigger] rest[i]) || rest[i] == '+'
        || rest[i] == '-'
}

/// The mantissa and the scale that the quantity `s` writes, before they are brought to
/// lowest terms; nothing where `s` writes no quantity, or one that 128 bits of mantissa and
/// 32 bits of scale do not hold.
pub open spec fn quantity_of(s: Seq<char>) -> Option<(int, int)> {
    let end = number_end(s);
    let whole = end < s.len() && is_exponent(s.skip(end));
    let number = if whole {
        s
    } else {
        s.take(end)
    };
    let suffix = if whole {
        Seq::<char>::empty()
    } else {
        s.skip(end)
    };
    if number.len() == 0 {
        None
    } else {
        match (number_of(number), suffix_of(suffix)) {
            (Some(n), Some(x)) => {
                let mantissa = match x.1 {
                    Some(factor) => n.0 * factor,
                    None => n.0,
                };
                let scale = n.1 + x.0;
                if fits(n.0) && fits(mantissa) && i32::MIN <= n.1 <= i32::MAX && i32::MIN
                    <= scale <= i32::MAX {
                    Some((mantissa, scale))
                } else {
                    None
                }
            },
            _ => None,
        }
    }
}


/// The first `e` or `E` of `s` stands at `k`, if none stands before `k` and `k` is the
/// end of `s` or holds one.
proof fn lemma_exponent_index(s: Seq<char>, k: int)
    requires
        0 <= k <= s.len(),
        forall|i: int| 0 <= i < k ==> #[trigger] s[i] != 'e' && s[i] != 'E',
        k < s.len() ==> s[k] == 'e' || s[k] == 'E',
    ensures
        exponent_index(s) == k,
    decreases s.len(),
{
    if s.len() > 0 && k > 0 {
        assert(s[0] != 'e' && s[0] != 'E');
        let rest = s.drop_first();
        assert forall|i: int| 0 <= i < k - 1 implies #[trigger] rest[i] != 'e' && rest[i]
            != 'E' by {
            assert(rest[i] == s[i + 1]);
        }
        lemma_exponent_index(rest, k - 1);
    }
}

/// The number at the start of `s` ends at `k`, if only number characters stand before
/// `k` and `k` is the end of `s` or holds another character.
proof fn lemma_number_end(s: Seq<char>, k: int)
    requires
        0 <= k <= s.len(),
        forall|i: int| 0 <= i < k ==> is_number_char(#[trigger] s[i]),
        k < s.len() ==> !is_number_char(s[k]),
    ensures
        number_end(s) == k,
    decreases s.len(),
{
    if s.len() > 0 && k > 0 {
        assert(is_number_char(s[0]));
        let rest = s.drop_first();
        assert forall|i: int| 0 <= i < k - 1 implies is_number_char(#[trigger] rest[i]) by {
            assert(rest[i] == s[i + 1]);
        }
        lemma_number_end(rest, k - 1);
    }
}

/// A number is at least the number that its first digits write.
proof fn lemma_decimal_value_prefix(s: Seq<char>, k: int)
    requires
        0 <= k <= s.len(),
    ensures
        decimal_value(s.take(k)) <= decimal_value(s),
    decreases s.len() - k,
{
    if k < s.len() {
        lemma_decimal_value_prefix(s, k + 1);
        assert(s.take(k + 1).drop_last() == s.take(k));
    } else {
        assert(s.take(k) == s);
    }
}

/// The whole number that `s` writes, where it writes one that 128 bits hold.
fn parse_signed(s: &Vec<char>) -> (r: Option<i128>)
    ensures
        match r {
            Some(v) => signed_value(s@) == Some(v as int),
            None => signed_value(s@) matches Some(x) ==> !fits(x),
        },
{
    let negative = s.len() > 0 && s[0] == '-';
    let start: usize = if s.len() > 0 && (s[0] == '+' || s[0] == '-') {
        1
    } else {
        0
    };
    if s.len() == start {
        return None;
    }
    let ghost digits = s@.skip(start as int);
    let mut i = start;
    while i < s.len()
        invariant
            start <= i <= s.len(),
            s.len() != start,
            start == 0 || start == 1,
            start == 1 <==> s@[0] == '+' || s@[0] == '-',
            digits == s@.skip(start as int),
            forall|j: int| 0 <= j < i - start ==> is_digit(#[trigger] digits[j]),
        decreases s.len() - i,
    {
        if digit_of(s[i]).is_none() {
            assert(digits[i - start] == s@[i as int]);
            return None;
        }
        assert(digits[i - start] == s@[i as int]);
        i += 1;
    }
    assert(all_digits(digits));
    assert(start == 0 ==> digits =~= s@);
    let mut value: i128 = 0;
    let mut k = start;
    assert(digits.take(0) =~= Seq::<char>::empty());
    while k < s.len()
        invariant
            start <= k <= s.len(),
            s.len() != start,
            start == 0 || start == 1,
            start == 1 <==> s@[0] == '+' || s@[0] == '-',
            negative == (s@[0] == '-'),
            start == 0 ==> digits == s@,
            digits == s@.skip(start as int),
            all_digits(digits),
            value == if negative {
                -(decimal_value(digits.take(k - start)) as int)
            } else {
                decimal_value(digits.take(k - start)) as int
            },
        decreases s.len() - k,
    {
        let ghost before = digits.take(k - start);
        let ghost after = digits.take(k - start + 1);
        assert(after.drop_last() == before);
        assert(after.last() == s@[k as int]);
        proof {
            lemma_decimal_value_prefix(digits, k - start + 1);
        }
        let d = match digit_of(s[k]) {
            Some(d) => d as i128,
            None => {
                assert(digits[k - start] == s@[k as int]);
                return None;
            },
        };
        let tens = match value.checked_mul(10) {
            Some(t) => t,
            None => {
                return None;
            },
        };
        let next = if negative {
            tens.checked_sub(d)
        } else {
            tens.checked_add(d)
        };
        value = match next {
            Some(n) => n,
            None => {
                return None;
            },
        };
        k += 1;
    }
    assert(digits.take(s.len() - start) == digits);
    Some(value)
}

/// The mantissa and the scale that a decimal number writes.
pub fn parse_decimal(s: &Vec<char>) -> (r: Result<(i128, i128), String>)
    ensures
        match r {
            Ok(n) => decimal_of(s@) == Some((n.0 as int, n.1 as int)),
            Err(_) => decimal_of(s@) matches Some(x) ==> !fits(x.0),
        },
{
    let mut point: usize = 0;
    while point < s.len() && s[point] != '.'
        invariant
            point <= s.len(),
            forall|i: int| 0 <= i < point ==> #[trigger] s@[i] != '.',
        decreases s.len() - point,
    {
        point += 1;
    }
    proof {
        lemma_point_index(s@, point as int);
    }
    if point < s.len() {
        let mut combined = slice_chars(s, 0, point);
        let mut fraction = slice_chars(s, point + 1, s.len());
        let places = fraction.len();
        combined.append(&mut fraction);
        assert(combined@ =~= s@.take(point as int) + s@.skip(point + 1));
        match parse_signed(&combined) {
            Some(m) => Ok((m, -(places as i128))),
            None => Err(invalid_number(s)),
        }
    } else {
        match parse_signed(s) {
            Some(m) => Ok((m, 0)),
            None => Err(invalid_number(s)),
        }
    }
}

/// The complaint about a text that writes no number: the text, between quotes.
fn invalid_number(s: &Vec<char>) -> (r: String)
    ensures
        r@ == "invalid number: '"@ + s@ + "'"@,
{
    let text = text_of(s);
    crate::text::concat3("invalid number: '", text.as_str(), "'")
}

/// The mantissa and the scale that a number writes, with or without an exponent.
pub fn parse_number(s: &Vec<char>) -> (r: Result<(i128, i128), String>)
    ensures
        match r {
            Ok(n) => number_of(s@) == Some((n.0 as int, n.1 as int)),
            Err(_) => number_of(s@) matches Some(x) ==> !fits(x.0) || !fits(x.1),
        },
{
    let mut e: usize = 0;
    while e < s.len() && s[e] != 'e' && s[e] != 'E'
        invariant
            e <= s.len(),
            forall|i: int| 0 <= i < e ==> #[trigger] s@[i] != 'e' && s@[i] != 'E',
        decreases s.len() - e,
    {
        e += 1;
    }
    proof {
        lemma_exponent_index(s@, e as int);
    }
    if e < s.len() {
        let base_text = slice_chars(s, 0, e);
        let exponent_text = slice_chars(s, e + 1, s.len());
        assert(base_text@ == s@.take(e as int));
        assert(exponent_text@ == s@.skip(e + 1));
        let base = match parse_decimal(&base_text) {
            Ok(b) => b,
            Err(e) => {
                return Err(e);
            },
        };
        let exponent = match parse_signed(&exponent_text) {
            Some(x) => x,
            None => {
                let text = text_of(s);
                return Err(crate::text::concat3("invalid exponent in '", text.as_str(), "'"));
            },
        };
        match base.1.checked_add(exponent) {
            Some(scale) => Ok((base.0, scale)),
            None => {
                let text = text_of(s);
                Err(crate::text::concat3("invalid exponent in '", text.as_str(), "'"))
            },
        }
    } else {
        parse_decimal(s)
    }
}


/// What a suffix stands for: a power of ten to add to the scale, or a power of two to
/// multiply the mantissa by.
pub fn parse_suffix(suffix: &str) -> (r: Result<(i32, Option<i128>), String>)
    ensures
        match r {
            Ok(x) => suffix_of(suffix@) == Some(
                (
                    x.0 as int,
                    match x.1 {
                        Some(f) => Some(f as int),
                        None => None,
                    },
                ),
            ),
            Err(_) => suffix_of(suffix@) is None,
        },
{
    if same_text(suffix, "") {
        Ok((0, None))
    } else if same_text(suffix, "n") {
        Ok((-9, None))
    } else if same_text(suffix, "u") {
        Ok((-6, None))
    } else if same_text(suffix, "m") {
        Ok((-3, None))
    } else if same_text(suffix, "k") {
        Ok((3, None))
    } else if same_text(suffix, "M") {
        Ok((6, None))
    } else if same_text(suffix, "G") {
        Ok((9, None))
    } else if same_text(suffix, "T") {
        Ok((12, None))
    } else if same_text(suffix, "P") {
        Ok((15, None))
    } else if same_text(suffix, "E") {
        Ok((18, None))
    } else if same_text(suffix, "Ki") {
        Ok((0, Some(0x400)))
    } else if same_text(suffix, "Mi") {
        Ok((0, Some(0x10_0000)))
    } else if same_text(suffix, "Gi") {
        Ok((0, Some(0x4000_0000)))
    } else if same_text(suffix, "Ti") {
        Ok((0, Some(0x100_0000_0000)))
    } else if same_text(suffix, "Pi") {
        Ok((0, Some(0x4_0000_0000_0000)))
    } else if same_text(suffix, "Ei") {
        Ok((0, Some(0x1000_0000_0000_0000)))
    } else {
        Err(concat3("unknown quantity suffix: '", suffix, "'"))
    }
}

fn is_number_char_of(c: char) -> (r: bool)
    ensures
        r == is_number_char(c),
{
    ('0' <= c && c <= '9') || c == '.' || c == '-' || c == '+'
}

fn is_exponent_of(rest: &Vec<char>) -> (r: bool)
    ensures
        r == is_exponent(rest@),
{
    if !(rest.len() > 1 && (rest[0] == 'e' || rest[0] == 'E') && !(rest[0] == 'E' && rest[1]
        == 'i')) {
        return false;
    }
    let mut i: usize = 1;
    while i < rest.len()
        invariant
            1 <= i <= rest.len(),
            forall|j: int|
                1 <= j < i ==> is_digit(#[trigger] rest@[j]) || rest@[j] == '+' || rest@[j] == '-',
        decreases rest.len() - i,
    {
        let c = rest[i];
        if !(('0' <= c && c <= '9') || c == '+' || c == '-') {
            return false;
        }
        i += 1;
    }
    true
}

/// Reads a quantity: a number, with or without a decimal exponent, and an optional suffix,
/// with white space allowed at both ends.
///
/// Fails where the text writes no quantity, and where the quantity, in lowest terms, is
/// beyond 128 bits of mantissa or 32 bits of scale.
pub fn parse_quantity(s: &str) -> (r: Result<KubeQuantity, String>)
    ensures
        match r {
            Ok(q) => quantity_of(trimmed(s@)) matches Some(v) && q.is_lowest_terms_of(v.0, v.1),
            Err(_) => quantity_of(trimmed(s@)) matches Some(v) ==> v.0 != 0 && v.1
                + trailing_zeros(v.0) > i32::MAX,
        },
{
    let text = trim_text(s);
    parse_trimmed_quantity(text.as_str())
}

/// Reads a quantity from a text that has no white space around it: a number, with or
/// without a decimal exponent, and an optional suffix.
///
/// Fails where the text writes no quantity, and where the quantity, in lowest terms, is
/// beyond 128 bits of mantissa or 32 bits of scale.
pub fn parse_trimmed_quantity(text: &str) -> (r: Result<KubeQuantity, String>)
    ensures
        match r {
            Ok(q) => quantity_of(text@) matches Some(v) && q.is_lowest_terms_of(v.0, v.1),
            Err(_) => quantity_of(text@) matches Some(v) ==> v.0 != 0 && v.1 + trailing_zeros(
                v.0,
            ) > i32::MAX,
        },
{
    let t = chars_of(text);
    if t.len() == 0 {
        assert(t@.take(0).len() == 0);
        return Err("empty quantity string".to_owned());
    }
    let mut end: usize = 0;
    while end < t.len() && is_number_char_of(t[end])
        invariant
            end <= t.len(),
            forall|i: int| 0 <= i < end ==> is_number_char(#[trigger] t@[i]),
        decreases t.len() - end,
    {
        end += 1;
    }
    proof {
        lemma_number_end(t@, end as int);
    }
    let rest = slice_chars(&t, end, t.len());
    assert(rest@ == t@.skip(end as int));
    let whole = end < t.len() && is_exponent_of(&rest);
    let number = if whole {
        slice_chars(&t, 0, t.len())
    } else {
        slice_chars(&t, 0, end)
    };
    assert(whole ==> number@ == t@);
    assert(!whole ==> number@ == t@.take(end as int));
    let suffix = if whole {
        String::new()
    } else {
        text_of(&rest)
    };
    if number.len() == 0 {
        return Err(concat3("no numeric value in '", text, "'"));
    }
    let n = match parse_number(&number) {
        Ok(n) => n,
        Err(e) => {
            return Err(e);
        },
    };
    let x = match parse_suffix(suffix.as_str()) {
        Ok(x) => x,
        Err(e) => {
            return Err(e);
        },
    };
    let mantissa = match x.1 {
        Some(factor) => match n.0.checked_mul(factor) {
            Some(m) => m,
            None => {
                return Err(concat3("quantity overflow: '", text, "'"));
            },
        },
        None => n.0,
    };
    if n.1 < i32::MIN as i128 || n.1 > i32::MAX as i128 {
        return Err(concat3("quantity overflow: '", text, "'"));
    }
    let scale = n.1 + x.0 as i128;
    if scale < i32::MIN as i128 || scale > i32::MAX as i128 {
        return Err(concat3("quantity overflow: '", text, "'"));
    }
    match KubeQuantity::new(mantissa, scale as i32) {
        Some(q) => Ok(q),
        None => Err(concat3("quantity overflow: '", text, "'")),
    }
}

/// `count` zero digits.
pub open spec fn zeros(count: nat) -> Seq<char> {
    Seq::new(count, |i: int| '0')
}

/// The quantity `mantissa * 10^scale` written out in full, without an exponent: a whole
/// number with its zeros, or a number with a point and all its decimals.
pub open spec fn quantity_text(mantissa: int, scale: int) -> Seq<char> {
    if scale >= 0 {
        int_text(mantissa) + zeros(scale as nat)
    } else {
        let sign = if mantissa < 0 {
            seq!['-']
        } else {
            Seq::<char>::empty()
        };
        let digits = decimal_text(magnitude(mantissa));
        let places = (-scale) as nat;
        if digits.len() <= places {
            sign + seq!['0', '.'] + zeros((places - digits.len()) as nat) + digits
        } else {
            sign + digits.take(digits.len() - places) + seq!['.'] + digits.skip(
                digits.len() - places,
            )
        }
    }
}

fn push_zeros(out: &mut Vec<char>, count: u64)
    ensures
        final(out)@ == old(out)@ + zeros(count as nat),
{
    let ghost start = out@;
    let mut i: u64 = 0;
    assert(start + zeros(0) =~= start);
    while i < count
        invariant
            i <= count,
            out@ == start + zeros(i as nat),
        decreases count - i,
    {
        out.push('0');
        i += 1;
        assert(out@ =~= start + zeros(i as nat));
    }
}

impl KubeQuantity {
    /// The quantity written out in full, without an exponent.
    pub fn to_string(&self) -> (r: String)
        ensures
            r@ == quantity_text(self.mantissa_of(), self.scale_of()),
    {
        if self.scale >= 0 {
            let mut out = int_chars(self.mantissa);
            push_zeros(&mut out, self.scale as u64);
            text_of(&out)
        } else {
            let places: u64 = (-(self.scale as i64)) as u64;
            let size: u128 = if self.mantissa == i128::MIN {
                170141183460469231731687303715884105728u128
            } else if self.mantissa < 0 {
                (-self.mantissa) as u128
            } else {
                self.mantissa as u128
            };
            let mut digits = decimal_chars(size);
            let mut out: Vec<char> = Vec::new();
            if self.mantissa < 0 {
                out.push('-');
            }
            let ghost sign = out@;
            if digits.len() as u64 <= places {
                out.push('0');
                out.push('.');
                push_zeros(&mut out, places - digits.len() as u64);
                let ghost all = digits@;
                out.append(&mut digits);
                assert(out@ =~= sign + seq!['0', '.'] + zeros((places - all.len()) as nat) + all);
            } else {
                let split = digits.len() - places as usize;
                let mut head = slice_chars(&digits, 0, split);
                let mut tail = slice_chars(&digits, split, digits.len());
                out.append(&mut head);
                out.push('.');
                out.append(&mut tail);
                assert(out@ =~= sign + digits@.take(split as int) + seq!['.'] + digits@.skip(
                    split as int,
                ));
            }
            text_of(&out)
        }
    }
}


/// The quantity that `val` holds.
pub fn extract_quantity(val: &CelValue) -> (r: Result<KubeQuantity, FunctionError>)
    ensures
        match r {
            Ok(q) => val@ == CelView::Quantity(q),
            Err(e) => !(val@ is Quantity) && e.says("quantity"@, "expected Quantity type"@),
        },
{
    match val {
        CelValue::Quantity(q) => Ok(*q),
        _ => Err(FunctionError::new("quantity", "expected Quantity type")),
    }
}

/// `quantity(<string>)`: the quantity that the string writes.
pub fn cel_quantity(s: &str) -> (r: Result<CelValue, FunctionError>)
    ensures
        match r {
            Ok(v) => v@ matches CelView::Quantity(q) && quantity_of(trimmed(s@)) matches Some(x)
                && q.is_lowest_terms_of(x.0, x.1),
            Err(e) => e.function@ == "quantity"@ && (quantity_of(trimmed(s@)) matches Some(x)
                ==> x.0 != 0 && x.1 + trailing_zeros(x.0) > i32::MAX),
        },
{
    match parse_quantity(s) {
        Ok(q) => Ok(CelValue::Quantity(q)),
        Err(e) => Err(FunctionError::new("quantity", e.as_str())),
    }
}

/// `isQuantity(<string>)`: whether the string writes a quantity.
pub fn cel_is_quantity(s: &str) -> (r: Result<CelValue, FunctionError>)
    ensures
        r matches Ok(v) && v@ matches CelView::Bool(b) && (b ==> quantity_of(trimmed(s@)) is Some)
            && (!b ==> (quantity_of(trimmed(s@)) matches Some(x) ==> x.0 != 0 && x.1
            + trailing_zeros(x.0) > i32::MAX)),
{
    Ok(CelValue::Bool(parse_quantity(s).is_ok()))
}

/// `<Quantity>.isInteger()`: whether the quantity is a whole number.
pub fn cel_is_integer(this: &CelValue) -> (r: Result<CelValue, FunctionError>)
    ensures
        match r {
            Ok(v) => this@ matches CelView::Quantity(q) && v@ == CelView::Bool(q.is_whole()),
            Err(e) => !(this@ is Quantity),
        },
{
    let q = extract_quantity(this)?;
    Ok(CelValue::Bool(q.is_integer()))
}

/// `<Quantity>.asInteger()`: the quantity as a 64-bit integer.
pub fn cel_as_integer(this: &CelValue) -> (r: Result<CelValue, FunctionError>)
    ensures
        match r {
            Ok(v) => match this@ {
                CelView::Quantity(q) => q.is_whole() && fits_i64(q.whole_value()) && v@
                    == CelView::Int(q.whole_value() as i64),
                _ => false,
            },
            Err(e) => match this@ {
                CelView::Quantity(q) => !q.is_whole() || !fits_i64(q.whole_value()),
                _ => true,
            },
        },
{
    let q = extract_quantity(this)?;
    match q.as_integer() {
        Ok(i) => Ok(CelValue::Int(i)),
        Err(e) => Err(e),
    }
}

/// `<Quantity>.asApproximateFloat()`: the mantissa as a floating-point number, times ten
/// to the power of the scale as one.
pub fn cel_as_approximate_float(this: &CelValue) -> (r: Result<CelValue, FunctionError>)
    ensures
        match r {
            Ok(v) => this@ is Quantity && v@ is Float,
            Err(e) => !(this@ is Quantity),
        },
{
    let q = extract_quantity(this)?;
    let ten = wide_as_float(10);
    Ok(CelValue::Float(float_product(&wide_as_float(q.mantissa), &float_power(&ten, q.scale))))
}

/// `<Quantity>.sign()`: -1, 0 or 1.
pub fn cel_sign(this: &CelValue) -> (r: Result<CelValue, FunctionError>)
    ensures
        match r {
            Ok(v) => this@ matches CelView::Quantity(q) && v@ == CelView::Int(
                if q.mantissa_of() < 0 {
                    -1i64
                } else if q.mantissa_of() == 0 {
                    0i64
                } else {
                    1i64
                },
            ),
            Err(e) => !(this@ is Quantity),
        },
{
    let q = extract_quantity(this)?;
    Ok(CelValue::Int(q.sign()))
}

/// The quantity that `val` holds or, where it holds an integer, that integer as a
/// quantity.
pub fn quantity_or_int(val: &CelValue, func: &str) -> (r: Result<KubeQuantity, FunctionError>)
    ensures
        match r {
            Ok(q) => match val@ {
                CelView::Quantity(held) => q == held,
                CelView::Int(n) => q.is_lowest_terms_of(n as int, 0),
                CelView::UInt(n) => q.is_lowest_terms_of(n as int, 0),
                _ => false,
            },
            Err(e) => e.function@ == func@ && !(val@ is Quantity || val@ is Int || val@ is UInt),
        },
{
    match val {
        CelValue::Quantity(q) => Ok(*q),
        CelValue::Int(n) => match KubeQuantity::new(*n as i128, 0) {
            Some(q) => Ok(q),
            None => Err(FunctionError::new(func, "quantity overflow")),
        },
        CelValue::UInt(n) => match KubeQuantity::new(*n as i128, 0) {
            Some(q) => Ok(q),
            None => Err(FunctionError::new(func, "quantity overflow")),
        },
        _ => {
            if is_opaque(val) {
                return Err(FunctionError::new(func, "expected Quantity or int"));
            }
            let kind = kind_text_of(val);
            let message = crate::text::concat2("expected Quantity or int, got ", kind.as_str());
            Err(FunctionError::new(func, message.as_str()))
        },
    }
}

/// `<Quantity>.add(<Quantity | int>)`: the sum, where 128 bits hold it.
pub fn cel_add(this: &CelValue, args: &Vec<CelValue>) -> (r: Result<CelValue, FunctionError>)
    ensures
        match r {
            Ok(v) => args.len() > 0 && is_sum(this@, args[0]@, v@),
            Err(_) => !(this@ is Quantity) || args.len() == 0 || !is_operand(args[0]@)
                || exists|b: KubeQuantity|
                #[trigger] operand_of(args[0]@, b) && this@->Quantity_0.sum_overflows(b, 1),
        },
{
    let q = extract_quantity(this)?;
    if args.len() == 0 {
        return Err(FunctionError::new("add", "missing argument"));
    }
    let other = quantity_or_int(&args[0], "add")?;
    assert(operand_of(args[0]@, other));
    match q.add(&other) {
        Some(sum) => Ok(CelValue::Quantity(sum)),
        None => Err(FunctionError::new("add", "quantity overflow")),
    }
}

/// Whether `v` can be added to a quantity: a quantity or an integer.
pub open spec fn is_operand(v: CelView) -> bool {
    v is Quantity || v is Int || v is UInt
}

/// Whether `b` is the quantity that the operand `v` stands for: the quantity that `v`
/// holds or the integer that it holds, in lowest terms.
pub open spec fn operand_of(v: CelView, b: KubeQuantity) -> bool {
    match v {
        CelView::Quantity(held) => b == held,
        CelView::Int(n) => b.is_lowest_terms_of(n as int, 0),
        CelView::UInt(n) => b.is_lowest_terms_of(n as int, 0),
        _ => false,
    }
}

/// Whether `result` is the quantity `this` plus what the operand `operand` stands for, in
/// lowest terms.
pub open spec fn is_sum(this: CelView, operand: CelView, result: CelView) -> bool {
    match (this, result) {
        (CelView::Quantity(a), CelView::Quantity(sum)) => exists|b: KubeQuantity|
            #[trigger] operand_of(operand, b) && sum.is_lowest_terms_of(
                a.at_common_scale(b) + b.at_common_scale(a),
                a.common_scale(b),
            ),
        _ => false,
    }
}

/// Whether `result` is the quantity `this` minus what the operand `operand` stands for,
/// in lowest terms.
pub open spec fn is_difference(this: CelView, operand: CelView, result: CelView) -> bool {
    match (this, result) {
        (CelView::Quantity(a), CelView::Quantity(difference)) => exists|b: KubeQuantity|
            #[trigger] operand_of(operand, b) && difference.is_lowest_terms_of(
                a.at_common_scale(b) - b.at_common_scale(a),
                a.common_scale(b),
            ),
        _ => false,
    }
}

/// `<Quantity>.sub(<Quantity | int>)`: the difference, where 128 bits hold it.
pub fn cel_sub(this: &CelValue, args: &Vec<CelValue>) -> (r: Result<CelValue, FunctionError>)
    ensures
        match r {
            Ok(v) => args.len() > 0 && is_difference(this@, args[0]@, v@),
            Err(_) => !(this@ is Quantity) || args.len() == 0 || !is_operand(args[0]@)
                || exists|b: KubeQuantity|
                #[trigger] operand_of(args[0]@, b) && this@->Quantity_0.sum_overflows(b, -1),
        },
{
    let q = extract_quantity(this)?;
    if args.len() == 0 {
        return Err(FunctionError::new("sub", "missing argument"));
    }
    let other = quantity_or_int(&args[0], "sub")?;
    assert(operand_of(args[0]@, other));
    match q.sub(&other) {
        Some(difference) => Ok(CelValue::Quantity(difference)),
        None => Err(FunctionError::new("sub", "quantity overflow")),
    }
}

/// `<Quantity>.isGreaterThan(<Quantity>)`.
pub fn cel_is_greater_than(this: &CelValue, other: &CelValue) -> (r: Result<
    CelValue,
    FunctionError,
>)
    ensures
        match r {
            Ok(v) => this@ matches CelView::Quantity(a) && other@ matches CelView::Quantity(b)
                && v@ == CelView::Bool(a.order(b) > 0),
            Err(e) => !(this@ is Quantity) || !(other@ is Quantity),
        },
{
    let a = extract_quantity(this)?;
    let b = extract_quantity(other)?;
    Ok(CelValue::Bool(a.compare(&b) > 0))
}

/// `<Quantity>.isLessThan(<Quantity>)`.
pub fn cel_is_less_than(this: &CelValue, other: &CelValue) -> (r: Result<CelValue, FunctionError>)
    ensures
        match r {
            Ok(v) => this@ matches CelView::Quantity(a) && other@ matches CelView::Quantity(b)
                && v@ == CelView::Bool(a.order(b) < 0),
            Err(e) => !(this@ is Quantity) || !(other@ is Quantity),
        },
{
    let a = extract_quantity(this)?;
    let b = extract_quantity(other)?;
    Ok(CelValue::Bool(a.compare(&b) < 0))
}

/// `<Quantity>.compareTo(<Quantity>)`: -1, 0 or 1.
pub fn cel_compare_to(this: &CelValue, other: &CelValue) -> (r: Result<CelValue, FunctionError>)
    ensures
        match r {
            Ok(v) => this@ matches CelView::Quantity(a) && other@ matches CelView::Quantity(b)
                && v@ matches CelView::Int(i) && i == a.order(b),
            Err(e) => !(this@ is Quantity) || !(other@ is Quantity),
        },
{
    let a = extract_quantity(this)?;
    let b = extract_quantity(other)?;
    Ok(CelValue::Int(a.compare(&b)))
}

/// The names of the functions of quantities that no other kind of value shares.
pub open spec fn names() -> Set<Seq<char>> {
    set![
        "quantity"@,
        "isQuantity"@,
        "isInteger"@,
        "asInteger"@,
        "asApproximateFloat"@,
        "sign"@,
    ]
}

/// Adds the functions of quantities that no other kind of value shares: `quantity`,
/// `isQuantity`, `isInteger`, `asInteger`, `asApproximateFloat` and `sign`.
pub fn register(ctx: &mut cel::Context<'_>)
    ensures
        crate::engine::functions_added(*old(ctx), *final(ctx), names()),
{
    add_text_function(ctx, "quantity", cel_quantity);
    add_text_function(ctx, "isQuantity", cel_is_quantity);
    add_value_method(ctx, "isInteger", cel_is_integer);
    add_value_method(ctx, "asInteger", cel_as_integer);
    add_value_method(ctx, "asApproximateFloat", cel_as_approximate_float);
    add_value_method(ctx, "sign", cel_sign);
    assert(crate::engine::is_root(*old(ctx)) ==> crate::engine::function_names(*ctx)
        =~= crate::engine::function_names(*old(ctx)).union(names()));
}

} // verus!
