//! Fixed-point money arithmetic over `rust_decimal`.
//!
//! An [`Amount`] holds a decimal as plain values, `mantissa * 10^-scale`, with no trailing
//! zeros. Contracts speak of its value as an integer count of `10^-28`, the finest step that
//! the decimal type has. The arithmetic itself is `rust_decimal`'s, called through the private
//! functions at the head of this file.

use vstd::prelude::*;

use crate::text::{digits, fixed_digits};

verus! {

/// The largest scale: the number of decimal places that a decimal can hold.
pub const MAX_SCALE: u32 = 28;

/// The largest mantissa: 2^96 - 1.
pub const MAX_MANTISSA: i128 = 79228162514264337593543950335;

/// One whole unit (one dollar, one share), in steps of `10^-28`.
pub const UNIT: i128 = 10000000000000000000000000000;

/// A number of whole units of which dozens still add up within the largest decimal.
pub const SAFE_UNITS: i128 = 1000000000000000000000000000;

/// The largest magnitude that a decimal can hold, in steps of `10^-28`.
pub open spec fn max_value() -> int {
    MAX_MANTISSA * UNIT
}

/// `10^n`.
pub open spec fn pow10(n: nat) -> int
    decreases n,
{
    if n == 0 {
        1
    } else {
        10 * pow10((n - 1) as nat)
    }
}

/// Whether a mantissa and a scale are within the decimal type's limits.
pub open spec fn in_limits(m: int, s: int) -> bool {
    -MAX_MANTISSA <= m <= MAX_MANTISSA && 0 <= s <= MAX_SCALE
}

/// The value of `m * 10^-s` in steps of `10^-28`.
pub open spec fn steps(m: int, s: int) -> int {
    m * pow10((MAX_SCALE - s) as nat)
}

/// The larger of two integers.
pub open spec fn max_int(a: int, b: int) -> int {
    if a >= b {
        a
    } else {
        b
    }
}

/// The smaller of two integers.
pub open spec fn min_int(a: int, b: int) -> int {
    if a <= b {
        a
    } else {
        b
    }
}

/// The magnitude of an integer.
pub open spec fn abs_int(a: int) -> int {
    if a < 0 {
        -a
    } else {
        a
    }
}

/// Whether a number of steps is the value of some decimal.
#[verifier::opaque]
pub open spec fn is_decimal(v: int) -> bool {
    exists|m: int, s: int| #![trigger steps(m, s)] in_limits(m, s) && steps(m, s) == v
}

/// Whether a value is off another one by no more than ten parts of it in the largest mantissa.
#[verifier::opaque]
pub open spec fn is_near(r: int, v: int) -> bool {
    abs_int(r - v) * MAX_MANTISSA <= 10 * abs_int(v)
}

/// Whether a value is another one rounded: it is off by less than one unit and by little of the
/// other, and not at all where the other is a decimal.
pub open spec fn is_rounded(r: int, v: int) -> bool {
    &&& abs_int(r - v) < UNIT
    &&& is_near(r, v)
    &&& is_decimal(v) ==> r == v
}

/// Mantissa and scale with the trailing zeros taken off.
pub open spec fn stripped(m: int, s: nat) -> (int, nat)
    decreases s,
{
    if s > 0 && m % 10 == 0 {
        stripped(m / 10, (s - 1) as nat)
    } else {
        (m, s)
    }
}

/// What `Decimal::checked_add` returns, as mantissa and scale.
pub uninterp spec fn decimal_sum(m1: int, s1: int, m2: int, s2: int) -> Option<(int, int)>;

/// What `Decimal::checked_sub` returns, as mantissa and scale.
pub uninterp spec fn decimal_difference(m1: int, s1: int, m2: int, s2: int) -> Option<(int, int)>;

/// What `Decimal::checked_mul` returns, as mantissa and scale.
pub uninterp spec fn decimal_product(m1: int, s1: int, m2: int, s2: int) -> Option<(int, int)>;

/// What `Decimal::checked_div` returns, as mantissa and scale.
pub uninterp spec fn decimal_quotient(m1: int, s1: int, m2: int, s2: int) -> Option<(int, int)>;

/// What parsing a text as a `Decimal` gives, as mantissa and scale, or `None` where it fails.
pub uninterp spec fn decimal_parsed(text: Seq<char>) -> Option<(int, int)>;

/// A decimal as text: a minus sign where it is negative, the whole part, and where the scale is
/// not zero a point and `s` digits.
pub open spec fn decimal_text(m: int, s: int) -> Seq<char> {
    let n = abs_int(m) as nat;
    let sign: Seq<char> = if m < 0 {
        seq!['-']
    } else {
        seq![]
    };
    let fraction: Seq<char> = if s > 0 {
        seq!['.'] + fixed_digits(n, s as nat)
    } else {
        seq![]
    };
    sign + digits(n / pow10(s as nat) as nat) + fraction
}

/// The pair of a mantissa and a scale as mathematical integers.
pub open spec fn as_ints(r: Option<(i128, u32)>) -> Option<(int, int)> {
    match r {
        Some((m, s)) => Some((m as int, s as int)),
        None => None,
    }
}

/// Calls `Decimal::checked_add`. The claims: the result depends on the two operands alone; it
/// exists when the exact sum is within the largest decimal; it is exact when the exact sum is
/// itself a decimal; and rounding, which gives up no more decimal places than it must, moves it
/// by less than one unit and by less than ten parts in the largest mantissa.
#[verifier::external_body]
fn decimal_checked_add(m1: i128, s1: u32, m2: i128, s2: u32) -> (r: Option<(i128, u32)>)
    requires
        in_limits(m1 as int, s1 as int),
        in_limits(m2 as int, s2 as int),
    ensures
        as_ints(r) == decimal_sum(m1 as int, s1 as int, m2 as int, s2 as int),
        abs_int(steps(m1 as int, s1 as int) + steps(m2 as int, s2 as int)) <= max_value() ==> r is Some,
        r matches Some(p) ==> in_limits(p.0 as int, p.1 as int) && is_rounded(
            steps(p.0 as int, p.1 as int),
            steps(m1 as int, s1 as int) + steps(m2 as int, s2 as int),
        ),
{
    let a = rust_decimal::Decimal::from_i128_with_scale(m1, s1);
    let b = rust_decimal::Decimal::from_i128_with_scale(m2, s2);
    a.checked_add(b).map(|d| (d.mantissa(), d.scale()))
}

/// Calls `Decimal::checked_sub`, with the claims of [`decimal_checked_add`] for the difference.
#[verifier::external_body]
fn decimal_checked_sub(m1: i128, s1: u32, m2: i128, s2: u32) -> (r: Option<(i128, u32)>)
    requires
        in_limits(m1 as int, s1 as int),
        in_limits(m2 as int, s2 as int),
    ensures
        as_ints(r) == decimal_difference(m1 as int, s1 as int, m2 as int, s2 as int),
        abs_int(steps(m1 as int, s1 as int) - steps(m2 as int, s2 as int)) <= max_value() ==> r is Some,
        r matches Some(p) ==> in_limits(p.0 as int, p.1 as int) && is_rounded(
            steps(p.0 as int, p.1 as int),
            steps(m1 as int, s1 as int) - steps(m2 as int, s2 as int),
        ),
{
    let a = rust_decimal::Decimal::from_i128_with_scale(m1, s1);
    let b = rust_decimal::Decimal::from_i128_with_scale(m2, s2);
    a.checked_sub(b).map(|d| (d.mantissa(), d.scale()))
}

/// Calls `Decimal::checked_mul`. The claims: the result depends on the two operands alone; it
/// exists when the exact product is within the largest decimal; it is zero with no decimal places
/// where an operand is zero; otherwise, where the scales add up to at most 28 and the product of
/// the mantissas needs no more than 96 bits, it has that product and that scale, trailing zeros
/// and all; and rounding moves it by less than one unit.
#[verifier::external_body]
fn decimal_checked_mul(m1: i128, s1: u32, m2: i128, s2: u32) -> (r: Option<(i128, u32)>)
    requires
        in_limits(m1 as int, s1 as int),
        in_limits(m2 as int, s2 as int),
    ensures
        as_ints(r) == decimal_product(m1 as int, s1 as int, m2 as int, s2 as int),
        abs_int(steps(m1 as int, s1 as int) * steps(m2 as int, s2 as int)) <= max_value() * UNIT
            ==> r is Some,
        r matches Some(p) ==> in_limits(p.0 as int, p.1 as int) && abs_int(
            steps(p.0 as int, p.1 as int) * UNIT - steps(m1 as int, s1 as int) * steps(
                m2 as int,
                s2 as int,
            ),
        ) < UNIT * UNIT,
        r matches Some(p) ==> m1 == 0 || m2 == 0 ==> p.0 == 0 && p.1 == 0,
        r matches Some(p) ==> m1 != 0 && m2 != 0 && s1 + s2 <= MAX_SCALE && abs_int(m1 * m2)
            <= MAX_MANTISSA ==> p.0 == m1 * m2 && p.1 == s1 + s2,
{
    let a = rust_decimal::Decimal::from_i128_with_scale(m1, s1);
    let b = rust_decimal::Decimal::from_i128_with_scale(m2, s2);
    a.checked_mul(b).map(|d| (d.mantissa(), d.scale()))
}

/// Calls `Decimal::checked_div`. The claims: the result depends on the two operands alone; there
/// is none for a zero divisor, and there is one where the exact quotient is at most 10^27; it is
/// exact when the exact quotient is itself a decimal; and rounding moves it by less than one unit.
#[verifier::external_body]
fn decimal_checked_div(m1: i128, s1: u32, m2: i128, s2: u32) -> (r: Option<(i128, u32)>)
    requires
        in_limits(m1 as int, s1 as int),
        in_limits(m2 as int, s2 as int),
    ensures
        as_ints(r) == decimal_quotient(m1 as int, s1 as int, m2 as int, s2 as int),
        m2 == 0 ==> r is None,
        m2 != 0 && abs_int(steps(m1 as int, s1 as int)) <= SAFE_UNITS * abs_int(
            steps(m2 as int, s2 as int),
        ) ==> r is Some,
        r matches Some(p) ==> in_limits(p.0 as int, p.1 as int) && abs_int(
            steps(p.0 as int, p.1 as int) * steps(m2 as int, s2 as int) - steps(m1 as int, s1 as int)
                * UNIT,
        ) < UNIT * abs_int(steps(m2 as int, s2 as int)),
        r matches Some(p) ==> forall|v: int| #[trigger]
            is_decimal(v) && v * steps(m2 as int, s2 as int) == steps(m1 as int, s1 as int) * UNIT
                ==> steps(p.0 as int, p.1 as int) == v,
{
    let a = rust_decimal::Decimal::from_i128_with_scale(m1, s1);
    let b = rust_decimal::Decimal::from_i128_with_scale(m2, s2);
    a.checked_div(b).map(|d| (d.mantissa(), d.scale()))
}

/// Calls `<` of `Decimal`, which orders decimals by value whatever their scales.
#[verifier::external_body]
fn decimal_less(m1: i128, s1: u32, m2: i128, s2: u32) -> (r: bool)
    requires
        in_limits(m1 as int, s1 as int),
        in_limits(m2 as int, s2 as int),
    ensures
        r == (steps(m1 as int, s1 as int) < steps(m2 as int, s2 as int)),
{
    let a = rust_decimal::Decimal::from_i128_with_scale(m1, s1);
    let b = rust_decimal::Decimal::from_i128_with_scale(m2, s2);
    a < b
}

/// Calls `Decimal`'s `FromStr`. The claims: whether the text is a number, and which, depends on
/// the text alone; and a text that `Display` writes is read back as the same mantissa and scale.
#[verifier::external_body]
fn decimal_from_str(text: &str) -> (r: Option<(i128, u32)>)
    ensures
        as_ints(r) == decimal_parsed(text@),
        r matches Some(p) ==> in_limits(p.0 as int, p.1 as int),
        forall|m: int, s: int|
            #![trigger decimal_text(m, s)]
            in_limits(m, s) && text@ == decimal_text(m, s) ==> as_ints(r) == Some((m, s)),
{
    text.parse::<rust_decimal::Decimal>().ok().map(|d| (d.mantissa(), d.scale()))
}

/// Calls `Decimal`'s `Display`, which writes the digits of the mantissa with the point before
/// the last `s` of them.
#[verifier::external_body]
fn decimal_to_string(m: i128, s: u32) -> (r: String)
    requires
        in_limits(m as int, s as int),
    ensures
        r@ == decimal_text(m as int, s as int),
{
    rust_decimal::Decimal::from_i128_with_scale(m, s).to_string()
}

/// A decimal number without trailing zeros.
#[derive(Clone, Copy, PartialEq, Eq, Structural, Debug)]
pub struct Amount {
    mantissa: i128,
    scale: u32,
}

/// `10^n` is positive.
pub proof fn lemma_pow10_positive(n: nat)
    ensures
        pow10(n) >= 1,
    decreases n,
{
    if n > 0 {
        lemma_pow10_positive((n - 1) as nat);
    }
}

/// Powers of ten multiply by adding exponents.
pub proof fn lemma_pow10_adds(a: nat, b: nat)
    ensures
        pow10(a + b) == pow10(a) * pow10(b),
    decreases a,
{
    if a > 0 {
        lemma_pow10_adds((a - 1) as nat, b);
        assert(pow10(a + b) == 10 * pow10((a - 1) as nat + b));
        assert(10 * (pow10((a - 1) as nat) * pow10(b)) == (10 * pow10((a - 1) as nat)) * pow10(b))
            by (nonlinear_arith);
    } else {
        assert(pow10(0) * pow10(b) == pow10(b)) by (nonlinear_arith)
            requires
                pow10(0) == 1,
        ;
    }
}

/// A number with at most `places` decimal places that fits in a mantissa is a decimal: adding
/// such numbers up needs no rounding.
pub proof fn law_few_places_need_no_rounding(v: int, places: nat)
    requires
        places <= MAX_SCALE,
        v % pow10((MAX_SCALE - places) as nat) == 0,
        abs_int(v) <= MAX_MANTISSA * pow10((MAX_SCALE - places) as nat),
    ensures
        is_decimal(v),
{
    reveal(is_decimal);
    let k = pow10((MAX_SCALE - places) as nat);
    lemma_pow10_positive((MAX_SCALE - places) as nat);
    let m = v / k;
    assert(v == m * k) by (nonlinear_arith)
        requires
            v % k == 0,
            m == v / k,
            k >= 1,
    ;
    assert(-MAX_MANTISSA <= m <= MAX_MANTISSA) by (nonlinear_arith)
        requires
            v == m * k,
            -(MAX_MANTISSA * k) <= v <= MAX_MANTISSA * k,
            k >= 1,
    ;
    assert(steps(m, places as int) == v);
}

/// `10^28` is one unit.
pub proof fn lemma_pow10_unit()
    ensures
        pow10(28) == UNIT,
{
    reveal_with_fuel(pow10, 29);
}

/// A decimal is within the largest one.
pub proof fn lemma_decimal_limits(v: int)
    requires
        is_decimal(v),
    ensures
        abs_int(v) <= max_value(),
{
    reveal(is_decimal);
    let (m, s) = choose|m: int, s: int| #![trigger steps(m, s)] in_limits(m, s) && steps(m, s) == v;
    lemma_limits_of(m, s);
}

/// A mantissa and a scale within the limits stand for a value within the largest decimal.
proof fn lemma_limits_of(m: int, s: int)
    requires
        in_limits(m, s),
    ensures
        abs_int(steps(m, s)) <= max_value(),
{
    lemma_pow10_unit();
    lemma_pow10_positive((MAX_SCALE - s) as nat);
    lemma_pow10_positive(s as nat);
    lemma_pow10_adds(s as nat, (MAX_SCALE - s) as nat);
    let k = pow10((MAX_SCALE - s) as nat);
    let l = pow10(s as nat);
    assert(k <= UNIT) by (nonlinear_arith)
        requires
            l * k == UNIT,
            l >= 1,
            k >= 1,
    ;
    assert(abs_int(m * k) <= MAX_MANTISSA * UNIT) by (nonlinear_arith)
        requires
            1 <= k <= UNIT,
            -MAX_MANTISSA <= m <= MAX_MANTISSA,
    ;
}

/// Taking one trailing zero off keeps the value.
proof fn lemma_strip_one(m: int, s: nat)
    requires
        0 < s <= MAX_SCALE,
        m % 10 == 0,
    ensures
        steps(m / 10, s - 1) == steps(m, s as int),
{
    let k = (MAX_SCALE - s) as nat;
    assert(pow10((MAX_SCALE - (s - 1)) as nat) == 10 * pow10(k));
    assert((m / 10) * (10 * pow10(k)) == (10 * (m / 10)) * pow10(k)) by (nonlinear_arith);
}

/// Taking the trailing zeros off keeps the value and the limits, and leaves none.
pub proof fn lemma_stripped(m: int, s: nat)
    requires
        in_limits(m, s as int),
    ensures
        ({
            let (m2, s2) = stripped(m, s);
            &&& in_limits(m2, s2 as int)
            &&& steps(m2, s2 as int) == steps(m, s as int)
            &&& s2 > 0 ==> m2 % 10 != 0
            &&& s2 <= s
        }),
    decreases s,
{
    if s > 0 && m % 10 == 0 {
        lemma_strip_one(m, s);
        lemma_stripped(m / 10, (s - 1) as nat);
    }
}

/// Two decimals without trailing zeros and of one value are written alike.
pub proof fn lemma_stripped_unique(m1: int, s1: int, m2: int, s2: int)
    requires
        in_limits(m1, s1),
        in_limits(m2, s2),
        s1 > 0 ==> m1 % 10 != 0,
        s2 > 0 ==> m2 % 10 != 0,
        steps(m1, s1) == steps(m2, s2),
    ensures
        m1 == m2,
        s1 == s2,
{
    if s1 == s2 {
        let k = pow10((MAX_SCALE - s1) as nat);
        lemma_pow10_positive((MAX_SCALE - s1) as nat);
        assert(m1 == m2) by (nonlinear_arith)
            requires
                m1 * k == m2 * k,
                k >= 1,
        ;
    } else if s1 < s2 {
        lemma_stripped_distinct(m1, s1, m2, s2);
    } else {
        lemma_stripped_distinct(m2, s2, m1, s1);
    }
}

proof fn lemma_stripped_distinct(m1: int, s1: int, m2: int, s2: int)
    requires
        0 <= s1 < s2 <= MAX_SCALE,
        m2 % 10 != 0,
    ensures
        steps(m1, s1) != steps(m2, s2),
{
    let low = (MAX_SCALE - s2) as nat;
    let gap = (s2 - s1 - 1) as nat;
    let k = pow10(low);
    let g = pow10(gap);
    lemma_pow10_adds(gap + 1, low);
    lemma_pow10_positive(low);
    assert(pow10((MAX_SCALE - s1) as nat) == 10 * g * k);
    if steps(m1, s1) == steps(m2, s2) {
        assert(m2 == 10 * (m1 * g)) by (nonlinear_arith)
            requires
                m1 * (10 * g * k) == m2 * k,
                k >= 1,
        ;
        assert((10 * (m1 * g)) % 10 == 0) by (nonlinear_arith);
    }
}

impl Amount {
    #[verifier::type_invariant]
    pub closed spec fn wf(self) -> bool {
        &&& in_limits(self.mantissa as int, self.scale as int)
        &&& self.scale > 0 ==> self.mantissa as int % 10 != 0
    }

    /// The mantissa.
    pub closed spec fn m(self) -> int {
        self.mantissa as int
    }

    /// The number of decimal places.
    pub closed spec fn s(self) -> int {
        self.scale as int
    }

    /// The value in steps of `10^-28`.
    pub closed spec fn value(self) -> int {
        steps(self.m(), self.s())
    }

    /// The magnitude of the value, in steps of `10^-28`.
    pub closed spec fn size(self) -> int {
        abs_int(self.value())
    }

    /// The size is the magnitude of the value.
    pub proof fn lemma_size(self)
        ensures
            self.size() == abs_int(self.value()),
            self.size() >= 0,
    {
    }

    /// The amount that a mantissa and a scale stand for.
    pub closed spec fn of_parts(p: (int, int)) -> Amount {
        let (m, s) = stripped(p.0, p.1 as nat);
        Amount { mantissa: m as i128, scale: s as u32 }
    }

    /// The decimal sum of two amounts.
    pub open spec fn sum_of(a: Amount, b: Amount) -> Amount {
        Amount::of_parts(decimal_sum(a.m(), a.s(), b.m(), b.s())->0)
    }

    /// The decimal difference of two amounts.
    pub open spec fn difference_of(a: Amount, b: Amount) -> Amount {
        Amount::of_parts(decimal_difference(a.m(), a.s(), b.m(), b.s())->0)
    }

    /// The decimal product of two amounts.
    pub open spec fn product_of(a: Amount, b: Amount) -> Amount {
        Amount::of_parts(decimal_product(a.m(), a.s(), b.m(), b.s())->0)
    }

    /// The decimal quotient of two amounts, where there is one.
    pub open spec fn quotient_of(a: Amount, b: Amount) -> Option<Amount> {
        match decimal_quotient(a.m(), a.s(), b.m(), b.s()) {
            Some(p) => Some(Amount::of_parts(p)),
            None => None,
        }
    }

    /// Whether two amounts have a sum: whether it is within the decimal type.
    pub open spec fn has_sum(a: Amount, b: Amount) -> bool {
        decimal_sum(a.m(), a.s(), b.m(), b.s()) is Some
    }

    /// Whether two amounts have a difference.
    pub open spec fn has_difference(a: Amount, b: Amount) -> bool {
        decimal_difference(a.m(), a.s(), b.m(), b.s()) is Some
    }

    /// Whether two amounts have a product.
    pub open spec fn has_product(a: Amount, b: Amount) -> bool {
        decimal_product(a.m(), a.s(), b.m(), b.s()) is Some
    }

    /// Whether the magnitude is at most a number of whole units.
    pub open spec fn within(self, units: int) -> bool {
        abs_int(self.value()) <= units * UNIT
    }

    /// The value in mantissa and scale.
    pub proof fn lemma_value(self)
        ensures
            self.value() == steps(self.m(), self.s()),
    {
    }

    /// The value of a valid amount is that of a decimal.
    pub proof fn lemma_is_decimal(self)
        requires
            self.wf(),
        ensures
            is_decimal(self.value()),
    {
        reveal(is_decimal);
        assert(in_limits(self.m(), self.s()) && steps(self.m(), self.s()) == self.value());
    }

    /// Whether the sum of two amounts needs no rounding.
    pub open spec fn exact_sum(a: Amount, b: Amount) -> bool {
        is_decimal(a.value() + b.value())
    }

    /// Whether the difference of two amounts needs no rounding.
    pub open spec fn exact_difference(a: Amount, b: Amount) -> bool {
        is_decimal(a.value() - b.value())
    }

    /// An amount is within the decimal type's limits, and zero only as `0`.
    pub proof fn lemma_limits(self)
        requires
            self.wf(),
        ensures
            in_limits(self.m(), self.s()),
            abs_int(self.value()) <= max_value(),
            self.s() > 0 ==> self.m() % 10 != 0,
    {
        lemma_limits_of(self.m(), self.s());
    }

    /// Two valid amounts of one value are equal.
    pub proof fn lemma_value_unique(a: Amount, b: Amount)
        requires
            a.wf(),
            b.wf(),
            a.value() == b.value(),
        ensures
            a == b,
    {
        lemma_stripped_unique(a.m(), a.s(), b.m(), b.s());
    }

    /// What [`Amount::of_parts`] gives is valid and keeps the value.
    pub proof fn lemma_of_parts(p: (int, int))
        requires
            in_limits(p.0, p.1),
        ensures
            Amount::of_parts(p).wf(),
            Amount::of_parts(p).value() == steps(p.0, p.1),
            Amount::of_parts(p).s() <= p.1,
    {
        lemma_stripped(p.0, p.1 as nat);
    }

    /// The amount `m * 10^-s`.
    pub fn new(m: i128, s: u32) -> (r: Amount)
        requires
            in_limits(m as int, s as int),
        ensures
            r == Amount::of_parts((m as int, s as int)),
            r.wf(),
            r.value() == steps(m as int, s as int),
            r.s() <= s,
    {
        proof {
            Amount::lemma_of_parts((m as int, s as int));
        }
        let negative = m < 0;
        let mut a: u128 = if negative {
            (-m) as u128
        } else {
            m as u128
        };
        let mut t: u32 = s;
        while t > 0 && a % 10 == 0
            invariant
                t <= s,
                a <= MAX_MANTISSA,
                stripped(m as int, s as nat) == stripped(
                    if negative {
                        -(a as int)
                    } else {
                        a as int
                    },
                    t as nat,
                ),
            decreases t,
        {
            assert((-(a as int)) % 10 == 0 && (-(a as int)) / 10 == -(a as int / 10)) by (nonlinear_arith)
                requires
                    a as int % 10 == 0,
            ;
            a = a / 10;
            t = t - 1;
        }
        assert(((-(a as int)) % 10 == 0) == (a as int % 10 == 0)) by (nonlinear_arith);
        let mantissa: i128 = if negative {
            -(a as i128)
        } else {
            a as i128
        };
        assert(stripped(mantissa as int, t as nat) == (mantissa as int, t as nat));
        Amount { mantissa, scale: t }
    }

    /// Zero.
    pub open spec fn zero_spec() -> Amount {
        Amount::of_parts((0, 0))
    }

    /// Zero is worth nothing.
    pub proof fn lemma_zero_value()
        ensures
            Amount::zero_spec().value() == 0,
    {
        Amount::lemma_of_parts((0, 0));
        assert(steps(0, 0) == 0);
    }

    /// Zero.
    pub fn zero() -> (r: Amount)
        ensures
            r == Amount::zero_spec(),
            r.wf(),
            r.value() == 0,
    {
        let r = Amount { mantissa: 0, scale: 0 };
        assert(0 * pow10(28) == 0);
        r
    }

    /// A whole number of units.
    pub fn from_i64(n: i64) -> (r: Amount)
        ensures
            r == Amount::of_parts((n as int, 0)),
            r.wf(),
            r.value() == n * UNIT,
    {
        proof {
            lemma_pow10_unit();
        }
        Amount::new(n as i128, 0)
    }

    /// A whole number of units.
    pub fn from_u64(n: u64) -> (r: Amount)
        ensures
            r == Amount::of_parts((n as int, 0)),
            r.wf(),
            r.value() == n * UNIT,
    {
        proof {
            lemma_pow10_unit();
        }
        Amount::new(n as i128, 0)
    }

    /// The sum, rounded where it does not fit in 96 bits; `None` where it is beyond the largest
    /// decimal.
    pub fn checked_plus(&self, other: &Amount) -> (r: Option<Amount>)
        ensures
            r is Some <==> Amount::has_sum(*self, *other),
            r matches Some(x) ==> x == Amount::sum_of(*self, *other) && x.wf() && is_rounded(
                x.value(),
                self.value() + other.value(),
            ),
            abs_int(self.value() + other.value()) <= max_value() ==> r is Some,
    {
        proof {
            use_type_invariant(self);
            use_type_invariant(other);
        }
        match decimal_checked_add(self.mantissa, self.scale, other.mantissa, other.scale) {
            Some((m, s)) => Some(Amount::new(m, s)),
            None => None,
        }
    }

    /// The sum, rounded where it does not fit in 96 bits.
    pub fn plus(&self, other: &Amount) -> (r: Amount)
        requires
            abs_int(self.value() + other.value()) <= max_value(),
        ensures
            r == Amount::sum_of(*self, *other),
            r.wf(),
            is_rounded(r.value(), self.value() + other.value()),
    {
        self.checked_plus(other).unwrap()
    }

    /// The difference, rounded where it does not fit in 96 bits; `None` where it is beyond the
    /// largest decimal.
    pub fn checked_minus(&self, other: &Amount) -> (r: Option<Amount>)
        ensures
            r is Some <==> Amount::has_difference(*self, *other),
            r matches Some(x) ==> x == Amount::difference_of(*self, *other) && x.wf() && is_rounded(
                x.value(),
                self.value() - other.value(),
            ),
            abs_int(self.value() - other.value()) <= max_value() ==> r is Some,
    {
        proof {
            use_type_invariant(self);
            use_type_invariant(other);
        }
        match decimal_checked_sub(self.mantissa, self.scale, other.mantissa, other.scale) {
            Some((m, s)) => Some(Amount::new(m, s)),
            None => None,
        }
    }

    /// The difference, rounded where it does not fit in 96 bits.
    pub fn minus(&self, other: &Amount) -> (r: Amount)
        requires
            abs_int(self.value() - other.value()) <= max_value(),
        ensures
            r == Amount::difference_of(*self, *other),
            r.wf(),
            is_rounded(r.value(), self.value() - other.value()),
    {
        self.checked_minus(other).unwrap()
    }

    /// The product, rounded to 28 decimal places and 96 bits; `None` where it is beyond the largest
    /// decimal.
    pub fn checked_times(&self, other: &Amount) -> (r: Option<Amount>)
        ensures
            r is Some <==> Amount::has_product(*self, *other),
            r matches Some(x) ==> x == Amount::product_of(*self, *other) && x.wf() && abs_int(
                x.value() * UNIT - self.value() * other.value(),
            ) < UNIT * UNIT,
            r matches Some(x) ==> self.s() + other.s() <= MAX_SCALE && abs_int(
                self.m() * other.m(),
            ) <= MAX_MANTISSA ==> x.value() == steps(self.m() * other.m(), self.s() + other.s()),
            r matches Some(x) ==> self.value() == 0 || other.value() == 0 ==> x.value() == 0,
            abs_int(self.value() * other.value()) <= max_value() * UNIT ==> r is Some,
    {
        proof {
            use_type_invariant(self);
            use_type_invariant(other);
            self.lemma_zero();
            other.lemma_zero();
            let (m1, m2) = (self.m(), other.m());
            if m1 == 0 || m2 == 0 {
                assert(m1 * m2 == 0) by (nonlinear_arith)
                    requires
                        m1 == 0 || m2 == 0,
                ;
                assert(steps(0, 0) == 0);
                assert(steps(0, self.s() + other.s()) == 0);
            }
        }
        match decimal_checked_mul(self.mantissa, self.scale, other.mantissa, other.scale) {
            Some((m, s)) => Some(Amount::new(m, s)),
            None => None,
        }
    }

    /// The product, rounded to 28 decimal places and 96 bits.
    pub fn times(&self, other: &Amount) -> (r: Amount)
        requires
            abs_int(self.value() * other.value()) <= max_value() * UNIT,
        ensures
            r == Amount::product_of(*self, *other),
            r.wf(),
            abs_int(r.value() * UNIT - self.value() * other.value()) < UNIT * UNIT,
            self.s() + other.s() <= MAX_SCALE && abs_int(self.m() * other.m()) <= MAX_MANTISSA
                ==> r.value() == steps(self.m() * other.m(), self.s() + other.s()),
    {
        self.checked_times(other).unwrap()
    }

    /// The product with the decimal places that it came with.
    pub fn times_unstripped(&self, other: &Amount) -> (r: Figure)
        requires
            abs_int(self.value() * other.value()) <= max_value() * UNIT,
        ensures
            r == Figure::product_of(*self, *other),
            self.m() != 0 && other.m() != 0 && self.s() + other.s() <= MAX_SCALE && abs_int(
                self.m() * other.m(),
            ) <= MAX_MANTISSA ==> r@ == (self.m() * other.m(), self.s() + other.s()),
    {
        proof {
            use_type_invariant(self);
            use_type_invariant(other);
        }
        let (mantissa, scale) = decimal_checked_mul(
            self.mantissa,
            self.scale,
            other.mantissa,
            other.scale,
        ).unwrap();
        Figure { mantissa, scale }
    }

    /// The sum with the decimal places that it came with.
    pub fn plus_unstripped(&self, other: &Amount) -> (r: Figure)
        requires
            abs_int(self.value() + other.value()) <= max_value(),
        ensures
            r == Figure::sum_of(*self, *other),
            is_rounded(r.value(), self.value() + other.value()),
    {
        proof {
            use_type_invariant(self);
            use_type_invariant(other);
        }
        let (mantissa, scale) = decimal_checked_add(
            self.mantissa,
            self.scale,
            other.mantissa,
            other.scale,
        ).unwrap();
        Figure { mantissa, scale }
    }

    /// The difference with the decimal places that it came with.
    pub fn minus_unstripped(&self, other: &Amount) -> (r: Figure)
        requires
            abs_int(self.value() - other.value()) <= max_value(),
        ensures
            r == Figure::difference_of(*self, *other),
            is_rounded(r.value(), self.value() - other.value()),
    {
        proof {
            use_type_invariant(self);
            use_type_invariant(other);
        }
        let (mantissa, scale) = decimal_checked_sub(
            self.mantissa,
            self.scale,
            other.mantissa,
            other.scale,
        ).unwrap();
        Figure { mantissa, scale }
    }

    /// The quotient, or `None` where the divisor is zero or the quotient too large.
    pub fn divided_by(&self, other: &Amount) -> (r: Option<Amount>)
        ensures
            r == Amount::quotient_of(*self, *other),
            other.value() == 0 ==> r is None,
            other.value() != 0 && abs_int(self.value()) <= SAFE_UNITS * abs_int(other.value())
                ==> r is Some,
            r matches Some(q) ==> q.wf() && abs_int(
                q.value() * other.value() - self.value() * UNIT,
            ) < UNIT * abs_int(other.value()),
            r matches Some(q) ==> forall|v: int| #[trigger]
                is_decimal(v) && v * other.value() == self.value() * UNIT ==> q.value() == v,
    {
        proof {
            use_type_invariant(self);
            use_type_invariant(other);
            other.lemma_zero();
        }
        match decimal_checked_div(self.mantissa, self.scale, other.mantissa, other.scale) {
            Some((m, s)) => Some(Amount::new(m, s)),
            None => None,
        }
    }

    /// An amount is zero exactly where its mantissa is.
    pub proof fn lemma_zero(self)
        requires
            self.wf(),
        ensures
            self.value() == 0 <==> self.m() == 0,
            self.value() < 0 <==> self.m() < 0,
    {
        let k = pow10((MAX_SCALE - self.s()) as nat);
        lemma_pow10_positive((MAX_SCALE - self.s()) as nat);
        let m = self.m();
        assert((m * k == 0 <==> m == 0) && (m * k < 0 <==> m < 0)) by (nonlinear_arith)
            requires
                k >= 1,
        ;
    }

    /// The amount with its sign turned.
    pub closed spec fn negated_spec(self) -> Amount {
        Amount { mantissa: (-self.m()) as i128, scale: self.scale }
    }

    /// The amount with the opposite sign is worth as much with the opposite sign.
    pub proof fn lemma_negated(self)
        requires
            self.wf(),
        ensures
            self.negated_spec().value() == -self.value(),
    {
        self.lemma_limits();
        let m = self.m();
        let k = pow10((MAX_SCALE - self.s()) as nat);
        assert((-m) * k == -(m * k)) by (nonlinear_arith);
    }

    /// The magnitude as an amount.
    pub open spec fn magnitude_spec(self) -> Amount {
        if self.value() < 0 {
            self.negated_spec()
        } else {
            self
        }
    }

    /// Zero is a decimal.
    pub proof fn lemma_zero_is_decimal()
        ensures
            is_decimal(0),
    {
        Amount::lemma_of_parts((0, 0));
        Amount::lemma_zero_value();
        Amount::zero_spec().lemma_is_decimal();
    }

    /// The amount with the opposite sign.
    pub fn negated(&self) -> (r: Amount)
        ensures
            r == self.negated_spec(),
            r.wf(),
            r.value() == -self.value(),
    {
        proof {
            use_type_invariant(self);
            let m = self.m();
            let k = pow10((MAX_SCALE - self.s()) as nat);
            assert((-m) * k == -(m * k)) by (nonlinear_arith);
            assert(((-m) % 10 == 0) == (m % 10 == 0)) by (nonlinear_arith);
        }
        Amount { mantissa: -self.mantissa, scale: self.scale }
    }

    /// The magnitude.
    pub fn magnitude(&self) -> (r: Amount)
        ensures
            r == self.magnitude_spec(),
            r.wf(),
            r.value() == abs_int(self.value()),
    {
        proof {
            use_type_invariant(self);
            self.lemma_zero();
        }
        if self.mantissa < 0 {
            self.negated()
        } else {
            *self
        }
    }

    /// Whether the amount is zero.
    pub fn is_zero(&self) -> (r: bool)
        ensures
            r == (self.value() == 0),
    {
        proof {
            use_type_invariant(self);
            self.lemma_zero();
        }
        self.mantissa == 0
    }

    /// Whether the amount is below zero.
    pub fn is_negative(&self) -> (r: bool)
        ensures
            r == (self.value() < 0),
    {
        proof {
            use_type_invariant(self);
            self.lemma_zero();
        }
        self.mantissa < 0
    }

    /// Whether the amount is above zero.
    pub fn is_positive(&self) -> (r: bool)
        ensures
            r == (self.value() > 0),
    {
        proof {
            use_type_invariant(self);
            self.lemma_zero();
        }
        self.mantissa > 0
    }

    /// Whether the amount is below another.
    pub fn less(&self, other: &Amount) -> (r: bool)
        ensures
            r == (self.value() < other.value()),
    {
        proof {
            use_type_invariant(self);
            use_type_invariant(other);
        }
        decimal_less(self.mantissa, self.scale, other.mantissa, other.scale)
    }

    /// Whether two amounts have one value.
    pub fn same(&self, other: &Amount) -> (r: bool)
        ensures
            r == (self.value() == other.value()),
            r == (*self == *other),
    {
        proof {
            use_type_invariant(self);
            use_type_invariant(other);
            if self.value() == other.value() {
                Amount::lemma_value_unique(*self, *other);
            }
        }
        self.mantissa == other.mantissa && self.scale == other.scale
    }

    /// The smaller of two amounts.
    pub fn min(&self, other: &Amount) -> (r: Amount)
        ensures
            r == (if other.value() < self.value() {
                *other
            } else {
                *self
            }),
    {
        if other.less(self) {
            *other
        } else {
            *self
        }
    }

    /// The number that a text stands for, or `None` where it is no number.
    pub fn parse(text: &str) -> (r: Option<Amount>)
        ensures
            r == Amount::parsed(text@),
            forall|a: Amount| a.wf() && text@ == #[trigger] a.text_spec() ==> r == Some(a),
    {
        let parts = decimal_from_str(text);
        proof {
            assert forall|a: Amount| a.wf() && text@ == #[trigger] a.text_spec() implies
                Amount::parsed(text@) == Some(a) by {
                assert(decimal_text(a.m(), a.s()) == text@);
                assert(as_ints(parts) == Some((a.m(), a.s())));
                assert(stripped(a.m(), a.s() as nat) == (a.m(), a.s() as nat));
                assert(Amount::of_parts((a.m(), a.s())) == a);
            }
        }
        match parts {
            Some((m, s)) => Some(Amount::new(m, s)),
            None => None,
        }
    }

    /// The number that a text stands for.
    pub open spec fn parsed(text: Seq<char>) -> Option<Amount> {
        match decimal_parsed(text) {
            Some(p) => Some(Amount::of_parts(p)),
            None => None,
        }
    }

    /// The amount as text, such as `-12.5`.
    pub fn text(&self) -> (r: String)
        ensures
            r@ == self.text_spec(),
    {
        proof {
            use_type_invariant(self);
        }
        decimal_to_string(self.mantissa, self.scale)
    }

    /// The amount as text.
    pub open spec fn text_spec(self) -> Seq<char> {
        decimal_text(self.m(), self.s())
    }

    /// The mantissa.
    pub fn mantissa(&self) -> (r: i128)
        ensures
            r == self.m(),
    {
        self.mantissa
    }

    /// The number of decimal places.
    pub fn scale(&self) -> (r: u32)
        ensures
            r == self.s(),
    {
        self.scale
    }
}

/// A decimal with the decimal places that it came with, trailing zeros and all. Two figures are
/// equal where they are written alike.
#[derive(Clone, Copy, PartialEq, Eq, Structural, Debug)]
pub struct Figure {
    mantissa: i128,
    scale: u32,
}

impl View for Figure {
    type V = (int, int);

    /// The mantissa and the scale.
    closed spec fn view(&self) -> (int, int) {
        (self.mantissa as int, self.scale as int)
    }
}

impl Figure {
    #[verifier::type_invariant]
    spec fn valid(self) -> bool {
        in_limits(self.mantissa as int, self.scale as int)
    }

    /// The figure of a mantissa and a scale.
    pub closed spec fn of_parts(p: (int, int)) -> Figure {
        Figure { mantissa: p.0 as i128, scale: p.1 as u32 }
    }

    /// The decimal product of two amounts.
    pub open spec fn product_of(a: Amount, b: Amount) -> Figure {
        Figure::of_parts(decimal_product(a.m(), a.s(), b.m(), b.s())->0)
    }

    /// The decimal sum of two amounts.
    pub open spec fn sum_of(a: Amount, b: Amount) -> Figure {
        Figure::of_parts(decimal_sum(a.m(), a.s(), b.m(), b.s())->0)
    }

    /// The decimal difference of two amounts.
    pub open spec fn difference_of(a: Amount, b: Amount) -> Figure {
        Figure::of_parts(decimal_difference(a.m(), a.s(), b.m(), b.s())->0)
    }

    /// The decimal quotient of a figure and an amount, where there is one.
    pub open spec fn quotient_of(a: Figure, b: Amount) -> Option<Figure> {
        match decimal_quotient(a@.0, a@.1, b.m(), b.s()) {
            Some(p) => Some(Figure::of_parts(p)),
            None => None,
        }
    }

    /// The figure that a text stands for.
    pub open spec fn parsed(text: Seq<char>) -> Option<Figure> {
        match decimal_parsed(text) {
            Some(p) => Some(Figure::of_parts(p)),
            None => None,
        }
    }

    /// The value in steps of `10^-28`.
    pub open spec fn value(self) -> int {
        steps(self@.0, self@.1)
    }

    /// The figure as an amount, without its trailing zeros.
    pub open spec fn amount_spec(self) -> Amount {
        Amount::of_parts(self@)
    }

    /// The figure as text, such as `12.0`.
    pub open spec fn text_spec(self) -> Seq<char> {
        decimal_text(self@.0, self@.1)
    }

    /// The figure `m * 10^-s`, written with `s` decimal places.
    pub fn new(m: i128, s: u32) -> (r: Figure)
        requires
            in_limits(m as int, s as int),
        ensures
            r == Figure::of_parts((m as int, s as int)),
            r@ == (m as int, s as int),
    {
        Figure { mantissa: m, scale: s }
    }

    /// The figure that a text stands for, or `None` where it is no number.
    pub fn parse(text: &str) -> (r: Option<Figure>)
        ensures
            r == Figure::parsed(text@),
    {
        match decimal_from_str(text) {
            Some((mantissa, scale)) => Some(Figure { mantissa, scale }),
            None => None,
        }
    }

    /// The figure as an amount, without its trailing zeros.
    pub fn amount(&self) -> (r: Amount)
        ensures
            r == self.amount_spec(),
            r.wf(),
            r.value() == self.value(),
    {
        proof {
            use_type_invariant(self);
        }
        Amount::new(self.mantissa, self.scale)
    }

    /// The quotient, or `None` where the divisor is zero or the quotient too large.
    pub fn divided_by(&self, other: &Amount) -> (r: Option<Figure>)
        ensures
            r == Figure::quotient_of(*self, *other),
            other.value() == 0 ==> r is None,
            other.value() != 0 && abs_int(self.value()) <= SAFE_UNITS * abs_int(other.value())
                ==> r is Some,
            r matches Some(q) ==> abs_int(q.value() * other.value() - self.value() * UNIT) < UNIT
                * abs_int(other.value()),
            r matches Some(q) ==> forall|v: int| #[trigger]
                is_decimal(v) && v * other.value() == self.value() * UNIT ==> q.value() == v,
    {
        proof {
            use_type_invariant(self);
            use_type_invariant(other);
            other.lemma_zero();
        }
        let (m, s) = (other.mantissa(), other.scale());
        proof {
            other.lemma_limits();
            other.lemma_value();
        }
        match decimal_checked_div(self.mantissa, self.scale, m, s) {
            Some((mantissa, scale)) => Some(Figure { mantissa, scale }),
            None => None,
        }
    }

    /// Whether the figure is below another.
    pub fn less(&self, other: &Figure) -> (r: bool)
        ensures
            r == (self.value() < other.value()),
    {
        proof {
            use_type_invariant(self);
            use_type_invariant(other);
        }
        decimal_less(self.mantissa, self.scale, other.mantissa, other.scale)
    }

    /// The figure as text, such as `12.0`.
    pub fn text(&self) -> (r: String)
        ensures
            r@ == self.text_spec(),
    {
        proof {
            use_type_invariant(self);
        }
        decimal_to_string(self.mantissa, self.scale)
    }
}

} // verus!
