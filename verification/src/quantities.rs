//! Decimal quantities.
//!
//! A quantity is a whole mantissa, a power of ten (its range) and the domain
//! of its unit: it stands for `mantissa * 10^range`. Fractions are carried
//! this way, exactly, where a binary float would round them.

use vstd::prelude::*;

verus! {

/// A number with a unit domain: `mantissa * 10^range`.
#[derive(Clone, Copy, Debug, PartialEq, Eq, Structural, Hash)]
pub struct Quantity {
    pub mantissa: i64,
    pub range: i64,
    pub domain: u64,
}

/// Ten to the power `n`.
pub open spec fn pow10(n: nat) -> nat
    decreases n,
{
    if n == 0 {
        1
    } else {
        10 * pow10((n - 1) as nat)
    }
}

/// The character that stands for a decimal digit.
pub open spec fn digit(d: int) -> char {
    if d == 0 {
        '0'
    } else if d == 1 {
        '1'
    } else if d == 2 {
        '2'
    } else if d == 3 {
        '3'
    } else if d == 4 {
        '4'
    } else if d == 5 {
        '5'
    } else if d == 6 {
        '6'
    } else if d == 7 {
        '7'
    } else if d == 8 {
        '8'
    } else {
        '9'
    }
}

/// The decimal digits of a number, the highest first, without leading
/// zeros; the digit zero for the number zero.
pub open spec fn digits(n: nat) -> Seq<char>
    decreases n,
{
    if n < 10 {
        seq![digit(n as int)]
    } else {
        digits(n / 10).push(digit((n % 10) as int))
    }
}

/// A whole number as text: a minus sign where it is negative, then its
/// digits.
pub open spec fn number_text(x: int) -> Seq<char> {
    if x < 0 {
        seq!['-'] + digits((-x) as nat)
    } else {
        digits(x as nat)
    }
}

/// The text of a quantity: the mantissa, the letter `e`, the range.
pub open spec fn quantity_text(mantissa: i64, range: i64) -> Seq<char> {
    number_text(mantissa as int) + seq!['e'] + number_text(range as int)
}

/// Formats the two numbers with `format!`, which writes each as `Display`
/// does for an `i64`: a minus sign where the number is negative, then its
/// decimal digits without leading zeros.
#[verifier::external_body]
fn format_quantity(mantissa: i64, range: i64) -> (text: String)
    ensures
        text@ == quantity_text(mantissa, range),
{
    format!("{}e{}", mantissa, range)
}

/// Beyond this magnitude a scaled mantissa is only known to be out of reach.
pub const SCALE_LIMIT: i128 = 0x1_0000_0000_0000_0000;

/// The digits that a quotient keeps beyond those of its operands.
pub const DIVISION_DIGITS: i64 = 4;

/// `x`, held within `-SCALE_LIMIT ..= SCALE_LIMIT`.
pub open spec fn saturate(x: int) -> int {
    if x >= SCALE_LIMIT {
        SCALE_LIMIT as int
    } else if x <= -SCALE_LIMIT {
        -SCALE_LIMIT
    } else {
        x
    }
}

/// `x`, held within the range of `i64`.
pub open spec fn clamp(x: int) -> i64 {
    if x > i64::MAX {
        i64::MAX
    } else if x < i64::MIN {
        i64::MIN
    } else {
        x as i64
    }
}

/// The quotient of `x` by `y`, rounded towards zero.
pub open spec fn truncated_quotient(x: int, y: int) -> int
    recommends
        y != 0,
{
    let magnitude = (if x < 0 { -x } else { x }) / (if y < 0 { -y } else { y });
    if (x < 0) != (y < 0) {
        -magnitude
    } else {
        magnitude
    }
}

/// A power of ten is positive.
pub proof fn lemma_pow10_positive(n: nat)
    ensures
        pow10(n) >= 1,
    decreases n,
{
    if n > 0 {
        lemma_pow10_positive((n - 1) as nat);
    }
}

/// A higher power of ten is no smaller.
pub proof fn lemma_pow10_monotonic(a: nat, b: nat)
    requires
        a <= b,
    ensures
        pow10(a) <= pow10(b),
    decreases b,
{
    lemma_pow10_positive(a);
    if a < b {
        lemma_pow10_monotonic(a, (b - 1) as nat);
    }
}

proof fn lemma_pow10_20()
    ensures
        pow10(20) == 100_000_000_000_000_000_000nat,
{
    reveal_with_fuel(pow10, 21);
}

proof fn lemma_scale_step(m: int, i: nat)
    ensures
        m * pow10(i + 1) == (m * pow10(i)) * 10,
{
    let p = pow10(i);
    assert(pow10(i + 1) == 10 * p);
    assert(m * (10 * p) == (m * p) * 10) by (nonlinear_arith);
}

proof fn lemma_scale_far(m: int, delta: nat)
    requires
        m != 0,
        delta >= 20,
    ensures
        saturate(m * pow10(delta)) == saturate(m * pow10(20)),
{
    lemma_pow10_20();
    lemma_pow10_monotonic(20, delta);
    let p = pow10(20) as int;
    let q = pow10(delta) as int;
    if m > 0 {
        assert(m * q >= p && m * p >= p) by (nonlinear_arith)
            requires
                m >= 1,
                q >= p,
                p >= 1,
        ;
    } else {
        assert(m * q <= -p && m * p <= -p) by (nonlinear_arith)
            requires
                m <= -1,
                q >= p,
                p >= 1,
        ;
    }
}

/// `m * 10^delta`, held within the scale limit.
fn scale_up(m: i64, delta: u128) -> (r: i128)
    ensures
        r == saturate(m * pow10(delta as nat)),
{
    if m == 0 {
        assert(0 * pow10(delta as nat) == 0) by (nonlinear_arith);
        return 0;
    }
    let steps: u128 = if delta > 20 {
        20
    } else {
        delta
    };
    let mut cur: i128 = m as i128;
    let mut i: u128 = 0;
    assert(m * pow10(0) == m) by (nonlinear_arith)
        requires
            pow10(0) == 1,
    ;
    while i < steps
        invariant
            i <= steps <= 20,
            cur == saturate(m * pow10(i as nat)),
        decreases steps - i,
    {
        let next: i128 = cur * 10;
        proof {
            lemma_scale_step(m as int, i as nat);
        }
        cur = if next >= SCALE_LIMIT {
            SCALE_LIMIT
        } else if next <= -SCALE_LIMIT {
            -SCALE_LIMIT
        } else {
            next
        };
        i += 1;
    }
    proof {
        if delta > 20 {
            lemma_scale_far(m as int, delta as nat);
        }
    }
    cur
}

fn clamp_to_i64(x: i128) -> (r: i64)
    ensures
        r == clamp(x as int),
{
    if x > i64::MAX as i128 {
        i64::MAX
    } else if x < i64::MIN as i128 {
        i64::MIN
    } else {
        x as i64
    }
}

/// The quantity with the given mantissa, range and unit domain.
pub fn make_quantity(mantissa: i64, range: i64, domain: u64) -> (q: Quantity)
    ensures
        q == (Quantity { mantissa, range, domain }),
{
    Quantity { mantissa, range, domain }
}

impl Quantity {
    /// The mantissa of `self` once its range is lowered to `range`.
    pub open spec fn aligned(self, range: int) -> int
        recommends
            range <= self.range,
    {
        self.mantissa * pow10((self.range - range) as nat)
    }

    /// The lower of the two ranges: the one at which both can be written
    /// with whole mantissas.
    pub open spec fn common_range(self, other: Quantity) -> i64 {
        if self.range <= other.range {
            self.range
        } else {
            other.range
        }
    }

    /// Whether both stand for the same number, whatever their ranges.
    pub open spec fn same_number(self, other: Quantity) -> bool {
        let range = self.common_range(other);
        self.aligned(range as int) == other.aligned(range as int)
    }

    /// Whether `self` stands for a smaller number than `other`.
    pub open spec fn below(self, other: Quantity) -> bool {
        let range = self.common_range(other);
        self.aligned(range as int) < other.aligned(range as int)
    }

    /// The sum: the mantissas are brought to the smaller range and added.
    pub open spec fn spec_add(self, other: Quantity) -> Quantity {
        let range = self.common_range(other);
        Quantity {
            mantissa: clamp(self.aligned(range as int) + other.aligned(range as int)),
            range,
            domain: self.domain,
        }
    }

    /// The difference: the mantissas are brought to the smaller range and
    /// subtracted.
    pub open spec fn spec_sub(self, other: Quantity) -> Quantity {
        let range = self.common_range(other);
        Quantity {
            mantissa: clamp(self.aligned(range as int) - other.aligned(range as int)),
            range,
            domain: self.domain,
        }
    }

    /// The product: the mantissas are multiplied and the ranges added.
    pub open spec fn spec_multiply(self, other: Quantity) -> Quantity {
        Quantity {
            mantissa: clamp(self.mantissa * other.mantissa),
            range: clamp(self.range + other.range),
            domain: self.domain,
        }
    }

    /// The quotient, with `DIVISION_DIGITS` more digits than the operands have.
    pub open spec fn spec_divide(self, other: Quantity) -> Quantity
        recommends
            other.mantissa != 0,
    {
        Quantity {
            mantissa: clamp(
                truncated_quotient(
                    self.mantissa * pow10(DIVISION_DIGITS as nat),
                    other.mantissa as int,
                ),
            ),
            range: clamp(self.range - other.range - DIVISION_DIGITS),
            domain: self.domain,
        }
    }

    /// The quantity with the opposite sign.
    pub open spec fn spec_negate(self) -> Quantity {
        Quantity { mantissa: clamp(-self.mantissa), range: self.range, domain: self.domain }
    }

    /// The digits of the quantity.
    pub fn mantissa(&self) -> (m: i64)
        ensures
            m == self.mantissa,
    {
        self.mantissa
    }

    /// The power of ten that the mantissa is scaled by.
    pub fn range(&self) -> (r: i64)
        ensures
            r == self.range,
    {
        self.range
    }

    /// The unit domain of the quantity.
    pub fn domain(&self) -> (d: u64)
        ensures
            d == self.domain,
    {
        self.domain
    }

    /// The quantity as text: the mantissa, the letter `e`, the range.
    pub fn to_string(&self) -> (text: String)
        ensures
            text@ == quantity_text(self.mantissa, self.range),
    {
        format_quantity(self.mantissa, self.range)
    }

    /// Every quantity is a number.
    pub fn is_number(&self) -> (b: bool)
        ensures
            b,
    {
        true
    }

    /// No quantity stands for anything but a number.
    pub fn is_other(&self) -> (b: bool)
        ensures
            !b,
    {
        false
    }

    /// Both mantissas at the common range, each held within the scale limit.
    fn align(self, other: Quantity) -> (r: (i128, i128))
        ensures
            r.0 == saturate(self.aligned(self.common_range(other) as int)),
            r.1 == saturate(other.aligned(self.common_range(other) as int)),
            self.range <= other.range ==> r.0 == self.mantissa,
            self.range > other.range ==> r.1 == other.mantissa,
    {
        assert(self.mantissa * pow10(0) == self.mantissa && other.mantissa * pow10(0)
            == other.mantissa) by (nonlinear_arith)
            requires
                pow10(0) == 1,
        ;
        if self.range <= other.range {
            let delta: u128 = (other.range as i128 - self.range as i128) as u128;
            (self.mantissa as i128, scale_up(other.mantissa, delta))
        } else {
            let delta: u128 = (self.range as i128 - other.range as i128) as u128;
            (scale_up(self.mantissa, delta), other.mantissa as i128)
        }
    }

    /// The sum, at the lower of the two ranges. A mantissa that leaves the
    /// range of `i64` stops at its bound. The unit domain is that of `self`.
    pub fn add(self, other: Quantity) -> (r: Quantity)
        ensures
            r == self.spec_add(other),
    {
        let (a, b) = self.align(other);
        let range: i64 = if self.range <= other.range {
            self.range
        } else {
            other.range
        };
        Quantity { mantissa: clamp_to_i64(a + b), range, domain: self.domain }
    }

    /// The difference, at the lower of the two ranges. A mantissa that leaves
    /// the range of `i64` stops at its bound.
    pub fn sub(self, other: Quantity) -> (r: Quantity)
        ensures
            r == self.spec_sub(other),
    {
        let (a, b) = self.align(other);
        let range: i64 = if self.range <= other.range {
            self.range
        } else {
            other.range
        };
        Quantity { mantissa: clamp_to_i64(a - b), range, domain: self.domain }
    }

    /// The product: mantissas multiplied, ranges added, each held within the
    /// range of `i64`.
    pub fn multiply(self, other: Quantity) -> (r: Quantity)
        ensures
            r == self.spec_multiply(other),
    {
        let a: i128 = self.mantissa as i128;
        let b: i128 = other.mantissa as i128;
        assert(-0x4000_0000_0000_0000_0000_0000_0000_0000 <= a * b
            <= 0x4000_0000_0000_0000_0000_0000_0000_0000) by (nonlinear_arith)
            requires
                -0x8000_0000_0000_0000 <= a <= 0x8000_0000_0000_0000,
                -0x8000_0000_0000_0000 <= b <= 0x8000_0000_0000_0000,
        ;
        Quantity {
            mantissa: clamp_to_i64(a * b),
            range: clamp_to_i64(self.range as i128 + other.range as i128),
            domain: self.domain,
        }
    }

    /// The quotient, rounded towards zero after four more decimal digits than
    /// the operands have between them.
    pub fn divide(self, other: Quantity) -> (r: Quantity)
        requires
            other.mantissa != 0,
        ensures
            r == self.spec_divide(other),
    {
        proof {
            reveal_with_fuel(pow10, 5);
        }
        let negative: bool = (self.mantissa < 0) != (other.mantissa < 0);
        let a: i128 = self.mantissa as i128;
        let b: i128 = other.mantissa as i128;
        let numerator: u128 = (if a < 0 {
            -a
        } else {
            a
        }) as u128 * 10000;
        let denominator: u128 = (if b < 0 {
            -b
        } else {
            b
        }) as u128;
        let magnitude: u128 = numerator / denominator;
        assert(magnitude <= numerator) by (nonlinear_arith)
            requires
                magnitude == numerator / denominator,
                denominator >= 1,
        ;
        let quotient: i128 = if negative {
            -(magnitude as i128)
        } else {
            magnitude as i128
        };
        assert(self.mantissa * 10000 < 0 <==> self.mantissa < 0);
        Quantity {
            mantissa: clamp_to_i64(quotient),
            range: clamp_to_i64(self.range as i128 - other.range as i128 - 4),
            domain: self.domain,
        }
    }

    /// The opposite number. The one mantissa without an opposite in `i64`
    /// stops at the upper bound.
    pub fn negate(self) -> (r: Quantity)
        ensures
            r == self.spec_negate(),
    {
        Quantity {
            mantissa: clamp_to_i64(-(self.mantissa as i128)),
            range: self.range,
            domain: self.domain,
        }
    }

    /// Whether both stand for the same number.
    pub fn equal(self, other: Quantity) -> (b: bool)
        ensures
            b == self.same_number(other),
    {
        let (a, b) = self.align(other);
        a == b
    }

    /// Whether `self` stands for a smaller number than `other`.
    pub fn less_than(self, other: Quantity) -> (b: bool)
        ensures
            b == self.below(other),
    {
        let (a, b) = self.align(other);
        a < b
    }
}

/// Whole numbers as quantities of range zero in the domain without unit.
pub trait ToQuantity {
    spec fn spec_to_quantity(&self) -> Quantity;

    fn to_quantity(&self) -> (q: Quantity)
        ensures
            q == self.spec_to_quantity(),
    ;
}

impl ToQuantity for i64 {
    open spec fn spec_to_quantity(&self) -> Quantity {
        Quantity { mantissa: *self, range: 0, domain: 0 }
    }

    fn to_quantity(&self) -> (q: Quantity) {
        Quantity { mantissa: *self, range: 0, domain: 0 }
    }
}

impl ToQuantity for i32 {
    open spec fn spec_to_quantity(&self) -> Quantity {
        Quantity { mantissa: *self as i64, range: 0, domain: 0 }
    }

    fn to_quantity(&self) -> (q: Quantity) {
        Quantity { mantissa: *self as i64, range: 0, domain: 0 }
    }
}

impl ToQuantity for u32 {
    open spec fn spec_to_quantity(&self) -> Quantity {
        Quantity { mantissa: *self as i64, range: 0, domain: 0 }
    }

    fn to_quantity(&self) -> (q: Quantity) {
        Quantity { mantissa: *self as i64, range: 0, domain: 0 }
    }
}

impl ToQuantity for u64 {
    /// A number above the range of `i64` gives up its last decimal digit.
    open spec fn spec_to_quantity(&self) -> Quantity {
        if *self <= i64::MAX as u64 {
            Quantity { mantissa: *self as i64, range: 0, domain: 0 }
        } else {
            Quantity { mantissa: (*self / 10) as i64, range: 1, domain: 0 }
        }
    }

    fn to_quantity(&self) -> (q: Quantity) {
        if *self <= i64::MAX as u64 {
            Quantity { mantissa: *self as i64, range: 0, domain: 0 }
        } else {
            Quantity { mantissa: (*self / 10) as i64, range: 1, domain: 0 }
        }
    }
}

/// Adding a quantity to another and taking it away again gives a quantity
/// that stands for the first number, as long as no mantissa met a bound of
/// `i64` on the way.
pub proof fn lemma_add_then_sub(a: Quantity, b: Quantity)
    requires
        i64::MIN <= a.aligned(a.common_range(b) as int) + b.aligned(a.common_range(b) as int)
            <= i64::MAX,
        i64::MIN <= a.aligned(a.common_range(b) as int) <= i64::MAX,
    ensures
        a.spec_add(b).spec_sub(b).same_number(a),
{
    let range = a.common_range(b);
    let sum = a.spec_add(b);
    assert(sum.range == range);
    assert(sum.common_range(b) == range);
    assert(pow10(0) == 1);
    assert(sum.aligned(range as int) == sum.mantissa) by (nonlinear_arith)
        requires
            sum.aligned(range as int) == sum.mantissa * pow10(0),
            pow10(0) == 1,
    ;
    let back = sum.spec_sub(b);
    assert(back.mantissa == a.aligned(range as int));
    assert(back.range == range);
    assert(back.common_range(a) == range);
    assert(back.aligned(range as int) == back.mantissa) by (nonlinear_arith)
        requires
            back.aligned(range as int) == back.mantissa * pow10(0),
            pow10(0) == 1,
    ;
}

} // verus!
