//! JSON numbers.
//!
//! A number is written as a non-negative integer, a negative integer or a
//! double, and it stands for a double: the one it holds, or the one nearest
//! to the integer. A double is held by the 64 bits of its IEEE 754 encoding,
//! and everything the library needs of doubles (their order, their equality,
//! the double nearest to an integer) is computed on those bits with integer
//! arithmetic.

use vstd::prelude::*;
use vstd::std_specs::cmp::PartialEqSpecImpl;

verus! {

/// The bit that holds the sign of a double: two to the power 63.
pub const SIGN_BIT: u64 = 0x8000_0000_0000_0000;

/// The bits of positive infinity. A larger magnitude is not a number.
pub const INFINITY_BITS: u64 = 0x7FF0_0000_0000_0000;

/// Two to the power 52: the weight of the exponent field in a double.
pub const MANTISSA_UNIT: u64 = 0x0010_0000_0000_0000;

/// A JSON number.
#[derive(Clone, Copy, Debug)]
pub enum Number {
    /// An integer that is not negative.
    PosInt(u64),
    /// A negative integer.
    NegInt(i64),
    /// A double, by the bits of its IEEE 754 encoding.
    Float(u64),
}

/// The bits of a double without its sign.
pub open spec fn magnitude(bits: u64) -> int {
    if bits >= SIGN_BIT {
        bits - SIGN_BIT
    } else {
        bits as int
    }
}

/// The bits encode no number.
pub open spec fn is_nan(bits: u64) -> bool {
    magnitude(bits) > INFINITY_BITS
}

/// The place of a double on the number line: doubles that are numbers are
/// ordered as these integers are, and both zeros have the place 0.
pub open spec fn order_key(bits: u64) -> int {
    if bits >= SIGN_BIT {
        -(bits - SIGN_BIT)
    } else {
        bits as int
    }
}

/// `a < b` on doubles.
pub open spec fn double_lt(a: u64, b: u64) -> bool {
    !is_nan(a) && !is_nan(b) && order_key(a) < order_key(b)
}

/// `a == b` on doubles.
pub open spec fn double_eq(a: u64, b: u64) -> bool {
    !is_nan(a) && !is_nan(b) && order_key(a) == order_key(b)
}

/// Two to the power `e`.
pub open spec fn two_pow(e: nat) -> nat
    decreases e,
{
    if e == 0 {
        1
    } else {
        2 * two_pow((e - 1) as nat)
    }
}

/// The position of the highest set bit of `n`; 0 for 0.
pub open spec fn floor_log2(n: nat) -> nat
    decreases n,
{
    if n < 2 {
        0
    } else {
        1 + floor_log2(n / 2)
    }
}

/// The bits of the double nearest to the natural number `n`; of two doubles
/// equally near, the one with the even mantissa.
pub open spec fn double_of_nat(n: nat) -> int {
    if n == 0 {
        0
    } else {
        let e = floor_log2(n);
        if e <= 52 {
            (1022 + e) * MANTISSA_UNIT + n * two_pow((52 - e) as nat)
        } else {
            let unit = two_pow((e - 52) as nat);
            let q = n / unit;
            let r = n % unit;
            let up: int = if 2 * r > unit || (2 * r == unit && q % 2 == 1) {
                1
            } else {
                0
            };
            (1022 + e) * MANTISSA_UNIT + q + up
        }
    }
}

/// The bits of the double nearest to the integer `i`.
pub open spec fn double_of_int(i: int) -> int {
    if i < 0 {
        SIGN_BIT + double_of_nat((-i) as nat)
    } else {
        double_of_nat(i as nat)
    }
}

impl Number {
    /// The integer that the number is, if it is one.
    pub open spec fn int_value(self) -> Option<int> {
        match self {
            Number::PosInt(n) => Some(n as int),
            Number::NegInt(n) => Some(n as int),
            Number::Float(_) => None,
        }
    }

    /// The number as a double: the bits it holds, or the double nearest to
    /// the integer.
    pub open spec fn double_bits(self) -> int {
        match self {
            Number::PosInt(n) => double_of_nat(n as nat),
            Number::NegInt(n) => double_of_int(n as int),
            Number::Float(bits) => bits as int,
        }
    }

    /// Equality of numbers: a number is the double that it holds or that is
    /// nearest to it, and two numbers are equal when these doubles are. So 1
    /// equals 1.0, both zeros are equal, and what is no number equals nothing.
    pub open spec fn same(self, other: Number) -> bool {
        double_eq(self.double_bits() as u64, other.double_bits() as u64)
    }

    /// The number is zero.
    pub open spec fn is_zero(self) -> bool {
        match self {
            Number::PosInt(n) => n == 0,
            Number::NegInt(n) => n == 0,
            Number::Float(bits) => magnitude(bits) == 0,
        }
    }

    /// The number as a signed 64-bit integer, if it is an integer that fits.
    pub open spec fn as_i64_spec(self) -> Option<i64> {
        match self {
            Number::PosInt(n) => if n <= i64::MAX {
                Some(n as i64)
            } else {
                None
            },
            Number::NegInt(n) => Some(n),
            Number::Float(_) => None,
        }
    }
}

proof fn lemma_two_pow_adds(a: nat, b: nat)
    ensures
        two_pow(a + b) == two_pow(a) * two_pow(b),
    decreases a,
{
    if a > 0 {
        lemma_two_pow_adds((a - 1) as nat, b);
        assert(two_pow(a + b) == 2 * two_pow((a + b - 1) as nat));
        assert(2 * (two_pow((a - 1) as nat) * two_pow(b)) == (2 * two_pow((a - 1) as nat)) * two_pow(
            b,
        )) by (nonlinear_arith);
    } else {
        assert(two_pow(0) * two_pow(b) == two_pow(b)) by (nonlinear_arith)
            requires
                two_pow(0) == 1,
        ;
    }
}

/// The powers of two that the encoding of a double is made of.
pub proof fn lemma_powers_of_two()
    ensures
        two_pow(52) == MANTISSA_UNIT,
        two_pow(11) == 2048,
        two_pow(63) == SIGN_BIT,
{
    reveal_with_fuel(two_pow, 12);
    assert(two_pow(11) == 2048);
    assert(two_pow(8) == 256);
    lemma_two_pow_adds(11, 11);
    assert(two_pow(22) == 4194304);
    lemma_two_pow_adds(22, 22);
    assert(two_pow(44) == 17592186044416);
    lemma_two_pow_adds(44, 8);
    assert(two_pow(52) == 4503599627370496);
    lemma_two_pow_adds(52, 11);
}

proof fn lemma_floor_log2(n: nat, e: nat)
    requires
        two_pow(e) <= n < 2 * two_pow(e),
    ensures
        floor_log2(n) == e,
    decreases e,
{
    if e > 0 {
        lemma_floor_log2(n / 2, (e - 1) as nat);
    }
}

proof fn lemma_two_pow_grows(a: nat, b: nat)
    requires
        a <= b,
    ensures
        two_pow(a) <= two_pow(b),
        two_pow(a) >= 1,
    decreases b,
{
    if a < b {
        lemma_two_pow_grows(a, (b - 1) as nat);
    } else if a > 0 {
        lemma_two_pow_grows((a - 1) as nat, (a - 1) as nat);
    }
}

/// Two to the power `e`, for an exponent that fits.
fn power_of_two(e: u32) -> (p: u64)
    requires
        e <= 63,
    ensures
        p == two_pow(e as nat),
        p >= 1,
{
    let mut p: u64 = 1;
    let mut k: u32 = 0;
    while k < e
        invariant
            k <= e <= 63,
            p == two_pow(k as nat),
            p >= 1,
        decreases e - k,
    {
        proof {
            lemma_two_pow_grows((k + 1) as nat, 63);
            lemma_powers_of_two();
        }
        p = p * 2;
        k += 1;
    }
    p
}

/// The bits of the double nearest to `n`.
pub fn double_from_u64(n: u64) -> (bits: u64)
    ensures
        bits == double_of_nat(n as nat),
        bits < SIGN_BIT,
        bits <= INFINITY_BITS,
{
    if n == 0 {
        return 0;
    }
    let mut e: u32 = 0;
    let mut p: u64 = 1;
    while e < 63 && n / 2 >= p
        invariant
            e <= 63,
            p == two_pow(e as nat),
            p <= n,
        decreases 63 - e,
    {
        proof {
            lemma_two_pow_grows((e + 1) as nat, 63);
            lemma_powers_of_two();
        }
        p = p * 2;
        e += 1;
    }
    proof {
        lemma_powers_of_two();
        if e == 63 {
            assert(n < 2 * two_pow(63));
        }
        lemma_floor_log2(n as nat, e as nat);
    }
    let base: u64 = (1022 + e as u64) * MANTISSA_UNIT;
    if e <= 52 {
        let scale = power_of_two(52 - e);
        proof {
            lemma_two_pow_adds(e as nat, (52 - e) as nat);
            assert(n * scale < 2 * MANTISSA_UNIT) by (nonlinear_arith)
                requires
                    n < 2 * p,
                    p * scale == MANTISSA_UNIT,
                    scale >= 1,
            ;
        }
        base + n * scale
    } else {
        let unit = power_of_two(e - 52);
        proof {
            lemma_two_pow_adds((e - 52) as nat, 52);
            lemma_two_pow_grows((e - 52) as nat, 11);
            assert(n / unit < 2 * MANTISSA_UNIT) by (nonlinear_arith)
                requires
                    n < 2 * p,
                    unit * MANTISSA_UNIT == p,
                    unit >= 1,
            ;
        }
        let q = n / unit;
        let r = n % unit;
        let up: u64 = if r > unit - r || (r == unit - r && q % 2 == 1) {
            1
        } else {
            0
        };
        base + q + up
    }
}

/// The bits of the double nearest to `i`.
pub fn double_from_i64(i: i64) -> (bits: u64)
    ensures
        bits == double_of_int(i as int),
        !is_nan(bits),
{
    if i < 0 {
        let m: u64 = if i == i64::MIN {
            SIGN_BIT
        } else {
            (-i) as u64
        };
        SIGN_BIT + double_from_u64(m)
    } else {
        double_from_u64(i as u64)
    }
}

/// `a < b` on doubles given by their bits.
pub fn double_less(a: u64, b: u64) -> (less: bool)
    ensures
        less == double_lt(a, b),
{
    if bits_are_nan(a) || bits_are_nan(b) {
        return false;
    }
    if a >= SIGN_BIT {
        if b >= SIGN_BIT {
            a > b
        } else {
            a > SIGN_BIT || b > 0
        }
    } else {
        b < SIGN_BIT && a < b
    }
}

/// `a == b` on doubles given by their bits.
pub fn double_equal(a: u64, b: u64) -> (equal: bool)
    ensures
        equal == double_eq(a, b),
{
    if bits_are_nan(a) || bits_are_nan(b) {
        return false;
    }
    a == b || ((a == SIGN_BIT || a == 0) && (b == SIGN_BIT || b == 0))
}

/// The bits encode no number.
pub fn bits_are_nan(bits: u64) -> (nan: bool)
    ensures
        nan == is_nan(bits),
{
    if bits >= SIGN_BIT {
        bits - SIGN_BIT > INFINITY_BITS
    } else {
        bits > INFINITY_BITS
    }
}

impl Number {
    /// The number as a double.
    pub fn to_double(&self) -> (bits: u64)
        ensures
            bits == self.double_bits(),
    {
        match self {
            Number::PosInt(n) => double_from_u64(*n),
            Number::NegInt(n) => double_from_i64(*n),
            Number::Float(bits) => *bits,
        }
    }

    /// Whether two numbers are equal.
    pub fn equals(&self, other: &Number) -> (equal: bool)
        ensures
            equal == self.same(*other),
    {
        double_equal(self.to_double(), other.to_double())
    }

    /// Whether the number is zero.
    pub fn is_zero_value(&self) -> (zero: bool)
        ensures
            zero == self.is_zero(),
    {
        match self {
            Number::PosInt(n) => *n == 0,
            Number::NegInt(n) => *n == 0,
            Number::Float(bits) => *bits == 0 || *bits == SIGN_BIT,
        }
    }

    /// The number as a signed 64-bit integer, if it is an integer that fits.
    pub fn as_i64(&self) -> (value: Option<i64>)
        ensures
            value == self.as_i64_spec(),
    {
        match self {
            Number::PosInt(n) => if *n <= 9223372036854775807u64 {
                Some(*n as i64)
            } else {
                None
            },
            Number::NegInt(n) => Some(*n),
            Number::Float(_) => None,
        }
    }
}

impl PartialEq for Number {
    fn eq(&self, other: &Number) -> (equal: bool) {
        self.equals(other)
    }
}

impl PartialEqSpecImpl for Number {
    open spec fn obeys_eq_spec() -> bool {
        true
    }

    open spec fn eq_spec(&self, other: &Number) -> bool {
        self.same(*other)
    }
}

} // verus!
