//! IEEE 754 binary64 numbers, held as their 64-bit patterns.
//!
//! A pattern is a sign bit, eleven exponent bits and fifty-two fraction bits.
//! Every finite binary64 number is a whole multiple of 2^-1074, the smallest
//! positive one, so the order and equality of the numbers are stated here over
//! integers: the value of a number in units of 2^-1074.

use vstd::arithmetic::mul::{lemma_mul_inequality, lemma_mul_is_associative, lemma_mul_strict_inequality};
use vstd::arithmetic::power2::{
    lemma2_to64, lemma2_to64_rest, lemma_pow2_adds, lemma_pow2_pos, lemma_pow2_strictly_increases,
    lemma_pow2_unfold, pow2,
};
use vstd::prelude::*;
use vstd::std_specs::cmp::PartialEqSpecImpl;

verus! {

/// The weight of the sign bit, 2^63.
pub const SIGN_WEIGHT: u64 = 0x8000_0000_0000_0000;

/// The weight of the lowest exponent bit, 2^52.
pub const EXPONENT_UNIT: u64 = 0x0010_0000_0000_0000;

/// The pattern of positive infinity: every pattern whose payload is larger is
/// not a number.
pub const INFINITY_BITS: u64 = 0x7FF0_0000_0000_0000;

/// The exponent that the pattern of the integer 1 carries.
pub const EXPONENT_BIAS: u64 = 1023;

/// A binary64 number.
#[derive(Clone, Copy, Debug)]
pub struct Double {
    pub bits: u64,
}

/// The absolute value, in units of 2^-1074, of the number whose pattern
/// without its sign bit is `payload`. The infinities get the value that the
/// same formula gives them, which is larger than that of any finite number.
pub open spec fn magnitude_of(payload: int) -> int {
    let exponent = payload / 0x0010_0000_0000_0000;
    let fraction = payload % 0x0010_0000_0000_0000;
    if exponent == 0 {
        fraction
    } else {
        (0x0010_0000_0000_0000 + fraction) * pow2((exponent - 1) as nat)
    }
}

impl Double {
    /// The sign bit is set.
    pub open spec fn is_negative(self) -> bool {
        self.bits >= SIGN_WEIGHT
    }

    /// The pattern without its sign bit.
    pub open spec fn payload(self) -> int {
        self.bits as int % 0x8000_0000_0000_0000
    }

    /// The pattern stands for no number.
    pub open spec fn spec_is_nan(self) -> bool {
        self.payload() > INFINITY_BITS
    }

    /// The value in units of 2^-1074. Both zeros have the value 0.
    pub open spec fn scaled(self) -> int {
        if self.is_negative() {
            -magnitude_of(self.payload())
        } else {
            magnitude_of(self.payload())
        }
    }

    /// An integer that is ordered as the value is: the payload, negated where
    /// the sign bit is set.
    pub open spec fn key(self) -> int {
        if self.is_negative() {
            -self.payload()
        } else {
            self.payload()
        }
    }

    /// `self < other`: both are numbers and the value of `self` is the smaller.
    pub open spec fn precedes(self, other: Double) -> bool {
        !self.spec_is_nan() && !other.spec_is_nan() && self.scaled() < other.scaled()
    }

    /// `self <= other`: both are numbers and the value of `self` is not the
    /// larger.
    pub open spec fn at_most(self, other: Double) -> bool {
        !self.spec_is_nan() && !other.spec_is_nan() && self.scaled() <= other.scaled()
    }

    /// `self == other`: both are numbers and their values are the same. The two
    /// zeros are equal; what is not a number equals nothing, itself included.
    pub open spec fn equals(self, other: Double) -> bool {
        !self.spec_is_nan() && !other.spec_is_nan() && self.scaled() == other.scaled()
    }

    /// `self` is the binary64 number whose value is the integer `i`. Zero is
    /// the positive zero.
    pub open spec fn represents(self, i: int) -> bool {
        &&& !self.spec_is_nan()
        &&& self.scaled() == i * pow2(1074)
        &&& i == 0 ==> self.bits == 0
    }

    /// The binary64 number whose value is the integer `i`, where there is one:
    /// there is for every `i` whose size is below 2^53, and so for every `i32`.
    pub open spec fn of_int(i: int) -> Double {
        choose|d: Double| d.represents(i)
    }

    /// The number with the pattern `bits`.
    pub fn from_bits(bits: u64) -> (d: Double)
        ensures
            d.bits == bits,
    {
        Double { bits }
    }

    /// The pattern of the number.
    pub fn to_bits(self) -> (bits: u64)
        ensures
            bits == self.bits,
    {
        self.bits
    }

    /// Whether the pattern stands for no number.
    #[verifier::when_used_as_spec(spec_is_nan)]
    pub fn is_nan(self) -> (r: bool)
        ensures
            r == self.spec_is_nan(),
    {
        self.bits % SIGN_WEIGHT > INFINITY_BITS
    }

    fn ordered_key(self) -> (k: i64)
        ensures
            k == self.key(),
    {
        let payload: u64 = self.bits % SIGN_WEIGHT;
        if self.bits >= SIGN_WEIGHT {
            -(payload as i64)
        } else {
            payload as i64
        }
    }

    /// `self < other`, as IEEE 754 orders the two.
    pub fn lt(self, other: Double) -> (r: bool)
        ensures
            r == self.precedes(other),
    {
        proof {
            lemma_key_orders_values(self, other);
        }
        !self.is_nan() && !other.is_nan() && self.ordered_key() < other.ordered_key()
    }

    /// `self <= other`, as IEEE 754 orders the two.
    pub fn le(self, other: Double) -> (r: bool)
        ensures
            r == self.at_most(other),
    {
        proof {
            lemma_key_orders_values(self, other);
        }
        !self.is_nan() && !other.is_nan() && self.ordered_key() <= other.ordered_key()
    }

    /// `self > other`, as IEEE 754 orders the two.
    pub fn gt(self, other: Double) -> (r: bool)
        ensures
            r == other.precedes(self),
    {
        other.lt(self)
    }

    /// `self >= other`, as IEEE 754 orders the two.
    pub fn ge(self, other: Double) -> (r: bool)
        ensures
            r == other.at_most(self),
    {
        other.le(self)
    }

    /// The binary64 number that an `i32` converts to. The conversion is exact.
    pub fn from_i32(i: i32) -> (d: Double)
        ensures
            d.represents(i as int),
            d == Double::of_int(i as int),
    {
        if i == 0 {
            let d = Double { bits: 0 };
            proof {
                lemma_represents_is_unique(d, Double::of_int(0), 0);
            }
            return d;
        }
        let negative = i < 0;
        let size: u64 = if negative {
            (-(i as i64)) as u64
        } else {
            i as u64
        };
        // `leading` becomes the largest power of two that is not above `size`,
        // and `rest` the power of two that scales it to 2^52.
        let mut exponent: u64 = 0;
        let mut leading: u64 = 1;
        let mut rest: u64 = EXPONENT_UNIT;
        proof {
            lemma2_to64();
            lemma2_to64_rest();
        }
        while size >= 2 * leading
            invariant
                1 <= size <= 0x8000_0000,
                exponent <= 31,
                leading == pow2(exponent as nat),
                rest == pow2((52 - exponent) as nat),
                1 <= leading <= size,
            decreases size - leading,
        {
            proof {
                lemma2_to64();
                lemma_pow2_unfold((exponent + 1) as nat);
                lemma_pow2_unfold((52 - exponent) as nat);
            }
            exponent = exponent + 1;
            leading = 2 * leading;
            rest = rest / 2;
        }
        proof {
            lemma_pow2_adds(exponent as nat, (52 - exponent) as nat);
            lemma_mul_strict_inequality(size - leading, leading as int, rest as int);
            lemma_mul_inequality(0, size - leading, rest as int);
        }
        let fraction: u64 = (size - leading) * rest;
        let payload: u64 = (EXPONENT_BIAS + exponent) * EXPONENT_UNIT + fraction;
        let d = Double {
            bits: if negative {
                SIGN_WEIGHT + payload
            } else {
                payload
            },
        };
        proof {
            lemma_encoding_represents(negative, size as int, exponent as nat);
            assert(d == encoding(negative, size as int, exponent as nat));
            lemma_represents_is_unique(d, Double::of_int(i as int), i as int);
        }
        d
    }
}

impl PartialEq for Double {
    /// `self == other`, as IEEE 754 compares the two.
    fn eq(&self, other: &Self) -> (r: bool) {
        proof {
            lemma_key_orders_values(*self, *other);
        }
        !self.is_nan() && !other.is_nan() && self.ordered_key() == other.ordered_key()
    }
}

impl PartialEqSpecImpl for Double {
    open spec fn obeys_eq_spec() -> bool {
        true
    }

    open spec fn eq_spec(&self, other: &Self) -> bool {
        self.equals(*other)
    }
}

/// The pattern of the number of the given sign and size, `exponent` being the
/// place of the highest bit of `size` that is set.
pub open spec fn encoding(negative: bool, size: int, exponent: nat) -> Double {
    Double {
        bits: ((if negative {
            0x8000_0000_0000_0000int
        } else {
            0int
        }) + (1023 + exponent) * 0x0010_0000_0000_0000 + (size - pow2(exponent)) * pow2((52 - exponent) as nat)) as u64,
    }
}

/// The encoding of an integer of at most 53 bits is the number whose value is
/// that integer.
pub proof fn lemma_encoding_represents(negative: bool, size: int, exponent: nat)
    requires
        exponent <= 52,
        pow2(exponent) <= size < 2 * pow2(exponent),
    ensures
        encoding(negative, size, exponent).represents(
            if negative {
                -size
            } else {
                size
            },
        ),
{
    let unit = 0x0010_0000_0000_0000int;
    let leading = pow2(exponent) as int;
    let rest = pow2((52 - exponent) as nat) as int;
    let fraction = (size - leading) * rest;
    let payload = (1023 + exponent) * unit + fraction;
    let d = encoding(negative, size, exponent);
    lemma2_to64_rest();
    lemma_pow2_pos(exponent);
    lemma_pow2_pos((52 - exponent) as nat);
    lemma_pow2_adds(exponent, (52 - exponent) as nat);
    assert(leading * rest == unit);
    lemma_mul_strict_inequality(size - leading, leading, rest);
    lemma_mul_inequality(0, size - leading, rest);
    assert(0 <= fraction < unit);
    assert(0 <= payload < 0x7FF0_0000_0000_0000);
    assert(d.bits == if negative {
        0x8000_0000_0000_0000 + payload
    } else {
        payload
    });
    assert(d.payload() == payload);
    assert(d.is_negative() == negative);
    assert(payload / unit == 1023 + exponent);
    assert(payload % unit == fraction);
    assert(unit + fraction == size * rest) by (nonlinear_arith)
        requires
            unit == leading * rest,
            fraction == (size - leading) * rest,
    ;
    lemma_mul_is_associative(size, rest, pow2((1022 + exponent) as nat) as int);
    lemma_pow2_adds((52 - exponent) as nat, (1022 + exponent) as nat);
    assert(magnitude_of(payload) == size * pow2(1074));
    let i = if negative {
        -size
    } else {
        size
    };
    assert(d.scaled() == i * pow2(1074)) by (nonlinear_arith)
        requires
            d.scaled() == if negative {
                -(size * pow2(1074))
            } else {
                size * pow2(1074)
            },
            i == if negative {
                -size
            } else {
                size
            },
    ;
}

/// The place of the highest bit that is set in a positive integer.
pub proof fn lemma_highest_bit(size: int) -> (exponent: nat)
    requires
        1 <= size,
    ensures
        pow2(exponent) <= size < 2 * pow2(exponent),
    decreases size,
{
    if size == 1 {
        lemma2_to64();
        0
    } else {
        let below = lemma_highest_bit(size / 2);
        lemma_pow2_unfold(below + 1);
        below + 1
    }
}

/// Every integer whose size is below 2^53 is the value of a binary64 number.
pub proof fn lemma_of_int_represents(i: int)
    requires
        -0x0020_0000_0000_0000 < i < 0x0020_0000_0000_0000,
    ensures
        Double::of_int(i).represents(i),
{
    if i == 0 {
        lemma_represents_is_unique(Double { bits: 0 }, Double::of_int(0), 0);
    } else {
        let negative = i < 0;
        let size = if negative {
            -i
        } else {
            i
        };
        let exponent = lemma_highest_bit(size);
        lemma2_to64_rest();
        if exponent > 53 {
            lemma_pow2_strictly_increases(53, exponent);
        }
        assert(exponent <= 52);
        lemma_encoding_represents(negative, size, exponent);
        lemma_represents_is_unique(encoding(negative, size, exponent), Double::of_int(i), i);
    }
}

/// Integers are ordered and equal as the binary64 numbers are that they
/// convert to.
pub proof fn lemma_of_int_keeps_order(a: int, b: int)
    requires
        -0x0020_0000_0000_0000 < a < 0x0020_0000_0000_0000,
        -0x0020_0000_0000_0000 < b < 0x0020_0000_0000_0000,
    ensures
        Double::of_int(a).precedes(Double::of_int(b)) <==> a < b,
        Double::of_int(a).at_most(Double::of_int(b)) <==> a <= b,
        Double::of_int(a).equals(Double::of_int(b)) <==> a == b,
{
    lemma_of_int_represents(a);
    lemma_of_int_represents(b);
    lemma_pow2_pos(1074);
    let unit = pow2(1074) as int;
    if a < b {
        lemma_mul_strict_inequality(a, b, unit);
    }
    if b < a {
        lemma_mul_strict_inequality(b, a, unit);
    }
}

/// A larger payload is a larger magnitude.
pub proof fn lemma_magnitude_increases(low: int, high: int)
    requires
        0 <= low < high,
    ensures
        0 <= magnitude_of(low) < magnitude_of(high),
{
    let unit = 0x0010_0000_0000_0000int;
    let (e1, f1) = (low / unit, low % unit);
    let (e2, f2) = (high / unit, high % unit);
    assert(e1 <= e2);
    if e1 > 0 {
        lemma_pow2_pos((e1 - 1) as nat);
        lemma_mul_inequality(0, unit + f1, pow2((e1 - 1) as nat) as int);
    }
    if e1 == e2 {
        assert(f1 < f2);
        if e1 > 0 {
            lemma_mul_strict_inequality(unit + f1, unit + f2, pow2((e1 - 1) as nat) as int);
        }
    } else {
        let top = pow2((e2 - 1) as nat) as int;
        lemma_pow2_pos((e2 - 1) as nat);
        // the magnitude of `high` is at least 2^52 * 2^(e2 - 1)
        lemma_mul_inequality(unit, unit + f2, top);
        if e1 == 0 {
            lemma_mul_inequality(1, top, unit);
        } else {
            let below = pow2((e1 - 1) as nat) as int;
            // the magnitude of `low` is below 2^53 * 2^(e1 - 1) = 2^52 * 2^e1
            lemma_mul_strict_inequality(unit + f1, 2 * unit, below);
            lemma_pow2_unfold(e1 as nat);
            assert((2 * unit) * below == unit * pow2(e1 as nat)) by (nonlinear_arith)
                requires
                    pow2(e1 as nat) == 2 * below,
            ;
            if e1 < e2 - 1 {
                lemma_pow2_strictly_increases(e1 as nat, (e2 - 1) as nat);
            }
            lemma_mul_inequality(pow2(e1 as nat) as int, top, unit);
        }
    }
}

/// The keys of two patterns are ordered as their values are.
pub proof fn lemma_key_orders_values(a: Double, b: Double)
    ensures
        a.key() < b.key() <==> a.scaled() < b.scaled(),
        a.key() == b.key() <==> a.scaled() == b.scaled(),
{
    let (p, q) = (a.payload(), b.payload());
    assert(magnitude_of(0) == 0);
    if p < q {
        lemma_magnitude_increases(p, q);
    }
    if q < p {
        lemma_magnitude_increases(q, p);
    }
    if 0 < p {
        lemma_magnitude_increases(0, p);
    }
    if 0 < q {
        lemma_magnitude_increases(0, q);
    }
}

/// At most one binary64 number has the integer `i` as its value.
pub proof fn lemma_represents_is_unique(a: Double, b: Double, i: int)
    requires
        a.represents(i),
    ensures
        b.represents(i) ==> a == b,
        Double::of_int(i) == a,
{
    assert forall|c: Double| c.represents(i) implies a == c by {
        lemma_key_orders_values(a, c);
        if i != 0 {
            lemma_pow2_pos(1074);
            assert(i * pow2(1074) != 0) by (nonlinear_arith)
                requires
                    i != 0,
                    pow2(1074) > 0,
            ;
            assert(a.payload() == c.payload());
            assert(a.is_negative() == c.is_negative());
        }
    }
}

} // verus!
