//! Binary64 floats as bit patterns. The classification, exact value and order of a float
//! are computed on its bits; the operations that round are the platform's and `libm`'s,
//! each named by the bit patterns it maps to one another.
use crate::bignum::BigNum;
use vstd::arithmetic::power2::lemma2_to64;
use vstd::arithmetic::power2::lemma_pow2_adds;
use vstd::arithmetic::power2::lemma_pow2_pos;
use vstd::arithmetic::power2::lemma_pow2_strictly_increases;
use vstd::arithmetic::power2::lemma_pow2_unfold;
use vstd::arithmetic::power2::pow2;
use vstd::prelude::*;

verus! {

/// The weight of the sign bit.
pub const SIGN_WEIGHT: u64 = 0x8000_0000_0000_0000;

/// The weight of the lowest exponent bit.
pub const EXPONENT_WEIGHT: u64 = 0x0010_0000_0000_0000;

/// The exponent field of the infinities and the NaNs.
pub const SPECIAL_EXPONENT: u64 = 2047;

/// The bit pattern every NaN is canonicalized to.
pub const CANONICAL_NAN_BITS: u64 = 0x7ff8_0000_0000_0000;

/// How two ordered things compare.
#[derive(Clone, Copy, PartialEq, Eq, Debug, Structural)]
pub enum Order {
    /// The first is smaller.
    Less,
    /// Neither is smaller.
    Equal,
    /// The first is larger.
    Greater,
}

impl Order {
    /// The order seen from the other side.
    pub fn reverse(self) -> (r: Order)
        ensures
            r == self.reversed(),
    {
        match self {
            Order::Less => Order::Greater,
            Order::Equal => Order::Equal,
            Order::Greater => Order::Less,
        }
    }

    /// The order seen from the other side.
    pub open spec fn reversed(self) -> Order {
        match self {
            Order::Less => Order::Greater,
            Order::Equal => Order::Equal,
            Order::Greater => Order::Less,
        }
    }
}

/// The order of two integers.
pub open spec fn int_order(a: int, b: int) -> Order {
    if a < b {
        Order::Less
    } else if a == b {
        Order::Equal
    } else {
        Order::Greater
    }
}

/// The sign bit is set.
pub open spec fn negative(bits: u64) -> bool {
    bits >= SIGN_WEIGHT
}

/// All bits but the sign.
pub open spec fn unsigned_part(bits: u64) -> int {
    bits as int % SIGN_WEIGHT as int
}

/// The biased exponent.
pub open spec fn exponent_field(bits: u64) -> int {
    unsigned_part(bits) / EXPONENT_WEIGHT as int
}

/// The stored fraction bits.
pub open spec fn fraction(bits: u64) -> int {
    bits as int % EXPONENT_WEIGHT as int
}

/// Not a number.
pub open spec fn nan(bits: u64) -> bool {
    exponent_field(bits) == 2047 && fraction(bits) != 0
}

/// Positive or negative infinity.
pub open spec fn infinite(bits: u64) -> bool {
    exponent_field(bits) == 2047 && fraction(bits) == 0
}

/// Neither an infinity nor a NaN.
pub open spec fn finite(bits: u64) -> bool {
    exponent_field(bits) != 2047
}

/// The integer significand: the stored fraction, with the implicit leading bit of a normal
/// number.
pub open spec fn significand(bits: u64) -> int {
    if exponent_field(bits) == 0 {
        fraction(bits)
    } else {
        fraction(bits) + EXPONENT_WEIGHT as int
    }
}

/// The power of two the significand counts, above the smallest one (`2^-1074`).
pub open spec fn scale(bits: u64) -> nat {
    if exponent_field(bits) == 0 {
        0
    } else {
        (exponent_field(bits) - 1) as nat
    }
}

/// The exact value of a finite float, in units of `2^-1074`.
pub open spec fn scaled(bits: u64) -> int {
    if negative(bits) {
        -(significand(bits) * pow2(scale(bits)))
    } else {
        significand(bits) * pow2(scale(bits))
    }
}

/// The exact value of an integer, in units of `2^-1074`.
pub open spec fn scaled_int(v: int) -> int {
    v * pow2(1074)
}

/// A finite float without a fractional part.
pub open spec fn integral(bits: u64) -> bool {
    finite(bits) && scaled(bits) % (pow2(1074) as int) == 0
}

/// The integer an integral float is.
pub open spec fn integral_value(bits: u64) -> int {
    scaled(bits) / (pow2(1074) as int)
}

/// The exact mathematical value of a number.
pub enum Exact {
    /// A finite value, in units of `2^-1074`.
    Finite(int),
    /// Positive (`false`) or negative (`true`) infinity.
    Infinite(bool),
    /// Not a number.
    Nan,
}

/// The exact value of a float.
pub open spec fn exact_float(bits: u64) -> Exact {
    if nan(bits) {
        Exact::Nan
    } else if infinite(bits) {
        Exact::Infinite(negative(bits))
    } else {
        Exact::Finite(scaled(bits))
    }
}

/// The exact value of an integer.
pub open spec fn exact_int(v: int) -> Exact {
    Exact::Finite(scaled_int(v))
}

/// The order of two exact values; a NaN has none.
pub open spec fn exact_order(a: Exact, b: Exact) -> Option<Order> {
    match (a, b) {
        (Exact::Nan, _) => None,
        (_, Exact::Nan) => None,
        (Exact::Finite(x), Exact::Finite(y)) => Some(int_order(x, y)),
        (Exact::Infinite(x), Exact::Infinite(y)) => Some(
            if x == y {
                Order::Equal
            } else if x {
                Order::Less
            } else {
                Order::Greater
            },
        ),
        (Exact::Infinite(x), _) => Some(
            if x {
                Order::Less
            } else {
                Order::Greater
            },
        ),
        (_, Exact::Infinite(y)) => Some(
            if y {
                Order::Greater
            } else {
                Order::Less
            },
        ),
    }
}

/// Two results of one float operation: the same bits, unless both are NaNs, whose payload
/// no operation fixes.
pub open spec fn same_float(r: u64, expected: u64) -> bool {
    r == expected || nan(r) && nan(expected)
}

/// The bit pattern of the rounded sum of two floats.
pub uninterp spec fn float_sum(x: u64, y: u64) -> u64;

/// The bit pattern of the rounded difference of two floats.
pub uninterp spec fn float_difference(x: u64, y: u64) -> u64;

/// The bit pattern of the rounded product of two floats.
pub uninterp spec fn float_product(x: u64, y: u64) -> u64;

/// The bit pattern of the rounded quotient of two floats.
pub uninterp spec fn float_quotient(x: u64, y: u64) -> u64;

/// The bit pattern of the truncated remainder of two floats.
pub uninterp spec fn float_remainder(x: u64, y: u64) -> u64;

/// The bit pattern of the largest integral float not above a float.
pub uninterp spec fn float_floor(x: u64) -> u64;

/// The bit pattern of `libm`'s power function.
pub uninterp spec fn float_power(x: u64, y: u64) -> u64;

/// The bit pattern of `libm`'s sine.
pub uninterp spec fn float_sine(x: u64) -> u64;

/// The bit pattern of `libm`'s cosine.
pub uninterp spec fn float_cosine(x: u64) -> u64;

/// A float's decimal text with one digit after the point.
pub uninterp spec fn float_text_fixed(x: u64) -> Seq<char>;

/// A float's shortest decimal text that reads back as the same float.
pub uninterp spec fn float_text_shortest(x: u64) -> Seq<char>;

/// `core::ops::Add` on two floats, given and returned as bit patterns. The result depends on
/// the two patterns alone, but for the payload of a NaN: it is `float_sum` of them.
#[verifier::external_body]
pub(crate) fn add_floats(x: u64, y: u64) -> (r: u64)
    ensures
        same_float(r, float_sum(x, y)),
{
    let a = num_traits::FromBytes::from_le_bytes(&x.to_le_bytes());
    let b = num_traits::FromBytes::from_le_bytes(&y.to_le_bytes());
    (libm::copysign(a, a) + libm::copysign(b, b)).to_bits()
}

/// `core::ops::Sub` on two floats, given and returned as bit patterns. The result depends on
/// the two patterns alone, but for the payload of a NaN: it is `float_difference` of them.
#[verifier::external_body]
pub(crate) fn subtract_floats(x: u64, y: u64) -> (r: u64)
    ensures
        same_float(r, float_difference(x, y)),
{
    let a = num_traits::FromBytes::from_le_bytes(&x.to_le_bytes());
    let b = num_traits::FromBytes::from_le_bytes(&y.to_le_bytes());
    (libm::copysign(a, a) - libm::copysign(b, b)).to_bits()
}

/// `core::ops::Mul` on two floats, given and returned as bit patterns. The result depends on
/// the two patterns alone, but for the payload of a NaN: it is `float_product` of them.
#[verifier::external_body]
pub(crate) fn multiply_floats(x: u64, y: u64) -> (r: u64)
    ensures
        same_float(r, float_product(x, y)),
{
    let a = num_traits::FromBytes::from_le_bytes(&x.to_le_bytes());
    let b = num_traits::FromBytes::from_le_bytes(&y.to_le_bytes());
    (libm::copysign(a, a) * libm::copysign(b, b)).to_bits()
}

/// `core::ops::Div` on two floats, given and returned as bit patterns. The result depends on
/// the two patterns alone, but for the payload of a NaN: it is `float_quotient` of them.
#[verifier::external_body]
pub(crate) fn divide_floats(x: u64, y: u64) -> (r: u64)
    ensures
        same_float(r, float_quotient(x, y)),
{
    let a = num_traits::FromBytes::from_le_bytes(&x.to_le_bytes());
    let b = num_traits::FromBytes::from_le_bytes(&y.to_le_bytes());
    (libm::copysign(a, a) / libm::copysign(b, b)).to_bits()
}

/// `core::ops::Rem` on two floats (the remainder of truncated division), given and returned
/// as bit patterns. The result depends on the two patterns alone, but for the payload of a
/// NaN: it is `float_remainder` of them.
#[verifier::external_body]
pub(crate) fn remainder_floats(x: u64, y: u64) -> (r: u64)
    ensures
        same_float(r, float_remainder(x, y)),
{
    let a = num_traits::FromBytes::from_le_bytes(&x.to_le_bytes());
    let b = num_traits::FromBytes::from_le_bytes(&y.to_le_bytes());
    (libm::copysign(a, a) % libm::copysign(b, b)).to_bits()
}

/// The float method `floor`, given and returning a bit pattern. The result depends on the
/// pattern alone, but for the payload of a NaN: it is `float_floor` of it.
#[verifier::external_body]
pub(crate) fn floor_float(x: u64) -> (r: u64)
    ensures
        same_float(r, float_floor(x)),
{
    let a = num_traits::FromBytes::from_le_bytes(&x.to_le_bytes());
    libm::copysign(a, a).floor().to_bits()
}

/// `libm::pow`, on bit patterns. It is computed with plain float operations, the same on
/// every machine: the result is `float_power` of the patterns, but for the payload of a NaN.
#[verifier::external_body]
pub(crate) fn power_floats(x: u64, y: u64) -> (r: u64)
    ensures
        same_float(r, float_power(x, y)),
{
    let a = num_traits::FromBytes::from_le_bytes(&x.to_le_bytes());
    let b = num_traits::FromBytes::from_le_bytes(&y.to_le_bytes());
    libm::pow(a, b).to_bits()
}

/// `libm::sin`, on bit patterns. It is computed with plain float operations, the same on
/// every machine: the result is `float_sine` of the pattern, but for the payload of a NaN.
#[verifier::external_body]
pub(crate) fn sine_float(x: u64) -> (r: u64)
    ensures
        same_float(r, float_sine(x)),
{
    libm::sin(num_traits::FromBytes::from_le_bytes(&x.to_le_bytes())).to_bits()
}

/// `libm::cos`, on bit patterns. It is computed with plain float operations, the same on
/// every machine: the result is `float_cosine` of the pattern, but for the payload of a NaN.
#[verifier::external_body]
pub(crate) fn cosine_float(x: u64) -> (r: u64)
    ensures
        same_float(r, float_cosine(x)),
{
    libm::cos(num_traits::FromBytes::from_le_bytes(&x.to_le_bytes())).to_bits()
}

/// `core::fmt::Display` of a float with a precision of one digit after the point. The text
/// depends on the bit pattern alone: it is `float_text_fixed` of it.
#[verifier::external_body]
pub(crate) fn fixed_text(x: u64) -> (r: String)
    ensures
        r@ == float_text_fixed(x),
{
    let a = num_traits::FromBytes::from_le_bytes(&x.to_le_bytes());
    format!("{:.1}", libm::copysign(a, a))
}

/// `core::fmt::Display` of a float without a precision: the shortest decimal text that reads
/// back as the float. The text depends on the bit pattern alone: it is `float_text_shortest`
/// of it.
#[verifier::external_body]
pub(crate) fn shortest_text(x: u64) -> (r: String)
    ensures
        r@ == float_text_shortest(x),
{
    let a = num_traits::FromBytes::from_le_bytes(&x.to_le_bytes());
    format!("{}", libm::copysign(a, a))
}

/// Whether the float is neither an infinity nor a NaN.
pub fn is_finite(bits: u64) -> (r: bool)
    ensures
        r == finite(bits),
{
    (bits % SIGN_WEIGHT) / EXPONENT_WEIGHT != SPECIAL_EXPONENT
}

/// Whether the float is a NaN.
pub fn is_nan(bits: u64) -> (r: bool)
    ensures
        r == nan(bits),
{
    (bits % SIGN_WEIGHT) / EXPONENT_WEIGHT == SPECIAL_EXPONENT && bits % EXPONENT_WEIGHT != 0
}

/// Whether the float is positive or negative zero.
pub fn is_zero(bits: u64) -> (r: bool)
    ensures
        r == (exact_float(bits) == Exact::Finite(0)),
{
    proof {
        lemma_zero(bits);
    }
    bits % SIGN_WEIGHT == 0
}

/// The float with its sign flipped.
pub fn negate(bits: u64) -> (r: u64)
    ensures
        negative(r) != negative(bits),
        unsigned_part(r) == unsigned_part(bits),
{
    if bits >= SIGN_WEIGHT {
        bits - SIGN_WEIGHT
    } else {
        bits + SIGN_WEIGHT
    }
}

/// The float as a pair of a signed significand and a power of two.
pub fn decompose(bits: u64) -> (r: (BigNum, i32))
    requires
        finite(bits),
    ensures
        r.0.wf(),
        -1074 <= r.1 <= 971,
        r.0@ == (if negative(bits) { -significand(bits) } else { significand(bits) }),
        r.1 + 1074 == scale(bits),
        scaled(bits) == r.0@ * pow2((r.1 + 1074) as nat),
{
    let field: u64 = (bits % SIGN_WEIGHT) / EXPONENT_WEIGHT;
    let frac: u64 = bits % EXPONENT_WEIGHT;
    proof {
        lemma_field_bounds(bits);
    }
    let (mag, exp): (u64, i32) = if field == 0 {
        (frac, -1074)
    } else {
        (frac + EXPONENT_WEIGHT, field as i32 - 1075)
    };
    let m = BigNum::from_u64(mag);
    proof {
        let p = pow2((exp + 1074) as nat);
        assert(-(mag * p) == (-mag) * p) by (nonlinear_arith);
    }
    if bits >= SIGN_WEIGHT {
        (m.negated(), exp)
    } else {
        (m, exp)
    }
}

/// The order of two floats, exactly; a NaN has none.
pub fn compare_floats(a: u64, b: u64) -> (r: Option<Order>)
    ensures
        r == exact_order(exact_float(a), exact_float(b)),
{
    if is_nan(a) || is_nan(b) {
        return None;
    }
    let (x, y): (u64, u64) = (a % SIGN_WEIGHT, b % SIGN_WEIGHT);
    proof {
        if x < y {
            lemma_magnitude_order(a, b);
        } else if y < x {
            lemma_magnitude_order(b, a);
        }
        lemma_zero(a);
        lemma_zero(b);
        lemma_field_bounds(a);
        lemma_field_bounds(b);
        lemma_sign(a);
        lemma_sign(b);
    }
    let (na, nb): (bool, bool) = (a >= SIGN_WEIGHT, b >= SIGN_WEIGHT);
    if x == 0 && y == 0 {
        Some(Order::Equal)
    } else if na != nb {
        if na {
            Some(Order::Less)
        } else {
            Some(Order::Greater)
        }
    } else if x == y {
        Some(Order::Equal)
    } else if (x < y) != na {
        Some(Order::Less)
    } else {
        Some(Order::Greater)
    }
}

/// The order of an integer and a float, exactly; a NaN has none.
pub fn compare_int_float(n: &BigNum, x: u64) -> (r: Option<Order>)
    ensures
        r == exact_order(exact_int(n@), exact_float(x)),
{
    if is_nan(x) {
        return None;
    }
    if !is_finite(x) {
        return Some(
            if x < SIGN_WEIGHT {
                Order::Less
            } else {
                Order::Greater
            },
        );
    }
    let (mant, exp) = decompose(x);
    if exp >= 0 {
        let whole = mant.shifted_left(exp as usize);
        proof {
            lemma_pow2_adds(exp as nat, 1074);
            lemma_pow2_pos(1074);
            let (m, p, q) = (mant@, pow2(exp as nat) as int, pow2(1074) as int);
            assert(m * (p * q) == (m * p) * q) by (nonlinear_arith);
            assert(scaled(x) == whole@ * q);
            lemma_scaling(n@, whole@, q);
        }
        Some(order_ints(n, &whole))
    } else {
        let places: usize = (-exp) as usize;
        let raised = n.shifted_left(places);
        proof {
            let (p, q) = (pow2((exp + 1074) as nat) as int, pow2(places as nat) as int);
            lemma_pow2_adds((exp + 1074) as nat, places as nat);
            lemma_pow2_pos((exp + 1074) as nat);
            assert(n@ * (p * q) == (n@ * q) * p) by (nonlinear_arith);
            lemma_scaling(raised@, mant@, p);
        }
        Some(order_ints(&raised, &mant))
    }
}

/// The order of two integers.
pub fn order_ints(a: &BigNum, b: &BigNum) -> (r: Order)
    ensures
        r == int_order(a@, b@),
{
    if a.less_than(b) {
        Order::Less
    } else if b.less_than(a) {
        Order::Greater
    } else {
        Order::Equal
    }
}

/// The integer a float is, where it has no fractional part.
pub fn exact_integer(bits: u64) -> (r: Option<BigNum>)
    ensures
        r is Some <==> integral(bits),
        r is Some ==> r->0@ == integral_value(bits) && r->0.wf(),
{
    if !is_finite(bits) {
        return None;
    }
    let (mant, exp) = decompose(bits);
    proof {
        lemma_pow2_pos(1074);
    }
    let ghost q = pow2(1074) as int;
    if exp >= 0 {
        let whole = mant.shifted_left(exp as usize);
        proof {
            lemma_pow2_adds(exp as nat, 1074);
            let (m, p) = (mant@, pow2(exp as nat) as int);
            assert(m * (p * q) == (m * p) * q) by (nonlinear_arith);
            vstd::arithmetic::div_mod::lemma_div_multiples_vanish(whole@, q);
            vstd::arithmetic::div_mod::lemma_mod_multiples_basic(whole@, q);
            assert(whole@ * q == q * whole@) by (nonlinear_arith);
        }
        return Some(whole);
    }
    let places: usize = (-exp) as usize;
    let half = mant.shifted_right(places);
    let back = half.shifted_left(places);
    proof {
        let (m, p, h) = (mant@, pow2(places as nat) as int, half@);
        let s = pow2((exp + 1074) as nat) as int;
        lemma_pow2_pos(places as nat);
        lemma_pow2_pos((exp + 1074) as nat);
        lemma_pow2_adds((exp + 1074) as nat, places as nat);
        assert(q == p * s) by (nonlinear_arith)
            requires
                q == s * p,
        ;
        vstd::arithmetic::div_mod::lemma_fundamental_div_mod(m, p);
        assert(h * p == p * h) by (nonlinear_arith);
        let rest = s * (m % p);
        assert(m * s == h * q + rest && 0 <= rest < q) by (nonlinear_arith)
            requires
                m == p * h + m % p,
                q == p * s,
                rest == s * (m % p),
                0 <= m % p < p,
                s > 0,
        ;
        vstd::arithmetic::div_mod::lemma_fundamental_div_mod_converse(m * s, q, h, rest);
        assert(scaled(bits) % q == s * (m % p));
        assert(s * (m % p) == 0 <==> m % p == 0) by (nonlinear_arith)
            requires
                s > 0,
        ;
        if m % p == 0 {
            assert(m * s == h * q) by (nonlinear_arith)
                requires
                    m == p * h,
                    q == p * s,
            ;
            vstd::arithmetic::div_mod::lemma_div_multiples_vanish(h, q);
            assert(h * q == q * h) by (nonlinear_arith);
        }
    }
    if back.less_than(&mant) || mant.less_than(&back) {
        None
    } else {
        Some(half)
    }
}

/// A positive factor changes neither an order nor an equality.
pub proof fn lemma_scaling(a: int, b: int, p: int)
    requires
        p > 0,
    ensures
        int_order(a * p, b * p) == int_order(a, b),
{
    if a < b {
        assert(a * p < b * p) by (nonlinear_arith)
            requires
                a < b,
                p > 0,
        ;
    } else if a > b {
        assert(a * p > b * p) by (nonlinear_arith)
            requires
                a > b,
                p > 0,
        ;
    }
}

/// The ranges of the fields of a bit pattern.
proof fn lemma_field_bounds(bits: u64)
    ensures
        0 <= exponent_field(bits) <= 2047,
        0 <= fraction(bits) < EXPONENT_WEIGHT,
        unsigned_part(bits) == exponent_field(bits) * EXPONENT_WEIGHT + fraction(bits),
        unsigned_part(bits) == (if negative(bits) { bits - SIGN_WEIGHT } else { bits as int }),
{
}

/// A float is zero exactly where all its bits but the sign are.
proof fn lemma_zero(bits: u64)
    ensures
        unsigned_part(bits) == 0 <==> exact_float(bits) == Exact::Finite(0),
        unsigned_part(bits) == 0 <==> significand(bits) == 0,
{
    lemma_field_bounds(bits);
    lemma_pow2_pos(scale(bits));
    let (s, p) = (significand(bits), pow2(scale(bits)) as int);
    if s != 0 {
        assert(s * p != 0) by (nonlinear_arith)
            requires
                s != 0,
                p > 0,
        ;
    } else {
        assert(s * p == 0) by (nonlinear_arith)
            requires
                s == 0,
        ;
    }
}

/// The sign of a float's exact value.
proof fn lemma_sign(bits: u64)
    ensures
        negative(bits) ==> scaled(bits) <= 0,
        !negative(bits) ==> scaled(bits) >= 0,
{
    lemma_field_bounds(bits);
    lemma_pow2_pos(scale(bits));
    let (s, p) = (significand(bits), pow2(scale(bits)) as int);
    assert(s * p >= 0) by (nonlinear_arith)
        requires
            s >= 0,
            p > 0,
    ;
}

/// A larger bit pattern has a larger exact magnitude.
proof fn lemma_magnitude_order(a: u64, b: u64)
    requires
        unsigned_part(a) < unsigned_part(b),
    ensures
        significand(a) * pow2(scale(a)) < significand(b) * pow2(scale(b)),
{
    lemma_field_bounds(a);
    lemma_field_bounds(b);
    let (e, f) = (exponent_field(a), exponent_field(b));
    let (s, t) = (significand(a), significand(b));
    let (p, q) = (pow2(scale(a)) as int, pow2(scale(b)) as int);
    lemma_pow2_pos(scale(a));
    lemma_pow2_pos(scale(b));
    if e == f {
        assert(s * p < t * p) by (nonlinear_arith)
            requires
                s < t,
                p > 0,
        ;
    } else {
        assert(e < f);
        let w = EXPONENT_WEIGHT as int;
        lemma2_to64();
        if e == 0 {
            assert(p == 1);
            assert(s * p == s) by (nonlinear_arith)
                requires
                    p == 1,
            ;
            assert(w <= w * q) by (nonlinear_arith)
                requires
                    w > 0,
                    q >= 1,
            ;
        } else {
            lemma_pow2_unfold(e as nat);
            assert(pow2(e as nat) == 2 * p);
            if e < f - 1 {
                lemma_pow2_strictly_increases(e as nat, (f - 1) as nat);
            }
            assert(2 * p <= q);
            assert(s * p < (2 * w) * p) by (nonlinear_arith)
                requires
                    s < 2 * w,
                    p > 0,
            ;
            assert((2 * w) * p <= w * q) by (nonlinear_arith)
                requires
                    2 * p <= q,
                    w > 0,
            ;
        }
        assert(w * q <= t * q) by (nonlinear_arith)
            requires
                w <= t,
                q > 0,
        ;
    }
}

/// Floats with one exact value that is not zero are one bit pattern.
pub proof fn lemma_exact_unique(a: u64, b: u64)
    requires
        finite(a),
        finite(b),
        scaled(a) == scaled(b),
        scaled(a) != 0,
    ensures
        a == b,
{
    lemma_sign(a);
    lemma_sign(b);
    lemma_field_bounds(a);
    lemma_field_bounds(b);
    if unsigned_part(a) < unsigned_part(b) {
        lemma_magnitude_order(a, b);
    } else if unsigned_part(b) < unsigned_part(a) {
        lemma_magnitude_order(b, a);
    }
}

/// Floats of one exact value are one bit pattern, or both NaNs, or both zero.
pub proof fn lemma_exact_float_unique(a: u64, b: u64)
    requires
        exact_float(a) == exact_float(b),
    ensures
        a == b || nan(a) && nan(b) || {
            &&& integral(a)
            &&& integral(b)
            &&& integral_value(a) == integral_value(b)
            &&& scaled(a) == 0
        },
{
    lemma_field_bounds(a);
    lemma_field_bounds(b);
    if finite(a) && finite(b) {
        if scaled(a) != 0 {
            lemma_exact_unique(a, b);
        } else {
            lemma_pow2_pos(1074);
            vstd::arithmetic::div_mod::lemma_small_mod(0, pow2(1074));
        }
    }
}

/// An integer and a float of one exact value: the float is integral, and is that integer.
pub proof fn lemma_int_float_equal(n: int, bits: u64)
    requires
        exact_int(n) == exact_float(bits),
    ensures
        integral(bits),
        integral_value(bits) == n,
{
    let q = pow2(1074) as int;
    lemma_pow2_pos(1074);
    vstd::arithmetic::div_mod::lemma_div_multiples_vanish(n, q);
    vstd::arithmetic::div_mod::lemma_mod_multiples_basic(n, q);
    assert(n * q == q * n) by (nonlinear_arith);
}

/// Distinct integers have distinct exact values.
pub proof fn lemma_exact_int_unique(a: int, b: int)
    requires
        exact_int(a) == exact_int(b),
    ensures
        a == b,
{
    lemma_pow2_pos(1074);
    lemma_scaling(a, b, pow2(1074) as int);
}

/// The exact order is total but for NaNs, and reversing the operands reverses it; it calls
/// two values equal exactly where they are one value that is not a NaN.
pub proof fn law_exact_order(a: Exact, b: Exact)
    ensures
        exact_order(a, b) is None <==> a is Nan || b is Nan,
        exact_order(a, b) is Some ==> exact_order(b, a) == Some(exact_order(a, b)->0.reversed()),
        exact_order(a, b) == Some(Order::Equal) <==> a == b && !(a is Nan),
{
}

} // verus!
