//! Integers of any magnitude, held as shortest two's-complement bytes (least significant
//! byte first). The byte string is the whole representation, so equal integers are equal
//! byte strings; the arithmetic itself is `num_bigint`'s.
use num_bigint::BigInt;
use vstd::arithmetic::power::lemma_pow_increases;
use vstd::arithmetic::power::lemma_pow_positive;
use vstd::arithmetic::power::pow;
use vstd::arithmetic::power2::pow2;
use vstd::prelude::*;

verus! {

/// The natural number a little-endian byte string spells.
pub open spec fn unsigned_value(bytes: Seq<u8>) -> int
    decreases bytes.len(),
{
    if bytes.len() == 0 {
        0
    } else {
        unsigned_value(bytes.drop_last()) + bytes.last() * pow(256, (bytes.len() - 1) as nat)
    }
}

/// The integer a little-endian two's-complement byte string spells.
pub open spec fn signed_value(bytes: Seq<u8>) -> int {
    if bytes.len() > 0 && bytes.last() >= 128 {
        unsigned_value(bytes) - pow(256, bytes.len())
    } else {
        unsigned_value(bytes)
    }
}

/// No byte of a two's-complement string is a mere sign extension.
pub open spec fn shortest(bytes: Seq<u8>) -> bool {
    &&& bytes.len() >= 1
    &&& bytes.len() >= 2 ==> {
        let prev = bytes[bytes.len() - 2];
        &&& !(bytes.last() == 0 && prev < 128)
        &&& !(bytes.last() == 255 && prev >= 128)
    }
}

/// The shortest byte string of an integer.
pub open spec fn int_bytes(v: int) -> Seq<u8> {
    choose|bytes: Seq<u8>| shortest(bytes) && #[trigger] signed_value(bytes) == v
}

/// The number of bits in the binary form of `n` (`0` for `0`).
pub open spec fn bit_length(n: nat) -> nat
    decreases n,
{
    if n == 0 {
        0
    } else {
        1 + bit_length(n / 2)
    }
}

/// The magnitude of `v`.
pub open spec fn magnitude(v: int) -> nat {
    if v < 0 {
        (-v) as nat
    } else {
        v as nat
    }
}

/// Division rounded toward negative infinity.
pub open spec fn floor_div(a: int, b: int) -> int
    recommends
        b != 0,
{
    if b > 0 {
        a / b
    } else {
        (-a) / (-b)
    }
}

/// The remainder of division rounded toward negative infinity: it has the divisor's sign.
pub open spec fn floor_mod(a: int, b: int) -> int
    recommends
        b != 0,
{
    a - b * floor_div(a, b)
}

/// The value of a digit character in a radix of at most 36, or -1.
pub open spec fn digit_value(c: char) -> int {
    if '0' <= c && c <= '9' {
        c as int - '0' as int
    } else if 'a' <= c && c <= 'z' {
        c as int - 'a' as int + 10
    } else if 'A' <= c && c <= 'Z' {
        c as int - 'A' as int + 10
    } else {
        -1
    }
}

/// The number a run of digits and `_` separators spells in `radix`.
pub open spec fn digits_value(s: Seq<char>, radix: int) -> Option<int>
    decreases s.len(),
{
    if s.len() == 0 {
        Some(0)
    } else {
        match digits_value(s.drop_last(), radix) {
            None => None,
            Some(m) => if s.last() == '_' {
                Some(m)
            } else if 0 <= digit_value(s.last()) < radix {
                Some(m * radix + digit_value(s.last()))
            } else {
                None
            },
        }
    }
}

/// The number an unsigned literal spells: one optional `+`, then digits, the first of
/// which is not a separator.
pub open spec fn unsigned_literal(s: Seq<char>, radix: int) -> Option<int> {
    let t = if s.len() > 0 && s[0] == '+' && !(s.len() > 1 && s[1] == '+') {
        s.skip(1)
    } else {
        s
    };
    if t.len() == 0 || t[0] == '_' {
        None
    } else {
        digits_value(t, radix)
    }
}

/// The integer a signed literal spells, or nothing when it is malformed.
pub open spec fn int_literal(s: Seq<char>, radix: int) -> Option<int> {
    if s.len() > 0 && s[0] == '-' {
        let t = if s.len() > 1 && s[1] == '+' {
            s
        } else {
            s.skip(1)
        };
        match unsigned_literal(t, radix) {
            None => None,
            Some(m) => Some(-m),
        }
    } else {
        unsigned_literal(s, radix)
    }
}

/// The decimal digits of a natural number, most significant first.
pub open spec fn decimal_digits(n: nat) -> Seq<char>
    decreases n,
{
    if n < 10 {
        seq![('0' as u32 + n as u32) as char]
    } else {
        decimal_digits(n / 10).push(('0' as u32 + (n % 10) as u32) as char)
    }
}

/// The decimal text of an integer.
pub open spec fn decimal_text(v: int) -> Seq<char> {
    if v < 0 {
        seq!['-'] + decimal_digits((-v) as nat)
    } else {
        decimal_digits(v as nat)
    }
}

/// The bit pattern of the binary64 number `num_bigint` rounds an integer to, if any.
pub uninterp spec fn int_to_float(v: int) -> Option<u64>;

/// An integer of any magnitude.
#[derive(PartialEq, Eq, Debug)]
pub struct BigNum {
    /// Shortest two's-complement bytes, least significant first.
    pub bytes: Vec<u8>,
}

impl View for BigNum {
    type V = int;

    open spec fn view(&self) -> int {
        signed_value(self.bytes@)
    }
}

impl BigNum {
    /// The representation is canonical.
    pub open spec fn wf(&self) -> bool {
        shortest(self.bytes@)
    }

    /// `BigInt::from(i64)`: the same integer.
    #[verifier::external_body]
    pub(crate) fn from_i64(n: i64) -> (r: BigNum)
        ensures
            r@ == n,
            r.wf(),
    {
        BigNum { bytes: BigInt::from(n).to_signed_bytes_le() }
    }

    /// `BigInt::from(u64)`: the same integer.
    #[verifier::external_body]
    pub(crate) fn from_u64(n: u64) -> (r: BigNum)
        ensures
            r@ == n,
            r.wf(),
    {
        BigNum { bytes: BigInt::from(n).to_signed_bytes_le() }
    }

    /// `BigInt::clone`: the same integer.
    #[verifier::external_body]
    pub(crate) fn copy(&self) -> (r: BigNum)
        ensures
            r@ == self@,
            r.wf(),
    {
        BigNum { bytes: BigInt::from_signed_bytes_le(&self.bytes).clone().to_signed_bytes_le() }
    }

    /// `BigInt + BigInt`: the sum.
    #[verifier::external_body]
    pub(crate) fn plus(&self, other: &BigNum) -> (r: BigNum)
        ensures
            r@ == self@ + other@,
            r.wf(),
    {
        let (a, b) = (
            BigInt::from_signed_bytes_le(&self.bytes),
            BigInt::from_signed_bytes_le(&other.bytes),
        );
        BigNum { bytes: (a + b).to_signed_bytes_le() }
    }

    /// `BigInt - BigInt`: the difference.
    #[verifier::external_body]
    pub(crate) fn minus(&self, other: &BigNum) -> (r: BigNum)
        ensures
            r@ == self@ - other@,
            r.wf(),
    {
        let (a, b) = (
            BigInt::from_signed_bytes_le(&self.bytes),
            BigInt::from_signed_bytes_le(&other.bytes),
        );
        BigNum { bytes: (a - b).to_signed_bytes_le() }
    }

    /// `BigInt * BigInt`: the product.
    #[verifier::external_body]
    pub(crate) fn times(&self, other: &BigNum) -> (r: BigNum)
        ensures
            r@ == self@ * other@,
            r.wf(),
    {
        let (a, b) = (
            BigInt::from_signed_bytes_le(&self.bytes),
            BigInt::from_signed_bytes_le(&other.bytes),
        );
        BigNum { bytes: (a * b).to_signed_bytes_le() }
    }

    /// `-BigInt`: the opposite integer.
    #[verifier::external_body]
    pub(crate) fn negated(&self) -> (r: BigNum)
        ensures
            r@ == -self@,
            r.wf(),
    {
        BigNum { bytes: (-BigInt::from_signed_bytes_le(&self.bytes)).to_signed_bytes_le() }
    }

    /// `num_integer::Integer::div_floor` on `BigInt`: the quotient rounded toward negative
    /// infinity. It panics on a zero divisor.
    #[verifier::external_body]
    pub(crate) fn div_floor(&self, other: &BigNum) -> (r: BigNum)
        requires
            other@ != 0,
        ensures
            r@ == floor_div(self@, other@),
            r.wf(),
    {
        let (a, b) = (
            BigInt::from_signed_bytes_le(&self.bytes),
            BigInt::from_signed_bytes_le(&other.bytes),
        );
        BigNum { bytes: num_integer::Integer::div_floor(&a, &b).to_signed_bytes_le() }
    }

    /// `num_integer::Integer::mod_floor` on `BigInt`: the remainder that goes with
    /// `div_floor`. It panics on a zero divisor.
    #[verifier::external_body]
    pub(crate) fn mod_floor(&self, other: &BigNum) -> (r: BigNum)
        requires
            other@ != 0,
        ensures
            r@ == floor_mod(self@, other@),
            r.wf(),
    {
        let (a, b) = (
            BigInt::from_signed_bytes_le(&self.bytes),
            BigInt::from_signed_bytes_le(&other.bytes),
        );
        BigNum { bytes: num_integer::Integer::mod_floor(&a, &b).to_signed_bytes_le() }
    }

    /// `num_traits::Pow::pow` of a `BigInt` by a `u32`: repeated multiplication, with
    /// `0` to the power `0` being `1`.
    #[verifier::external_body]
    pub(crate) fn power(&self, exponent: u32) -> (r: BigNum)
        ensures
            r@ == pow(self@, exponent as nat),
            r.wf(),
    {
        let a = BigInt::from_signed_bytes_le(&self.bytes);
        BigNum { bytes: num_traits::Pow::pow(a, exponent).to_signed_bytes_le() }
    }

    /// `BigInt << usize`: multiplication by a power of two.
    #[verifier::external_body]
    pub(crate) fn shifted_left(&self, places: usize) -> (r: BigNum)
        requires
            places <= 4096,
        ensures
            r@ == self@ * pow2(places as nat),
            r.wf(),
    {
        BigNum { bytes: (BigInt::from_signed_bytes_le(&self.bytes) << places).to_signed_bytes_le() }
    }

    /// `BigInt >> usize`: division by a power of two, rounded toward negative infinity.
    #[verifier::external_body]
    pub(crate) fn shifted_right(&self, places: usize) -> (r: BigNum)
        ensures
            r@ == self@ / (pow2(places as nat) as int),
            r.wf(),
    {
        BigNum { bytes: (BigInt::from_signed_bytes_le(&self.bytes) >> places).to_signed_bytes_le() }
    }

    /// `BigInt < BigInt`: the integer order.
    #[verifier::external_body]
    pub(crate) fn less_than(&self, other: &BigNum) -> (r: bool)
        ensures
            r == (self@ < other@),
    {
        BigInt::from_signed_bytes_le(&self.bytes) < BigInt::from_signed_bytes_le(&other.bytes)
    }

    /// `BigInt::bits`: the bit length of the magnitude.
    #[verifier::external_body]
    pub(crate) fn bits(&self) -> (r: u64)
        ensures
            r == bit_length(magnitude(self@)),
    {
        BigInt::from_signed_bytes_le(&self.bytes).bits()
    }

    /// `num_traits::Zero::is_zero` on `BigInt`.
    #[verifier::external_body]
    pub(crate) fn is_zero(&self) -> (r: bool)
        ensures
            r == (self@ == 0),
    {
        num_traits::Zero::is_zero(&BigInt::from_signed_bytes_le(&self.bytes))
    }

    /// `num_traits::Signed::is_negative` on `BigInt`.
    #[verifier::external_body]
    pub(crate) fn is_negative(&self) -> (r: bool)
        ensures
            r == (self@ < 0),
    {
        num_traits::Signed::is_negative(&BigInt::from_signed_bytes_le(&self.bytes))
    }

    /// `num_integer::Integer::is_even` on `BigInt`.
    #[verifier::external_body]
    pub(crate) fn is_even(&self) -> (r: bool)
        ensures
            r == (self@ % 2 == 0),
    {
        num_integer::Integer::is_even(&BigInt::from_signed_bytes_le(&self.bytes))
    }

    /// `num_traits::ToPrimitive::to_i64` on `BigInt`: the integer, where `i64` holds it.
    #[verifier::external_body]
    pub(crate) fn to_i64(&self) -> (r: Option<i64>)
        ensures
            r is Some <==> i64::MIN <= self@ <= i64::MAX,
            r is Some ==> r->0 == self@,
    {
        num_traits::ToPrimitive::to_i64(&BigInt::from_signed_bytes_le(&self.bytes))
    }

    /// `num_traits::ToPrimitive::to_u32` on `BigInt`: the integer, where `u32` holds it.
    #[verifier::external_body]
    pub(crate) fn to_u32(&self) -> (r: Option<u32>)
        ensures
            r is Some <==> 0 <= self@ <= u32::MAX,
            r is Some ==> r->0 == self@,
    {
        num_traits::ToPrimitive::to_u32(&BigInt::from_signed_bytes_le(&self.bytes))
    }

    /// `num_traits::ToPrimitive::to_f64` on `BigInt`, as the bit pattern of its result; the
    /// result depends on the integer alone.
    #[verifier::external_body]
    pub(crate) fn to_float(&self) -> (r: Option<u64>)
        ensures
            r == int_to_float(self@),
    {
        match num_traits::ToPrimitive::to_f64(&BigInt::from_signed_bytes_le(&self.bytes)) {
            Some(x) => Some(x.to_bits()),
            None => None,
        }
    }

    /// `num_traits::Num::from_str_radix` on `BigInt`: the literal's integer, or nothing when
    /// the literal is malformed. It panics on a radix outside `2..=36`.
    #[verifier::external_body]
    pub(crate) fn from_text(text: &str, radix: u32) -> (r: Option<BigNum>)
        requires
            2 <= radix <= 36,
        ensures
            r is Some <==> int_literal(text@, radix as int) is Some,
            r is Some ==> r->0@ == int_literal(text@, radix as int)->0 && r->0.wf(),
    {
        match num_traits::Num::from_str_radix(text, radix) {
            Ok(n) => Some(BigNum { bytes: BigInt::to_signed_bytes_le(&n) }),
            Err(_) => None,
        }
    }

    /// `BigInt::to_str_radix` with radix ten: the decimal text.
    #[verifier::external_body]
    pub(crate) fn to_text(&self) -> (r: String)
        ensures
            r@ == decimal_text(self@),
    {
        BigInt::from_signed_bytes_le(&self.bytes).to_str_radix(10)
    }

    /// The integer's decimal text.
    pub fn decimal(&self) -> (r: String)
        ensures
            r@ == decimal_text(self@),
    {
        self.to_text()
    }

    /// The integer a decimal literal spells.
    pub fn parse(text: &str) -> (r: Option<BigNum>)
        ensures
            r is Some <==> int_literal(text@, 10) is Some,
            r is Some ==> r->0@ == int_literal(text@, 10)->0 && r->0.wf(),
    {
        BigNum::from_text(text, 10)
    }
}

/// A byte string of `n` bytes spells a natural number below `256^n`.
pub proof fn lemma_unsigned_bounds(bytes: Seq<u8>)
    ensures
        0 <= unsigned_value(bytes) < pow(256, bytes.len()),
    decreases bytes.len(),
{
    reveal(pow);
    if bytes.len() > 0 {
        lemma_unsigned_bounds(bytes.drop_last());
        let p = pow(256, (bytes.len() - 1) as nat);
        lemma_pow_positive(256, (bytes.len() - 1) as nat);
        assert(pow(256, bytes.len()) == 256 * p);
        let d = bytes.last() as int;
        assert(0 <= d * p <= 255 * p) by (nonlinear_arith)
            requires
                0 <= d <= 255,
                p > 0,
        ;
    }
}

/// The range of a two's-complement string of `n >= 1` bytes, and that only a shorter
/// string can spell what a shortest string of `n >= 2` bytes does not reach.
proof fn lemma_signed_bounds(bytes: Seq<u8>)
    requires
        bytes.len() >= 1,
    ensures
        -128 * pow(256, (bytes.len() - 1) as nat) <= signed_value(bytes) < 128 * pow(
            256,
            (bytes.len() - 1) as nat,
        ),
        signed_value(bytes) < 0 <==> bytes.last() >= 128,
        bytes.len() >= 2 && shortest(bytes) ==> {
            let q = pow(256, (bytes.len() - 2) as nat);
            signed_value(bytes) >= 128 * q || signed_value(bytes) < -128 * q
        },
{
    reveal(pow);
    let n = bytes.len();
    let p = pow(256, (n - 1) as nat);
    let prefix = bytes.drop_last();
    let d = bytes.last() as int;
    lemma_pow_positive(256, (n - 1) as nat);
    lemma_unsigned_bounds(prefix);
    assert(pow(256, n) == 256 * p);
    let u = unsigned_value(prefix);
    assert(unsigned_value(bytes) == u + d * p);
    if d >= 128 {
        assert(signed_value(bytes) == u + (d - 256) * p) by (nonlinear_arith)
            requires
                signed_value(bytes) == u + d * p - 256 * p,
        ;
        assert(-128 * p <= (d - 256) * p <= -1 * p) by (nonlinear_arith)
            requires
                128 <= d <= 255,
                p > 0,
        ;
    } else {
        assert(0 <= d * p <= 127 * p) by (nonlinear_arith)
            requires
                0 <= d <= 127,
                p > 0,
        ;
    }
    if n >= 2 && shortest(bytes) {
        let q = pow(256, (n - 2) as nat);
        lemma_pow_positive(256, (n - 2) as nat);
        assert(p == 256 * q);
        let rest = prefix.drop_last();
        let e = prefix.last() as int;
        assert(e == bytes[n - 2]);
        lemma_unsigned_bounds(rest);
        assert(u == unsigned_value(rest) + e * q);
        if d == 0 {
            assert(e * q >= 128 * q) by (nonlinear_arith)
                requires
                    e >= 128,
                    q > 0,
            ;
        } else if d < 128 {
            assert(d * p >= p) by (nonlinear_arith)
                requires
                    d >= 1,
                    p > 0,
            ;
        } else if d == 255 {
            assert(e * q <= 127 * q) by (nonlinear_arith)
                requires
                    e <= 127,
                    q > 0,
            ;
            assert((d - 256) * p == -p) by (nonlinear_arith)
                requires
                    d == 255,
            ;
        } else {
            assert((d - 256) * p <= -2 * p) by (nonlinear_arith)
                requires
                    d <= 254,
                    p > 0,
            ;
        }
    }
}

/// Byte strings of one length that spell one number are one string.
proof fn lemma_unsigned_injective(a: Seq<u8>, b: Seq<u8>)
    requires
        a.len() == b.len(),
        unsigned_value(a) == unsigned_value(b),
    ensures
        a == b,
    decreases a.len(),
{
    if a.len() > 0 {
        let p = pow(256, (a.len() - 1) as nat);
        lemma_pow_positive(256, (a.len() - 1) as nat);
        lemma_unsigned_bounds(a.drop_last());
        lemma_unsigned_bounds(b.drop_last());
        let (u, v) = (unsigned_value(a.drop_last()), unsigned_value(b.drop_last()));
        let (d, e) = (a.last() as int, b.last() as int);
        assert(d == e && u == v) by (nonlinear_arith)
            requires
                0 <= u < p,
                0 <= v < p,
                u + d * p == v + e * p,
        ;
        lemma_unsigned_injective(a.drop_last(), b.drop_last());
        assert(a =~= a.drop_last().push(a.last()));
        assert(b =~= b.drop_last().push(b.last()));
    } else {
        assert(a =~= b);
    }
}

/// Each integer has one shortest byte string.
pub proof fn lemma_shortest_unique(a: Seq<u8>, b: Seq<u8>)
    requires
        shortest(a),
        shortest(b),
        signed_value(a) == signed_value(b),
    ensures
        a == b,
{
    lemma_signed_bounds(a);
    lemma_signed_bounds(b);
    if a.len() < b.len() {
        lemma_pow_increases(256, (a.len() - 1) as nat, (b.len() - 2) as nat);
    } else if b.len() < a.len() {
        lemma_pow_increases(256, (b.len() - 1) as nat, (a.len() - 2) as nat);
    } else {
        lemma_unsigned_injective(a, b);
    }
}

/// A canonical representation holds the shortest byte string of its integer.
pub proof fn lemma_int_bytes(n: BigNum)
    requires
        n.wf(),
    ensures
        n.bytes@ == int_bytes(n@),
{
    lemma_shortest_unique(n.bytes@, int_bytes(n@));
}

/// The decimal digits of a number spell it, and the first of them is a digit.
proof fn lemma_digits_spell(n: nat)
    ensures
        decimal_digits(n).len() >= 1,
        digits_value(decimal_digits(n), 10) == Some(n as int),
        '0' <= decimal_digits(n)[0] && decimal_digits(n)[0] <= '9',
    decreases n,
{
    let s = decimal_digits(n);
    let d = (n % 10) as u32;
    let c = ('0' as u32 + d) as char;
    assert('0' <= c && c <= '9' && digit_value(c) == d);
    if n < 10 {
        assert(s.drop_last() =~= Seq::<char>::empty());
        assert(digits_value(s.drop_last(), 10) == Some(0int));
    } else {
        lemma_digits_spell(n / 10);
        assert(s.drop_last() =~= decimal_digits(n / 10));
        assert(s[0] == decimal_digits(n / 10)[0]);
        assert((n / 10) * 10 + n % 10 == n);
    }
}

/// Reading back an integer's decimal text gives the integer.
pub proof fn law_decimal_round_trip(v: int)
    ensures
        int_literal(decimal_text(v), 10) == Some(v),
{
    if v < 0 {
        let digits = decimal_digits((-v) as nat);
        lemma_digits_spell((-v) as nat);
        let s = decimal_text(v);
        assert(s[0] == '-');
        assert(s.skip(1) =~= digits);
        assert(s[1] == digits[0]);
        assert(unsigned_literal(digits, 10) == digits_value(digits, 10));
    } else {
        lemma_digits_spell(v as nat);
    }
}

/// Floored division: the quotient and remainder rebuild the dividend, and the remainder
/// lies between zero and the divisor, on the divisor's side.
pub proof fn law_floor_division(a: int, b: int)
    requires
        b != 0,
    ensures
        a == b * floor_div(a, b) + floor_mod(a, b),
        b > 0 ==> 0 <= floor_mod(a, b) < b,
        b < 0 ==> b < floor_mod(a, b) <= 0,
{
    if b > 0 {
        vstd::arithmetic::div_mod::lemma_fundamental_div_mod(a, b);
        assert(0 <= a % b < b);
    } else {
        let (c, d) = (-a, -b);
        vstd::arithmetic::div_mod::lemma_fundamental_div_mod(c, d);
        assert(b * (c / d) == -(d * (c / d))) by (nonlinear_arith)
            requires
                d == -b,
        ;
        assert(0 <= c % d < d);
    }
}

} // verus!
