//! Building the texts of messages.
use vstd::prelude::*;

verus! {

/// Two texts, one after the other.
pub fn join2(a: &str, b: &str) -> (r: String)
    ensures
        r@ == a@ + b@,
{
    a.to_owned().concat(b)
}

/// Three texts, one after the other.
pub fn join3(a: &str, b: &str, c: &str) -> (r: String)
    ensures
        r@ == a@ + b@ + c@,
{
    a.to_owned().concat(b).concat(c)
}

/// Five texts, one after the other.
pub fn join5(a: &str, b: &str, c: &str, d: &str, e: &str) -> (r: String)
    ensures
        r@ == a@ + b@ + c@ + d@ + e@,
{
    a.to_owned().concat(b).concat(c).concat(d).concat(e)
}

/// Seven texts, one after the other.
pub fn join7(a: &str, b: &str, c: &str, d: &str, e: &str, f: &str, g: &str) -> (r: String)
    ensures
        r@ == a@ + b@ + c@ + d@ + e@ + f@ + g@,
{
    a.to_owned().concat(b).concat(c).concat(d).concat(e).concat(f).concat(g)
}

/// The texts a vector of strings holds.
pub open spec fn texts(v: Seq<String>) -> Seq<Seq<char>> {
    v.map_values(|s: String| s@)
}

/// Whether a string is a given text.
pub fn same_text(a: &str, b: &str) -> (r: bool)
    ensures
        r == (a@ == b@),
{
    let (x, y) = (a.to_owned(), b.to_owned());
    x == y
}

/// The decimal text of a machine integer.
pub fn decimal_i64(n: i64) -> (r: String)
    ensures
        r@ == crate::bignum::decimal_text(n as int),
{
    crate::bignum::BigNum::from_i64(n).decimal()
}

/// The decimal text of a length.
pub fn decimal_usize(n: usize) -> (r: String)
    ensures
        r@ == crate::bignum::decimal_text(n as int),
{
    crate::bignum::BigNum::from_u64(n as u64).decimal()
}

} // verus!
