//! Arbitrary-precision integer services, supplied by the `num` crate.
//!
//! Atoms have unbounded magnitude, so incrementing them and moving between
//! base-256 digits and decimal text are delegated to `num::BigUint` behind
//! contracts stated over the digit model of `crate::digits`.
use num::BigUint;
use vstd::prelude::*;
use crate::digits::{decimal_of, decimal_value, digits_value, is_dec_digit};

verus! {

#[verifier::external_type_specification]
#[verifier::external_body]
pub struct ExBigUint(BigUint);

/// The natural number a `num::BigUint` stands for.
pub uninterp spec fn biguint_value(b: BigUint) -> nat;

/// Relies on `num::BigUint::from_bytes_le`: reads little-endian base-256
/// digits, ignoring trailing zero padding.
#[verifier::external_body]
pub fn big_from_digits(d: &[u8]) -> (r: BigUint)
    ensures
        biguint_value(r) == digits_value(d@),
{
    BigUint::from_bytes_le(d)
}

/// Relies on `num::BigUint::to_bytes_le`: writes the value in little-endian
/// base-256 digits.
#[verifier::external_body]
pub fn big_to_digits(b: &BigUint) -> (r: Vec<u8>)
    ensures
        digits_value(r@) == biguint_value(*b),
{
    b.to_bytes_le()
}

/// Relies on `num::BigUint`'s addition of a machine-word scalar.
#[verifier::external_body]
pub fn big_succ(b: &BigUint) -> (r: BigUint)
    ensures
        biguint_value(r) == biguint_value(*b) + 1,
{
    b + 1u32
}

/// Relies on `num::BigUint`'s `FromStr`, which reads a non-empty run of
/// decimal digit characters; such a run always parses.
#[verifier::external_body]
pub fn big_from_decimal(ds: &Vec<char>) -> (r: BigUint)
    requires
        ds@.len() > 0,
        forall|i: int| 0 <= i < ds@.len() ==> is_dec_digit(ds@[i]),
    ensures
        biguint_value(r) == decimal_value(ds@),
{
    let text: String = ds.iter().collect();
    text.parse().expect("decimal digit run")
}

/// Relies on `num::BigUint::to_str_radix` with radix ten: the canonical
/// decimal rendering, no leading zeros and `0` for zero.
#[verifier::external_body]
pub fn big_to_decimal(b: &BigUint) -> (r: String)
    ensures
        r@ == decimal_of(biguint_value(*b)),
{
    b.to_str_radix(10)
}

} // verus!
