//! `u128` amounts carried as decimal text.

use vstd::prelude::*;
use crate::decimal::{DecError, dec_digits, parse_unsigned, u128_to_dec, parse_u128};

verus! {

/// The decimal text of `num`.
pub fn serialize(num: &u128) -> (s: String)
    ensures
        s@ == dec_digits(*num as nat),
{
    u128_to_dec(*num)
}

/// The number that the decimal text `s` stands for.
pub fn deserialize(s: &str) -> (r: Result<u128, DecError>)
    ensures
        match r {
            Ok(v) => parse_unsigned(s@, u128::MAX as nat) == Ok::<nat, DecError>(v as nat),
            Err(e) => parse_unsigned(s@, u128::MAX as nat) == Err::<nat, DecError>(e),
        },
{
    parse_u128(s)
}

} // verus!
