//! `u64` amounts carried as decimal text.

use vstd::prelude::*;
use crate::decimal::{DecError, dec_digits, parse_unsigned, u64_to_dec, parse_u64};

verus! {

/// The decimal text of `num`.
pub fn serialize(num: &u64) -> (s: String)
    ensures
        s@ == dec_digits(*num as nat),
{
    u64_to_dec(*num)
}

/// The number that the decimal text `s` stands for.
pub fn deserialize(s: &str) -> (r: Result<u64, DecError>)
    ensures
        match r {
            Ok(v) => parse_unsigned(s@, u64::MAX as nat) == Ok::<nat, DecError>(v as nat),
            Err(e) => parse_unsigned(s@, u64::MAX as nat) == Err::<nat, DecError>(e),
        },
{
    parse_u64(s)
}

} // verus!
