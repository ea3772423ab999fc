//! NEAR account ids, as the host checks them.

use vstd::prelude::*;

verus! {

/// `-`, `_` or `.`.
pub open spec fn is_separator(b: u8) -> bool {
    b == 45 || b == 95 || b == 46
}

/// A lowercase ASCII letter, an ASCII digit or a separator.
pub open spec fn is_account_byte(b: u8) -> bool {
    (97 <= b && b <= 122) || (48 <= b && b <= 57) || is_separator(b)
}

/// The rules of NEAR account ids: 2 to 64 bytes, each a lowercase letter, a
/// digit or a separator, with no separator first, last or next to another.
pub open spec fn valid_account_id(id: Seq<u8>) -> bool {
    &&& 2 <= id.len() <= 64
    &&& forall|i: int| 0 <= i < id.len() ==> is_account_byte(#[trigger] id[i])
    &&& !is_separator(id[0])
    &&& !is_separator(id.last())
    &&& forall|i: int| 0 <= i < id.len() - 1 ==> !(is_separator(#[trigger] id[i]) && is_separator(id[i + 1]))
}

/// near-sdk's `env::is_valid_account_id`, which the host's `AccountId`
/// parsing uses: trusted to answer exactly `valid_account_id` of the bytes,
/// as its source (a length check and one pass over the bytes) shows.
#[verifier::external_body]
pub(crate) fn is_valid_account_id(account_id: &[u8]) -> (r: bool)
    ensures
        r == valid_account_id(account_id@),
{
    near_sdk::env::is_valid_account_id(account_id)
}

} // verus!
