use vstd::prelude::*;

verus! {

/// The amount that `near_sdk::serde_json::from_slice` reads from `payload` at
/// the type `near_sdk::json_types::U128`, or `None` where it reports an error.
pub uninterp spec fn decoded_amount(payload: Seq<u8>) -> Option<u128>;

/// The error of `near_sdk::serde_json`, the type `near_sdk::serde_json::Error`.
/// Nothing is said of what is inside one.
#[verifier::external_type_specification]
#[verifier::external_body]
pub struct ExJsonError(near_sdk::serde_json::Error);

/// Calls `near_sdk::serde_json::from_slice` at the type
/// `near_sdk::json_types::U128`, whose text form is a JSON string of decimal
/// digits. Nothing is proved of the call. The contract only gives its result a
/// name: the same bytes give the same amount, or an error, every time.
#[verifier::external_body]
fn amount_from_json(payload: &[u8]) -> (r: Result<u128, near_sdk::serde_json::Error>)
    ensures
        match r {
            Ok(amount) => decoded_amount(payload@) == Some(amount),
            Err(_) => decoded_amount(payload@) is None,
        },
{
    near_sdk::serde_json::from_slice::<near_sdk::json_types::U128>(payload).map(|amount| amount.0)
}

/// The amount that the payload decodes to, and `None` where it does not
/// decode: see `decoded_amount`.
pub fn decode_amount(payload: &[u8]) -> (amount: Option<u128>)
    ensures
        amount == decoded_amount(payload@),
{
    match amount_from_json(payload) {
        Ok(amount) => Some(amount),
        Err(_) => None,
    }
}

} // verus!
