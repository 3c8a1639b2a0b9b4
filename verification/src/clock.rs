use vstd::prelude::*;
use crate::digits::{
    dec_digits, is_dec_digit, is_decimal_rendering, lemma_dec_digits_wf, u128_to_decimal,
};

verus! {

/// Relies on std::time::SystemTime: the milliseconds elapsed since the Unix
/// epoch, or zero should the clock read earlier than the epoch. Nothing is
/// promised of the value; it depends on the wall clock.
#[verifier::external_body]
fn unix_millis() -> u128 {
    std::time::SystemTime::now()
        .duration_since(std::time::SystemTime::UNIX_EPOCH)
        .map(|d| d.as_millis())
        .unwrap_or(0)
}

/// The current time as a millisecond timestamp rendered in decimal: the
/// canonical rendering of some count — nonempty, digits only, no leading
/// zeros — whatever the clock reads.
pub fn now() -> (r: String)
    ensures
        is_decimal_rendering(r@),
        r@.len() >= 1,
        forall|i: int| 0 <= i < r@.len() ==> is_dec_digit(#[trigger] r@[i]),
{
    let millis: u128 = unix_millis();
    let r = u128_to_decimal(millis);
    proof {
        lemma_dec_digits_wf(millis as int);
        assert(r@ == dec_digits(millis as int));
    }
    r
}

} // verus!
