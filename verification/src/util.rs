//! What the mint takes from its surroundings: the time, fresh quote ids, and
//! the amount written in an invoice.

use vstd::prelude::*;

verus! {

/// What `lightning_invoice::Bolt11Invoice::from_str` makes of `request`, as
/// far as the mint reads it: nothing where `request` is no invoice,
/// otherwise the millisatoshi that the invoice names, where it names an
/// amount.
pub uninterp spec fn bolt11_amount_msat(request: Seq<char>) -> Option<Option<u64>>;

/// Parses `request` with `lightning_invoice::Bolt11Invoice::from_str` and
/// hands back the amount of the invoice, read with its
/// `amount_milli_satoshis`. The parser looks at the text alone: neither the
/// time nor anything else enters.
#[verifier::external_body]
pub(crate) fn invoice_amount_msat(request: &String) -> (r: Option<Option<u64>>)
    ensures
        r == bolt11_amount_msat(request@),
{
    match <lightning_invoice::Bolt11Invoice as std::str::FromStr>::from_str(request) {
        Ok(invoice) => Some(invoice.amount_milli_satoshis()),
        Err(_) => None,
    }
}

/// A point in time as the clock of the system tells it: `std::time::SystemTime`.
/// Nothing is known of what it holds.
#[verifier::external_type_specification]
#[verifier::external_body]
pub struct ExSystemTime(std::time::SystemTime);

/// Calls `std::time::SystemTime::now`. Nothing is claimed of the time that
/// comes back.
#[verifier::external_body]
fn system_time_now() -> (time: std::time::SystemTime) {
    std::time::SystemTime::now()
}

/// Calls `std::time::SystemTime::duration_since` with the epoch, and hands
/// back nothing where the time lies before it. Nothing is claimed of the
/// duration that comes back.
#[verifier::external_body]
fn since_epoch(time: &std::time::SystemTime) -> (elapsed: Option<std::time::Duration>) {
    match time.duration_since(std::time::UNIX_EPOCH) {
        Ok(elapsed) => Some(elapsed),
        Err(_) => None,
    }
}

/// Calls `std::time::Duration::as_secs`. Nothing is claimed of the number
/// that comes back.
#[verifier::external_body]
fn whole_seconds(elapsed: &std::time::Duration) -> (seconds: u64) {
    elapsed.as_secs()
}

/// The seconds since the epoch that the clock shows, zero where the clock
/// stands before the epoch.
pub(crate) fn unix_time() -> (seconds: u64) {
    let time = system_time_now();
    match since_epoch(&time) {
        Some(elapsed) => whole_seconds(&elapsed),
        None => 0,
    }
}

/// Draws a random id with `uuid::Uuid::new_v4` and hands it back as a
/// number.
#[verifier::external_body]
pub(crate) fn new_quote_id() -> (id: u128) {
    uuid::Uuid::new_v4().as_u128()
}

/// The sum of `a` and `b`, or the largest number where it does not fit.
pub open spec fn saturating_sum(a: u64, b: u64) -> u64 {
    if a + b <= u64::MAX {
        (a + b) as u64
    } else {
        u64::MAX
    }
}

/// The sum of `a` and `b`, or the largest number where it does not fit.
pub fn saturating_add(a: u64, b: u64) -> (r: u64)
    ensures
        r == saturating_sum(a, b),
{
    if b <= u64::MAX - a {
        a + b
    } else {
        u64::MAX
    }
}

} // verus!
