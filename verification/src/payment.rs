//! The Lightning backends: what the mint asks of them, and what
//! it makes of their answers.

use vstd::prelude::*;

use crate::amount::Amount;
use crate::nuts::{MeltOptions, MeltQuote, MeltQuoteState, MintQuoteState};
use crate::units::{CurrencyUnit, PaymentMethod};

verus! {

/// Why a backend could not do what it was asked.
#[derive(Clone, Copy, Debug, PartialEq, Eq, Structural)]
pub enum PaymentError {
    /// The invoice had been paid before.
    InvoiceAlreadyPaid,
    /// A payment of the invoice is in flight.
    InvoicePaymentPending,
    /// The backend does not deal in the unit.
    UnsupportedUnit,
    /// The backend does not know the payment.
    UnknownPaymentState,
    /// Anything else: the backend failed or could not be reached.
    Backend,
}

/// What a backend expects a payment to cost.
#[derive(Clone, Debug, PartialEq, Eq)]
pub struct PaymentQuoteResponse {
    /// The backend's handle for the payment.
    pub request_lookup_id: String,
    pub amount: Amount,
    /// The most the routing may cost.
    pub fee: Amount,
    pub state: MeltQuoteState,
}

/// What a backend reports of an outgoing payment.
#[derive(Clone, Debug, PartialEq, Eq)]
pub struct MakePaymentResponse {
    /// The backend's handle for the payment.
    pub payment_lookup_id: String,
    /// The preimage, where the payment went through.
    pub payment_proof: Option<String>,
    pub status: MeltQuoteState,
    /// What left the backend, fees included, in `unit`.
    pub total_spent: Amount,
    pub unit: CurrencyUnit,
}

/// An invoice that a backend made for the mint.
#[derive(Clone, Debug, PartialEq, Eq)]
pub struct CreateIncomingPaymentResponse {
    /// The backend's handle for the invoice.
    pub request_lookup_id: String,
    /// The invoice.
    pub request: String,
    /// Seconds since the epoch after which the invoice lapses.
    pub expiry: Option<u64>,
}

/// What the mint makes of an attempt to pay.
#[derive(Clone, Debug, PartialEq, Eq)]
pub enum PaymentResolution {
    /// The payment went through; the response is the backend's.
    Paid(MakePaymentResponse),
    /// Nothing was and nothing will be delivered.
    Failed,
    /// The invoice had been paid before the attempt.
    AlreadyPaid,
    /// The payment is on its way.
    InFlight,
    /// The backend cannot tell what became of the payment.
    Ambiguous,
}

/// Whether the answer to `make_payment` leaves open what became of the
/// payment, so that the backend has to be asked again: it does where the
/// backend says that it failed or that it cannot tell, and where the call
/// itself failed for any reason but that the invoice had been paid before.
pub open spec fn needs_check_spec(pay: Result<MakePaymentResponse, PaymentError>) -> bool {
    match pay {
        Ok(response) => response.status == MeltQuoteState::Unknown || response.status
            == MeltQuoteState::Failed,
        Err(e) => e != PaymentError::InvoiceAlreadyPaid,
    }
}

/// What a response of the backend says of the payment.
pub open spec fn resolution_of(response: MakePaymentResponse) -> PaymentResolution {
    match response.status {
        MeltQuoteState::Paid => PaymentResolution::Paid(response),
        MeltQuoteState::Unpaid | MeltQuoteState::Failed => PaymentResolution::Failed,
        MeltQuoteState::Pending => PaymentResolution::InFlight,
        MeltQuoteState::Unknown => PaymentResolution::Ambiguous,
    }
}

/// What the mint makes of the answer `pay` to `make_payment` and, where the
/// backend had to be asked again, of the answer `check` to
/// `check_outgoing_payment`. An answer that leaves the outcome open is
/// settled by the second answer alone; where that one is missing or an
/// error, the outcome stays open.
pub open spec fn resolve_payment_spec(
    pay: Result<MakePaymentResponse, PaymentError>,
    check: Option<Result<MakePaymentResponse, PaymentError>>,
) -> PaymentResolution {
    if needs_check_spec(pay) {
        match check {
            Some(Ok(response)) => resolution_of(response),
            _ => PaymentResolution::Ambiguous,
        }
    } else {
        match pay {
            Ok(response) => resolution_of(response),
            Err(_) => PaymentResolution::AlreadyPaid,
        }
    }
}

/// Whether the answer to `make_payment` leaves open what became of the
/// payment.
pub fn needs_check(pay: &Result<MakePaymentResponse, PaymentError>) -> (r: bool)
    ensures
        r == needs_check_spec(*pay),
{
    match pay {
        Ok(response) => match response.status {
            MeltQuoteState::Unknown => true,
            MeltQuoteState::Failed => true,
            _ => false,
        },
        Err(PaymentError::InvoiceAlreadyPaid) => false,
        Err(_) => true,
    }
}

/// What a response of the backend says of the payment.
pub fn resolve_response(response: MakePaymentResponse) -> (r: PaymentResolution)
    ensures
        r == resolution_of(response),
{
    match response.status {
        MeltQuoteState::Paid => PaymentResolution::Paid(response),
        MeltQuoteState::Unpaid => PaymentResolution::Failed,
        MeltQuoteState::Failed => PaymentResolution::Failed,
        MeltQuoteState::Pending => PaymentResolution::InFlight,
        MeltQuoteState::Unknown => PaymentResolution::Ambiguous,
    }
}

/// What the mint makes of the answers of the backend to an attempt to pay.
pub fn resolve_payment(
    pay: Result<MakePaymentResponse, PaymentError>,
    check: Option<Result<MakePaymentResponse, PaymentError>>,
) -> (r: PaymentResolution)
    ensures
        r == resolve_payment_spec(pay, check),
{
    if needs_check(&pay) {
        match check {
            Some(Ok(response)) => resolve_response(response),
            _ => PaymentResolution::Ambiguous,
        }
    } else {
        match pay {
            Ok(response) => resolve_response(response),
            Err(_) => PaymentResolution::AlreadyPaid,
        }
    }
}

/// The Lightning backends of a mint, one for each unit and method it deals
/// in. Nothing is promised of what a backend answers: the mint decides on
/// whatever comes back.
pub trait MintPayment {
    /// Whether there is a backend for the unit and method.
    fn has_backend(&self, unit: &CurrencyUnit, method: &PaymentMethod) -> bool;

    /// What paying `request` is expected to cost.
    fn get_payment_quote(
        &self,
        request: &String,
        unit: &CurrencyUnit,
        options: Option<MeltOptions>,
    ) -> Result<PaymentQuoteResponse, PaymentError>;

    /// Makes an invoice over `amount`.
    fn create_incoming_payment_request(
        &self,
        amount: Amount,
        unit: &CurrencyUnit,
        description: &String,
        unix_expiry: Option<u64>,
    ) -> Result<CreateIncomingPaymentResponse, PaymentError>;

    /// Pays the invoice of `melt_quote`. A backend answers `Paid` only once
    /// the payment cannot be undone, and `Failed` only where nothing will be
    /// delivered.
    fn make_payment(
        &self,
        melt_quote: &MeltQuote,
        partial_amount: Option<Amount>,
        max_fee_amount: Option<Amount>,
    ) -> Result<MakePaymentResponse, PaymentError>;

    /// What has become of the outgoing payment `request_lookup_id`.
    fn check_outgoing_payment(&self, unit: &CurrencyUnit, request_lookup_id: &String) -> Result<
        MakePaymentResponse,
        PaymentError,
    >;

    /// What has become of the invoice `request_lookup_id`.
    fn check_incoming_payment_status(
        &self,
        unit: &CurrencyUnit,
        request_lookup_id: &String,
    ) -> Result<MintQuoteState, PaymentError>;
}

} // verus!
