//! The errors the mint hands to its callers.

use vstd::prelude::*;

use crate::units::{CurrencyUnit, PaymentMethod};

verus! {

/// A failure reported by the store.
#[derive(Clone, Copy, Debug, PartialEq, Eq, Structural)]
pub enum DatabaseError {
    /// A proof with the same `y` is already stored.
    Duplicate,
    /// The change would touch a proof that is already spent.
    AttemptUpdateSpentProof,
    /// No quote with the given id is stored.
    UnknownQuote,
    /// The quote may not go to the state asked for.
    InvalidStateTransition,
    /// A blind signature for the same blinded secret is already stored.
    DuplicateSignature,
}

/// A failure of a mint operation.
#[derive(Clone, Copy, Debug, PartialEq, Eq, Structural)]
pub enum Error {
    /// No payment backend or setting exists for the unit.
    UnsupportedUnit,
    /// No payment backend or setting exists for the method.
    UnsupportedMethod,
    /// Melting is switched off.
    MeltingDisabled,
    /// Minting is switched off.
    MintingDisabled,
    /// The amount lies outside the limits: `(min, max, amount)`.
    AmountOutofLimitRange(u64, u64, u64),
    /// A multi-part melt quote names an invoice that this mint issued.
    InternalMultiPartMeltQuote,
    /// Multi-part payments are not offered for this unit and method.
    MppUnitMethodNotSupported(CurrencyUnit, PaymentMethod),
    /// Amountless invoices are not offered for this unit and method.
    AmountlessInvoiceNotSupported(CurrencyUnit, PaymentMethod),
    /// The invoice has no amount and the quote sets none.
    InvoiceAmountUndefined,
    /// The payment request is no valid invoice.
    InvalidInvoice,
    /// The backend made no invoice.
    InvalidPaymentRequest,
    /// The amount asked for does not agree with the invoice, or the invoice
    /// names none where one is needed.
    InvalidAmountRequest,
    /// The proofs or outputs of one request belong to several units.
    MultipleUnits,
    /// The unit of the outputs differs from the one expected.
    UnitMismatch,
    /// The two units cannot be converted into one another.
    CannotConvertUnits,
    /// A proof or output names a keyset that the mint does not have.
    UnknownKeySet,
    /// An output names a keyset that no longer signs.
    InactiveKeyset,
    /// The keyset has no key for the amount.
    AmountKey,
    /// Two inputs of one request share a secret.
    DuplicateInputs,
    /// Two outputs of one request share a blinded secret.
    DuplicateOutputs,
    /// A proof does not carry the mint's signature.
    TokenNotVerified,
    /// An input is already in flight.
    TokenPending,
    /// An input was already spent.
    TokenAlreadySpent,
    /// The inputs do not cover the outputs and fees: `(inputs, outputs, fee)`.
    TransactionUnbalanced(u64, u64, u64),
    /// An output was signed before.
    BlindedMessageAlreadySigned,
    /// The quote is not known.
    UnknownQuote,
    /// The quote has not been paid.
    UnpaidQuote,
    /// The quote is in flight.
    PendingQuote,
    /// The quote has been paid.
    PaidQuote,
    /// The quote has been issued.
    IssuedQuote,
    /// The stored state of the quote is not one a quote may rest in.
    UnknownPaymentState,
    /// The invoice had been paid before the melt.
    RequestAlreadyPaid,
    /// The payment backend reports that the payment failed for good.
    PaymentFailed,
    /// A melt carries inputs that ask for one signature over the whole request.
    SigAllUsedInMelt,
    /// A spending condition is not met by the witness.
    SpendConditionsNotMet,
    /// A secret names a spending condition and does not spell one out.
    InvalidSpendConditions,
    /// A sum does not fit in 64 bits.
    AmountOverflow,
    /// No curve point was found for a secret.
    NoValidPoint,
    /// A blinded message is no curve point, or cannot be signed.
    InvalidPoint,
    /// The store refused the operation.
    Database(DatabaseError),
    /// The outcome of a payment is not known; the proofs stay pending.
    Internal,
}

} // verus!
