//! Minting: the mint asks for an incoming payment and, once it has been
//! paid, signs blinded messages of the same worth.

use vstd::prelude::*;

use crate::amount::Amount;
use crate::database::mint_quotes::{
    first_with_lookup_id, has_mint_quote, lemma_first_with_lookup_id_stored, lemma_mint_quote_at,
    mint_quote_of, replace_mint_quote, set_mint_state,
};
use crate::database::signatures::{
    issued_total, record_secrets, record_signatures, records_for_quote, SignatureRecord,
};
use crate::error::{DatabaseError, Error};
use crate::keyset::MintKeySet;
use crate::mint::{Mint, MintView};
use crate::mint::change::{change_records, lemma_issued_change};
use crate::mint::melt_quote::limit_or_zero;
use crate::nuts::{
    mint_settings_for, output_amounts, signature_amounts, BlindSignature, BlindedMessage, MintInfo,
    MintQuote, MintQuoteBolt11Request, MintQuoteState, MintRequest,
};
use crate::payment::{CreateIncomingPaymentResponse, MintPayment};
use crate::pubsub::NotificationPayload;
use crate::units::{CurrencyUnit, PaymentMethod};
use crate::util::{new_quote_id, saturating_add, unix_time};
use crate::verification::{
    all_signable, are_signatures_on, first_unsignable, output_secrets, outputs_verdict,
    sign_outputs, verify_outputs,
};

verus! {

/// Whether a mint of `amount` may be quoted, and why not: minting must be
/// switched on and offered for the unit and method, and the amount must lie
/// within the limits.
pub open spec fn mint_request_verdict(
    info: MintInfo,
    amount: Amount,
    unit: CurrencyUnit,
    method: PaymentMethod,
) -> Result<(), Error> {
    if info.minting_disabled {
        Err(Error::MintingDisabled)
    } else {
        match mint_settings_for(info.mint_methods@, unit, method) {
            None => Err(Error::UnsupportedUnit),
            Some(settings) => if (settings.max_amount matches Some(max) && amount.0 > max.0) || (
            settings.min_amount matches Some(min) && amount.0 < min.0) {
                Err(
                    Error::AmountOutofLimitRange(
                        limit_or_zero(settings.min_amount),
                        limit_or_zero(settings.max_amount),
                        amount.0,
                    ),
                )
            } else {
                Ok(())
            },
        }
    }
}

/// The quote that a request becomes, given the invoice that the backend
/// made, the time at which it lapses and a fresh id.
pub open spec fn new_mint_quote(
    request: MintQuoteBolt11Request,
    invoice: CreateIncomingPaymentResponse,
    expiry: u64,
    id: u128,
) -> MintQuote {
    MintQuote {
        id,
        unit: request.unit,
        amount: request.amount,
        request: invoice.request,
        request_lookup_id: invoice.request_lookup_id,
        expiry,
        state: MintQuoteState::Unpaid,
        issued_amount: Amount(0),
    }
}

/// What the check of the outputs of a mint request comes to: nothing, or
/// the first of these that fails. The outputs pass their check; they count
/// in the unit of the quote; and they are worth exactly its amount.
pub open spec fn mint_precheck(
    keysets: Seq<MintKeySet>,
    signed: Seq<SignatureRecord>,
    quote: MintQuote,
    outputs: Seq<BlindedMessage>,
) -> Result<(), Error> {
    match outputs_verdict(keysets, signed, outputs) {
        Err(e) => Err(e),
        Ok(verification) => if verification.unit != Some(quote.unit) {
            Err(Error::UnitMismatch)
        } else if verification.amount != quote.amount {
            Err(Error::TransactionUnbalanced(quote.amount.0, verification.amount.0, 0))
        } else {
            Ok(())
        },
    }
}

/// The mint `before` once it has noted that the invoice which the backend
/// knows as `lookup_id` has been paid: the oldest quote for the invoice is
/// paid where it was unpaid, and subscribers are told. Where there is no
/// such quote, or it is not unpaid, the mint is as it was.
pub open spec fn paid_for_lookup(before: MintView, lookup_id: Seq<char>) -> MintView {
    match first_with_lookup_id(before.mint_quotes, lookup_id) {
        Some(quote) => if quote.state == MintQuoteState::Unpaid {
            MintView {
                mint_quotes: set_mint_state(before.mint_quotes, quote.id, MintQuoteState::Paid),
                notifications: before.notifications.push(
                    NotificationPayload::MintQuote(quote.id, MintQuoteState::Paid),
                ),
                ..before
            }
        } else {
            before
        },
        None => before,
    }
}

/// The quote `quote` once its signatures are issued.
pub open spec fn issued_quote(quote: MintQuote) -> MintQuote {
    MintQuote { state: MintQuoteState::Issued, issued_amount: quote.amount, ..quote }
}

/// The signatures of `records`, in order.
fn signatures_of_records(records: &Vec<SignatureRecord>) -> (r: Vec<BlindSignature>)
    ensures
        r@ == record_signatures(records@),
{
    let mut signatures: Vec<BlindSignature> = Vec::new();
    let mut i: usize = 0;
    while i < records.len()
        invariant
            0 <= i <= records.len(),
            signatures@ == record_signatures(records@).take(i as int),
        decreases records.len() - i,
    {
        signatures.push(records[i].signature);
        i = i + 1;
        assert(signatures@ =~= record_signatures(records@).take(i as int));
    }
    assert(signatures@ =~= record_signatures(records@));
    signatures
}

/// Whether `records` hold the blinded points of `outputs`, one for one.
fn same_secrets(records: &Vec<SignatureRecord>, outputs: &Vec<BlindedMessage>) -> (r: bool)
    ensures
        r == (record_secrets(records@) == output_secrets(outputs@)),
{
    if records.len() != outputs.len() {
        assert(record_secrets(records@).len() != output_secrets(outputs@).len());
        return false;
    }
    let mut i: usize = 0;
    while i < records.len()
        invariant
            0 <= i <= records.len(),
            records.len() == outputs.len(),
            forall|j: int|
                0 <= j < i ==> record_secrets(records@)[j] == output_secrets(outputs@)[j],
        decreases records.len() - i,
    {
        if !records[i].blinded_secret.same(&outputs[i].blinded_secret) {
            assert(record_secrets(records@)[i as int] != output_secrets(outputs@)[i as int]);
            return false;
        }
        i = i + 1;
    }
    assert(record_secrets(records@) =~= output_secrets(outputs@));
    true
}

impl Mint {
    /// Whether a mint of `amount` may be quoted.
    pub fn check_mint_request_acceptable(
        &self,
        amount: Amount,
        unit: &CurrencyUnit,
        method: &PaymentMethod,
    ) -> (r: Result<(), Error>)
        ensures
            r == mint_request_verdict(self@.mint_info, amount, *unit, *method),
    {
        if self.localstore.mint_info.minting_disabled {
            return Err(Error::MintingDisabled);
        }
        let settings = match self.localstore.mint_info.get_mint_settings(unit, method) {
            Some(settings) => settings,
            None => {
                return Err(Error::UnsupportedUnit);
            },
        };
        let is_above_max = match settings.max_amount {
            Some(max) => amount.0 > max.0,
            None => false,
        };
        let is_below_min = match settings.min_amount {
            Some(min) => amount.0 < min.0,
            None => false,
        };
        if is_above_max || is_below_min {
            let min = match settings.min_amount {
                Some(min) => min.0,
                None => 0,
            };
            let max = match settings.max_amount {
                Some(max) => max.0,
                None => 0,
            };
            Err(Error::AmountOutofLimitRange(min, max, amount.0))
        } else {
            Ok(())
        }
    }

    /// Stores the quote that `mint_request` becomes, given the invoice that
    /// the backend made, the time `expiry` at which it lapses and the fresh
    /// id `id`, and tells subscribers of it. Nothing is stored, and the
    /// error is `Duplicate`, where a quote has the id already.
    pub fn create_mint_quote(
        &mut self,
        mint_request: &MintQuoteBolt11Request,
        invoice: CreateIncomingPaymentResponse,
        expiry: u64,
        id: u128,
    ) -> (r: Result<MintQuote, Error>)
        requires
            old(self).wf(),
        ensures
            final(self).wf(),
            has_mint_quote(old(self)@.mint_quotes, id) ==> r == Err::<MintQuote, Error>(
                Error::Database(DatabaseError::Duplicate),
            ) && final(self)@ == old(self)@,
            !has_mint_quote(old(self)@.mint_quotes, id) ==> {
                let quote = new_mint_quote(*mint_request, invoice, expiry, id);
                &&& r == Ok::<MintQuote, Error>(quote)
                &&& final(self)@ == (MintView {
                    mint_quotes: old(self)@.mint_quotes.push(quote),
                    notifications: old(self)@.notifications.push(
                        NotificationPayload::MintQuote(id, MintQuoteState::Unpaid),
                    ),
                    ..old(self)@
                })
            },
    {
        if self.localstore.mint_quotes.find(id).is_some() {
            return Err(Error::Database(DatabaseError::Duplicate));
        }
        let quote = MintQuote {
            id,
            unit: mint_request.unit,
            amount: mint_request.amount,
            request: invoice.request,
            request_lookup_id: invoice.request_lookup_id,
            expiry,
            state: MintQuoteState::Unpaid,
            issued_amount: Amount(0),
        };
        let stored = quote.duplicate();
        match self.localstore.mint_quotes.add_mint_quote(stored) {
            Ok(_) => {},
            Err(e) => {
                return Err(Error::Database(e));
            },
        }
        self.pubsub_manager.mint_quote_status(id, MintQuoteState::Unpaid);
        Ok(quote)
    }

    /// Quotes a mint: has the backend make an invoice over the amount and
    /// stores an unpaid quote for it.
    ///
    /// Where the request may not be quoted, the error says why. Past that
    /// check the only failures are a backend that does not serve the unit
    /// (`UnsupportedUnit`) or makes no invoice (`InvalidPaymentRequest`), and
    /// an identifier that the table holds already. The mint is changed only
    /// by a quote that is stored.
    pub fn get_mint_bolt11_quote<P: MintPayment>(
        &mut self,
        ln: &P,
        mint_request: &MintQuoteBolt11Request,
    ) -> (r: Result<MintQuote, Error>)
        requires
            old(self).wf(),
        ensures
            final(self).wf(),
            mint_request_verdict(
                old(self)@.mint_info,
                mint_request.amount,
                mint_request.unit,
                PaymentMethod::Bolt11,
            ) matches Err(e) ==> r == Err::<MintQuote, Error>(e),
            mint_request_verdict(
                old(self)@.mint_info,
                mint_request.amount,
                mint_request.unit,
                PaymentMethod::Bolt11,
            ) is Ok && r is Err ==> r == Err::<MintQuote, Error>(Error::UnsupportedUnit) || r
                == Err::<MintQuote, Error>(Error::InvalidPaymentRequest) || r == Err::<
                MintQuote,
                Error,
            >(Error::Database(DatabaseError::Duplicate)),
            r is Err ==> final(self)@ == old(self)@,
            r matches Ok(quote) ==> {
                &&& !has_mint_quote(old(self)@.mint_quotes, quote.id)
                &&& quote.state == MintQuoteState::Unpaid
                &&& quote.unit == mint_request.unit
                &&& quote.amount == mint_request.amount
                &&& quote.issued_amount == Amount(0)
                &&& final(self)@ == (MintView {
                    mint_quotes: old(self)@.mint_quotes.push(quote),
                    notifications: old(self)@.notifications.push(
                        NotificationPayload::MintQuote(quote.id, MintQuoteState::Unpaid),
                    ),
                    ..old(self)@
                })
            },
    {
        match self.check_mint_request_acceptable(
            mint_request.amount,
            &mint_request.unit,
            &PaymentMethod::Bolt11,
        ) {
            Ok(_) => {},
            Err(e) => {
                return Err(e);
            },
        }
        if !ln.has_backend(&mint_request.unit, &PaymentMethod::Bolt11) {
            return Err(Error::UnsupportedUnit);
        }
        let expiry = saturating_add(unix_time(), self.localstore.quote_ttl.mint_ttl);
        let no_description = String::new();
        let description = match &mint_request.description {
            Some(description) => description,
            None => &no_description,
        };
        let invoice = match ln.create_incoming_payment_request(
            mint_request.amount,
            &mint_request.unit,
            description,
            Some(expiry),
        ) {
            Ok(invoice) => invoice,
            Err(_) => {
                return Err(Error::InvalidPaymentRequest);
            },
        };
        let id = new_quote_id();
        self.create_mint_quote(mint_request, invoice, expiry, id)
    }

    /// The mint quote `quote_id`.
    pub fn check_mint_quote(&self, quote_id: u128) -> (r: Result<MintQuote, Error>)
        requires
            self.wf(),
        ensures
            r == match mint_quote_of(self@.mint_quotes, quote_id) {
                Some(quote) => Ok::<MintQuote, Error>(quote),
                None => Err(Error::UnknownQuote),
            },
    {
        match self.localstore.mint_quotes.get_mint_quote(quote_id) {
            Some(quote) => Ok(quote),
            None => Err(Error::UnknownQuote),
        }
    }

    /// All mint quotes, oldest first.
    pub fn mint_quotes(&self) -> (r: Result<Vec<MintQuote>, Error>)
        ensures
            r matches Ok(quotes) && quotes@ == self@.mint_quotes,
    {
        Ok(self.localstore.mint_quotes.get_mint_quotes())
    }

    /// Notes that the invoice which the backend knows as `lookup_id` has
    /// been paid: the oldest quote for it becomes paid where it was unpaid,
    /// and subscribers are told. Nothing is changed where there is no such
    /// quote or it is not unpaid.
    pub fn pay_mint_quote_for_request_id(&mut self, lookup_id: &String) -> (r: Result<(), Error>)
        requires
            old(self).wf(),
        ensures
            final(self).wf(),
            r is Ok,
            final(self)@ == paid_for_lookup(old(self)@, lookup_id@),
    {
        let quote = match self.localstore.mint_quotes.get_mint_quote_by_request_lookup_id(
            lookup_id,
        ) {
            Some(quote) => quote,
            None => {
                return Ok(());
            },
        };
        proof {
            lemma_first_with_lookup_id_stored(self@.mint_quotes, lookup_id@);
        }
        match quote.state {
            MintQuoteState::Unpaid => {
                let _ = self.localstore.mint_quotes.update_mint_quote_state(
                    quote.id,
                    MintQuoteState::Paid,
                );
                self.pubsub_manager.mint_quote_status(quote.id, MintQuoteState::Paid);
            },
            _ => {},
        }
        Ok(())
    }

    /// Signs the outputs of `mint_request` against its quote, in the order
    /// of the outputs. Either all of it happens or nothing is changed.
    ///
    /// The quote must be paid; the outputs must pass [`mint_precheck`]; and
    /// every output must be one the mint can sign. The quote is then issued
    /// for its whole amount.
    ///
    /// A request for a quote that is issued issues nothing more: it is
    /// answered with the signatures stored for the quote where its outputs
    /// are exactly those that were signed, and fails with `IssuedQuote`
    /// otherwise.
    pub fn process_mint_request(&mut self, mint_request: &MintRequest) -> (r: Result<
        Vec<BlindSignature>,
        Error,
    >)
        requires
            old(self).wf(),
        ensures
            final(self).wf(),
            final(self)@.proofs == old(self)@.proofs,
            match mint_quote_of(old(self)@.mint_quotes, mint_request.quote) {
                None => r == Err::<Vec<BlindSignature>, Error>(Error::UnknownQuote)
                    && final(self)@ == old(self)@,
                Some(quote) => match quote.state {
                    MintQuoteState::Unpaid => r == Err::<Vec<BlindSignature>, Error>(
                        Error::UnpaidQuote,
                    ) && final(self)@ == old(self)@,
                    MintQuoteState::Issued => {
                        let stored = records_for_quote(
                            old(self)@.blind_signatures,
                            mint_request.quote,
                        );
                        &&& final(self)@ == old(self)@
                        &&& if record_secrets(stored) == output_secrets(mint_request.outputs@) {
                            r matches Ok(signatures) && signatures@ == record_signatures(stored)
                        } else {
                            r == Err::<Vec<BlindSignature>, Error>(Error::IssuedQuote)
                        }
                    },
                    MintQuoteState::Paid => match mint_precheck(
                        old(self)@.keysets,
                        old(self)@.blind_signatures,
                        quote,
                        mint_request.outputs@,
                    ) {
                        Err(e) => r == Err::<Vec<BlindSignature>, Error>(e) && final(self)@
                            == old(self)@,
                        Ok(_) => if !all_signable(old(self)@.keysets, mint_request.outputs@) {
                            &&& r matches Err(e) && exists|i: int|
                                first_unsignable(old(self)@.keysets, mint_request.outputs@, i, e)
                            &&& final(self)@ == old(self)@
                        } else {
                            &&& r matches Ok(signatures)
                            &&& are_signatures_on(
                                old(self)@.keysets,
                                mint_request.outputs@,
                                signatures@,
                            )
                            &&& final(self)@ == (MintView {
                                blind_signatures: old(self)@.blind_signatures + change_records(
                                    mint_request.outputs@,
                                    signatures@,
                                    Some(mint_request.quote),
                                ),
                                mint_quotes: replace_mint_quote(
                                    old(self)@.mint_quotes,
                                    issued_quote(quote),
                                ),
                                notifications: old(self)@.notifications.push(
                                    NotificationPayload::MintQuote(
                                        mint_request.quote,
                                        MintQuoteState::Issued,
                                    ),
                                ),
                                ..old(self)@
                            })
                            &&& issued_total(final(self)@.blind_signatures) == issued_total(
                                old(self)@.blind_signatures,
                            ) + quote.amount.0
                        },
                    },
                },
            },
    {
        let quote = match self.localstore.mint_quotes.get_mint_quote(mint_request.quote) {
            Some(quote) => quote,
            None => {
                return Err(Error::UnknownQuote);
            },
        };
        match quote.state {
            MintQuoteState::Unpaid => {
                return Err(Error::UnpaidQuote);
            },
            MintQuoteState::Issued => {
                let stored = self.localstore.blind_signatures.get_records_for_quote(
                    mint_request.quote,
                );
                if same_secrets(&stored, &mint_request.outputs) {
                    return Ok(signatures_of_records(&stored));
                }
                return Err(Error::IssuedQuote);
            },
            MintQuoteState::Paid => {},
        }
        let verification = match verify_outputs(
            &self.keysets,
            &self.localstore.blind_signatures,
            &mint_request.outputs,
        ) {
            Ok(verification) => verification,
            Err(e) => {
                return Err(e);
            },
        };
        match verification.unit {
            Some(unit) => {
                if unit != quote.unit {
                    return Err(Error::UnitMismatch);
                }
            },
            None => {
                return Err(Error::UnitMismatch);
            },
        }
        if verification.amount.0 != quote.amount.0 {
            return Err(Error::TransactionUnbalanced(quote.amount.0, verification.amount.0, 0));
        }
        let signatures = match sign_outputs(&self.keysets, &mint_request.outputs) {
            Ok(signatures) => signatures,
            Err(e) => {
                return Err(e);
            },
        };
        let mut records: Vec<SignatureRecord> = Vec::new();
        let mut i: usize = 0;
        while i < signatures.len()
            invariant
                0 <= i <= signatures.len(),
                signatures.len() == mint_request.outputs.len(),
                records@ == change_records(
                    mint_request.outputs@,
                    signatures@,
                    Some(mint_request.quote),
                ).take(i as int),
            decreases signatures.len() - i,
        {
            records.push(
                SignatureRecord {
                    blinded_secret: mint_request.outputs[i].blinded_secret,
                    signature: signatures[i],
                    quote_id: Some(mint_request.quote),
                },
            );
            i = i + 1;
            assert(records@ =~= change_records(
                mint_request.outputs@,
                signatures@,
                Some(mint_request.quote),
            ).take(i as int));
        }
        proof {
            let all = change_records(mint_request.outputs@, signatures@, Some(mint_request.quote));
            assert(records@ =~= all);
            assert(record_secrets(all) =~= output_secrets(mint_request.outputs@));
            lemma_issued_change(mint_request.outputs@, signatures@, Some(mint_request.quote));
            assert(signature_amounts(signatures@) =~= output_amounts(mint_request.outputs@));
            crate::amount::lemma_sum_nonnegative(output_amounts(mint_request.outputs@));
        }
        match self.localstore.blind_signatures.add_blind_signatures(&records) {
            Ok(_) => {},
            Err(e) => {
                return Err(Error::Database(e));
            },
        }
        let _ = self.localstore.mint_quotes.update_mint_quote_state(
            mint_request.quote,
            MintQuoteState::Issued,
        );
        let ghost marked = self@.mint_quotes;
        let mut issued = quote;
        issued.state = MintQuoteState::Issued;
        issued.issued_amount = issued.amount;
        proof {
            assert(issued == issued_quote(quote));
            assert(has_mint_quote(old(self)@.mint_quotes, mint_request.quote));
            let i = choose|i: int|
                0 <= i < old(self)@.mint_quotes.len() && (#[trigger] old(self)@.mint_quotes[i]).id
                    == mint_request.quote;
            assert(marked[i].id == mint_request.quote);
            lemma_mint_quote_at(marked, i);
            assert(replace_mint_quote(marked, issued) =~= replace_mint_quote(
                old(self)@.mint_quotes,
                issued,
            ));
        }
        let _ = self.localstore.mint_quotes.add_mint_quote(issued);
        self.pubsub_manager.mint_quote_status(mint_request.quote, MintQuoteState::Issued);
        Ok(signatures)
    }
}

} // verus!
