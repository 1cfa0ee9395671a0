//! Melt quotes: what paying an invoice is expected to cost, and the promise
//! to pay it once proofs are handed in.

use vstd::prelude::*;

use crate::amount::{to_unit, to_unit_spec, Amount};
use crate::database::melt_quotes::{
    has_melt_quote, melt_overwrite_allowed, melt_quote_of, replace_melt_quote,
};
use crate::database::mint_quotes::first_with_request;
use crate::database::signatures::signatures_for_quote;
use crate::error::{DatabaseError, Error};
use crate::mint::{Mint, MintView};
use crate::nuts::{
    duplicate_optional_string, melt_settings_for, mpp_supported, BlindSignature, MeltMethodSettings,
    MeltOptions, MeltQuote, MeltQuoteBolt11Request, MeltQuoteBolt11Response, MeltQuoteState,
    MintInfo,
};
use crate::payment::{MintPayment, PaymentQuoteResponse};
use crate::units::{CurrencyUnit, PaymentMethod};
use crate::util::{
    bolt11_amount_msat, invoice_amount_msat, new_quote_id, saturating_add, saturating_sum,
    unix_time,
};

verus! {

/// The amount `limit` stands for, zero where there is no limit.
pub open spec fn limit_or_zero(limit: Option<Amount>) -> u64 {
    match limit {
        Some(amount) => amount.0,
        None => 0,
    }
}

/// Whether `amount` lies outside the limits of `settings`.
pub open spec fn out_of_range(settings: MeltMethodSettings, amount: Amount) -> bool {
    ||| settings.max_amount matches Some(max) && amount.0 > max.0
    ||| settings.min_amount matches Some(min) && amount.0 < min.0
}

/// Whether a melt of `amount` may be quoted, and why not. `known_invoice`
/// says whether the invoice is one that this mint issued for a mint quote.
///
/// Melting must be switched on and offered for the unit and method. A
/// multi-part quote must not name an invoice of this mint and needs
/// multi-part payments offered; a quote on an invoice without amount needs
/// such invoices offered. The amount must lie within the limits.
pub open spec fn melt_request_verdict(
    info: MintInfo,
    known_invoice: bool,
    amount: Amount,
    unit: CurrencyUnit,
    method: PaymentMethod,
    options: Option<MeltOptions>,
) -> Result<(), Error> {
    if info.melting_disabled {
        Err(Error::MeltingDisabled)
    } else {
        match melt_settings_for(info.melt_methods@, unit, method) {
            None => Err(Error::UnsupportedUnit),
            Some(settings) => {
                if options matches Some(MeltOptions::Mpp { .. }) && known_invoice {
                    Err(Error::InternalMultiPartMeltQuote)
                } else if options matches Some(MeltOptions::Mpp { .. }) && !mpp_supported(
                    info.mpp_methods@,
                    unit,
                    method,
                ) {
                    Err(Error::MppUnitMethodNotSupported(unit, method))
                } else if options matches Some(MeltOptions::Amountless { .. })
                    && !settings.amountless {
                    Err(Error::AmountlessInvoiceNotSupported(unit, method))
                } else if out_of_range(settings, amount) {
                    Err(
                        Error::AmountOutofLimitRange(
                            limit_or_zero(settings.min_amount),
                            limit_or_zero(settings.max_amount),
                            amount.0,
                        ),
                    )
                } else {
                    Ok(())
                }
            },
        }
    }
}

/// The millisatoshi that a melt quote is about: what the options name, or
/// what the invoice names where there are no options. `invoice` is the
/// amount written in the invoice. Options for an invoice without amount
/// must agree with an amount that the invoice names all the same.
pub open spec fn quote_amount_msat_spec(options: Option<MeltOptions>, invoice: Option<u64>) -> Result<
    Amount,
    Error,
> {
    match options {
        None => match invoice {
            Some(amount) => Ok(Amount(amount)),
            None => Err(Error::InvalidAmountRequest),
        },
        Some(MeltOptions::Mpp { parts }) => Ok(parts),
        Some(MeltOptions::Amountless { msat_to_pay }) => match invoice {
            Some(amount) => if amount != msat_to_pay.0 {
                Err(Error::InvalidAmountRequest)
            } else {
                Ok(msat_to_pay)
            },
            None => Ok(msat_to_pay),
        },
    }
}

/// The millisatoshi that a melt quote is about.
pub fn quote_amount_msat(options: Option<MeltOptions>, invoice: Option<u64>) -> (r: Result<
    Amount,
    Error,
>)
    ensures
        r == quote_amount_msat_spec(options, invoice),
{
    match options {
        None => match invoice {
            Some(amount) => Ok(Amount(amount)),
            None => Err(Error::InvalidAmountRequest),
        },
        Some(MeltOptions::Mpp { parts }) => Ok(parts),
        Some(MeltOptions::Amountless { msat_to_pay }) => match invoice {
            Some(amount) => if amount != msat_to_pay.0 {
                Err(Error::InvalidAmountRequest)
            } else {
                Ok(msat_to_pay)
            },
            None => Ok(msat_to_pay),
        },
    }
}

/// The quote that a request becomes, given what the backend expects the
/// payment to cost, the time and a fresh id.
pub open spec fn new_melt_quote(
    request: MeltQuoteBolt11Request,
    payment_quote: PaymentQuoteResponse,
    melt_ttl: u64,
    now: u64,
    id: u128,
) -> MeltQuote {
    MeltQuote {
        id,
        unit: request.unit,
        amount: payment_quote.amount,
        fee_reserve: payment_quote.fee,
        request: request.request,
        request_lookup_id: payment_quote.request_lookup_id,
        expiry: saturating_sum(now, melt_ttl),
        state: MeltQuoteState::Unpaid,
        payment_preimage: None,
        msat_to_pay: match request.options {
            Some(options) => Some(options.amount_msat_spec()),
            None => None,
        },
    }
}

/// Whether `response` tells of `quote`, with `change` as the signatures
/// handed back; no change is told where there are no signatures.
pub open spec fn tells_of(
    response: MeltQuoteBolt11Response,
    quote: MeltQuote,
    change: Seq<BlindSignature>,
) -> bool {
    &&& response.quote == quote.id
    &&& response.amount == quote.amount
    &&& response.fee_reserve == quote.fee_reserve
    &&& response.paid == Some(quote.state == MeltQuoteState::Paid)
    &&& response.state == quote.state
    &&& response.expiry == quote.expiry
    &&& response.payment_preimage == quote.payment_preimage
    &&& response.request == Some(quote.request)
    &&& response.unit == Some(quote.unit)
    &&& match response.change {
        Some(signatures) => signatures@ == change && change.len() > 0,
        None => change.len() == 0,
    }
}

/// What is known of a melt quote request before a backend is asked: the
/// amount of the quote in the unit of the request, or why no quote is made.
/// `invoice` is what the request parses to.
pub open spec fn melt_quote_precheck(
    mint: MintView,
    request: MeltQuoteBolt11Request,
    invoice: Option<Option<u64>>,
) -> Result<Amount, Error> {
    match invoice {
        None => Err(Error::InvalidInvoice),
        Some(invoice_amount) => match quote_amount_msat_spec(request.options, invoice_amount) {
            Err(e) => Err(e),
            Ok(amount_msat) => match to_unit_spec(amount_msat, CurrencyUnit::Msat, request.unit) {
                Err(e) => Err(e),
                Ok(amount) => match melt_request_verdict(
                    mint.mint_info,
                    first_with_request(mint.mint_quotes, request.request@) is Some,
                    amount,
                    request.unit,
                    PaymentMethod::Bolt11,
                    request.options,
                ) {
                    Err(e) => Err(e),
                    Ok(_) => Ok(amount),
                },
            },
        },
    }
}

pub(crate) fn respond(quote: &MeltQuote, change: Vec<BlindSignature>) -> (r: MeltQuoteBolt11Response)
    ensures
        tells_of(r, *quote, change@),
{
    let paid = match quote.state {
        MeltQuoteState::Paid => true,
        _ => false,
    };
    let change = if change.len() > 0 {
        Some(change)
    } else {
        None
    };
    MeltQuoteBolt11Response {
        quote: quote.id,
        amount: quote.amount,
        fee_reserve: quote.fee_reserve,
        paid: Some(paid),
        state: quote.state,
        expiry: quote.expiry,
        payment_preimage: duplicate_optional_string(&quote.payment_preimage),
        change,
        request: Some(quote.request.clone()),
        unit: Some(quote.unit),
    }
}

impl Mint {
    /// Whether a melt of `amount` may be quoted for `request`.
    pub fn check_melt_request_acceptable(
        &self,
        amount: Amount,
        unit: CurrencyUnit,
        method: PaymentMethod,
        request: &String,
        options: Option<MeltOptions>,
    ) -> (r: Result<(), Error>)
        ensures
            r == melt_request_verdict(
                self@.mint_info,
                first_with_request(self@.mint_quotes, request@) is Some,
                amount,
                unit,
                method,
                options,
            ),
    {
        if self.localstore.mint_info.melting_disabled {
            return Err(Error::MeltingDisabled);
        }
        let settings = match self.localstore.mint_info.get_melt_settings(&unit, &method) {
            Some(settings) => settings,
            None => {
                return Err(Error::UnsupportedUnit);
            },
        };
        match options {
            Some(MeltOptions::Mpp { parts: _ }) => {
                if self.localstore.mint_quotes.get_mint_quote_by_request(request).is_some() {
                    return Err(Error::InternalMultiPartMeltQuote);
                }
                if !self.localstore.mint_info.supports_mpp(&unit, &method) {
                    return Err(Error::MppUnitMethodNotSupported(unit, method));
                }
            },
            Some(MeltOptions::Amountless { msat_to_pay: _ }) => {
                if !settings.amountless {
                    return Err(Error::AmountlessInvoiceNotSupported(unit, method));
                }
            },
            None => {},
        }
        let is_above_max = match settings.max_amount {
            Some(max) => amount.0 > max.0,
            None => false,
        };
        let is_below_min = match settings.min_amount {
            Some(min) => amount.0 < min.0,
            None => false,
        };
        if is_above_max || is_below_min {
            let min = match settings.min_amount {
                Some(min) => min.0,
                None => 0,
            };
            let max = match settings.max_amount {
                Some(max) => max.0,
                None => 0,
            };
            Err(Error::AmountOutofLimitRange(min, max, amount.0))
        } else {
            Ok(())
        }
    }

    /// What is known of a melt quote request before a backend is asked.
    pub fn precheck_melt_quote(
        &self,
        melt_request: &MeltQuoteBolt11Request,
        invoice: Option<Option<u64>>,
    ) -> (r: Result<Amount, Error>)
        ensures
            r == melt_quote_precheck(self@, *melt_request, invoice),
    {
        let invoice_amount = match invoice {
            Some(invoice_amount) => invoice_amount,
            None => {
                return Err(Error::InvalidInvoice);
            },
        };
        let amount_msat = match quote_amount_msat(melt_request.options, invoice_amount) {
            Ok(amount) => amount,
            Err(e) => {
                return Err(e);
            },
        };
        let amount = match to_unit(amount_msat, &CurrencyUnit::Msat, &melt_request.unit) {
            Ok(amount) => amount,
            Err(e) => {
                return Err(e);
            },
        };
        match self.check_melt_request_acceptable(
            amount,
            melt_request.unit,
            PaymentMethod::Bolt11,
            &melt_request.request,
            melt_request.options,
        ) {
            Ok(_) => Ok(amount),
            Err(e) => Err(e),
        }
    }

    /// Stores the quote that `melt_request` becomes, given what the backend
    /// expects the payment to cost, the time `now` and the fresh id `id`.
    /// Nothing is stored, and the error is `Duplicate`, where a quote has
    /// the id already.
    pub fn create_melt_quote(
        &mut self,
        melt_request: &MeltQuoteBolt11Request,
        payment_quote: PaymentQuoteResponse,
        now: u64,
        id: u128,
    ) -> (r: Result<MeltQuoteBolt11Response, Error>)
        requires
            old(self).wf(),
        ensures
            final(self).wf(),
            has_melt_quote(old(self)@.melt_quotes, id) ==> r == Err::<MeltQuoteBolt11Response, Error>(
                Error::Database(DatabaseError::Duplicate),
            ) && final(self)@ == old(self)@,
            !has_melt_quote(old(self)@.melt_quotes, id) ==> {
                let quote = new_melt_quote(
                    *melt_request,
                    payment_quote,
                    old(self)@.quote_ttl.melt_ttl,
                    now,
                    id,
                );
                &&& r matches Ok(response) && tells_of(response, quote, Seq::empty())
                &&& final(self)@ == (MintView {
                    melt_quotes: old(self)@.melt_quotes.push(quote),
                    ..old(self)@
                })
            },
    {
        if self.localstore.melt_quotes.find(id).is_some() {
            return Err(Error::Database(DatabaseError::Duplicate));
        }
        let msat_to_pay = match melt_request.options {
            Some(options) => Some(options.amount_msat()),
            None => None,
        };
        let quote = MeltQuote {
            id,
            unit: melt_request.unit,
            amount: payment_quote.amount,
            fee_reserve: payment_quote.fee,
            request: melt_request.request.clone(),
            request_lookup_id: payment_quote.request_lookup_id,
            expiry: saturating_add(now, self.localstore.quote_ttl.melt_ttl),
            state: MeltQuoteState::Unpaid,
            payment_preimage: None,
            msat_to_pay,
        };
        let response = respond(&quote, Vec::new());
        match self.localstore.melt_quotes.add_melt_quote(quote) {
            Ok(_) => Ok(response),
            Err(e) => Err(Error::Database(e)),
        }
    }

    /// Quotes a melt: asks the backend what paying the invoice is expected
    /// to cost and stores an unpaid quote for it.
    ///
    /// Where the request fails the checks that need no backend, the error is
    /// theirs. Past them the only failures are a backend that does not serve
    /// the unit or gives no quote, and an identifier that the table holds
    /// already. The mint is changed only by a quote that is stored.
    pub fn get_melt_bolt11_quote<P: MintPayment>(
        &mut self,
        ln: &P,
        melt_request: &MeltQuoteBolt11Request,
    ) -> (r: Result<MeltQuoteBolt11Response, Error>)
        requires
            old(self).wf(),
        ensures
            final(self).wf(),
            melt_quote_precheck(
                old(self)@,
                *melt_request,
                bolt11_amount_msat(melt_request.request@),
            ) matches Err(e) ==> r == Err::<MeltQuoteBolt11Response, Error>(e),
            melt_quote_precheck(
                old(self)@,
                *melt_request,
                bolt11_amount_msat(melt_request.request@),
            ) is Ok && r is Err ==> r == Err::<MeltQuoteBolt11Response, Error>(
                Error::UnsupportedUnit,
            ) || r == Err::<MeltQuoteBolt11Response, Error>(
                Error::Database(DatabaseError::Duplicate),
            ),
            r is Err ==> final(self)@ == old(self)@,
            r matches Ok(response) ==> exists|quote: MeltQuote|
                {
                    &&& !has_melt_quote(old(self)@.melt_quotes, quote.id)
                    &&& quote.state == MeltQuoteState::Unpaid
                    &&& quote.unit == melt_request.unit
                    &&& quote.request == melt_request.request
                    &&& quote.payment_preimage is None
                    &&& quote.msat_to_pay == match melt_request.options {
                        Some(options) => Some(options.amount_msat_spec()),
                        None => None,
                    }
                    &&& #[trigger] tells_of(response, quote, Seq::empty())
                    &&& final(self)@ == (MintView {
                        melt_quotes: old(self)@.melt_quotes.push(quote),
                        ..old(self)@
                    })
                },
    {
        let invoice = invoice_amount_msat(&melt_request.request);
        match self.precheck_melt_quote(melt_request, invoice) {
            Ok(_) => {},
            Err(e) => {
                return Err(e);
            },
        }
        if !ln.has_backend(&melt_request.unit, &PaymentMethod::Bolt11) {
            return Err(Error::UnsupportedUnit);
        }
        let payment_quote = match ln.get_payment_quote(
            &melt_request.request,
            &melt_request.unit,
            melt_request.options,
        ) {
            Ok(payment_quote) => payment_quote,
            Err(_) => {
                return Err(Error::UnsupportedUnit);
            },
        };
        let now = unix_time();
        let id = new_quote_id();
        let ghost quote = new_melt_quote(
            *melt_request,
            payment_quote,
            self@.quote_ttl.melt_ttl,
            now,
            id,
        );
        let r = self.create_melt_quote(melt_request, payment_quote, now, id);
        proof {
            if r is Ok {
                assert(tells_of(r->Ok_0, quote, Seq::empty()));
            }
        }
        r
    }

    /// What the mint knows of the melt quote `quote_id`, with the change
    /// that was signed for it.
    pub fn check_melt_quote(&self, quote_id: u128) -> (r: Result<MeltQuoteBolt11Response, Error>)
        requires
            self.wf(),
        ensures
            match melt_quote_of(self@.melt_quotes, quote_id) {
                None => r == Err::<MeltQuoteBolt11Response, Error>(Error::UnknownQuote),
                Some(quote) => r matches Ok(response) && tells_of(
                    response,
                    quote,
                    signatures_for_quote(self@.blind_signatures, quote_id),
                ),
            },
    {
        let quote = match self.localstore.melt_quotes.get_melt_quote(quote_id) {
            Some(quote) => quote,
            None => {
                return Err(Error::UnknownQuote);
            },
        };
        let change = self.localstore.blind_signatures.get_blind_signatures_for_quote(quote_id);
        Ok(respond(&quote, change))
    }

    /// Stores `quote` in place of the stored quote of its id, or as a new
    /// quote. A stored quote that is paid stays paid: a quote that would
    /// change that is refused.
    pub fn update_melt_quote(&mut self, quote: MeltQuote) -> (r: Result<(), Error>)
        requires
            old(self).wf(),
        ensures
            final(self).wf(),
            match melt_quote_of(old(self)@.melt_quotes, quote.id) {
                None => r is Ok && final(self)@ == (MintView {
                    melt_quotes: old(self)@.melt_quotes.push(quote),
                    ..old(self)@
                }),
                Some(stored) => if melt_overwrite_allowed(stored.state, quote.state) {
                    r is Ok && final(self)@ == (MintView {
                        melt_quotes: replace_melt_quote(
                            old(self)@.melt_quotes,
                            quote,
                        ),
                        ..old(self)@
                    })
                } else {
                    r == Err::<(), Error>(Error::Database(DatabaseError::InvalidStateTransition))
                        && final(self)@ == old(self)@
                },
            },
    {
        match self.localstore.melt_quotes.add_melt_quote(quote) {
            Ok(_) => Ok(()),
            Err(e) => Err(Error::Database(e)),
        }
    }

    /// All melt quotes, oldest first.
    pub fn melt_quotes(&self) -> (r: Result<Vec<MeltQuote>, Error>)
        ensures
            r matches Ok(quotes) && quotes@ == self@.melt_quotes,
    {
        Ok(self.localstore.melt_quotes.get_melt_quotes())
    }

    /// Forgets the melt quote `quote_id`, where the mint has one.
    pub fn remove_melt_quote(&mut self, quote_id: u128) -> (r: Result<(), Error>)
        requires
            old(self).wf(),
        ensures
            final(self).wf(),
            r is Ok,
            final(self)@ == (MintView {
                melt_quotes: old(self)@.melt_quotes.filter(|quote: MeltQuote| quote.id != quote_id),
                ..old(self)@
            }),
            !has_melt_quote(final(self)@.melt_quotes, quote_id),
            forall|other: u128|
                other != quote_id ==> melt_quote_of(final(self)@.melt_quotes, other)
                    == melt_quote_of(old(self)@.melt_quotes, other),
    {
        self.localstore.melt_quotes.remove_melt_quote(quote_id);
        Ok(())
    }
}

} // verus!
