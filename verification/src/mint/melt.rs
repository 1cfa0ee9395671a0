//! Melting: the mint pays an outgoing invoice and burns the proofs that
//! were handed in for it.

use vstd::prelude::*;

use crate::amount::{lemma_sum_nonnegative, sum_amounts, to_unit, to_unit_spec, Amount};
use crate::conditions::{enforce_sig_flag, sig_flag_of};
use crate::database::melt_quotes::{
    distinct_melt_ids, has_melt_quote, lemma_melt_quote_at, lemma_replaced_melt_quote,
    lemma_set_melt_state, melt_quote_of, melt_transition_allowed, replace_melt_quote,
    set_melt_state,
};
use crate::database::mint_quotes::{
    first_with_request, lemma_first_with_request_stored, set_mint_state,
};
use crate::database::proofs::{
    addable, amount_of, any_spent, distinct_ys, has_y, index_of_y, info_ys, lemma_moved_distinct,
    lemma_moved_keeps_spent, lemma_moved_state, lemma_rollback_restores, lemma_spent_stays_trans,
    lemma_state_at, moved, new_records, removable, spent_stays, spent_total, state_of,
    stored_amounts, ProofInfo, ProofRecord,
};
use crate::database::signatures::{
    any_signed, is_signed, issued_total, lemma_issued_nonnegative, record_secrets, SignatureRecord,
};
use crate::dhke::PublicKey;
use crate::error::{DatabaseError, Error};
use crate::keyset::MintKeySet;
use crate::mint::{Mint, MintView};
use crate::mint::change::{
    change_due, change_records, is_change, lemma_issued_change, prepare_change,
};
use crate::mint::melt_quote::{respond, tells_of};
use crate::nuts::{
    proof_amounts, proofs_total, signature_amounts, BlindSignature, BlindedMessage, MeltQuote,
    MeltQuoteBolt11Response, MeltQuoteState, MeltRequest, MintQuote, MintQuoteState, Proof, SigFlag,
    State,
};
use crate::payment::{
    needs_check, needs_check_spec, resolve_payment, resolve_payment_spec, MakePaymentResponse,
    MintPayment, PaymentError, PaymentResolution,
};
use crate::pubsub::{proof_notifications, NotificationPayload};
use crate::units::{CurrencyUnit, PaymentMethod};
use crate::util::{
    bolt11_amount_msat, invoice_amount_msat, saturating_add, saturating_sum, unix_time,
};
use crate::verification::{
    all_hash, get_proofs_fee, has_duplicates, info_points, infos_of, inputs_verdict, output_secrets,
    outputs_verdict, proof_infos, proofs_fee, verify_inputs, verify_outputs, ys_of,
};

verus! {

/// Why a quote in the state `state` cannot be taken in flight, where it
/// cannot.
pub open spec fn taken_error(state: MeltQuoteState) -> Option<Error> {
    match state {
        MeltQuoteState::Unpaid | MeltQuoteState::Failed => None,
        MeltQuoteState::Pending => Some(Error::PendingQuote),
        MeltQuoteState::Paid => Some(Error::PaidQuote),
        MeltQuoteState::Unknown => Some(Error::UnknownPaymentState),
    }
}

/// The outputs of a request as a sequence: none where the request has none.
pub open spec fn outputs_of(outputs: Option<Vec<BlindedMessage>>) -> Seq<BlindedMessage> {
    match outputs {
        Some(outputs) => outputs@,
        None => Seq::empty(),
    }
}

/// What the check of the change outputs of a melt comes to: nothing is
/// asked of no outputs; others pass the check of outputs and count in
/// `unit`.
pub open spec fn melt_outputs_verdict(
    keysets: Seq<MintKeySet>,
    signed: Seq<SignatureRecord>,
    unit: CurrencyUnit,
    outputs: Seq<BlindedMessage>,
) -> Result<(), Error> {
    if outputs.len() == 0 {
        Ok(())
    } else {
        match outputs_verdict(keysets, signed, outputs) {
            Err(e) => Err(e),
            Ok(verification) => if verification.unit != Some(unit) {
                Err(Error::UnitMismatch)
            } else {
                Ok(())
            },
        }
    }
}

/// What the check of a melt request comes to at the time `now`, once its
/// quote is taken in flight: nothing, or the first of these that fails.
///
/// The inputs pass their check and there are some. They count in the unit
/// of the quote. Their fee is known. They cover the amount of the quote,
/// its fee reserve and their fee. None asks for one signature over the
/// whole request. The outputs, where there are any, pass their check and
/// count in the unit of the inputs. No input is stored as spent
/// (`TokenAlreadySpent`) or stored at all (`TokenPending`).
pub open spec fn melt_verdict(
    keysets: Seq<MintKeySet>,
    stored: Seq<ProofRecord>,
    signed: Seq<SignatureRecord>,
    quote: MeltQuote,
    request: MeltRequest,
    now: u64,
) -> Result<(), Error> {
    match inputs_verdict(keysets, request.inputs@, now) {
        Err(e) => Err(e),
        Ok(verification) => match verification.unit {
            None => Err(Error::UnsupportedUnit),
            Some(unit) => if unit != quote.unit {
                Err(Error::UnitMismatch)
            } else {
                match proofs_fee(keysets, request.inputs@) {
                    Err(e) => Err(e),
                    Ok(fee) => if verification.amount.0 < quote.amount.0 + quote.fee_reserve.0
                        + fee.0 {
                        Err(
                            Error::TransactionUnbalanced(
                                verification.amount.0,
                                quote.amount.0,
                                saturating_sum(fee.0, quote.fee_reserve.0),
                            ),
                        )
                    } else if sig_flag_of(request.inputs@) == SigFlag::SigAll {
                        Err(Error::SigAllUsedInMelt)
                    } else {
                        match melt_outputs_verdict(keysets, signed, unit, outputs_of(request.outputs)) {
                            Err(e) => Err(e),
                            Ok(_) => if any_spent(stored, ys_of(request.inputs@)) {
                                Err(Error::TokenAlreadySpent)
                            } else if !addable(stored, ys_of(request.inputs@)) {
                                Err(Error::TokenPending)
                            } else {
                                Ok(())
                            },
                        }
                    },
                }
            },
        },
    }
}

/// The mint `before` with the melt request held: its quote is in flight,
/// its inputs are stored as pending for the quote, and subscribers are told
/// of the quote and of each input.
pub open spec fn melt_held(before: MintView, request: MeltRequest) -> MintView {
    MintView {
        melt_quotes: set_melt_state(before.melt_quotes, request.quote, MeltQuoteState::Pending),
        proofs: moved(
            before.proofs + new_records(infos_of(request.inputs@), Some(request.quote)),
            ys_of(request.inputs@),
            State::Pending,
        ),
        notifications: before.notifications.push(
            NotificationPayload::MeltQuote(request.quote, MeltQuoteState::Pending),
        ) + proof_notifications(ys_of(request.inputs@), State::Pending),
        ..before
    }
}

/// What checking a melt request at the time `now` does: `r` is what it
/// answers and `after` is the mint it leaves, given the mint `before`.
///
/// A quote that is not known, or that cannot be taken in flight, leaves the
/// mint as it was. Otherwise the quote is in flight and subscribers are
/// told; where the request passes [`melt_verdict`] the request is held, as
/// [`melt_held`] says, and the answer is the quote as it was.
pub open spec fn melt_checked(
    before: MintView,
    request: MeltRequest,
    now: u64,
    r: Result<MeltQuote, Error>,
    after: MintView,
) -> bool {
    match melt_quote_of(before.melt_quotes, request.quote) {
        None => r == Err::<MeltQuote, Error>(Error::Database(DatabaseError::UnknownQuote)) && after
            == before,
        Some(quote) => match taken_error(quote.state) {
            Some(e) => r == Err::<MeltQuote, Error>(e) && after == before,
            None => match melt_verdict(
                before.keysets,
                before.proofs,
                before.blind_signatures,
                quote,
                request,
                now,
            ) {
                Err(e) => r == Err::<MeltQuote, Error>(e) && after == (MintView {
                    melt_quotes: set_melt_state(
                        before.melt_quotes,
                        request.quote,
                        MeltQuoteState::Pending,
                    ),
                    notifications: before.notifications.push(
                        NotificationPayload::MeltQuote(request.quote, MeltQuoteState::Pending),
                    ),
                    ..before
                }),
                Ok(_) => r == Ok::<MeltQuote, Error>(quote) && after == melt_held(before, request),
            },
        },
    }
}

/// Whether the proof with the point `y` is stored in flight or set aside
/// for the quote `quote_id`.
pub open spec fn held_for(stored: Seq<ProofRecord>, y: PublicKey, quote_id: Option<u128>) -> bool {
    &&& has_y(stored, y)
    &&& (stored[index_of_y(stored, y)].state == State::Pending || stored[index_of_y(
        stored,
        y,
    )].state == State::Reserved)
    &&& stored[index_of_y(stored, y)].quote_id == quote_id
}

/// What subscribers are told when a melt is rolled back: that the quote is
/// unpaid, unless it is paid, and that each input that was held for it is
/// unspent.
pub open spec fn rollback_notifications(
    stored: Seq<ProofRecord>,
    ys: Seq<PublicKey>,
    quote: MeltQuote,
) -> Seq<NotificationPayload> {
    let released = proof_notifications(
        ys.filter(|y: PublicKey| held_for(stored, y, Some(quote.id))),
        State::Unspent,
    );
    if quote.state == MeltQuoteState::Paid || quote.state == MeltQuoteState::Unknown {
        released
    } else {
        seq![NotificationPayload::MeltQuote(quote.id, MeltQuoteState::Unpaid)]
            + released
    }
}

/// What rolling a melt request back does: `r` is what it answers and
/// `after` is the mint it leaves, given the mint `before`.
///
/// Where a secret hashes to no point nothing is changed. Otherwise the
/// inputs that are in flight or set aside for the quote are taken out; the
/// quote is returned to unpaid, unless it is paid; and subscribers are
/// told. Where the quote is not known the inputs are taken out all the
/// same.
pub open spec fn melt_undone(
    before: MintView,
    request: MeltRequest,
    r: Result<(), Error>,
    after: MintView,
) -> bool {
    if !all_hash(request.inputs@) {
        r == Err::<(), Error>(Error::NoValidPoint) && after == before
    } else {
        let released = before.proofs.filter(
            |record: ProofRecord| !removable(record, ys_of(request.inputs@), Some(request.quote)),
        );
        match melt_quote_of(before.melt_quotes, request.quote) {
            None => r == Err::<(), Error>(Error::Database(DatabaseError::UnknownQuote)) && after
                == (MintView { proofs: released, ..before }),
            Some(quote) => r is Ok && after == (MintView {
                proofs: released,
                melt_quotes: if melt_transition_allowed(quote.state, MeltQuoteState::Unpaid) {
                    set_melt_state(before.melt_quotes, request.quote, MeltQuoteState::Unpaid)
                } else {
                    before.melt_quotes
                },
                notifications: before.notifications + rollback_notifications(
                    before.proofs,
                    ys_of(request.inputs@),
                    quote,
                ),
                ..before
            }),
        }
    }
}

/// Whether `after` is the mint `before` with the melt request rolled back
/// whole: the proofs, the signatures and the mint quotes are as they were,
/// and the quote is unpaid.
pub open spec fn rolled_back(before: MintView, request: MeltRequest, after: MintView) -> bool {
    &&& after.proofs == before.proofs
    &&& after.blind_signatures == before.blind_signatures
    &&& after.mint_quotes == before.mint_quotes
    &&& after.melt_quotes == set_melt_state(
        before.melt_quotes,
        request.quote,
        MeltQuoteState::Unpaid,
    )
}

/// A request that was checked and is then rolled back leaves the proofs,
/// the signatures and the mint quotes as they were, and the quote unpaid.
pub proof fn lemma_check_then_rollback(
    start: MintView,
    held: MintView,
    after: MintView,
    request: MeltRequest,
    quote: MeltQuote,
    now: u64,
    r: Result<(), Error>,
)
    requires
        distinct_melt_ids(start.melt_quotes),
        melt_quote_of(start.melt_quotes, request.quote) == Some(quote),
        taken_error(quote.state) is None,
        melt_verdict(start.keysets, start.proofs, start.blind_signatures, quote, request, now)
            is Ok,
        melt_checked(start, request, now, Ok(quote), held),
        melt_undone(held, request, r, after),
    ensures
        rolled_back(start, request, after),
        r is Ok,
{
    let infos = infos_of(request.inputs@);
    let ys = ys_of(request.inputs@);
    assert(info_ys(infos) =~= ys);
    lemma_rollback_restores(start.proofs, infos, Some(request.quote));
    lemma_set_melt_state(start.melt_quotes, request.quote, MeltQuoteState::Pending);
    assert(set_melt_state(held.melt_quotes, request.quote, MeltQuoteState::Unpaid)
        =~= set_melt_state(start.melt_quotes, request.quote, MeltQuoteState::Unpaid));
}

/// The mint quote that a melt of `melt_quote` settles without a payment,
/// where there is one: the oldest mint quote for the same invoice, if it is
/// unpaid, counts in the same unit and asks for no more than the melt quote
/// pays. Where that mint quote has been paid already, so has the invoice.
pub open spec fn internal_settlement(mint_quotes: Seq<MintQuote>, melt_quote: MeltQuote) -> Result<
    Option<MintQuote>,
    Error,
> {
    match first_with_request(mint_quotes, melt_quote.request@) {
        None => Ok(None),
        Some(mint_quote) => if mint_quote.state != MintQuoteState::Unpaid {
            Err(Error::RequestAlreadyPaid)
        } else if mint_quote.unit == melt_quote.unit && mint_quote.amount.0
            <= melt_quote.amount.0 {
            Ok(Some(mint_quote))
        } else {
            Ok(None)
        },
    }
}

/// The mint `before` once the mint quote `mint_quote` is settled inside the
/// mint: the quote is paid and subscribers are told.
pub open spec fn settled_inside(before: MintView, mint_quote: MintQuote) -> MintView {
    MintView {
        mint_quotes: set_mint_state(before.mint_quotes, mint_quote.id, MintQuoteState::Paid),
        notifications: before.notifications.push(
            NotificationPayload::MintQuote(mint_quote.id, MintQuoteState::Paid),
        ),
        ..before
    }
}

/// What the check of the fees of a melt comes to. `invoice` is what the
/// invoice of the quote parses to.
///
/// The quote must count in a unit that converts to millisatoshi. The
/// invoice, or else the quote, must name an amount. Where the invoice asks
/// for more than the quote, only the amount of the quote is paid: that
/// partial amount is the result. The inputs must cover what is paid and the
/// fee reserve.
pub open spec fn expected_ln_fees(
    quote: MeltQuote,
    inputs: Seq<Proof>,
    invoice: Option<Option<u64>>,
) -> Result<Option<Amount>, Error> {
    match invoice {
        None => Err(Error::InvalidInvoice),
        Some(invoice_amount) => match to_unit_spec(quote.amount, quote.unit, CurrencyUnit::Msat) {
            Err(e) => Err(e),
            Ok(quote_msats) => {
                let named = match invoice_amount {
                    Some(amount) => Some(Amount(amount)),
                    None => quote.msat_to_pay,
                };
                match named {
                    None => Err(Error::InvoiceAmountUndefined),
                    Some(invoice_msats) => {
                        let to_pay = if invoice_msats.0 > quote_msats.0 {
                            to_unit_spec(quote_msats, CurrencyUnit::Msat, quote.unit)
                        } else {
                            to_unit_spec(invoice_msats, CurrencyUnit::Msat, quote.unit)
                        };
                        match to_pay {
                            Err(_) => Err(Error::UnsupportedUnit),
                            Ok(amount_to_pay) => if sum_amounts(proof_amounts(inputs)) > u64::MAX {
                                Err(Error::AmountOverflow)
                            } else if amount_to_pay.0 + quote.fee_reserve.0 > sum_amounts(
                                proof_amounts(inputs),
                            ) {
                                Err(
                                    Error::TransactionUnbalanced(
                                        sum_amounts(proof_amounts(inputs)) as u64,
                                        amount_to_pay.0,
                                        quote.fee_reserve.0,
                                    ),
                                )
                            } else if invoice_msats.0 > quote_msats.0 {
                                Ok(Some(amount_to_pay))
                            } else {
                                Ok(None)
                            },
                        }
                    },
                }
            },
        },
    }
}

/// The record of an input that is in flight for the quote `quote`.
pub open spec fn in_flight_record(info: ProofInfo, quote: u128) -> ProofRecord {
    ProofRecord {
        y: info.y,
        amount: info.amount,
        keyset_id: info.keyset_id,
        state: State::Pending,
        quote_id: Some(quote),
    }
}

/// Whether every one of `infos` is stored in flight for the quote `quote`,
/// with the amount and keyset it has in the request.
pub open spec fn all_in_flight(stored: Seq<ProofRecord>, infos: Seq<ProofInfo>, quote: u128) -> bool {
    forall|k: int|
        0 <= k < infos.len() ==> has_y(stored, (#[trigger] infos[k]).y) && stored[index_of_y(
            stored,
            infos[k].y,
        )] == in_flight_record(infos[k], quote)
}

/// Whether the inputs of a melt request may be burnt, and why not: the
/// quote is known and in flight, and the inputs are those that are stored in
/// flight for it.
pub open spec fn burn_verdict(
    melt_quotes: Seq<MeltQuote>,
    stored: Seq<ProofRecord>,
    request: MeltRequest,
) -> Result<(), Error> {
    match melt_quote_of(melt_quotes, request.quote) {
        None => Err(Error::UnknownQuote),
        Some(quote) => match quote.state {
            MeltQuoteState::Unpaid | MeltQuoteState::Failed => Err(Error::UnpaidQuote),
            MeltQuoteState::Paid => Err(Error::PaidQuote),
            MeltQuoteState::Unknown => Err(Error::UnknownPaymentState),
            MeltQuoteState::Pending => if !all_hash(request.inputs@) {
                Err(Error::NoValidPoint)
            } else if !ys_of(request.inputs@).no_duplicates() {
                Err(Error::DuplicateInputs)
            } else if sum_amounts(proof_amounts(request.inputs@)) > u64::MAX {
                Err(Error::AmountOverflow)
            } else if any_spent(stored, ys_of(request.inputs@)) {
                Err(Error::TokenAlreadySpent)
            } else if !all_in_flight(stored, infos_of(request.inputs@), request.quote) {
                Err(Error::TokenNotVerified)
            } else {
                Ok(())
            },
        },
    }
}

/// The quote `quote` once it is paid, with the preimage of the payment.
pub open spec fn paid_quote(quote: MeltQuote, payment_preimage: Option<String>) -> MeltQuote {
    MeltQuote { state: MeltQuoteState::Paid, payment_preimage, ..quote }
}

/// The signatures that `response` hands back as change.
pub open spec fn change_of(response: MeltQuoteBolt11Response) -> Seq<BlindSignature> {
    match response.change {
        Some(signatures) => signatures@,
        None => Seq::empty(),
    }
}

/// What burning the inputs of a melt request does, given the preimage of
/// the payment and what the payment has spent: `r` is what is answered and
/// `after` is the mint that is left, given the mint `before`.
///
/// Where the inputs may not be burnt ([`burn_verdict`]) nothing is changed.
/// Otherwise the inputs are spent, the quote is paid with the preimage, and
/// subscribers are told, whatever becomes of the change. Change is due where
/// the inputs are worth more than what was spent and their fee; it is
/// signed as [`is_change`] says and stored for the quote, and it is never
/// worth more than is due. The answer is the paid quote with the change, or
/// the error that kept the change from being signed.
pub open spec fn melt_burnt(
    before: MintView,
    request: MeltRequest,
    payment_preimage: Option<String>,
    total_spent: Amount,
    r: Result<MeltQuoteBolt11Response, Error>,
    after: MintView,
) -> bool {
    match burn_verdict(before.melt_quotes, before.proofs, request) {
        Err(e) => r == Err::<MeltQuoteBolt11Response, Error>(e) && after == before,
        Ok(_) => {
            let quote = melt_quote_of(before.melt_quotes, request.quote).unwrap();
            let paid = paid_quote(quote, payment_preimage);
            let inputs_total = sum_amounts(proof_amounts(request.inputs@));
            let outputs = outputs_of(request.outputs);
            let signatures = match r {
                Ok(response) => change_of(response),
                Err(_) => Seq::empty(),
            };
            &&& after == (MintView {
                proofs: moved(
                    before.proofs,
                    ys_of(request.inputs@),
                    State::Spent,
                ),
                melt_quotes: replace_melt_quote(before.melt_quotes, paid),
                blind_signatures: before.blind_signatures + change_records(
                    outputs,
                    signatures,
                    Some(request.quote),
                ),
                notifications: before.notifications.push(
                    NotificationPayload::MeltQuote(request.quote, MeltQuoteState::Paid),
                ) + proof_notifications(ys_of(request.inputs@), State::Spent),
                ..before
            })
            &&& spent_total(after.proofs) == spent_total(before.proofs)
                + inputs_total
            &&& issued_total(after.blind_signatures) == issued_total(
                before.blind_signatures,
            ) + sum_amounts(signature_amounts(signatures))
            &&& r matches Ok(response) ==> tells_of(response, paid, signatures)
            &&& match proofs_fee(before.keysets, request.inputs@) {
                Err(e) => r == Err::<MeltQuoteBolt11Response, Error>(e),
                Ok(fee) => {
                    &&& is_change(
                        before.keysets,
                        before.blind_signatures,
                        quote.unit,
                        outputs,
                        change_due(inputs_total as u64, total_spent.0, fee.0),
                        match r {
                            Ok(response) => Ok(change_of(response)),
                            Err(e) => Err(e),
                        },
                    )
                    &&& sum_amounts(signature_amounts(signatures)) <= change_due(
                        inputs_total as u64,
                        total_spent.0,
                        fee.0,
                    )
                    &&& r is Ok && sum_amounts(signature_amounts(signatures)) < change_due(
                        inputs_total as u64,
                        total_spent.0,
                        fee.0,
                    ) ==> signatures.len() == outputs.len()
                },
            }
        },
    }
}

/// Whether every input of `request` is stored as spent.
pub open spec fn inputs_spent(stored: Seq<ProofRecord>, request: MeltRequest) -> bool {
    forall|k: int|
        0 <= k < request.inputs@.len() ==> state_of(
            stored,
            #[trigger] ys_of(request.inputs@)[k],
        ) == Some(State::Spent)
}

/// Whether `after` is a mint in which the melt request has been burnt:
/// every input is spent and the quote is paid.
pub open spec fn burnt(after: MintView, request: MeltRequest) -> bool {
    &&& inputs_spent(after.proofs, request)
    &&& melt_quote_of(after.melt_quotes, request.quote) matches Some(paid) && paid.state
        == MeltQuoteState::Paid
}

/// Whether `after` is a mint in which the melt request is in flight: every
/// input is pending and so is the quote.
pub open spec fn in_flight(after: MintView, request: MeltRequest) -> bool {
    &&& forall|k: int|
        0 <= k < request.inputs@.len() ==> state_of(
            after.proofs,
            #[trigger] ys_of(request.inputs@)[k],
        ) == Some(State::Pending)
    &&& melt_quote_of(after.melt_quotes, request.quote) matches Some(held) && held.state
        == MeltQuoteState::Pending
}

/// A request that was checked can be burnt: its inputs are those that are
/// stored in flight for its quote.
pub proof fn lemma_checked_can_burn(
    start: MintView,
    held: MintView,
    quotes: Seq<MeltQuote>,
    request: MeltRequest,
    quote: MeltQuote,
    now: u64,
)
    requires
        distinct_ys(start.proofs),
        melt_quote_of(start.melt_quotes, request.quote) == Some(quote),
        taken_error(quote.state) is None,
        melt_verdict(start.keysets, start.proofs, start.blind_signatures, quote, request, now)
            is Ok,
        melt_checked(start, request, now, Ok(quote), held),
        melt_quote_of(quotes, request.quote) matches Some(stored) && stored.state
            == MeltQuoteState::Pending,
    ensures
        burn_verdict(quotes, held.proofs, request) is Ok,
        distinct_ys(held.proofs),
{
    let infos = infos_of(request.inputs@);
    let ys = ys_of(request.inputs@);
    let added = start.proofs + new_records(infos, Some(request.quote));
    let n = start.proofs.len() as int;
    assert forall|i: int, j: int| 0 <= i < j < added.len() implies (#[trigger] added[i]).y != (
    #[trigger] added[j]).y by {
        if j < n {
        } else if i < n {
            assert(ys[j - n] == added[j].y);
            assert(!has_y(start.proofs, ys[j - n]));
            assert(start.proofs[i].y != ys[j - n]);
        } else {
            assert(ys[i - n] == added[i].y);
            assert(ys[j - n] == added[j].y);
        }
    }
    lemma_moved_distinct(added, ys, State::Pending);
    assert forall|k: int| 0 <= k < infos.len() implies has_y(held.proofs, (#[trigger] infos[k]).y)
        && held.proofs[index_of_y(held.proofs, infos[k].y)] == in_flight_record(
        infos[k],
        request.quote,
    ) && state_of(held.proofs, ys[k]) == Some(State::Pending) by {
        assert(added[n + k].y == ys[k]);
        assert(ys.contains(added[n + k].y));
        assert(held.proofs[n + k].y == infos[k].y);
        lemma_state_at(held.proofs, n + k);
    }
    if any_spent(held.proofs, ys) {
        let k = choose|k: int|
            0 <= k < ys.len() && state_of(held.proofs, #[trigger] ys[k]) == Some(State::Spent);
        assert(infos[k].y == ys[k]);
    }
    lemma_sum_nonnegative(proof_amounts(request.inputs@));
}

/// What a payment has spent, counted in the unit of the quote. Where the
/// backend counts in a unit that does not convert, all that the quote set
/// aside counts as spent: its amount and its fee reserve.
pub open spec fn amount_spent_spec(response: MakePaymentResponse, quote: MeltQuote) -> Amount {
    match to_unit_spec(response.total_spent, response.unit, quote.unit) {
        Ok(amount) => amount,
        Err(_) => Amount(saturating_sum(quote.amount.0, quote.fee_reserve.0)),
    }
}

/// What a payment has spent, counted in the unit of the quote.
pub fn amount_spent(response: &MakePaymentResponse, quote: &MeltQuote) -> (r: Amount)
    ensures
        r == amount_spent_spec(*response, *quote),
{
    match to_unit(response.total_spent, &response.unit, &quote.unit) {
        Ok(amount) => amount,
        Err(_) => Amount(saturating_add(quote.amount.0, quote.fee_reserve.0)),
    }
}

/// The mint `before` once it has noted the handle `lookup_id` by which the
/// backend knows the payment of `quote`: where the handle is not the one the
/// quote has, the stored quote takes it, and the handle it had is not kept.
pub open spec fn lookup_noted(before: MintView, quote: MeltQuote, lookup_id: String) -> MintView {
    if lookup_id@ == quote.request_lookup_id@ {
        before
    } else {
        match melt_quote_of(before.melt_quotes, quote.id) {
            Some(stored) => MintView {
                melt_quotes: replace_melt_quote(
                    before.melt_quotes,
                    MeltQuote { request_lookup_id: lookup_id, ..stored },
                ),
                ..before
            },
            None => before,
        }
    }
}

/// What settling a melt by what became of its payment does: `r` is what is
/// answered and `after` is the mint that is left, given the mint `before`
/// in which the request is held.
///
/// A payment that went through has its handle noted and the inputs burnt,
/// as [`melt_burnt`] says, with the preimage and the amount spent that the
/// backend reports. A payment that failed, or an invoice that had been paid
/// before, has the request rolled back, as [`melt_undone`] says, and the
/// answer is `PaymentFailed` or `RequestAlreadyPaid`. A payment on its way
/// leaves the mint as it is and the answer is `PendingQuote`; one of which
/// the backend cannot tell leaves the mint as it is and the answer is
/// `Internal`.
pub open spec fn melt_resolved(
    before: MintView,
    quote: MeltQuote,
    request: MeltRequest,
    resolution: PaymentResolution,
    r: Result<MeltQuoteBolt11Response, Error>,
    after: MintView,
) -> bool {
    match resolution {
        PaymentResolution::Paid(response) => melt_burnt(
            lookup_noted(before, quote, response.payment_lookup_id),
            request,
            response.payment_proof,
            amount_spent_spec(response, quote),
            r,
            after,
        ),
        PaymentResolution::Failed => r == Err::<MeltQuoteBolt11Response, Error>(
            Error::PaymentFailed,
        ) && exists|undone: Result<(), Error>| melt_undone(before, request, undone, after),
        PaymentResolution::AlreadyPaid => r == Err::<MeltQuoteBolt11Response, Error>(
            Error::RequestAlreadyPaid,
        ) && exists|undone: Result<(), Error>| melt_undone(before, request, undone, after),
        PaymentResolution::InFlight => r == Err::<MeltQuoteBolt11Response, Error>(
            Error::PendingQuote,
        ) && after == before,
        PaymentResolution::Ambiguous => r == Err::<MeltQuoteBolt11Response, Error>(
            Error::Internal,
        ) && after == before,
    }
}

/// What the backends answered in the course of a melt.
pub struct MeltAnswers {
    /// Whether there is a backend for the unit of the quote.
    pub has_backend: bool,
    /// The answer to `make_payment`.
    pub pay: Result<MakePaymentResponse, PaymentError>,
    /// The answer to `check_outgoing_payment`, where the backend was asked.
    pub check: Option<Result<MakePaymentResponse, PaymentError>>,
}

/// What a melt that is paid through a backend comes to, given the answers
/// `answers` of the backends: `r` is what is answered and `after` is the
/// mint that is left, given the mint `held` in which the request is held.
///
/// Without a backend the request is rolled back and the answer is
/// `UnsupportedUnit`. Otherwise the backend is asked to pay; it is asked
/// again what became of the payment exactly where its first answer leaves
/// that open ([`needs_check_spec`]); and the melt is settled by what the
/// two answers come to ([`resolve_payment_spec`]), as [`melt_resolved`]
/// says.
pub open spec fn melt_paid_out(
    held: MintView,
    quote: MeltQuote,
    request: MeltRequest,
    answers: MeltAnswers,
    r: Result<MeltQuoteBolt11Response, Error>,
    after: MintView,
) -> bool {
    if !answers.has_backend {
        r == Err::<MeltQuoteBolt11Response, Error>(Error::UnsupportedUnit) && melt_undone(
            held,
            request,
            Ok(()),
            after,
        )
    } else {
        &&& answers.check is Some <==> needs_check_spec(answers.pay)
        &&& melt_resolved(
            held,
            quote,
            request,
            resolve_payment_spec(answers.pay, answers.check),
            r,
            after,
        )
    }
}

/// The part of the invoice that a melt of `quote` pays where that is not all
/// of it, or why the inputs do not cover the payment: for a quote in a
/// bitcoin unit what [`expected_ln_fees`] says of its invoice, and nothing
/// for any other unit.
pub open spec fn partial_amount_of(quote: MeltQuote, request: MeltRequest) -> Result<
    Option<Amount>,
    Error,
> {
    if quote.unit.is_bitcoin_spec() {
        expected_ln_fees(quote, request.inputs@, bolt11_amount_msat(quote.request@))
    } else {
        Ok(None)
    }
}

/// What a melt at the time `now` comes to: `r` is the answer and `after` is
/// the mint that is left, given the mint `before`.
///
/// A quote that is not known, or that cannot be taken in flight, leaves the
/// mint as it was. A request that fails [`melt_verdict`] fails with that
/// error and leaves the proofs and signatures as they were and the quote
/// unpaid. A request that passes is held ([`melt_held`]), and then:
///
/// - Where the invoice is one that this mint issued for a mint quote
///   ([`internal_settlement`]), no backend is asked. If that quote has been
///   paid already, the request is rolled back and the answer is
///   `RequestAlreadyPaid`. If it can be settled, it is paid inside the mint
///   and the inputs are burnt for its amount, without a preimage: every
///   input is spent, the melt quote is paid, and the answer is the paid
///   quote with the change, as [`melt_burnt`] says.
/// - Otherwise, where the inputs do not cover what is paid of the invoice
///   and the fee reserve ([`partial_amount_of`]), the request is rolled back
///   and the answer is the error of that check.
/// - Otherwise the melt is paid through a backend, and what it comes to
///   follows from the answers of the backend as [`melt_paid_out`] says.
///
/// A rollback after the check leaves the proofs, the signatures and the mint
/// quotes as they were before the request, and the quote unpaid
/// ([`lemma_check_then_rollback`]).
pub open spec fn melt_attempted(
    before: MintView,
    request: MeltRequest,
    now: u64,
    r: Result<MeltQuoteBolt11Response, Error>,
    after: MintView,
) -> bool {
    match melt_quote_of(before.melt_quotes, request.quote) {
        None => r == Err::<MeltQuoteBolt11Response, Error>(
            Error::Database(DatabaseError::UnknownQuote),
        ) && after == before,
        Some(quote) => match taken_error(quote.state) {
            Some(e) => r == Err::<MeltQuoteBolt11Response, Error>(e) && after == before,
            None => match melt_verdict(
                before.keysets,
                before.proofs,
                before.blind_signatures,
                quote,
                request,
                now,
            ) {
                Err(e) => r == Err::<MeltQuoteBolt11Response, Error>(e) && after == (MintView {
                    melt_quotes: set_melt_state(
                        before.melt_quotes,
                        request.quote,
                        MeltQuoteState::Unpaid,
                    ),
                    notifications: before.notifications.push(
                        NotificationPayload::MeltQuote(request.quote, MeltQuoteState::Pending),
                    ).push(
                        NotificationPayload::MeltQuote(request.quote, MeltQuoteState::Unpaid),
                    ),
                    ..before
                }),
                Ok(_) => {
                    let held = melt_held(before, request);
                    match internal_settlement(before.mint_quotes, quote) {
                        Err(e) => {
                            &&& r == Err::<MeltQuoteBolt11Response, Error>(e)
                            &&& melt_undone(held, request, Ok(()), after)
                            &&& rolled_back(before, request, after)
                        },
                        Ok(Some(mint_quote)) => {
                            &&& melt_burnt(
                                settled_inside(held, mint_quote),
                                request,
                                None,
                                mint_quote.amount,
                                r,
                                after,
                            )
                            &&& burnt(after, request)
                        },
                        Ok(None) => match partial_amount_of(quote, request) {
                            Err(e) => {
                                &&& r == Err::<MeltQuoteBolt11Response, Error>(e)
                                &&& melt_undone(held, request, Ok(()), after)
                                &&& rolled_back(before, request, after)
                            },
                            Ok(_) => exists|answers: MeltAnswers|
                                {
                                    &&& #[trigger] melt_paid_out(
                                        held,
                                        quote,
                                        request,
                                        answers,
                                        r,
                                        after,
                                    )
                                    &&& !answers.has_backend ==> rolled_back(
                                        before,
                                        request,
                                        after,
                                    )
                                },
                        },
                    }
                },
            },
        },
    }
}

impl Mint {
    /// Checks that the inputs of a melt cover what is paid and the fee
    /// reserve, given what the invoice of the quote parses to, and says what
    /// part of the invoice is paid where that is not all of it.
    pub fn expected_ln_fees_for(
        &self,
        melt_quote: &MeltQuote,
        melt_request: &MeltRequest,
        invoice: Option<Option<u64>>,
    ) -> (r: Result<Option<Amount>, Error>)
        ensures
            r == expected_ln_fees(*melt_quote, melt_request.inputs@, invoice),
    {
        let invoice_amount = match invoice {
            Some(invoice_amount) => invoice_amount,
            None => {
                return Err(Error::InvalidInvoice);
            },
        };
        let quote_msats = match to_unit(melt_quote.amount, &melt_quote.unit, &CurrencyUnit::Msat) {
            Ok(amount) => amount,
            Err(e) => {
                return Err(e);
            },
        };
        let invoice_msats = match invoice_amount {
            Some(amount) => Amount(amount),
            None => match melt_quote.msat_to_pay {
                Some(amount) => amount,
                None => {
                    return Err(Error::InvoiceAmountUndefined);
                },
            },
        };
        let exceeds = invoice_msats.0 > quote_msats.0;
        let converted = if exceeds {
            to_unit(quote_msats, &CurrencyUnit::Msat, &melt_quote.unit)
        } else {
            to_unit(invoice_msats, &CurrencyUnit::Msat, &melt_quote.unit)
        };
        let amount_to_pay = match converted {
            Ok(amount) => amount,
            Err(_) => {
                return Err(Error::UnsupportedUnit);
            },
        };
        let partial_amount = if exceeds {
            Some(amount_to_pay)
        } else {
            None
        };
        let inputs_amount = match proofs_total(&melt_request.inputs) {
            Ok(amount) => amount,
            Err(_) => {
                return Err(Error::AmountOverflow);
            },
        };
        if amount_to_pay.0 as u128 + melt_quote.fee_reserve.0 as u128 > inputs_amount.0 as u128 {
            return Err(
                Error::TransactionUnbalanced(
                    inputs_amount.0,
                    amount_to_pay.0,
                    melt_quote.fee_reserve.0,
                ),
            );
        }
        Ok(partial_amount)
    }

    /// Checks that the inputs of a melt cover what the invoice of the quote
    /// asks and the fee reserve, and says what part of the invoice is paid
    /// where that is not all of it.
    pub fn check_melt_expected_ln_fees(
        &self,
        melt_quote: &MeltQuote,
        melt_request: &MeltRequest,
    ) -> (r: Result<Option<Amount>, Error>)
        ensures
            r == expected_ln_fees(
                *melt_quote,
                melt_request.inputs@,
                bolt11_amount_msat(melt_quote.request@),
            ),
    {
        let invoice = invoice_amount_msat(&melt_quote.request);
        self.expected_ln_fees_for(melt_quote, melt_request, invoice)
    }

    /// Takes the quote of a melt request in flight and checks the request
    /// at the time `now`; where it passes, stores the inputs as pending for
    /// the quote. What it does is said by [`melt_checked`].
    pub fn verify_melt_request_at(&mut self, melt_request: &MeltRequest, now: u64) -> (r: Result<
        MeltQuote,
        Error,
    >)
        requires
            old(self).wf(),
        ensures
            final(self).wf(),
            spent_stays(old(self)@.proofs, final(self)@.proofs),
            spent_total(final(self)@.proofs) == spent_total(old(self)@.proofs),
            melt_checked(old(self)@, *melt_request, now, r, final(self)@),
    {
        let (state, quote) = match self.localstore.melt_quotes.update_melt_quote_state(
            melt_request.quote,
            MeltQuoteState::Pending,
        ) {
            Ok(previous) => previous,
            Err(e) => {
                return Err(Error::Database(e));
            },
        };
        match state {
            MeltQuoteState::Unpaid => {},
            MeltQuoteState::Failed => {},
            MeltQuoteState::Pending => {
                return Err(Error::PendingQuote);
            },
            MeltQuoteState::Paid => {
                return Err(Error::PaidQuote);
            },
            MeltQuoteState::Unknown => {
                return Err(Error::UnknownPaymentState);
            },
        }
        self.pubsub_manager.melt_quote_status(melt_request.quote, MeltQuoteState::Pending);
        let verification = match verify_inputs(&self.keysets, &melt_request.inputs, now) {
            Ok(verification) => verification,
            Err(e) => {
                return Err(e);
            },
        };
        let input_unit = match verification.unit {
            Some(unit) => unit,
            None => {
                return Err(Error::UnsupportedUnit);
            },
        };
        if input_unit != quote.unit {
            return Err(Error::UnitMismatch);
        }
        let fee = match get_proofs_fee(&self.keysets, &melt_request.inputs) {
            Ok(fee) => fee,
            Err(e) => {
                return Err(e);
            },
        };
        let required_total: u128 = quote.amount.0 as u128 + quote.fee_reserve.0 as u128
            + fee.0 as u128;
        if (verification.amount.0 as u128) < required_total {
            return Err(
                Error::TransactionUnbalanced(
                    verification.amount.0,
                    quote.amount.0,
                    saturating_add(fee.0, quote.fee_reserve.0),
                ),
            );
        }
        match enforce_sig_flag(&melt_request.inputs) {
            SigFlag::SigAll => {
                return Err(Error::SigAllUsedInMelt);
            },
            SigFlag::SigInputs => {},
        }
        match &melt_request.outputs {
            Some(outputs) => {
                if outputs.len() > 0 {
                    let output_verification = match verify_outputs(
                        &self.keysets,
                        &self.localstore.blind_signatures,
                        outputs,
                    ) {
                        Ok(verification) => verification,
                        Err(e) => {
                            return Err(e);
                        },
                    };
                    match output_verification.unit {
                        Some(unit) => {
                            if unit != input_unit {
                                return Err(Error::UnitMismatch);
                            }
                        },
                        None => {
                            return Err(Error::UnitMismatch);
                        },
                    }
                }
            },
            None => {},
        }
        let infos = match proof_infos(&melt_request.inputs) {
            Ok(infos) => infos,
            Err(e) => {
                return Err(e);
            },
        };
        let ys = info_points(&infos);
        assert(ys@ =~= ys_of(melt_request.inputs@));
        let ghost before = self.localstore.proofs@;
        match self.localstore.proofs.add_proofs(&infos, Some(melt_request.quote)) {
            Ok(_) => {},
            Err(DatabaseError::AttemptUpdateSpentProof) => {
                return Err(Error::TokenAlreadySpent);
            },
            Err(_) => {
                return Err(Error::TokenPending);
            },
        }
        let ghost added = self.localstore.proofs@;
        proof {
            assert forall|k: int| 0 <= k < ys@.len() implies state_of(added, #[trigger] ys@[k])
                == Some(State::Unspent) by {
                let n = before.len();
                assert(added[n + k].y == ys@[k]);
                lemma_state_at(added, n + k);
            }
        }
        match self.check_ys_spendable(&ys, State::Pending) {
            Ok(_) => {},
            Err(e) => {
                return Err(e);
            },
        }
        self.pubsub_manager.proof_states(&ys, State::Pending);
        proof {
            lemma_spent_stays_trans(before, added, self.localstore.proofs@);
        }
        Ok(quote)
    }

    /// Takes the quote of a melt request in flight and checks the request;
    /// where it passes, stores the inputs as pending for the quote.
    ///
    /// Only an unpaid or failed quote can be taken: of two requests for one
    /// quote the second finds it pending, or paid, and changes nothing. A
    /// request that fails a later check leaves the quote in flight and the
    /// proofs as they were.
    ///
    /// The check is made at the time the clock shows; only inputs with a
    /// lock time depend on it.
    pub fn verify_melt_request(&mut self, melt_request: &MeltRequest) -> (r: Result<MeltQuote, Error>)
        requires
            old(self).wf(),
        ensures
            final(self).wf(),
            spent_stays(old(self)@.proofs, final(self)@.proofs),
            spent_total(final(self)@.proofs) == spent_total(old(self)@.proofs),
            exists|now: u64| melt_checked(old(self)@, *melt_request, now, r, final(self)@),
    {
        let now = unix_time();
        self.verify_melt_request_at(melt_request, now)
    }

    /// The points among `ys` whose proofs are stored in flight or set aside
    /// for the quote `quote_id`, in the order of `ys`.
    pub fn held_points(&self, ys: &Vec<PublicKey>, quote_id: Option<u128>) -> (r: Vec<PublicKey>)
        requires
            self.wf(),
        ensures
            r@ == ys@.filter(|y: PublicKey| held_for(self@.proofs, y, quote_id)),
    {
        let ghost held = |y: PublicKey| held_for(self@.proofs, y, quote_id);
        let mut found: Vec<PublicKey> = Vec::new();
        let mut k: usize = 0;
        while k < ys.len()
            invariant
                0 <= k <= ys.len(),
                self.wf(),
                held == |y: PublicKey| held_for(self@.proofs, y, quote_id),
                found@ == ys@.take(k as int).filter(held),
            decreases ys.len() - k,
        {
            proof {
                reveal(Seq::filter);
                assert(ys@.take(k + 1).drop_last() =~= ys@.take(k as int));
            }
            match self.localstore.proofs.get(&ys[k]) {
                Some(record) => {
                    let in_flight = match record.state {
                        State::Pending => true,
                        State::Reserved => true,
                        _ => false,
                    };
                    let bound = match (record.quote_id, quote_id) {
                        (Some(a), Some(b)) => a == b,
                        (None, None) => true,
                        _ => false,
                    };
                    if in_flight && bound {
                        found.push(ys[k]);
                    }
                },
                None => {},
            }
            k = k + 1;
        }
        assert(ys@.take(k as int) =~= ys@);
        found
    }

    /// Undoes what a melt request holds: takes out the inputs that are in
    /// flight for its quote and returns the quote to unpaid. A spent proof
    /// and a paid quote stay as they are.
    ///
    /// Fails with `NoValidPoint`, changing nothing, where a secret hashes to
    /// no point, and with `UnknownQuote`, after the inputs are taken out,
    /// where the quote is not known.
    pub fn process_unpaid_melt(&mut self, melt_request: &MeltRequest) -> (r: Result<(), Error>)
        requires
            old(self).wf(),
        ensures
            final(self).wf(),
            spent_stays(old(self)@.proofs, final(self)@.proofs),
            spent_total(final(self)@.proofs) == spent_total(old(self)@.proofs),
            melt_undone(old(self)@, *melt_request, r, final(self)@),
    {
        let infos = match proof_infos(&melt_request.inputs) {
            Ok(infos) => infos,
            Err(e) => {
                return Err(e);
            },
        };
        let input_ys = info_points(&infos);
        assert(input_ys@ =~= ys_of(melt_request.inputs@));
        let released = self.held_points(&input_ys, Some(melt_request.quote));
        self.localstore.proofs.remove_proofs(&input_ys, Some(melt_request.quote));
        let (previous, quote) = match self.localstore.melt_quotes.update_melt_quote_state(
            melt_request.quote,
            MeltQuoteState::Unpaid,
        ) {
            Ok(previous) => previous,
            Err(e) => {
                return Err(Error::Database(e));
            },
        };
        match previous {
            MeltQuoteState::Paid => {},
            MeltQuoteState::Unknown => {},
            _ => {
                self.pubsub_manager.melt_quote_status(melt_request.quote, MeltQuoteState::Unpaid);
            },
        }
        self.pubsub_manager.proof_states(&released, State::Unspent);
        assert(self@.notifications =~= old(self)@.notifications + rollback_notifications(
            old(self)@.proofs,
            ys_of(melt_request.inputs@),
            quote,
        ));
        Ok(())
    }

    /// Settles a melt inside the mint where its invoice is one that this
    /// mint issued for a mint quote: that quote becomes paid, and its amount
    /// is what the melt has spent. Nothing is settled, and nothing changed,
    /// where there is no such quote.
    pub fn handle_internal_melt_mint(&mut self, melt_quote: &MeltQuote) -> (r: Result<
        Option<Amount>,
        Error,
    >)
        requires
            old(self).wf(),
        ensures
            final(self).wf(),
            match internal_settlement(old(self)@.mint_quotes, *melt_quote) {
                Err(e) => r == Err::<Option<Amount>, Error>(e) && final(self)@ == old(self)@,
                Ok(None) => r == Ok::<Option<Amount>, Error>(None) && final(self)@ == old(self)@,
                Ok(Some(mint_quote)) => r == Ok::<Option<Amount>, Error>(Some(mint_quote.amount))
                    && final(self)@ == settled_inside(old(self)@, mint_quote),
            },
    {
        let mint_quote = match self.localstore.mint_quotes.get_mint_quote_by_request(
            &melt_quote.request,
        ) {
            Some(mint_quote) => mint_quote,
            None => {
                return Ok(None);
            },
        };
        proof {
            lemma_first_with_request_stored(self@.mint_quotes, melt_quote.request@);
        }
        match mint_quote.state {
            MintQuoteState::Unpaid => {},
            _ => {
                return Err(Error::RequestAlreadyPaid);
            },
        }
        if !(mint_quote.unit == melt_quote.unit && mint_quote.amount.0 <= melt_quote.amount.0) {
            return Ok(None);
        }
        match self.localstore.mint_quotes.update_mint_quote_state(
            mint_quote.id,
            MintQuoteState::Paid,
        ) {
            Ok(_) => {},
            Err(e) => {
                return Err(Error::Database(e));
            },
        }
        self.pubsub_manager.mint_quote_status(mint_quote.id, MintQuoteState::Paid);
        Ok(Some(mint_quote.amount))
    }

    /// Whether every one of `infos` is stored in flight for `quote`.
    fn inputs_in_flight(&self, infos: &Vec<ProofInfo>, quote: u128) -> (r: bool)
        requires
            self.wf(),
        ensures
            r == all_in_flight(self@.proofs, infos@, quote),
    {
        let mut k: usize = 0;
        while k < infos.len()
            invariant
                0 <= k <= infos.len(),
                self.wf(),
                forall|j: int|
                    0 <= j < k ==> has_y(self@.proofs, (#[trigger] infos@[j]).y)
                        && self@.proofs[index_of_y(self@.proofs, infos@[j].y)] == in_flight_record(
                        infos@[j],
                        quote,
                    ),
            decreases infos.len() - k,
        {
            let info = infos[k];
            match self.localstore.proofs.get(&info.y) {
                None => {
                    return false;
                },
                Some(record) => {
                    let pending = match record.state {
                        State::Pending => true,
                        _ => false,
                    };
                    let bound = match record.quote_id {
                        Some(id) => id == quote,
                        None => false,
                    };
                    if !(pending && bound && record.amount.0 == info.amount.0 && record.keyset_id
                        == info.keyset_id) {
                        return false;
                    }
                },
            }
            k = k + 1;
        }
        true
    }

    /// Whether one of the points `ys` is stored as spent.
    fn any_input_spent(&self, ys: &Vec<PublicKey>) -> (r: bool)
        requires
            self.wf(),
        ensures
            r == any_spent(self@.proofs, ys@),
    {
        let mut k: usize = 0;
        while k < ys.len()
            invariant
                0 <= k <= ys.len(),
                self.wf(),
                forall|j: int|
                    0 <= j < k ==> state_of(self@.proofs, #[trigger] ys@[j]) != Some(State::Spent),
            decreases ys.len() - k,
        {
            match self.localstore.proofs.get_state(&ys[k]) {
                Some(State::Spent) => {
                    return true;
                },
                _ => {},
            }
            k = k + 1;
        }
        false
    }

    /// Burns the inputs of a melt whose payment went through, marks the
    /// quote paid with the preimage, and returns the change.
    ///
    /// The quote must be in flight and the inputs must be those stored in
    /// flight for it; otherwise nothing is changed. The burn does not wait
    /// for the change: where the change cannot be signed the inputs are
    /// spent and the quote is paid all the same, and the error says why no
    /// change was made.
    ///
    /// Change is due where the inputs are worth more than `total_spent` and
    /// their fee. It never exceeds what is left of the inputs.
    pub fn process_melt_request(
        &mut self,
        melt_request: &MeltRequest,
        payment_preimage: Option<String>,
        total_spent: Amount,
    ) -> (r: Result<MeltQuoteBolt11Response, Error>)
        requires
            old(self).wf(),
        ensures
            final(self).wf(),
            spent_stays(old(self)@.proofs, final(self)@.proofs),
            melt_burnt(
                old(self)@,
                *melt_request,
                payment_preimage,
                total_spent,
                r,
                final(self)@,
            ),
    {
        let quote = match self.localstore.melt_quotes.get_melt_quote(melt_request.quote) {
            Some(quote) => quote,
            None => {
                return Err(Error::UnknownQuote);
            },
        };
        match quote.state {
            MeltQuoteState::Pending => {},
            MeltQuoteState::Paid => {
                return Err(Error::PaidQuote);
            },
            MeltQuoteState::Unknown => {
                return Err(Error::UnknownPaymentState);
            },
            _ => {
                return Err(Error::UnpaidQuote);
            },
        }
        let infos = match proof_infos(&melt_request.inputs) {
            Ok(infos) => infos,
            Err(e) => {
                return Err(e);
            },
        };
        let input_ys = info_points(&infos);
        assert(input_ys@ =~= ys_of(melt_request.inputs@));
        if has_duplicates(&input_ys) {
            return Err(Error::DuplicateInputs);
        }
        let inputs_total = match proofs_total(&melt_request.inputs) {
            Ok(total) => total,
            Err(e) => {
                return Err(e);
            },
        };
        if self.any_input_spent(&input_ys) {
            return Err(Error::TokenAlreadySpent);
        }
        if !self.inputs_in_flight(&infos, melt_request.quote) {
            return Err(Error::TokenNotVerified);
        }
        let no_outputs: Vec<BlindedMessage> = Vec::new();
        let outputs: &Vec<BlindedMessage> = match &melt_request.outputs {
            Some(outputs) => outputs,
            None => &no_outputs,
        };
        assert(outputs@ =~= outputs_of(melt_request.outputs));
        let change: Result<Vec<BlindSignature>, Error> = match get_proofs_fee(
            &self.keysets,
            &melt_request.inputs,
        ) {
            Err(e) => Err(e),
            Ok(fee) => {
                let due = if inputs_total.0 as u128 > total_spent.0 as u128 + fee.0 as u128 {
                    Amount(inputs_total.0 - total_spent.0 - fee.0)
                } else {
                    Amount(0)
                };
                prepare_change(
                    &self.keysets,
                    &self.localstore.blind_signatures,
                    quote.unit,
                    outputs,
                    due,
                )
            },
        };
        let ghost stored = self@.proofs;
        proof {
            assert(stored_amounts(stored, input_ys@) =~= proof_amounts(melt_request.inputs@)) by {
                assert forall|k: int| 0 <= k < input_ys@.len() implies amount_of(
                    stored,
                    input_ys@[k],
                ) == melt_request.inputs@[k].amount by {
                    assert(infos@[k].y == input_ys@[k]);
                }
            }
            lemma_moved_keeps_spent(stored, input_ys@, State::Spent);
        }
        match self.localstore.proofs.update_proofs_states(&input_ys, State::Spent) {
            Ok(_) => {},
            Err(_) => {
                return Err(Error::TokenAlreadySpent);
            },
        }
        match self.localstore.melt_quotes.update_melt_quote_state(
            melt_request.quote,
            MeltQuoteState::Paid,
        ) {
            Ok(_) => {},
            Err(e) => {
                return Err(Error::Database(e));
            },
        }
        let ghost marked = self@.melt_quotes;
        let mut paid = quote;
        paid.state = MeltQuoteState::Paid;
        paid.payment_preimage = payment_preimage;
        proof {
            assert(paid == paid_quote(quote, payment_preimage));
            assert(has_melt_quote(old(self)@.melt_quotes, melt_request.quote));
            let i = choose|i: int|
                0 <= i < old(self)@.melt_quotes.len() && (#[trigger] old(self)@.melt_quotes[i]).id
                    == melt_request.quote;
            assert(marked[i].id == melt_request.quote);
            lemma_melt_quote_at(marked, i);
            assert(replace_melt_quote(marked, paid) =~= replace_melt_quote(
                old(self)@.melt_quotes,
                paid,
            ));
        }
        let kept = paid.duplicate();
        match self.localstore.melt_quotes.add_melt_quote(paid) {
            Ok(_) => {},
            Err(e) => {
                return Err(Error::Database(e));
            },
        }
        self.pubsub_manager.melt_quote_status(melt_request.quote, MeltQuoteState::Paid);
        self.pubsub_manager.proof_states(&input_ys, State::Spent);
        let signatures = match change {
            Ok(signatures) => signatures,
            Err(e) => {
                proof {
                    assert(change_records(
                        outputs_of(melt_request.outputs),
                        Seq::<BlindSignature>::empty(),
                        Some(melt_request.quote),
                    ) =~= Seq::empty());
                    assert(self@.blind_signatures =~= old(self)@.blind_signatures
                        + Seq::<SignatureRecord>::empty());
                    assert(signature_amounts(Seq::<BlindSignature>::empty()) =~= Seq::empty());
                }
                return Err(e);
            },
        };
        let mut records: Vec<SignatureRecord> = Vec::new();
        let mut i: usize = 0;
        while i < signatures.len()
            invariant
                0 <= i <= signatures.len(),
                signatures.len() <= outputs.len(),
                records@ == change_records(outputs@, signatures@, Some(melt_request.quote)).take(
                    i as int,
                ),
            decreases signatures.len() - i,
        {
            records.push(
                SignatureRecord {
                    blinded_secret: outputs[i].blinded_secret,
                    signature: signatures[i],
                    quote_id: Some(melt_request.quote),
                },
            );
            i = i + 1;
            assert(records@ =~= change_records(
                outputs@,
                signatures@,
                Some(melt_request.quote),
            ).take(i as int));
        }
        proof {
            let all = change_records(outputs@, signatures@, Some(melt_request.quote));
            assert(records@ =~= all);
            lemma_issued_change(outputs@, signatures@, Some(melt_request.quote));
            let secrets = output_secrets(outputs@);
            let used = record_secrets(all);
            assert forall|a: int, b: int|
                0 <= a < used.len() && 0 <= b < used.len() && a != b implies used[a]
                != used[b] by {
                assert(used[a] == secrets[a] && used[b] == secrets[b]);
            }
            if any_signed(self@.blind_signatures, used) {
                let k = choose|k: int|
                    0 <= k < used.len() && is_signed(
                        self@.blind_signatures,
                        #[trigger] used[k],
                    );
                assert(secrets[k] == used[k]);
            }
        }
        match self.localstore.blind_signatures.add_blind_signatures(&records) {
            Ok(_) => {},
            Err(e) => {
                return Err(Error::Database(e));
            },
        }
        Ok(respond(&kept, signatures))
    }

    /// Returns a quote in flight to unpaid after a request for it failed
    /// its check.
    fn return_quote(&mut self, quote_id: u128)
        requires
            old(self).wf(),
            melt_quote_of(old(self)@.melt_quotes, quote_id) matches Some(quote) && quote.state
                == MeltQuoteState::Pending,
        ensures
            final(self).wf(),
            final(self)@ == (MintView {
                melt_quotes: set_melt_state(
                    old(self)@.melt_quotes,
                    quote_id,
                    MeltQuoteState::Unpaid,
                ),
                notifications: old(self)@.notifications.push(
                    NotificationPayload::MeltQuote(quote_id, MeltQuoteState::Unpaid),
                ),
                ..old(self)@
            }),
    {
        let _ = self.localstore.melt_quotes.update_melt_quote_state(
            quote_id,
            MeltQuoteState::Unpaid,
        );
        self.pubsub_manager.melt_quote_status(quote_id, MeltQuoteState::Unpaid);
    }

    /// Stores the handle `lookup_id` that the backend now knows the payment
    /// of the quote `quote_id` by. The handle it had is not kept.
    fn update_payment_lookup_id(&mut self, quote_id: u128, lookup_id: &String)
        requires
            old(self).wf(),
        ensures
            final(self).wf(),
            match melt_quote_of(old(self)@.melt_quotes, quote_id) {
                Some(quote) => final(self)@ == (MintView {
                    melt_quotes: replace_melt_quote(
                        old(self)@.melt_quotes,
                        MeltQuote { request_lookup_id: *lookup_id, ..quote },
                    ),
                    ..old(self)@
                }),
                None => final(self)@ == old(self)@,
            },
    {
        match self.localstore.melt_quotes.get_melt_quote(quote_id) {
            Some(stored) => {
                let mut changed = stored;
                changed.request_lookup_id = lookup_id.clone();
                let _ = self.localstore.melt_quotes.add_melt_quote(changed);
            },
            None => {},
        }
    }

    /// Settles a melt whose request is held by what became of its payment:
    /// burns the inputs and returns the change where the payment went
    /// through, rolls the request back where it failed or the invoice had
    /// been paid before, and leaves the inputs held where the payment is on
    /// its way or the backend cannot tell. What it does for each outcome is
    /// said by [`melt_resolved`].
    pub fn settle_melt(
        &mut self,
        quote: &MeltQuote,
        melt_request: &MeltRequest,
        resolution: PaymentResolution,
    ) -> (r: Result<MeltQuoteBolt11Response, Error>)
        requires
            old(self).wf(),
        ensures
            final(self).wf(),
            final(self)@.keysets == old(self)@.keysets,
            final(self)@.mint_info == old(self)@.mint_info,
            final(self)@.quote_ttl == old(self)@.quote_ttl,
            spent_stays(old(self)@.proofs, final(self)@.proofs),
            0 <= issued_total(final(self)@.blind_signatures) - issued_total(
                old(self)@.blind_signatures,
            ) <= spent_total(final(self)@.proofs) - spent_total(old(self)@.proofs),
            melt_resolved(old(self)@, *quote, *melt_request, resolution, r, final(self)@),
    {
        proof {
            lemma_issued_nonnegative(self@.blind_signatures);
        }
        match resolution {
            PaymentResolution::Paid(response) => {
                let spent = amount_spent(&response, quote);
                if !(response.payment_lookup_id == quote.request_lookup_id) {
                    self.update_payment_lookup_id(quote.id, &response.payment_lookup_id);
                }
                let r = self.process_melt_request(melt_request, response.payment_proof, spent);
                proof {
                    lemma_sum_nonnegative(
                        signature_amounts(
                            if r is Ok {
                                change_of(r->Ok_0)
                            } else {
                                Seq::empty()
                            },
                        ),
                    );
                    lemma_sum_nonnegative(proof_amounts(melt_request.inputs@));
                }
                r
            },
            PaymentResolution::Failed => {
                let undone = self.process_unpaid_melt(melt_request);
                assert(melt_undone(old(self)@, *melt_request, undone, self@));
                Err(Error::PaymentFailed)
            },
            PaymentResolution::AlreadyPaid => {
                let undone = self.process_unpaid_melt(melt_request);
                assert(melt_undone(old(self)@, *melt_request, undone, self@));
                Err(Error::RequestAlreadyPaid)
            },
            PaymentResolution::InFlight => Err(Error::PendingQuote),
            PaymentResolution::Ambiguous => Err(Error::Internal),
        }
    }

    /// Melts at the time `now`. See [`Mint::melt_bolt11`]; what it comes to
    /// is said by [`melt_attempted`].
    pub fn melt_bolt11_at<P: MintPayment>(
        &mut self,
        ln: &P,
        melt_request: &MeltRequest,
        now: u64,
    ) -> (r: Result<MeltQuoteBolt11Response, Error>)
        requires
            old(self).wf(),
        ensures
            final(self).wf(),
            final(self)@.keysets == old(self)@.keysets,
            final(self)@.mint_info == old(self)@.mint_info,
            final(self)@.quote_ttl == old(self)@.quote_ttl,
            spent_stays(old(self)@.proofs, final(self)@.proofs),
            0 <= issued_total(final(self)@.blind_signatures) - issued_total(
                old(self)@.blind_signatures,
            ) <= spent_total(final(self)@.proofs) - spent_total(old(self)@.proofs),
            melt_attempted(old(self)@, *melt_request, now, r, final(self)@),
    {
        let ghost start = self@;
        let quote = match self.verify_melt_request_at(melt_request, now) {
            Ok(quote) => quote,
            Err(e) => {
                match e {
                    Error::PendingQuote => {},
                    Error::PaidQuote => {},
                    Error::UnknownPaymentState => {},
                    Error::Database(DatabaseError::UnknownQuote) => {},
                    _ => {
                        proof {
                            lemma_set_melt_state(
                                start.melt_quotes,
                                melt_request.quote,
                                MeltQuoteState::Pending,
                            );
                        }
                        self.return_quote(melt_request.quote);
                        assert(self@.melt_quotes =~= set_melt_state(
                            start.melt_quotes,
                            melt_request.quote,
                            MeltQuoteState::Unpaid,
                        ));
                    },
                }
                proof {
                    lemma_issued_nonnegative(self@.blind_signatures);
                }
                return Err(e);
            },
        };
        let ghost held = self@;
        proof {
            lemma_set_melt_state(start.melt_quotes, melt_request.quote, MeltQuoteState::Pending);
            lemma_issued_nonnegative(self@.blind_signatures);
        }
        let settled_internally = match self.handle_internal_melt_mint(&quote) {
            Ok(amount) => amount,
            Err(e) => {
                let undone = self.process_unpaid_melt(melt_request);
                proof {
                    lemma_spent_stays_trans(start.proofs, held.proofs, self@.proofs);
                    lemma_check_then_rollback(
                        start,
                        held,
                        self@,
                        *melt_request,
                        quote,
                        now,
                        undone,
                    );
                }
                return Err(e);
            },
        };
        match settled_internally {
            Some(amount) => {
                let ghost ready = self@;
                proof {
                    lemma_checked_can_burn(
                        start,
                        held,
                        ready.melt_quotes,
                        *melt_request,
                        quote,
                        now,
                    );
                }
                let r = self.process_melt_request(melt_request, None, amount);
                proof {
                    lemma_spent_stays_trans(start.proofs, ready.proofs, self@.proofs);
                    lemma_sum_nonnegative(
                        signature_amounts(
                            if r is Ok {
                                change_of(r->Ok_0)
                            } else {
                                Seq::empty()
                            },
                        ),
                    );
                    lemma_sum_nonnegative(proof_amounts(melt_request.inputs@));
                    let quote_then = melt_quote_of(ready.melt_quotes, melt_request.quote).unwrap();
                    lemma_replaced_melt_quote(ready.melt_quotes, paid_quote(quote_then, None));
                    assert forall|k: int| 0 <= k < melt_request.inputs@.len() implies state_of(
                        self@.proofs,
                        #[trigger] ys_of(melt_request.inputs@)[k],
                    ) == Some(State::Spent) by {
                        assert(infos_of(melt_request.inputs@)[k].y == ys_of(
                            melt_request.inputs@,
                        )[k]);
                        lemma_moved_state(
                            ready.proofs,
                            ys_of(melt_request.inputs@),
                            State::Spent,
                            k,
                        );
                    }
                }
                return r;
            },
            None => {},
        }
        let partial_amount = if quote.unit.is_bitcoin() {
            match self.check_melt_expected_ln_fees(&quote, melt_request) {
                Ok(amount) => amount,
                Err(e) => {
                    let undone = self.process_unpaid_melt(melt_request);
                    proof {
                        lemma_spent_stays_trans(start.proofs, held.proofs, self@.proofs);
                        lemma_check_then_rollback(
                            start,
                            held,
                            self@,
                            *melt_request,
                            quote,
                            now,
                            undone,
                        );
                    }
                    return Err(e);
                },
            }
        } else {
            None
        };
        if !ln.has_backend(&quote.unit, &PaymentMethod::Bolt11) {
            let undone = self.process_unpaid_melt(melt_request);
            proof {
                lemma_spent_stays_trans(start.proofs, held.proofs, self@.proofs);
                lemma_check_then_rollback(start, held, self@, *melt_request, quote, now, undone);
                let answers = MeltAnswers {
                    has_backend: false,
                    pay: Err(PaymentError::Backend),
                    check: None,
                };
                assert(melt_paid_out(
                    held,
                    quote,
                    *melt_request,
                    answers,
                    Err(Error::UnsupportedUnit),
                    self@,
                ));
            }
            return Err(Error::UnsupportedUnit);
        }
        let pay = ln.make_payment(&quote, partial_amount, Some(quote.fee_reserve));
        let check = if needs_check(&pay) {
            Some(ln.check_outgoing_payment(&quote.unit, &quote.request_lookup_id))
        } else {
            None
        };
        let ghost answers = MeltAnswers { has_backend: true, pay, check };
        let r = self.settle_melt(&quote, melt_request, resolve_payment(pay, check));
        proof {
            lemma_spent_stays_trans(start.proofs, held.proofs, self@.proofs);
            assert(melt_paid_out(held, quote, *melt_request, answers, r, self@));
        }
        r
    }

    /// Melts: takes the quote in flight, checks the request, holds the
    /// inputs, pays the invoice through the backend or settles it inside the
    /// mint, and then burns the inputs and returns the change, or rolls
    /// back.
    ///
    /// A request for a quote that is in flight or paid changes nothing and
    /// fails with `PendingQuote` or `PaidQuote`. A request that fails its
    /// check leaves the proofs as they were and the quote unpaid. A request
    /// whose invoice is a mint quote of this mint is settled without a
    /// backend. Any other request is paid through the backend, and what the
    /// melt comes to follows from the answers of the backend: all of this is
    /// said by [`melt_attempted`]. A backend may answer anything; whatever
    /// it answers, a spent proof stays spent, and the mint signs no more
    /// change than it burns inputs.
    ///
    /// The request is checked at the time the clock shows; only inputs with
    /// a lock time depend on it.
    pub fn melt_bolt11<P: MintPayment>(&mut self, ln: &P, melt_request: &MeltRequest) -> (r: Result<
        MeltQuoteBolt11Response,
        Error,
    >)
        requires
            old(self).wf(),
        ensures
            final(self).wf(),
            final(self)@.keysets == old(self)@.keysets,
            final(self)@.mint_info == old(self)@.mint_info,
            final(self)@.quote_ttl == old(self)@.quote_ttl,
            spent_stays(old(self)@.proofs, final(self)@.proofs),
            0 <= issued_total(final(self)@.blind_signatures) - issued_total(
                old(self)@.blind_signatures,
            ) <= spent_total(final(self)@.proofs) - spent_total(old(self)@.proofs),
            exists|now: u64| melt_attempted(old(self)@, *melt_request, now, r, final(self)@),
    {
        let now = unix_time();
        self.melt_bolt11_at(ln, melt_request, now)
    }
}

} // verus!
