//! What the mint does when it starts: it asks the backends what became of
//! the invoices and payments that it has not seen the end of.

use vstd::prelude::*;

use crate::amount::sum_amounts;
use crate::database::melt_quotes::{
    has_melt_quote, lemma_melt_quote_at, lemma_settled_kept, melt_quote_of, replace_melt_quote,
    set_melt_state, settled_kept,
};
use crate::database::mint_quotes::{
    first_with_lookup_id, lemma_first_with_lookup_id_stored, lemma_mint_quote_at, lemma_paid_kept,
    paid_kept,
};
use crate::database::proofs::{
    lemma_pending_ys, lemma_spent_stays_trans, moved, pending_ys, removable, spent_stays,
    spent_total, stored_amounts, ProofRecord,
};
use crate::error::Error;
use crate::mint::{Mint, MintView};
use crate::mint::issue::paid_for_lookup;
use crate::mint::melt::paid_quote;
use crate::nuts::{MeltQuote, MeltQuoteState, MintQuote, MintQuoteState, State};
use crate::payment::{
    resolution_of, resolve_response, MakePaymentResponse, MintPayment, PaymentError,
    PaymentResolution,
};
use crate::pubsub::{proof_notifications, NotificationPayload};
use crate::units::PaymentMethod;

verus! {

/// Why the quote in the state `state` is not one whose payment can be
/// settled now, where it is not: only a quote in flight is.
pub open spec fn not_in_flight(state: MeltQuoteState) -> Option<Error> {
    match state {
        MeltQuoteState::Pending => None,
        MeltQuoteState::Unpaid | MeltQuoteState::Failed => Some(Error::UnpaidQuote),
        MeltQuoteState::Paid => Some(Error::PaidQuote),
        MeltQuoteState::Unknown => Some(Error::UnknownPaymentState),
    }
}

/// The mint `before` once the melt of the quote `quote_id` is finished with
/// the preimage: the proofs in flight for the quote are spent, the quote is
/// paid, and subscribers are told. Where the quote is not in flight the
/// mint is as it was.
pub open spec fn melt_finalized(
    before: MintView,
    quote_id: u128,
    payment_preimage: Option<String>,
) -> MintView {
    match melt_quote_of(before.melt_quotes, quote_id) {
        Some(quote) => if quote.state == MeltQuoteState::Pending {
            let ys = pending_ys(before.proofs, quote_id);
            MintView {
                proofs: moved(before.proofs, ys, State::Spent),
                melt_quotes: replace_melt_quote(
                    before.melt_quotes,
                    paid_quote(quote, payment_preimage),
                ),
                notifications: before.notifications.push(
                    NotificationPayload::MeltQuote(quote_id, MeltQuoteState::Paid),
                ) + proof_notifications(ys, State::Spent),
                ..before
            }
        } else {
            before
        },
        None => before,
    }
}

/// The mint `before` once the melt of the quote `quote_id` is rolled back:
/// the proofs in flight for the quote are taken out, the quote is unpaid,
/// and subscribers are told. Where the quote is not in flight the mint is as
/// it was.
pub open spec fn melt_released(before: MintView, quote_id: u128) -> MintView {
    match melt_quote_of(before.melt_quotes, quote_id) {
        Some(quote) => if quote.state == MeltQuoteState::Pending {
            let ys = pending_ys(before.proofs, quote_id);
            MintView {
                proofs: before.proofs.filter(
                    |record: ProofRecord| !removable(record, ys, Some(quote_id)),
                ),
                melt_quotes: set_melt_state(
                    before.melt_quotes,
                    quote_id,
                    MeltQuoteState::Unpaid,
                ),
                notifications: before.notifications.push(
                    NotificationPayload::MeltQuote(quote_id, MeltQuoteState::Unpaid),
                ) + proof_notifications(ys, State::Unspent),
                ..before
            }
        } else {
            before
        },
        None => before,
    }
}

/// The mint `before` once the backend has answered `answer` when asked what
/// became of the payment of the quote `quote_id`. Where the payment went
/// through the melt is finished, with the preimage that the backend shows;
/// where it failed, or was never made, the melt is rolled back; where the
/// payment is on its way, the backend cannot tell, or the backend could not
/// be asked, the mint is as it was.
pub open spec fn melt_settled(
    before: MintView,
    quote_id: u128,
    answer: Result<MakePaymentResponse, PaymentError>,
) -> MintView {
    match answer {
        Ok(response) => match resolution_of(response) {
            PaymentResolution::Paid(paid) => melt_finalized(before, quote_id, paid.payment_proof),
            PaymentResolution::Failed => melt_released(before, quote_id),
            _ => before,
        },
        Err(_) => before,
    }
}

/// The mint `start` once the melt quotes `quotes` have been gone through,
/// oldest first, with the answers `answers` of the backends: a quote whose
/// place holds an answer is settled by it, and one whose place holds none
/// was passed over.
pub open spec fn melts_reconciled(
    start: MintView,
    quotes: Seq<MeltQuote>,
    answers: Seq<Option<Result<MakePaymentResponse, PaymentError>>>,
) -> MintView
    decreases quotes.len(),
{
    if quotes.len() == 0 || answers.len() != quotes.len() {
        start
    } else {
        let before = melts_reconciled(start, quotes.drop_last(), answers.drop_last());
        match answers.last() {
            Some(answer) => melt_settled(before, quotes.last().id, answer),
            None => before,
        }
    }
}

/// The mint `before` once the backend has answered `answer` when asked what
/// became of the invoice that it knows as `lookup_id`: where the invoice
/// has been paid that is noted, and otherwise the mint is as it was.
pub open spec fn incoming_noted(
    before: MintView,
    lookup_id: Seq<char>,
    answer: Result<MintQuoteState, PaymentError>,
) -> MintView {
    if answer == Ok::<MintQuoteState, PaymentError>(MintQuoteState::Paid) {
        paid_for_lookup(before, lookup_id)
    } else {
        before
    }
}

/// The mint `start` once the mint quotes `quotes` have been gone through,
/// oldest first, with the answers `answers` of the backends: for a quote
/// whose place holds an answer the answer is noted, and one whose place
/// holds none was passed over.
pub open spec fn mints_reconciled(
    start: MintView,
    quotes: Seq<MintQuote>,
    answers: Seq<Option<Result<MintQuoteState, PaymentError>>>,
) -> MintView
    decreases quotes.len(),
{
    if quotes.len() == 0 || answers.len() != quotes.len() {
        start
    } else {
        let before = mints_reconciled(start, quotes.drop_last(), answers.drop_last());
        match answers.last() {
            Some(answer) => incoming_noted(before, quotes.last().request_lookup_id@, answer),
            None => before,
        }
    }
}

impl Mint {
    /// Burns the proofs that are in flight for the quote `quote_id` and
    /// marks the quote paid with the preimage: the end of a melt whose
    /// payment is known to have gone through. No change is returned.
    /// Nothing is changed where the quote is not in flight.
    pub fn finalize_pending_melt(
        &mut self,
        quote_id: u128,
        payment_preimage: Option<String>,
    ) -> (r: Result<(), Error>)
        requires
            old(self).wf(),
        ensures
            final(self).wf(),
            spent_stays(old(self)@.proofs, final(self)@.proofs),
            final(self)@ == melt_finalized(old(self)@, quote_id, payment_preimage),
            match melt_quote_of(old(self)@.melt_quotes, quote_id) {
                None => r == Err::<(), Error>(Error::UnknownQuote) && final(self)@ == old(self)@,
                Some(quote) => match not_in_flight(quote.state) {
                    Some(e) => r == Err::<(), Error>(e) && final(self)@ == old(self)@,
                    None => {
                        let ys = pending_ys(old(self)@.proofs, quote_id);
                        &&& r is Ok
                        &&& final(self)@ == (MintView {
                            proofs: moved(old(self)@.proofs, ys, State::Spent),
                            melt_quotes: replace_melt_quote(
                                old(self)@.melt_quotes,
                                paid_quote(quote, payment_preimage),
                            ),
                            notifications: old(self)@.notifications.push(
                                NotificationPayload::MeltQuote(quote_id, MeltQuoteState::Paid),
                            ) + proof_notifications(ys, State::Spent),
                            ..old(self)@
                        })
                        &&& spent_total(final(self)@.proofs) == spent_total(old(self)@.proofs)
                            + sum_amounts(stored_amounts(old(self)@.proofs, ys))
                    },
                },
            },
    {
        let quote = match self.localstore.melt_quotes.get_melt_quote(quote_id) {
            Some(quote) => quote,
            None => {
                return Err(Error::UnknownQuote);
            },
        };
        match quote.state {
            MeltQuoteState::Pending => {},
            MeltQuoteState::Paid => {
                return Err(Error::PaidQuote);
            },
            MeltQuoteState::Unknown => {
                return Err(Error::UnknownPaymentState);
            },
            _ => {
                return Err(Error::UnpaidQuote);
            },
        }
        let ys = self.localstore.proofs.get_pending_ys(quote_id);
        proof {
            lemma_pending_ys(self@.proofs, quote_id);
        }
        match self.localstore.proofs.update_proofs_states(&ys, State::Spent) {
            Ok(_) => {},
            Err(_) => {
                return Err(Error::TokenAlreadySpent);
            },
        }
        let _ = self.localstore.melt_quotes.update_melt_quote_state(
            quote_id,
            MeltQuoteState::Paid,
        );
        let ghost marked = self@.melt_quotes;
        let mut paid = quote;
        paid.state = MeltQuoteState::Paid;
        paid.payment_preimage = payment_preimage;
        proof {
            assert(paid == paid_quote(quote, payment_preimage));
            assert(has_melt_quote(old(self)@.melt_quotes, quote_id));
            let i = choose|i: int|
                0 <= i < old(self)@.melt_quotes.len() && (#[trigger] old(self)@.melt_quotes[i]).id
                    == quote_id;
            assert(marked[i].id == quote_id);
            lemma_melt_quote_at(marked, i);
            assert(replace_melt_quote(marked, paid) =~= replace_melt_quote(
                old(self)@.melt_quotes,
                paid,
            ));
        }
        let _ = self.localstore.melt_quotes.add_melt_quote(paid);
        self.pubsub_manager.melt_quote_status(quote_id, MeltQuoteState::Paid);
        self.pubsub_manager.proof_states(&ys, State::Spent);
        Ok(())
    }

    /// Takes out the proofs that are in flight for the quote `quote_id` and
    /// returns the quote to unpaid: the end of a melt whose payment is known
    /// to have failed. Nothing is changed where the quote is not in flight.
    pub fn rollback_pending_melt(&mut self, quote_id: u128) -> (r: Result<(), Error>)
        requires
            old(self).wf(),
        ensures
            final(self).wf(),
            spent_stays(old(self)@.proofs, final(self)@.proofs),
            spent_total(final(self)@.proofs) == spent_total(old(self)@.proofs),
            final(self)@ == melt_released(old(self)@, quote_id),
            match melt_quote_of(old(self)@.melt_quotes, quote_id) {
                None => r == Err::<(), Error>(Error::UnknownQuote) && final(self)@ == old(self)@,
                Some(quote) => match not_in_flight(quote.state) {
                    Some(e) => r == Err::<(), Error>(e) && final(self)@ == old(self)@,
                    None => {
                        let ys = pending_ys(old(self)@.proofs, quote_id);
                        &&& r is Ok
                        &&& final(self)@ == (MintView {
                            proofs: old(self)@.proofs.filter(
                                |record: ProofRecord| !removable(record, ys, Some(quote_id)),
                            ),
                            melt_quotes: set_melt_state(
                                old(self)@.melt_quotes,
                                quote_id,
                                MeltQuoteState::Unpaid,
                            ),
                            notifications: old(self)@.notifications.push(
                                NotificationPayload::MeltQuote(quote_id, MeltQuoteState::Unpaid),
                            ) + proof_notifications(ys, State::Unspent),
                            ..old(self)@
                        })
                    },
                },
            },
    {
        let quote = match self.localstore.melt_quotes.get_melt_quote(quote_id) {
            Some(quote) => quote,
            None => {
                return Err(Error::UnknownQuote);
            },
        };
        match quote.state {
            MeltQuoteState::Pending => {},
            MeltQuoteState::Paid => {
                return Err(Error::PaidQuote);
            },
            MeltQuoteState::Unknown => {
                return Err(Error::UnknownPaymentState);
            },
            _ => {
                return Err(Error::UnpaidQuote);
            },
        }
        let ys = self.localstore.proofs.get_pending_ys(quote_id);
        self.localstore.proofs.remove_proofs(&ys, Some(quote_id));
        let _ = self.localstore.melt_quotes.update_melt_quote_state(
            quote_id,
            MeltQuoteState::Unpaid,
        );
        self.pubsub_manager.melt_quote_status(quote_id, MeltQuoteState::Unpaid);
        self.pubsub_manager.proof_states(&ys, State::Unspent);
        Ok(())
    }

    /// Settles the melt of the quote `quote_id` by what the backend has
    /// answered when asked what became of its payment: a payment that went
    /// through finishes the melt, one that failed rolls it back, and any
    /// other answer leaves the mint as it is.
    pub fn settle_pending_melt(
        &mut self,
        quote_id: u128,
        answer: Result<MakePaymentResponse, PaymentError>,
    )
        requires
            old(self).wf(),
        ensures
            final(self).wf(),
            spent_stays(old(self)@.proofs, final(self)@.proofs),
            final(self)@ == melt_settled(old(self)@, quote_id, answer),
    {
        match answer {
            Ok(response) => match resolve_response(response) {
                PaymentResolution::Paid(paid) => {
                    let _ = self.finalize_pending_melt(quote_id, paid.payment_proof);
                },
                PaymentResolution::Failed => {
                    let _ = self.rollback_pending_melt(quote_id);
                },
                _ => {},
            },
            Err(_) => {},
        }
    }

    /// Notes what the backend has answered when asked what became of the
    /// invoice that it knows as `lookup_id`: where the invoice has been
    /// paid, the oldest quote for it becomes paid where it was unpaid; any
    /// other answer leaves the mint as it is.
    pub fn note_incoming_status(
        &mut self,
        lookup_id: &String,
        answer: Result<MintQuoteState, PaymentError>,
    )
        requires
            old(self).wf(),
        ensures
            final(self).wf(),
            final(self)@ == incoming_noted(old(self)@, lookup_id@, answer),
    {
        match answer {
            Ok(MintQuoteState::Paid) => {
                let _ = self.pay_mint_quote_for_request_id(lookup_id);
            },
            _ => {},
        }
    }

    /// Asks the backends about every mint quote that is unpaid and marks
    /// paid those whose invoice has been paid.
    ///
    /// The quotes are gone through oldest first. A quote that is unpaid and
    /// has a backend is asked about, and the answer is noted as
    /// [`incoming_noted`] says; every other quote is passed over. Which
    /// answers come is up to the backends: the mint is left as
    /// [`mints_reconciled`] says for the answers that came. Whatever they
    /// are, only mint quotes and what subscribers are told are changed, and
    /// a quote that is not unpaid stays as it is.
    pub fn check_pending_mint_quotes<P: MintPayment>(&mut self, ln: &P) -> (r: Result<(), Error>)
        requires
            old(self).wf(),
        ensures
            final(self).wf(),
            r is Ok,
            exists|answers: Seq<Option<Result<MintQuoteState, PaymentError>>>|
                answers.len() == old(self)@.mint_quotes.len() && final(self)@
                    == #[trigger] mints_reconciled(old(self)@, old(self)@.mint_quotes, answers),
            paid_kept(old(self)@.mint_quotes, final(self)@.mint_quotes),
            final(self)@ == (MintView {
                mint_quotes: final(self)@.mint_quotes,
                notifications: final(self)@.notifications,
                ..old(self)@
            }),
    {
        let quotes = self.localstore.mint_quotes.get_mint_quotes();
        let ghost mut answers: Seq<Option<Result<MintQuoteState, PaymentError>>> = Seq::empty();
        let mut i: usize = 0;
        proof {
            assert(quotes@.take(0) =~= Seq::<MintQuote>::empty());
        }
        while i < quotes.len()
            invariant
                0 <= i <= quotes.len(),
                self.wf(),
                old(self).wf(),
                quotes@ == old(self)@.mint_quotes,
                answers.len() == i,
                self@ == mints_reconciled(old(self)@, quotes@.take(i as int), answers),
                self@.mint_quotes.len() == old(self)@.mint_quotes.len(),
                forall|j: int|
                    0 <= j < self@.mint_quotes.len() ==> (#[trigger] self@.mint_quotes[j]).id
                        == old(self)@.mint_quotes[j].id,
                forall|j: int|
                    0 <= j < self@.mint_quotes.len() && (#[trigger] old(self)@.mint_quotes[j]).state
                        != MintQuoteState::Unpaid ==> self@.mint_quotes[j] == old(
                        self,
                    )@.mint_quotes[j],
                self@ == (MintView {
                    mint_quotes: self@.mint_quotes,
                    notifications: self@.notifications,
                    ..old(self)@
                }),
            decreases quotes.len() - i,
        {
            let unpaid = match quotes[i].state {
                MintQuoteState::Unpaid => true,
                _ => false,
            };
            let ghost previous = answers;
            let ghost mut asked: Option<Result<MintQuoteState, PaymentError>> = None;
            if unpaid && ln.has_backend(&quotes[i].unit, &PaymentMethod::Bolt11) {
                let answer = ln.check_incoming_payment_status(
                    &quotes[i].unit,
                    &quotes[i].request_lookup_id,
                );
                let ghost stored = self@.mint_quotes;
                proof {
                    asked = Some(answer);
                }
                self.note_incoming_status(&quotes[i].request_lookup_id, answer);
                proof {
                    lemma_first_with_lookup_id_stored(
                        stored,
                        quotes@[i as int].request_lookup_id@,
                    );
                    let now = self@.mint_quotes;
                    assert(now.len() == stored.len());
                    assert forall|j: int| 0 <= j < now.len() implies (#[trigger] now[j]).id
                        == stored[j].id && (stored[j].state != MintQuoteState::Unpaid ==> now[j]
                        == stored[j]) by {
                        match first_with_lookup_id(stored, quotes@[i as int].request_lookup_id@) {
                            Some(found) => {
                                if stored[j].id == found.id {
                                    lemma_mint_quote_at(stored, j);
                                }
                            },
                            None => {},
                        }
                    }
                }
            }
            proof {
                answers = previous.push(asked);
                assert(quotes@.take(i + 1).drop_last() =~= quotes@.take(i as int));
                assert(answers.drop_last() =~= previous);
                assert(quotes@.take(i + 1).last() == quotes@[i as int]);
            }
            i = i + 1;
        }
        proof {
            assert(quotes@.take(i as int) =~= quotes@);
            lemma_paid_kept(old(self)@.mint_quotes, self@.mint_quotes);
        }
        Ok(())
    }

    /// Asks the backends about every melt quote that is in flight: a melt
    /// whose payment went through is finished, one whose payment failed is
    /// rolled back, and one of which the backend cannot tell is left as it
    /// is.
    ///
    /// The quotes are gone through oldest first. A quote that is in flight
    /// and has a backend is asked about and settled by the answer, as
    /// [`melt_settled`] says; every other quote is passed over. Which
    /// answers come is up to the backends: the mint is left as
    /// [`melts_reconciled`] says for the answers that came. Whatever they
    /// are, a spent proof stays spent, a melt quote that is not in flight
    /// stays as it is, and no signature and no mint quote is changed.
    pub fn check_pending_melt_quotes<P: MintPayment>(&mut self, ln: &P) -> (r: Result<(), Error>)
        requires
            old(self).wf(),
        ensures
            final(self).wf(),
            r is Ok,
            exists|answers: Seq<Option<Result<MakePaymentResponse, PaymentError>>>|
                answers.len() == old(self)@.melt_quotes.len() && final(self)@
                    == #[trigger] melts_reconciled(old(self)@, old(self)@.melt_quotes, answers),
            spent_stays(old(self)@.proofs, final(self)@.proofs),
            settled_kept(old(self)@.melt_quotes, final(self)@.melt_quotes),
            final(self)@ == (MintView {
                proofs: final(self)@.proofs,
                melt_quotes: final(self)@.melt_quotes,
                notifications: final(self)@.notifications,
                ..old(self)@
            }),
    {
        let quotes = self.localstore.melt_quotes.get_melt_quotes();
        let ghost mut answers: Seq<Option<Result<MakePaymentResponse, PaymentError>>> =
            Seq::empty();
        proof {
            lemma_settled_kept(self@.melt_quotes, self@.melt_quotes);
            assert(quotes@.take(0) =~= Seq::<MeltQuote>::empty());
        }
        let mut i: usize = 0;
        while i < quotes.len()
            invariant
                0 <= i <= quotes.len(),
                self.wf(),
                old(self).wf(),
                quotes@ == old(self)@.melt_quotes,
                answers.len() == i,
                self@ == melts_reconciled(old(self)@, quotes@.take(i as int), answers),
                spent_stays(old(self)@.proofs, self@.proofs),
                self@.melt_quotes.len() == old(self)@.melt_quotes.len(),
                forall|j: int|
                    0 <= j < self@.melt_quotes.len() ==> (#[trigger] self@.melt_quotes[j]).id
                        == old(self)@.melt_quotes[j].id,
                forall|j: int|
                    0 <= j < self@.melt_quotes.len() && (#[trigger] old(self)@.melt_quotes[j]).state
                        != MeltQuoteState::Pending ==> self@.melt_quotes[j] == old(
                        self,
                    )@.melt_quotes[j],
                self@ == (MintView {
                    proofs: self@.proofs,
                    melt_quotes: self@.melt_quotes,
                    notifications: self@.notifications,
                    ..old(self)@
                }),
            decreases quotes.len() - i,
        {
            let in_flight = match quotes[i].state {
                MeltQuoteState::Pending => true,
                _ => false,
            };
            let ghost previous = answers;
            let ghost mut asked: Option<Result<MakePaymentResponse, PaymentError>> = None;
            if in_flight && ln.has_backend(&quotes[i].unit, &PaymentMethod::Bolt11) {
                let ghost before = self@.proofs;
                let ghost stored = self@.melt_quotes;
                let answer = ln.check_outgoing_payment(
                    &quotes[i].unit,
                    &quotes[i].request_lookup_id,
                );
                proof {
                    asked = Some(answer);
                }
                self.settle_pending_melt(quotes[i].id, answer);
                proof {
                    lemma_spent_stays_trans(old(self)@.proofs, before, self@.proofs);
                    let now = self@.melt_quotes;
                    assert(now.len() == stored.len());
                    assert forall|j: int| 0 <= j < now.len() implies (#[trigger] now[j]).id
                        == stored[j].id && (stored[j].state != MeltQuoteState::Pending ==> now[j]
                        == stored[j]) by {
                        if stored[j].id == quotes@[i as int].id {
                            lemma_melt_quote_at(stored, j);
                        }
                    }
                }
            }
            proof {
                answers = previous.push(asked);
                assert(quotes@.take(i + 1).drop_last() =~= quotes@.take(i as int));
                assert(answers.drop_last() =~= previous);
                assert(quotes@.take(i + 1).last() == quotes@[i as int]);
            }
            i = i + 1;
        }
        proof {
            assert(quotes@.take(i as int) =~= quotes@);
            lemma_settled_kept(old(self)@.melt_quotes, self@.melt_quotes);
        }
        Ok(())
    }
}

} // verus!
