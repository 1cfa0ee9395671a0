//! What holds of the mint over any run of its operations: what is spent
//! stays spent, value is neither made nor lost, a quote is melted once, and
//! a request that is sent again makes nothing new.

use vstd::prelude::*;

use crate::amount::{is_split_of, lemma_split_unique, lemma_sum_nonnegative, sum_amounts, Amount};
use crate::database::melt_quotes::{
    distinct_melt_ids, lemma_replaced_melt_quote, lemma_set_melt_state, melt_quote_of,
    melt_transition_allowed, replace_melt_quote, set_melt_state,
};
use crate::database::proofs::{
    addable, any_spent, distinct_ys, has_y, lemma_moved_state, lemma_spent_concat_unspent,
    lemma_spent_total_moved, lemma_state_at, moved, new_records, spent_stays, spent_total, state_of,
    stored_amounts, ProofRecord,
};
use crate::database::signatures::{
    issued_total, lemma_issued_concat, record_secrets, record_signatures, records_for_quote,
    SignatureRecord,
};
use crate::error::Error;
use crate::keyset::MintKeySet;
use crate::mint::MintView;
use crate::mint::change::{
    change_due, change_outcome, change_outputs, change_records, is_change, lemma_issued_change,
};
use crate::mint::issue::mint_precheck;
use crate::mint::melt::{
    amount_spent_spec, burn_verdict, burnt, change_of, in_flight, lemma_check_then_rollback,
    lemma_checked_can_burn, lookup_noted, melt_held, melt_resolved, melt_undone, melt_verdict,
    outputs_of, paid_quote, rolled_back, taken_error,
};
use crate::mint::swap::{swap_precheck, swapped};
use crate::nuts::{
    output_amounts, proof_amounts, signature_amounts, BlindSignature, BlindedMessage, MeltQuote,
    MeltQuoteBolt11Response, MeltQuoteState, MeltRequest, MintQuote, State, SwapRequest,
};
use crate::payment::PaymentResolution;
use crate::units::CurrencyUnit;
use crate::verification::{
    are_signatures_on, infos_of, is_signature_on, output_secrets, proofs_fee, ys_of,
};

verus! {

/// What the mint owes its users: the sum of the signatures it has issued
/// less the sum of the proofs it has burnt.
pub open spec fn outstanding(mint: MintView) -> int {
    issued_total(mint.blind_signatures) - spent_total(mint.proofs)
}

/// The sum of a sequence of integers.
pub open spec fn sum_of(deltas: Seq<int>) -> int
    decreases deltas.len(),
{
    if deltas.len() == 0 {
        0
    } else {
        sum_of(deltas.drop_last()) + deltas.last()
    }
}

/// No proof leaves the state spent. Over a run of stores in which every
/// store follows from the one before by an operation of the mint, each of
/// which keeps spent what is spent, a proof that is spent at one point is
/// spent at every later point.
pub proof fn law_spent_is_final(run: Seq<Seq<ProofRecord>>, i: int, j: int)
    requires
        forall|k: int| 0 <= k < run.len() - 1 ==> spent_stays(#[trigger] run[k], run[k + 1]),
        0 <= i <= j < run.len(),
    ensures
        spent_stays(run[i], run[j]),
    decreases j - i,
{
    if i < j {
        law_spent_is_final(run, i, j - 1);
        assert(spent_stays(run[j - 1], run[j - 1 + 1]));
    }
}

/// What the mint owes changes over a run by the sum of what it changes by
/// at each step.
pub proof fn law_outstanding_over_run(run: Seq<MintView>, deltas: Seq<int>)
    requires
        run.len() == deltas.len() + 1,
        forall|k: int|
            0 <= k < deltas.len() ==> outstanding(run[k + 1]) == outstanding(#[trigger] run[k])
                + deltas[k],
    ensures
        outstanding(run.last()) == outstanding(run[0]) + sum_of(deltas),
    decreases deltas.len(),
{
    if deltas.len() > 0 {
        let n = deltas.len() as int;
        let front = run.drop_last();
        let front_deltas = deltas.drop_last();
        assert forall|k: int| 0 <= k < front_deltas.len() implies outstanding(front[k + 1])
            == outstanding(#[trigger] front[k]) + front_deltas[k] by {
            assert(outstanding(run[k + 1]) == outstanding(run[k]) + deltas[k]);
        }
        law_outstanding_over_run(front, front_deltas);
        assert(outstanding(run[n - 1 + 1]) == outstanding(run[n - 1]) + deltas[n - 1]);
    }
}

/// A swap keeps the balance: the inputs burnt are worth exactly the
/// signatures issued and the fee, so that the mint owes less by the fee and
/// by nothing else.
pub proof fn law_swap_value(
    before: MintView,
    request: SwapRequest,
    signatures: Seq<BlindSignature>,
    fee: Amount,
    now: u64,
)
    requires
        distinct_ys(before.proofs),
        swap_precheck(before.keysets, before.blind_signatures, request, now) == Ok::<
            Amount,
            Error,
        >(fee),
        addable(before.proofs, ys_of(request.inputs@)),
        are_signatures_on(before.keysets, request.outputs@, signatures),
    ensures
        sum_amounts(proof_amounts(request.inputs@)) == sum_amounts(
            output_amounts(request.outputs@),
        ) + fee.0,
        spent_total(swapped(before, request, signatures).proofs) == spent_total(before.proofs)
            + sum_amounts(proof_amounts(request.inputs@)),
        issued_total(swapped(before, request, signatures).blind_signatures) == issued_total(
            before.blind_signatures,
        ) + sum_amounts(output_amounts(request.outputs@)),
        outstanding(swapped(before, request, signatures)) == outstanding(before) - fee.0,
{
    let ys = ys_of(request.inputs@);
    let infos = infos_of(request.inputs@);
    let added = new_records(infos, None);
    let s = before.proofs + added;
    let n = before.proofs.len() as int;
    lemma_sum_nonnegative(proof_amounts(request.inputs@));
    lemma_sum_nonnegative(output_amounts(request.outputs@));
    assert forall|i: int, j: int| 0 <= i < j < s.len() implies (#[trigger] s[i]).y != (
    #[trigger] s[j]).y by {
        if j < n {
        } else if i < n {
            assert(ys[j - n] == s[j].y);
            assert(!has_y(before.proofs, ys[j - n]));
            assert(before.proofs[i].y != ys[j - n]);
        } else {
            assert(ys[i - n] == s[i].y);
            assert(ys[j - n] == s[j].y);
        }
    }
    assert forall|k: int| 0 <= k < ys.len() implies state_of(s, #[trigger] ys[k]) == Some(
        State::Unspent,
    ) && stored_amounts(s, ys)[k] == proof_amounts(request.inputs@)[k] by {
        assert(s[n + k].y == ys[k]);
        lemma_state_at(s, n + k);
    }
    assert(stored_amounts(s, ys) =~= proof_amounts(request.inputs@));
    lemma_spent_total_moved(s, ys);
    lemma_spent_concat_unspent(before.proofs, added);
    let records = change_records(request.outputs@, signatures, None);
    lemma_issued_concat(before.blind_signatures, records);
    lemma_issued_change(request.outputs@, signatures, None);
    assert(signature_amounts(signatures) =~= output_amounts(request.outputs@));
}

/// Minting against a paid quote issues exactly the amount of the quote.
pub proof fn law_mint_value(
    before: MintView,
    quote: MintQuote,
    outputs: Seq<BlindedMessage>,
    signatures: Seq<BlindSignature>,
)
    requires
        mint_precheck(before.keysets, before.blind_signatures, quote, outputs) is Ok,
        are_signatures_on(before.keysets, outputs, signatures),
    ensures
        issued_total(before.blind_signatures + change_records(outputs, signatures, Some(quote.id)))
            == issued_total(before.blind_signatures) + quote.amount.0,
{
    let records = change_records(outputs, signatures, Some(quote.id));
    lemma_issued_concat(before.blind_signatures, records);
    lemma_issued_change(outputs, signatures, Some(quote.id));
    assert(signature_amounts(signatures) =~= output_amounts(outputs));
    lemma_sum_nonnegative(output_amounts(outputs));
}

/// A melt burns its inputs and issues its change, and the change is never
/// worth more than what the payment and the fee leave of the inputs: where
/// the inputs cover the payment and the fee, the mint owes less by at least
/// what was paid out and the fee.
pub proof fn law_melt_value(
    before: MintView,
    request: MeltRequest,
    change: Seq<BlindSignature>,
    outputs: Seq<BlindedMessage>,
    total_spent: Amount,
    fee: Amount,
)
    requires
        distinct_ys(before.proofs),
        burn_verdict(before.melt_quotes, before.proofs, request) is Ok,
        sum_amounts(signature_amounts(change)) <= change_due(
            sum_amounts(proof_amounts(request.inputs@)) as u64,
            total_spent.0,
            fee.0,
        ),
    ensures
        ({
            let burnt = moved(before.proofs, ys_of(request.inputs@), State::Spent);
            let issued = before.blind_signatures + change_records(
                outputs,
                change,
                Some(request.quote),
            );
            let inputs_total = sum_amounts(proof_amounts(request.inputs@));
            &&& spent_total(burnt) == spent_total(before.proofs) + inputs_total
            &&& issued_total(issued) == issued_total(before.blind_signatures) + sum_amounts(
                signature_amounts(change),
            )
            &&& issued_total(issued) - spent_total(burnt) <= outstanding(before)
            &&& inputs_total >= total_spent.0 + fee.0 ==> issued_total(issued) - spent_total(burnt)
                + total_spent.0 + fee.0 <= outstanding(before)
        }),
{
    let ys = ys_of(request.inputs@);
    let infos = infos_of(request.inputs@);
    lemma_sum_nonnegative(proof_amounts(request.inputs@));
    assert forall|k: int| 0 <= k < ys.len() implies stored_amounts(before.proofs, ys)[k]
        == proof_amounts(request.inputs@)[k] by {
        assert(infos[k].y == ys[k]);
    }
    assert(stored_amounts(before.proofs, ys) =~= proof_amounts(request.inputs@));
    lemma_spent_total_moved(before.proofs, ys);
    let records = change_records(outputs, change, Some(request.quote));
    lemma_issued_concat(before.blind_signatures, records);
    lemma_issued_change(outputs, change, Some(request.quote));
}

/// The change of a melt is settled by the request: of the signatures that
/// may be returned for a change on given outputs there is one sequence and
/// no other.
pub proof fn law_change_is_settled(
    keysets: Seq<MintKeySet>,
    signed: Seq<SignatureRecord>,
    unit: CurrencyUnit,
    outputs: Seq<BlindedMessage>,
    target: u64,
    first: Seq<BlindSignature>,
    second: Seq<BlindSignature>,
)
    requires
        is_change(keysets, signed, unit, outputs, target, Ok(first)),
        is_change(keysets, signed, unit, outputs, target, Ok(second)),
    ensures
        first == second,
{
    if target == 0 || outputs.len() == 0 {
    } else {
        let parts1 = choose|parts: Seq<Amount>|
            is_split_of(parts, target as int) && #[trigger] change_outcome(
                keysets,
                unit,
                change_outputs(outputs, parts),
                Ok(first),
            );
        let parts2 = choose|parts: Seq<Amount>|
            is_split_of(parts, target as int) && #[trigger] change_outcome(
                keysets,
                unit,
                change_outputs(outputs, parts),
                Ok(second),
            );
        lemma_split_unique(parts1, parts2, target as int);
        let outs = change_outputs(outputs, parts1);
        assert(first.len() == second.len());
        assert forall|i: int| 0 <= i < first.len() implies first[i] == second[i] by {
            assert(is_signature_on(keysets, outs[i], first[i]));
            assert(is_signature_on(keysets, outs[i], second[i]));
            assert(first[i].c.bytes@ == second[i].c.bytes@);
            assert(first[i].c.bytes == second[i].c.bytes);
        }
        assert(first =~= second);
    }
}

/// Change is returned in full where enough outputs came: where a request
/// sent at least as many outputs as the change has parts, the signatures
/// returned are worth exactly the change that is due.
pub proof fn law_change_is_whole(
    keysets: Seq<MintKeySet>,
    signed: Seq<SignatureRecord>,
    unit: CurrencyUnit,
    outputs: Seq<BlindedMessage>,
    target: u64,
    parts: Seq<Amount>,
    change: Seq<BlindSignature>,
)
    requires
        is_change(keysets, signed, unit, outputs, target, Ok(change)),
        is_split_of(parts, target as int),
        parts.len() <= outputs.len(),
    ensures
        sum_amounts(signature_amounts(change)) == target,
{
    if target == 0 || outputs.len() == 0 {
        assert(signature_amounts(change) =~= Seq::<Amount>::empty());
        assert(parts.len() == 0 ==> parts =~= Seq::<Amount>::empty());
    } else {
        let chosen = choose|chosen: Seq<Amount>|
            is_split_of(chosen, target as int) && #[trigger] change_outcome(
                keysets,
                unit,
                change_outputs(outputs, chosen),
                Ok(change),
            );
        lemma_split_unique(parts, chosen, target as int);
        let outs = change_outputs(outputs, parts);
        assert forall|i: int| 0 <= i < parts.len() implies signature_amounts(change)[i]
            == parts[i] by {
            assert(is_signature_on(keysets, outs[i], change[i]));
        }
        assert(signature_amounts(change) =~= parts);
    }
}

/// A quote is melted once. A request takes a quote that is unpaid or
/// failed. From then on a second request for the quote is refused: as
/// pending while the first is in flight, as paid once the first has paid.
/// And a paid quote never leaves that state.
pub proof fn law_one_melt_per_quote(quotes: Seq<MeltQuote>, id: u128, preimage: Option<String>)
    requires
        distinct_melt_ids(quotes),
        melt_quote_of(quotes, id) matches Some(quote) && taken_error(quote.state) is None,
    ensures
        ({
            let taken = set_melt_state(quotes, id, MeltQuoteState::Pending);
            let in_flight = melt_quote_of(taken, id).unwrap();
            let paid = replace_melt_quote(taken, paid_quote(in_flight, preimage));
            &&& melt_quote_of(taken, id) is Some
            &&& taken_error(in_flight.state) == Some(Error::PendingQuote)
            &&& melt_quote_of(paid, id) matches Some(quote) && taken_error(quote.state) == Some(
                Error::PaidQuote,
            )
        }),
        forall|next: MeltQuoteState| !melt_transition_allowed(MeltQuoteState::Paid, next),
{
    lemma_set_melt_state(quotes, id, MeltQuoteState::Pending);
    let taken = set_melt_state(quotes, id, MeltQuoteState::Pending);
    let in_flight = melt_quote_of(taken, id).unwrap();
    lemma_replaced_melt_quote(taken, paid_quote(in_flight, preimage));
}

/// A melt that passed its check is settled by what became of the payment.
///
/// Where the payment went through, every input is spent and the quote is
/// paid with the preimage that the backend gave; change is worth no more
/// than what the amount spent and the fee leave of the inputs; the answer
/// is the change that is due, signed on the outputs of the request, or the
/// error that kept it from being signed; and a request that sent no outputs
/// succeeds. Where the payment failed, or the
/// invoice had been paid before, the answer is `PaymentFailed` or
/// `RequestAlreadyPaid`, the proofs, the signatures and the mint quotes are
/// as they were before the request, and the quote is unpaid. Where the
/// payment is on its way or the backend cannot tell, the answer is
/// `PendingQuote` or `Internal`, every input stays in flight and the quote
/// stays pending.
pub proof fn law_melt_follows_payment(
    start: MintView,
    request: MeltRequest,
    quote: MeltQuote,
    now: u64,
    resolution: PaymentResolution,
    r: Result<MeltQuoteBolt11Response, Error>,
    after: MintView,
)
    requires
        distinct_ys(start.proofs),
        distinct_melt_ids(start.melt_quotes),
        melt_quote_of(start.melt_quotes, request.quote) == Some(quote),
        taken_error(quote.state) is None,
        melt_verdict(start.keysets, start.proofs, start.blind_signatures, quote, request, now)
            is Ok,
        melt_resolved(melt_held(start, request), quote, request, resolution, r, after),
    ensures
        match resolution {
            PaymentResolution::Paid(response) => {
                &&& burnt(after, request)
                &&& melt_quote_of(after.melt_quotes, request.quote) matches Some(paid)
                    && paid.payment_preimage == response.payment_proof
                &&& proofs_fee(start.keysets, request.inputs@) matches Ok(fee) && sum_amounts(
                    signature_amounts(
                        match r {
                            Ok(told) => change_of(told),
                            Err(_) => Seq::empty(),
                        },
                    ),
                ) <= change_due(
                    sum_amounts(proof_amounts(request.inputs@)) as u64,
                    amount_spent_spec(response, quote).0,
                    fee.0,
                )
                &&& proofs_fee(start.keysets, request.inputs@) matches Ok(fee) && is_change(
                    start.keysets,
                    start.blind_signatures,
                    quote.unit,
                    outputs_of(request.outputs),
                    change_due(
                        sum_amounts(proof_amounts(request.inputs@)) as u64,
                        amount_spent_spec(response, quote).0,
                        fee.0,
                    ),
                    match r {
                        Ok(told) => Ok(change_of(told)),
                        Err(e) => Err(e),
                    },
                )
                &&& outputs_of(request.outputs).len() == 0 ==> r is Ok
            },
            PaymentResolution::Failed => r == Err::<MeltQuoteBolt11Response, Error>(
                Error::PaymentFailed,
            ) && rolled_back(start, request, after),
            PaymentResolution::AlreadyPaid => r == Err::<MeltQuoteBolt11Response, Error>(
                Error::RequestAlreadyPaid,
            ) && rolled_back(start, request, after),
            PaymentResolution::InFlight => r == Err::<MeltQuoteBolt11Response, Error>(
                Error::PendingQuote,
            ) && in_flight(after, request),
            PaymentResolution::Ambiguous => r == Err::<MeltQuoteBolt11Response, Error>(
                Error::Internal,
            ) && in_flight(after, request),
        },
{
    let held = melt_held(start, request);
    let ys = ys_of(request.inputs@);
    let infos = infos_of(request.inputs@);
    lemma_set_melt_state(start.melt_quotes, request.quote, MeltQuoteState::Pending);
    match resolution {
        PaymentResolution::Paid(response) => {
            let noted = lookup_noted(held, quote, response.payment_lookup_id);
            let stored = melt_quote_of(held.melt_quotes, request.quote).unwrap();
            if noted != held {
                lemma_replaced_melt_quote(
                    held.melt_quotes,
                    MeltQuote { request_lookup_id: response.payment_lookup_id, ..stored },
                );
            }
            lemma_checked_can_burn(start, held, noted.melt_quotes, request, quote, now);
            let ready = melt_quote_of(noted.melt_quotes, request.quote).unwrap();
            lemma_replaced_melt_quote(noted.melt_quotes, paid_quote(ready, response.payment_proof));
            assert forall|k: int| 0 <= k < request.inputs@.len() implies state_of(
                after.proofs,
                #[trigger] ys[k],
            ) == Some(State::Spent) by {
                assert(infos[k].y == ys[k]);
                lemma_moved_state(noted.proofs, ys, State::Spent, k);
            }
        },
        PaymentResolution::Failed | PaymentResolution::AlreadyPaid => {
            let undone = choose|undone: Result<(), Error>|
                melt_undone(held, request, undone, after);
            lemma_check_then_rollback(start, held, after, request, quote, now, undone);
        },
        PaymentResolution::InFlight | PaymentResolution::Ambiguous => {
            lemma_checked_can_burn(start, held, held.melt_quotes, request, quote, now);
            assert forall|k: int| 0 <= k < request.inputs@.len() implies state_of(
                after.proofs,
                #[trigger] ys[k],
            ) == Some(State::Pending) by {
                assert(infos[k].y == ys[k]);
            }
        },
    }
}

/// A melt of everything that a mint and a swap brought in pays out what
/// came in less the fees.
///
/// Where outputs were minted against a quote, proofs worth as much were
/// swapped, proofs worth as much as the outputs of the swap were melted
/// with `spent` paid out, the inputs of the melt cover what was spent and
/// their fee, and the melt sent at least as many outputs as its change has
/// parts, then what was paid out and the change make up the amount of the
/// mint quote less the fee of the swap and the fee of the melt.
pub proof fn law_round_trip(
    keysets: Seq<MintKeySet>,
    signed_at_mint: Seq<SignatureRecord>,
    signed_at_swap: Seq<SignatureRecord>,
    signed_at_melt: Seq<SignatureRecord>,
    mint_quote: MintQuote,
    minted: Seq<BlindedMessage>,
    swap: SwapRequest,
    swap_time: u64,
    melt: MeltRequest,
    melt_quote: MeltQuote,
    spent: Amount,
    parts: Seq<Amount>,
    change: Seq<BlindSignature>,
)
    requires
        mint_precheck(keysets, signed_at_mint, mint_quote, minted) is Ok,
        swap_precheck(keysets, signed_at_swap, swap, swap_time) is Ok,
        sum_amounts(proof_amounts(swap.inputs@)) == sum_amounts(output_amounts(minted)),
        proofs_fee(keysets, melt.inputs@) is Ok,
        sum_amounts(proof_amounts(melt.inputs@)) == sum_amounts(output_amounts(swap.outputs@)),
        sum_amounts(proof_amounts(melt.inputs@)) >= spent.0 + proofs_fee(
            keysets,
            melt.inputs@,
        )->Ok_0.0,
        is_change(
            keysets,
            signed_at_melt,
            melt_quote.unit,
            outputs_of(melt.outputs),
            change_due(
                sum_amounts(proof_amounts(melt.inputs@)) as u64,
                spent.0,
                proofs_fee(keysets, melt.inputs@)->Ok_0.0,
            ),
            Ok(change),
        ),
        is_split_of(
            parts,
            change_due(
                sum_amounts(proof_amounts(melt.inputs@)) as u64,
                spent.0,
                proofs_fee(keysets, melt.inputs@)->Ok_0.0,
            ) as int,
        ),
        parts.len() <= outputs_of(melt.outputs).len(),
    ensures
        spent.0 + sum_amounts(signature_amounts(change)) == mint_quote.amount.0 - swap_precheck(
            keysets,
            signed_at_swap,
            swap,
            swap_time,
        )->Ok_0.0 - proofs_fee(keysets, melt.inputs@)->Ok_0.0,
{
    let melt_fee = proofs_fee(keysets, melt.inputs@)->Ok_0;
    let due = change_due(sum_amounts(proof_amounts(melt.inputs@)) as u64, spent.0, melt_fee.0);
    law_change_is_whole(
        keysets,
        signed_at_melt,
        melt_quote.unit,
        outputs_of(melt.outputs),
        due,
        parts,
        change,
    );
    lemma_sum_nonnegative(proof_amounts(melt.inputs@));
}

/// A swap that is sent again makes nothing new. In the mint as a swap
/// leaves it, the same request fails its check, or finds its inputs spent:
/// either way `process_swap_request` refuses it and changes nothing.
pub proof fn law_swap_replay(
    before: MintView,
    request: SwapRequest,
    signatures: Seq<BlindSignature>,
    fee: Amount,
    now: u64,
)
    requires
        distinct_ys(before.proofs),
        swap_precheck(before.keysets, before.blind_signatures, request, now) == Ok::<
            Amount,
            Error,
        >(fee),
        addable(before.proofs, ys_of(request.inputs@)),
        are_signatures_on(before.keysets, request.outputs@, signatures),
    ensures
        ({
            let after = swapped(before, request, signatures);
            forall|later: u64|
                #[trigger] swap_precheck(after.keysets, after.blind_signatures, request, later)
                    is Err || any_spent(after.proofs, ys_of(request.inputs@))
        }),
{
    let after = swapped(before, request, signatures);
    let ys = ys_of(request.inputs@);
    let infos = infos_of(request.inputs@);
    let s = before.proofs + new_records(infos, None);
    let n = before.proofs.len() as int;
    assert(request.inputs@.len() > 0);
    assert forall|i: int, j: int| 0 <= i < j < s.len() implies (#[trigger] s[i]).y != (
    #[trigger] s[j]).y by {
        if j < n {
        } else if i < n {
            assert(ys[j - n] == s[j].y);
            assert(!has_y(before.proofs, ys[j - n]));
            assert(before.proofs[i].y != ys[j - n]);
        } else {
            assert(ys[i - n] == s[i].y);
            assert(ys[j - n] == s[j].y);
        }
    }
    assert(s[n].y == ys[0]);
    assert(has_y(s, ys[0]));
    lemma_moved_state(s, ys, State::Spent, 0);
}

/// The records stored for a quote, after records for that quote are
/// appended, are those stored before and those appended.
pub proof fn lemma_records_for_quote_concat(
    s: Seq<SignatureRecord>,
    t: Seq<SignatureRecord>,
    quote_id: u128,
)
    requires
        forall|k: int| 0 <= k < t.len() ==> (#[trigger] t[k]).quote_id == Some(quote_id),
    ensures
        records_for_quote(s + t, quote_id) == records_for_quote(s, quote_id) + t,
    decreases t.len(),
{
    if t.len() == 0 {
        assert(s + t =~= s);
        assert(records_for_quote(s, quote_id) + t =~= records_for_quote(s, quote_id));
    } else {
        lemma_records_for_quote_concat(s, t.drop_last(), quote_id);
        assert((s + t).drop_last() =~= s + t.drop_last());
        assert((records_for_quote(s, quote_id) + t.drop_last()).push(t.last())
            =~= records_for_quote(s, quote_id) + t);
    }
}

/// A mint request that is sent again is answered as before. Where nothing
/// was stored for the quote before it was issued, the records stored for it
/// afterwards are those of the request: `process_mint_request` then hands
/// back the same signatures and issues nothing more.
pub proof fn law_mint_replay(
    before: Seq<SignatureRecord>,
    quote_id: u128,
    outputs: Seq<BlindedMessage>,
    signatures: Seq<BlindSignature>,
)
    requires
        records_for_quote(before, quote_id).len() == 0,
        signatures.len() == outputs.len(),
    ensures
        ({
            let stored = records_for_quote(
                before + change_records(outputs, signatures, Some(quote_id)),
                quote_id,
            );
            &&& record_secrets(stored) == output_secrets(outputs)
            &&& record_signatures(stored) == signatures
        }),
{
    let added = change_records(outputs, signatures, Some(quote_id));
    lemma_records_for_quote_concat(before, added, quote_id);
    let stored = records_for_quote(before + added, quote_id);
    assert(stored =~= added);
    assert(record_secrets(stored) =~= output_secrets(outputs));
    assert(record_signatures(stored) =~= signatures);
}

} // verus!
