//! Swapping: proofs are burnt and blinded messages of the same worth, less
//! the fee, are signed in one step.

use vstd::prelude::*;

use crate::amount::{sum_amounts, Amount};
use crate::conditions::{check_request_unlocked, enforce_sig_flag, request_unlocked, sig_flag_of};
use crate::database::proofs::{
    addable, amount_of, any_spent, lemma_moved_distinct, lemma_spent_stays_trans, lemma_state_at,
    moved, new_records, spent_stays, spent_total, state_of, stored_amounts,
};
use crate::database::signatures::{issued_total, record_secrets, SignatureRecord};
use crate::error::{DatabaseError, Error};
use crate::keyset::MintKeySet;
use crate::mint::{Mint, MintView};
use crate::mint::change::{change_records, lemma_issued_change};
use crate::nuts::{
    output_amounts, proof_amounts, signature_amounts, BlindSignature, SigFlag, State, SwapRequest,
};
use crate::pubsub::proof_notifications;
use crate::util::unix_time;
use crate::verification::{
    all_signable, are_signatures_on, first_unsignable, get_proofs_fee, info_points, infos_of,
    inputs_verdict, output_secrets, outputs_verdict, proof_infos, proofs_fee, sign_outputs,
    verify_inputs, verify_outputs, ys_of,
};

verus! {

/// What the check of a swap comes to at the time `now`, before anything is
/// signed: the fee, or the first of these that fails. The inputs pass their
/// check and there are some; the outputs pass theirs; both count in one
/// unit; the fee of the inputs is known; the inputs are worth exactly the
/// outputs and the fee; and inputs that ask for one set of signatures over
/// the whole request have it.
pub open spec fn swap_precheck(
    keysets: Seq<MintKeySet>,
    signed: Seq<SignatureRecord>,
    request: SwapRequest,
    now: u64,
) -> Result<Amount, Error> {
    match inputs_verdict(keysets, request.inputs@, now) {
        Err(e) => Err(e),
        Ok(inputs) => match outputs_verdict(keysets, signed, request.outputs@) {
            Err(e) => Err(e),
            Ok(outputs) => if inputs.unit is None {
                Err(Error::UnsupportedUnit)
            } else if inputs.unit != outputs.unit {
                Err(Error::UnitMismatch)
            } else {
                match proofs_fee(keysets, request.inputs@) {
                    Err(e) => Err(e),
                    Ok(fee) => if inputs.amount.0 != outputs.amount.0 + fee.0 {
                        Err(Error::TransactionUnbalanced(inputs.amount.0, outputs.amount.0, fee.0))
                    } else if sig_flag_of(request.inputs@) == SigFlag::SigAll && !request_unlocked(
                        request.inputs@,
                        request.outputs@,
                        now,
                    ) {
                        Err(Error::SpendConditionsNotMet)
                    } else {
                        Ok(fee)
                    },
                }
            },
        },
    }
}

/// The mint after the swap `request` for which it made `signatures`: the
/// inputs are stored as spent, the signatures are stored, and subscribers
/// are told that the inputs were pending and are spent.
pub open spec fn swapped(
    before: MintView,
    request: SwapRequest,
    signatures: Seq<BlindSignature>,
) -> MintView {
    MintView {
        proofs: moved(
            before.proofs + new_records(infos_of(request.inputs@), None),
            ys_of(request.inputs@),
            State::Spent,
        ),
        blind_signatures: before.blind_signatures + change_records(
            request.outputs@,
            signatures,
            None,
        ),
        notifications: before.notifications + proof_notifications(
            ys_of(request.inputs@),
            State::Pending,
        ) + proof_notifications(ys_of(request.inputs@), State::Spent),
        ..before
    }
}

/// What a swap at the time `now` does: `r` is what it answers and `after`
/// is the mint it leaves, given the mint `before`.
///
/// Either all of it happens or nothing is changed. The request must pass
/// [`swap_precheck`]; every output must be one the mint can sign; and no
/// input may be stored already, as spent (`TokenAlreadySpent`) or otherwise
/// (`TokenPending`). The answer is then the signatures on the outputs, in
/// the order of the outputs, and the mint is as [`swapped`] says.
pub open spec fn swap_outcome(
    before: MintView,
    request: SwapRequest,
    now: u64,
    r: Result<Seq<BlindSignature>, Error>,
    after: MintView,
) -> bool {
    &&& r is Err ==> after == before
    &&& match swap_precheck(before.keysets, before.blind_signatures, request, now) {
        Err(e) => r == Err::<Seq<BlindSignature>, Error>(e),
        Ok(fee) => if !all_signable(before.keysets, request.outputs@) {
            r matches Err(e) && exists|i: int|
                first_unsignable(before.keysets, request.outputs@, i, e)
        } else if any_spent(before.proofs, ys_of(request.inputs@)) {
            r == Err::<Seq<BlindSignature>, Error>(Error::TokenAlreadySpent)
        } else if !addable(before.proofs, ys_of(request.inputs@)) {
            r == Err::<Seq<BlindSignature>, Error>(Error::TokenPending)
        } else {
            &&& r matches Ok(signatures)
            &&& are_signatures_on(before.keysets, request.outputs@, signatures)
            &&& after == swapped(before, request, signatures)
            &&& spent_total(after.proofs) == spent_total(before.proofs) + sum_amounts(
                proof_amounts(request.inputs@),
            )
            &&& issued_total(after.blind_signatures) == issued_total(before.blind_signatures)
                + sum_amounts(output_amounts(request.outputs@))
            &&& sum_amounts(proof_amounts(request.inputs@)) == sum_amounts(
                output_amounts(request.outputs@),
            ) + fee.0
        },
    }
}

impl Mint {
    /// Swaps the inputs of `swap_request` for signatures on its outputs, in
    /// the order of the outputs. Either all of it happens or nothing is
    /// changed. After a swap the inputs burnt are worth exactly the
    /// signatures issued and the fee.
    ///
    /// The request is checked at the time the clock shows; only inputs with
    /// a lock time depend on it.
    pub fn process_swap_request(&mut self, swap_request: &SwapRequest) -> (r: Result<
        Vec<BlindSignature>,
        Error,
    >)
        requires
            old(self).wf(),
        ensures
            final(self).wf(),
            spent_stays(old(self)@.proofs, final(self)@.proofs),
            exists|now: u64|
                swap_outcome(
                    old(self)@,
                    *swap_request,
                    now,
                    crate::mint::change::result_view(r),
                    final(self)@,
                ),
    {
        let now = unix_time();
        self.process_swap_request_at(swap_request, now)
    }

    /// Swaps at the time `now`. What it does is said by [`swap_outcome`].
    pub fn process_swap_request_at(&mut self, swap_request: &SwapRequest, now: u64) -> (r: Result<
        Vec<BlindSignature>,
        Error,
    >)
        requires
            old(self).wf(),
        ensures
            final(self).wf(),
            spent_stays(old(self)@.proofs, final(self)@.proofs),
            swap_outcome(
                old(self)@,
                *swap_request,
                now,
                crate::mint::change::result_view(r),
                final(self)@,
            ),
    {
        let input_verification = match verify_inputs(&self.keysets, &swap_request.inputs, now) {
            Ok(verification) => verification,
            Err(e) => {
                return Err(e);
            },
        };
        let output_verification = match verify_outputs(
            &self.keysets,
            &self.localstore.blind_signatures,
            &swap_request.outputs,
        ) {
            Ok(verification) => verification,
            Err(e) => {
                return Err(e);
            },
        };
        let input_unit = match input_verification.unit {
            Some(unit) => unit,
            None => {
                return Err(Error::UnsupportedUnit);
            },
        };
        match output_verification.unit {
            Some(unit) => {
                if unit != input_unit {
                    return Err(Error::UnitMismatch);
                }
            },
            None => {
                return Err(Error::UnitMismatch);
            },
        }
        let fee = match get_proofs_fee(&self.keysets, &swap_request.inputs) {
            Ok(fee) => fee,
            Err(e) => {
                return Err(e);
            },
        };
        if input_verification.amount.0 as u128 != output_verification.amount.0 as u128
            + fee.0 as u128 {
            return Err(
                Error::TransactionUnbalanced(
                    input_verification.amount.0,
                    output_verification.amount.0,
                    fee.0,
                ),
            );
        }
        match enforce_sig_flag(&swap_request.inputs) {
            SigFlag::SigAll => {
                if !check_request_unlocked(&swap_request.inputs, &swap_request.outputs, now) {
                    return Err(Error::SpendConditionsNotMet);
                }
            },
            SigFlag::SigInputs => {},
        }
        let signatures = match sign_outputs(&self.keysets, &swap_request.outputs) {
            Ok(signatures) => signatures,
            Err(e) => {
                return Err(e);
            },
        };
        let infos = match proof_infos(&swap_request.inputs) {
            Ok(infos) => infos,
            Err(e) => {
                return Err(e);
            },
        };
        let input_ys = info_points(&infos);
        assert(input_ys@ =~= ys_of(swap_request.inputs@));
        let ghost before = self@.proofs;
        match self.localstore.proofs.add_proofs(&infos, None) {
            Ok(_) => {},
            Err(DatabaseError::AttemptUpdateSpentProof) => {
                return Err(Error::TokenAlreadySpent);
            },
            Err(_) => {
                return Err(Error::TokenPending);
            },
        }
        let ghost added = self@.proofs;
        proof {
            assert forall|k: int| 0 <= k < input_ys@.len() implies state_of(
                added,
                #[trigger] input_ys@[k],
            ) == Some(State::Unspent) by {
                assert(added[before.len() + k].y == input_ys@[k]);
                lemma_state_at(added, before.len() + k);
            }
        }
        match self.check_ys_spendable(&input_ys, State::Pending) {
            Ok(_) => {},
            Err(e) => {
                return Err(e);
            },
        }
        self.pubsub_manager.proof_states(&input_ys, State::Pending);
        let mut records: Vec<SignatureRecord> = Vec::new();
        let mut i: usize = 0;
        while i < signatures.len()
            invariant
                0 <= i <= signatures.len(),
                signatures.len() == swap_request.outputs.len(),
                records@ == change_records(swap_request.outputs@, signatures@, None).take(i as int),
            decreases signatures.len() - i,
        {
            records.push(
                SignatureRecord {
                    blinded_secret: swap_request.outputs[i].blinded_secret,
                    signature: signatures[i],
                    quote_id: None,
                },
            );
            i = i + 1;
            assert(records@ =~= change_records(swap_request.outputs@, signatures@, None).take(
                i as int,
            ));
        }
        proof {
            let all = change_records(swap_request.outputs@, signatures@, None);
            assert(records@ =~= all);
            assert(record_secrets(all) =~= output_secrets(swap_request.outputs@));
            lemma_issued_change(swap_request.outputs@, signatures@, None);
            assert(signature_amounts(signatures@) =~= output_amounts(swap_request.outputs@));
        }
        match self.localstore.blind_signatures.add_blind_signatures(&records) {
            Ok(_) => {},
            Err(e) => {
                return Err(Error::Database(e));
            },
        }
        let ghost pending = self@.proofs;
        proof {
            lemma_moved_distinct(added, input_ys@, State::Pending);
            assert forall|k: int| 0 <= k < input_ys@.len() implies state_of(
                pending,
                #[trigger] input_ys@[k],
            ) == Some(State::Pending) && amount_of(pending, input_ys@[k])
                == swap_request.inputs@[k].amount by {
                let n = before.len();
                assert(added[n + k].y == input_ys@[k]);
                assert(input_ys@.contains(added[n + k].y));
                assert(pending[n + k].y == input_ys@[k]);
                lemma_state_at(pending, n + k);
            }
            assert(stored_amounts(pending, input_ys@) =~= proof_amounts(swap_request.inputs@));
        }
        match self.localstore.proofs.update_proofs_states(&input_ys, State::Spent) {
            Ok(_) => {},
            Err(_) => {
                return Err(Error::TokenAlreadySpent);
            },
        }
        self.pubsub_manager.proof_states(&input_ys, State::Spent);
        proof {
            assert(self@.proofs =~= moved(added, input_ys@, State::Spent));
            lemma_spent_stays_trans(before, added, pending);
            lemma_spent_stays_trans(before, pending, self@.proofs);
            crate::amount::lemma_sum_nonnegative(proof_amounts(swap_request.inputs@));
            crate::amount::lemma_sum_nonnegative(output_amounts(swap_request.outputs@));
        }
        Ok(signatures)
    }
}

} // verus!
