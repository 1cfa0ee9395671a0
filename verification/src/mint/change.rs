//! Change: what is left of the inputs of a melt once the invoice and the
//! fee are paid, signed on the outputs that came with the request.

use vstd::prelude::*;

use crate::amount::{is_split_of, lemma_sum_prefix, sum_amounts, Amount};
use crate::database::signatures::{any_signed, issued_total, SignatureRecord, SignatureTable};
use crate::error::Error;
use crate::keyset::MintKeySet;
use crate::nuts::{signature_amounts, BlindSignature, BlindedMessage};
use crate::units::CurrencyUnit;
use crate::verification::{
    are_signatures_on, blinded_secrets, check_units, first_unsignable, has_duplicates,
    keysets_known, output_keysets, output_secrets, sign_outputs, single_unit, unit_of_ids,
};

verus! {

/// The change owed on inputs worth `inputs_total` once `total_spent` has
/// been paid out and `fee` is kept: what is left, nothing where nothing is.
pub open spec fn change_due(inputs_total: u64, total_spent: u64, fee: u64) -> u64 {
    if inputs_total > total_spent + fee {
        (inputs_total - total_spent - fee) as u64
    } else {
        0
    }
}

/// The outputs that are signed for the change `parts`: as many of `outputs`
/// as there are parts, or all where there are fewer, each with the amount of
/// its part.
pub open spec fn change_outputs(outputs: Seq<BlindedMessage>, parts: Seq<Amount>) -> Seq<
    BlindedMessage,
> {
    Seq::new(
        if outputs.len() <= parts.len() {
            outputs.len()
        } else {
            parts.len()
        },
        |i: int|
            BlindedMessage {
                amount: parts[i],
                keyset_id: outputs[i].keyset_id,
                blinded_secret: outputs[i].blinded_secret,
            },
    )
}

/// Whether `r` is what signing `outs` for a quote in `unit` comes to: the
/// signatures, or the first of these that fails. Every keyset is known; all
/// count in one unit; that unit is `unit`; every output can be signed.
pub open spec fn change_outcome(
    keysets: Seq<MintKeySet>,
    unit: CurrencyUnit,
    outs: Seq<BlindedMessage>,
    r: Result<Seq<BlindSignature>, Error>,
) -> bool {
    if !keysets_known(keysets, output_keysets(outs)) {
        r == Err::<Seq<BlindSignature>, Error>(Error::UnknownKeySet)
    } else if !single_unit(keysets, output_keysets(outs)) {
        r == Err::<Seq<BlindSignature>, Error>(Error::MultipleUnits)
    } else if unit_of_ids(keysets, output_keysets(outs)) != Some(unit) {
        r == Err::<Seq<BlindSignature>, Error>(Error::UnitMismatch)
    } else {
        match r {
            Ok(signatures) => are_signatures_on(keysets, outs, signatures),
            Err(e) => exists|i: int| first_unsignable(keysets, outs, i, e),
        }
    }
}

/// Whether `r` is what returning the change `target` on `outputs` comes to.
///
/// Nothing is signed where no change is due or no outputs were sent. None
/// of the outputs may have been signed before, which is asked first, and no
/// two may share a blinded point.
/// The change is split into powers of two, largest first, and the outputs
/// are signed for the parts in order: where there are fewer outputs than
/// parts, the smaller parts are forfeit.
pub open spec fn is_change(
    keysets: Seq<MintKeySet>,
    signed: Seq<SignatureRecord>,
    unit: CurrencyUnit,
    outputs: Seq<BlindedMessage>,
    target: u64,
    r: Result<Seq<BlindSignature>, Error>,
) -> bool {
    if target == 0 || outputs.len() == 0 {
        r == Ok::<Seq<BlindSignature>, Error>(Seq::empty())
    } else if any_signed(signed, output_secrets(outputs)) {
        r == Err::<Seq<BlindSignature>, Error>(Error::BlindedMessageAlreadySigned)
    } else if !output_secrets(outputs).no_duplicates() {
        r == Err::<Seq<BlindSignature>, Error>(Error::DuplicateOutputs)
    } else {
        exists|parts: Seq<Amount>|
            is_split_of(parts, target as int) && #[trigger] change_outcome(
                keysets,
                unit,
                change_outputs(outputs, parts),
                r,
            )
    }
}

/// The records that the change `signatures` on `outputs` are stored as for
/// the quote `quote`.
pub open spec fn change_records(
    outputs: Seq<BlindedMessage>,
    signatures: Seq<BlindSignature>,
    quote: Option<u128>,
) -> Seq<SignatureRecord> {
    Seq::new(
        signatures.len(),
        |i: int|
            SignatureRecord {
                blinded_secret: outputs[i].blinded_secret,
                signature: signatures[i],
                quote_id: quote,
            },
    )
}

/// The result `r` with its signatures as a sequence.
pub open spec fn result_view(r: Result<Vec<BlindSignature>, Error>) -> Result<
    Seq<BlindSignature>,
    Error,
> {
    match r {
        Ok(signatures) => Ok(signatures@),
        Err(e) => Err(e),
    }
}

/// The total of stored change is the sum of the amounts signed.
pub proof fn lemma_issued_change(
    outputs: Seq<BlindedMessage>,
    signatures: Seq<BlindSignature>,
    quote: Option<u128>,
)
    ensures
        issued_total(change_records(outputs, signatures, quote)) == sum_amounts(
            signature_amounts(signatures),
        ),
    decreases signatures.len(),
{
    let records = change_records(outputs, signatures, quote);
    if signatures.len() > 0 {
        lemma_issued_change(outputs, signatures.drop_last(), quote);
        assert(records.drop_last() =~= change_records(outputs, signatures.drop_last(), quote));
        assert(signature_amounts(signatures).drop_last() =~= signature_amounts(
            signatures.drop_last(),
        ));
    }
}

/// Signs the change `target` on `outputs` for a quote that counts in
/// `unit`, given the signatures stored.
pub fn prepare_change(
    keysets: &Vec<MintKeySet>,
    signed: &SignatureTable,
    unit: CurrencyUnit,
    outputs: &Vec<BlindedMessage>,
    target: Amount,
) -> (r: Result<Vec<BlindSignature>, Error>)
    ensures
        is_change(keysets@, signed@, unit, outputs@, target.0, result_view(r)),
        r matches Ok(signatures) ==> {
            &&& signatures@.len() <= outputs@.len()
            &&& sum_amounts(signature_amounts(signatures@)) <= target.0
            &&& sum_amounts(signature_amounts(signatures@)) < target.0 ==> signatures@.len()
                == outputs@.len()
            &&& signatures@.len() > 0 ==> output_secrets(outputs@).no_duplicates() && !any_signed(
                signed@,
                output_secrets(outputs@),
            )
        },
{
    if target.0 == 0 || outputs.len() == 0 {
        let none: Vec<BlindSignature> = Vec::new();
        assert(none@ =~= Seq::empty());
        return Ok(none);
    }
    let secrets = blinded_secrets(outputs);
    if signed.any_signed(&secrets) {
        return Err(Error::BlindedMessageAlreadySigned);
    }
    if has_duplicates(&secrets) {
        return Err(Error::DuplicateOutputs);
    }
    let parts = target.split();
    let count = if outputs.len() <= parts.len() {
        outputs.len()
    } else {
        parts.len()
    };
    let mut outs: Vec<BlindedMessage> = Vec::new();
    let mut ids: Vec<u64> = Vec::new();
    let mut i: usize = 0;
    while i < count
        invariant
            0 <= i <= count,
            count <= outputs.len(),
            count <= parts.len(),
            outs@ == change_outputs(outputs@, parts@).take(i as int),
            ids@ == output_keysets(change_outputs(outputs@, parts@)).take(i as int),
            change_outputs(outputs@, parts@).len() == count,
        decreases count - i,
    {
        outs.push(
            BlindedMessage {
                amount: parts[i],
                keyset_id: outputs[i].keyset_id,
                blinded_secret: outputs[i].blinded_secret,
            },
        );
        ids.push(outputs[i].keyset_id);
        i = i + 1;
        assert(outs@ =~= change_outputs(outputs@, parts@).take(i as int));
        assert(ids@ =~= output_keysets(change_outputs(outputs@, parts@)).take(i as int));
    }
    assert(outs@ =~= change_outputs(outputs@, parts@));
    assert(ids@ =~= output_keysets(change_outputs(outputs@, parts@)));
    let found_unit = match check_units(keysets, &ids) {
        Ok(found_unit) => found_unit,
        Err(e) => {
            assert(change_outcome(keysets@, unit, outs@, Err(e)));
            return Err(e);
        },
    };
    match found_unit {
        Some(found) => {
            if found != unit {
                assert(change_outcome(keysets@, unit, outs@, Err(Error::UnitMismatch)));
                return Err(Error::UnitMismatch);
            }
        },
        None => {
            assert(change_outcome(keysets@, unit, outs@, Err(Error::UnitMismatch)));
            return Err(Error::UnitMismatch);
        },
    }
    let r = sign_outputs(keysets, &outs);
    proof {
        assert(change_outcome(keysets@, unit, outs@, result_view(r)));
        if r is Ok {
            let amounts = signature_amounts(r->Ok_0@);
            assert(amounts =~= parts@.take(count as int));
            lemma_sum_prefix(parts@, count as int);
            if count == parts@.len() {
                assert(parts@.take(count as int) =~= parts@);
            }
        }
    }
    r
}

} // verus!
