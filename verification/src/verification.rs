//! What the mint checks of the proofs it consumes and of the blinded
//! messages it signs.

use vstd::prelude::*;

use crate::amount::{fee_for_ppk, sum_amounts, Amount};
use crate::conditions::{check_inputs_unlocked, inputs_unlocked};
use crate::database::proofs::ProofInfo;
use crate::database::signatures::{any_signed, SignatureRecord, SignatureTable};
use crate::dhke::{
    hash_to_curve, point_mul, sign_message, verifies, verify_message, y_of, PublicKey,
};
use crate::error::Error;
use crate::keyset::{find_keyset, key_for, keyset_of, signing_key, MintKeySet};
use crate::nuts::{
    output_amounts, outputs_total, proof_amounts, proofs_total, BlindSignature, BlindedMessage,
    Proof,
};
use crate::units::CurrencyUnit;

verus! {

/// What a set of proofs or blinded messages was found to be worth.
#[derive(Clone, Copy, Debug, PartialEq, Eq)]
pub struct Verification {
    /// The sum of the amounts.
    pub amount: Amount,
    /// The unit of the keysets named; nothing for an empty set.
    pub unit: Option<CurrencyUnit>,
}

/// Whether the secret of every proof hashes to a point.
pub open spec fn all_hash(proofs: Seq<Proof>) -> bool {
    forall|i: int| 0 <= i < proofs.len() ==> y_of((#[trigger] proofs[i]).secret@) is Some
}

/// What the store is told of `proofs`.
pub open spec fn infos_of(proofs: Seq<Proof>) -> Seq<ProofInfo> {
    Seq::new(
        proofs.len(),
        |i: int|
            ProofInfo {
                y: y_of(proofs[i].secret@).unwrap(),
                amount: proofs[i].amount,
                keyset_id: proofs[i].keyset_id,
            },
    )
}

/// The points that the secrets of `proofs` hash to.
pub open spec fn ys_of(proofs: Seq<Proof>) -> Seq<PublicKey> {
    Seq::new(proofs.len(), |i: int| y_of(proofs[i].secret@).unwrap())
}

/// The keysets that `proofs` name, in order.
pub open spec fn proof_keysets(proofs: Seq<Proof>) -> Seq<u64> {
    Seq::new(proofs.len(), |i: int| proofs[i].keyset_id)
}

/// The keysets that `outputs` name, in order.
pub open spec fn output_keysets(outputs: Seq<BlindedMessage>) -> Seq<u64> {
    Seq::new(outputs.len(), |i: int| outputs[i].keyset_id)
}

/// The blinded points of `outputs`, in order.
pub open spec fn output_secrets(outputs: Seq<BlindedMessage>) -> Seq<PublicKey> {
    Seq::new(outputs.len(), |i: int| outputs[i].blinded_secret)
}

/// Whether the mint has every keyset among `ids`.
pub open spec fn keysets_known(keysets: Seq<MintKeySet>, ids: Seq<u64>) -> bool {
    forall|i: int| 0 <= i < ids.len() ==> keyset_of(keysets, #[trigger] ids[i]) is Some
}

/// The unit of the keyset `id`.
pub open spec fn unit_of_keyset(keysets: Seq<MintKeySet>, id: u64) -> CurrencyUnit {
    keyset_of(keysets, id).unwrap().unit
}

/// Whether the keysets `ids` all count in one unit.
pub open spec fn single_unit(keysets: Seq<MintKeySet>, ids: Seq<u64>) -> bool {
    forall|i: int|
        0 <= i < ids.len() ==> unit_of_keyset(keysets, #[trigger] ids[i]) == unit_of_keyset(
            keysets,
            ids[0],
        )
}

/// The unit of the keysets `ids`; nothing where there are none.
pub open spec fn unit_of_ids(keysets: Seq<MintKeySet>, ids: Seq<u64>) -> Option<CurrencyUnit> {
    if ids.len() == 0 {
        None
    } else {
        Some(unit_of_keyset(keysets, ids[0]))
    }
}

/// Whether the mint has a key for the amount of every proof.
pub open spec fn keys_exist(keysets: Seq<MintKeySet>, proofs: Seq<Proof>) -> bool {
    forall|i: int|
        0 <= i < proofs.len() ==> signing_key(
            keysets,
            (#[trigger] proofs[i]).keyset_id,
            proofs[i].amount,
        ) is Some
}

/// Whether `p` carries the signature of the key for its amount.
pub open spec fn proof_verifies(keysets: Seq<MintKeySet>, p: Proof) -> bool {
    match signing_key(keysets, p.keyset_id, p.amount) {
        Some(key) => verifies(key.secret_key, p.c, p.secret@),
        None => false,
    }
}

/// Whether every proof carries the signature of the key for its amount.
pub open spec fn all_verify(keysets: Seq<MintKeySet>, proofs: Seq<Proof>) -> bool {
    forall|i: int| 0 <= i < proofs.len() ==> proof_verifies(keysets, #[trigger] proofs[i])
}

/// What the check of a set of inputs comes to at the time `now`: their
/// worth, or the first of these that fails. Every secret hashes to a point;
/// no two inputs share one; every keyset is known; all keysets count in one
/// unit; the amounts add up in 64 bits; each amount has a key; each
/// signature is the mint's; and every input that is locked on its own is
/// unlocked by its witness.
pub open spec fn inputs_verdict(keysets: Seq<MintKeySet>, proofs: Seq<Proof>, now: u64) -> Result<
    Verification,
    Error,
> {
    if !all_hash(proofs) {
        Err(Error::NoValidPoint)
    } else if !ys_of(proofs).no_duplicates() {
        Err(Error::DuplicateInputs)
    } else if !keysets_known(keysets, proof_keysets(proofs)) {
        Err(Error::UnknownKeySet)
    } else if !single_unit(keysets, proof_keysets(proofs)) {
        Err(Error::MultipleUnits)
    } else if sum_amounts(proof_amounts(proofs)) > u64::MAX {
        Err(Error::AmountOverflow)
    } else if !keys_exist(keysets, proofs) {
        Err(Error::AmountKey)
    } else if !all_verify(keysets, proofs) {
        Err(Error::TokenNotVerified)
    } else if !inputs_unlocked(proofs, now) {
        Err(Error::SpendConditionsNotMet)
    } else {
        Ok(
            Verification {
                amount: Amount(sum_amounts(proof_amounts(proofs)) as u64),
                unit: unit_of_ids(keysets, proof_keysets(proofs)),
            },
        )
    }
}

/// What the check of a set of outputs comes to: their worth, or the first
/// of these that fails. No two outputs share a blinded point; none was
/// signed before; every keyset is known; all keysets count in one unit; the
/// amounts add up in 64 bits.
pub open spec fn outputs_verdict(
    keysets: Seq<MintKeySet>,
    signed: Seq<SignatureRecord>,
    outputs: Seq<BlindedMessage>,
) -> Result<Verification, Error> {
    if !output_secrets(outputs).no_duplicates() {
        Err(Error::DuplicateOutputs)
    } else if any_signed(signed, output_secrets(outputs)) {
        Err(Error::BlindedMessageAlreadySigned)
    } else if !keysets_known(keysets, output_keysets(outputs)) {
        Err(Error::UnknownKeySet)
    } else if !single_unit(keysets, output_keysets(outputs)) {
        Err(Error::MultipleUnits)
    } else if sum_amounts(output_amounts(outputs)) > u64::MAX {
        Err(Error::AmountOverflow)
    } else {
        Ok(
            Verification {
                amount: Amount(sum_amounts(output_amounts(outputs)) as u64),
                unit: unit_of_ids(keysets, output_keysets(outputs)),
            },
        )
    }
}

/// The sum of the fees per thousand of the keysets `ids`, one for each
/// place in the sequence.
pub open spec fn fee_ppk_total(keysets: Seq<MintKeySet>, ids: Seq<u64>) -> int
    decreases ids.len(),
{
    if ids.len() == 0 {
        0
    } else {
        fee_ppk_total(keysets, ids.drop_last()) + keyset_of(
            keysets,
            ids.last(),
        ).unwrap().input_fee_ppk
    }
}

/// The fee owed for spending `proofs`: a thousandth, rounded up, of the sum
/// of the fees per thousand of their keysets.
pub open spec fn proofs_fee(keysets: Seq<MintKeySet>, proofs: Seq<Proof>) -> Result<Amount, Error> {
    if !keysets_known(keysets, proof_keysets(proofs)) {
        Err(Error::UnknownKeySet)
    } else if fee_for_ppk(fee_ppk_total(keysets, proof_keysets(proofs))) > u64::MAX {
        Err(Error::AmountOverflow)
    } else {
        Ok(Amount(fee_for_ppk(fee_ppk_total(keysets, proof_keysets(proofs))) as u64))
    }
}

/// What signing `output` comes to: the bytes of the signature, or the first
/// of these that fails. The keyset is known; it still signs; it has a key
/// for the amount; the blinded point can be multiplied by the key.
pub open spec fn blind_signature_of(keysets: Seq<MintKeySet>, output: BlindedMessage) -> Result<
    Seq<u8>,
    Error,
> {
    match keyset_of(keysets, output.keyset_id) {
        None => Err(Error::UnknownKeySet),
        Some(keyset) => if !keyset.active {
            Err(Error::InactiveKeyset)
        } else {
            match key_for(keyset.keys@, output.amount) {
                None => Err(Error::AmountKey),
                Some(key) => match point_mul(output.blinded_secret.bytes@, key.secret_key.bytes@) {
                    None => Err(Error::InvalidPoint),
                    Some(bytes) => Ok(bytes),
                },
            }
        },
    }
}

/// Whether `signature` is the mint's signature on `output`.
pub open spec fn is_signature_on(
    keysets: Seq<MintKeySet>,
    output: BlindedMessage,
    signature: BlindSignature,
) -> bool {
    &&& signature.amount == output.amount
    &&& signature.keyset_id == output.keyset_id
    &&& blind_signature_of(keysets, output) == Ok::<Seq<u8>, Error>(signature.c.bytes@)
}

/// Whether `signatures` are the mint's signatures on `outputs`, one for
/// one.
pub open spec fn are_signatures_on(
    keysets: Seq<MintKeySet>,
    outputs: Seq<BlindedMessage>,
    signatures: Seq<BlindSignature>,
) -> bool {
    &&& signatures.len() == outputs.len()
    &&& forall|i: int|
        0 <= i < outputs.len() ==> is_signature_on(keysets, outputs[i], #[trigger] signatures[i])
}

/// Whether `outputs[i]` is the first output that cannot be signed, and `e`
/// is why.
pub open spec fn first_unsignable(
    keysets: Seq<MintKeySet>,
    outputs: Seq<BlindedMessage>,
    i: int,
    e: Error,
) -> bool {
    &&& 0 <= i < outputs.len()
    &&& blind_signature_of(keysets, outputs[i]) == Err::<Seq<u8>, Error>(e)
    &&& forall|j: int| 0 <= j < i ==> blind_signature_of(keysets, #[trigger] outputs[j]) is Ok
}

/// Whether every output can be signed.
pub open spec fn all_signable(keysets: Seq<MintKeySet>, outputs: Seq<BlindedMessage>) -> bool {
    forall|i: int| 0 <= i < outputs.len() ==> blind_signature_of(keysets, #[trigger] outputs[i]) is Ok
}

/// What the store is told of `proofs`, or `NoValidPoint` where a secret
/// hashes to no point.
pub fn proof_infos(proofs: &Vec<Proof>) -> (r: Result<Vec<ProofInfo>, Error>)
    ensures
        r is Ok <==> all_hash(proofs@),
        r matches Ok(infos) ==> infos@ == infos_of(proofs@),
        r matches Err(e) ==> e == Error::NoValidPoint,
{
    let mut infos: Vec<ProofInfo> = Vec::new();
    let mut i: usize = 0;
    while i < proofs.len()
        invariant
            0 <= i <= proofs.len(),
            all_hash(proofs@.take(i as int)),
            infos@ == infos_of(proofs@.take(i as int)),
        decreases proofs.len() - i,
    {
        match hash_to_curve(&proofs[i].secret) {
            Ok(y) => {
                infos.push(
                    ProofInfo { y, amount: proofs[i].amount, keyset_id: proofs[i].keyset_id },
                );
            },
            Err(e) => {
                assert(y_of(proofs@[i as int].secret@) is None);
                return Err(e);
            },
        }
        i = i + 1;
        assert(infos@ =~= infos_of(proofs@.take(i as int)));
    }
    assert(proofs@.take(i as int) =~= proofs@);
    Ok(infos)
}

/// The points of `infos`, in order.
pub fn info_points(infos: &Vec<ProofInfo>) -> (r: Vec<PublicKey>)
    ensures
        r@ == crate::database::proofs::info_ys(infos@),
{
    let mut ys: Vec<PublicKey> = Vec::new();
    let mut i: usize = 0;
    while i < infos.len()
        invariant
            0 <= i <= infos.len(),
            ys@ == crate::database::proofs::info_ys(infos@).take(i as int),
        decreases infos.len() - i,
    {
        ys.push(infos[i].y);
        i = i + 1;
        assert(ys@ =~= crate::database::proofs::info_ys(infos@).take(i as int));
    }
    assert(ys@ =~= crate::database::proofs::info_ys(infos@));
    ys
}

/// The blinded points of `outputs`, in order.
pub fn blinded_secrets(outputs: &Vec<BlindedMessage>) -> (r: Vec<PublicKey>)
    ensures
        r@ == output_secrets(outputs@),
{
    let mut secrets: Vec<PublicKey> = Vec::new();
    let mut i: usize = 0;
    while i < outputs.len()
        invariant
            0 <= i <= outputs.len(),
            secrets@ == output_secrets(outputs@).take(i as int),
        decreases outputs.len() - i,
    {
        secrets.push(outputs[i].blinded_secret);
        i = i + 1;
        assert(secrets@ =~= output_secrets(outputs@).take(i as int));
    }
    assert(secrets@ =~= output_secrets(outputs@));
    secrets
}

/// Whether a point occurs twice among `keys`.
pub fn has_duplicates(keys: &Vec<PublicKey>) -> (r: bool)
    ensures
        r == !keys@.no_duplicates(),
{
    let mut i: usize = 0;
    while i < keys.len()
        invariant
            0 <= i <= keys.len(),
            forall|a: int, b: int| 0 <= a < b < i ==> keys@[a] != keys@[b],
        decreases keys.len() - i,
    {
        let mut j: usize = 0;
        while j < i
            invariant
                0 <= j <= i < keys.len(),
                forall|a: int| 0 <= a < j ==> keys@[a] != keys@[i as int],
            decreases i - j,
        {
            if keys[j].same(&keys[i]) {
                return true;
            }
            j = j + 1;
        }
        i = i + 1;
    }
    assert forall|a: int, b: int| 0 <= a < keys@.len() && 0 <= b < keys@.len() && a != b implies keys@[a]
        != keys@[b] by {
        if a < b {
            assert(keys@[a] != keys@[b]);
        } else {
            assert(keys@[b] != keys@[a]);
        }
    }
    false
}

/// The unit that the keysets `ids` count in; `UnknownKeySet` where the mint
/// lacks one of them, `MultipleUnits` where they count in several.
pub fn check_units(keysets: &Vec<MintKeySet>, ids: &Vec<u64>) -> (r: Result<
    Option<CurrencyUnit>,
    Error,
>)
    ensures
        r == if !keysets_known(keysets@, ids@) {
            Err::<Option<CurrencyUnit>, Error>(Error::UnknownKeySet)
        } else if !single_unit(keysets@, ids@) {
            Err(Error::MultipleUnits)
        } else {
            Ok(unit_of_ids(keysets@, ids@))
        },
{
    let mut i: usize = 0;
    while i < ids.len()
        invariant
            0 <= i <= ids.len(),
            forall|j: int| 0 <= j < i ==> keyset_of(keysets@, #[trigger] ids@[j]) is Some,
        decreases ids.len() - i,
    {
        if find_keyset(keysets, ids[i]).is_none() {
            return Err(Error::UnknownKeySet);
        }
        i = i + 1;
    }
    if ids.len() == 0 {
        return Ok(None);
    }
    let first = match find_keyset(keysets, ids[0]) {
        Some(k) => keysets[k].unit,
        None => {
            return Err(Error::UnknownKeySet);
        },
    };
    let mut i: usize = 0;
    while i < ids.len()
        invariant
            0 <= i <= ids.len(),
            ids.len() > 0,
            keysets_known(keysets@, ids@),
            first == unit_of_keyset(keysets@, ids@[0]),
            forall|j: int| 0 <= j < i ==> unit_of_keyset(keysets@, #[trigger] ids@[j]) == first,
        decreases ids.len() - i,
    {
        match find_keyset(keysets, ids[i]) {
            Some(k) => {
                if keysets[k].unit != first {
                    return Err(Error::MultipleUnits);
                }
            },
            None => {
                return Err(Error::UnknownKeySet);
            },
        }
        i = i + 1;
    }
    Ok(Some(first))
}

fn proof_keyset_ids(proofs: &Vec<Proof>) -> (r: Vec<u64>)
    ensures
        r@ == proof_keysets(proofs@),
{
    let mut ids: Vec<u64> = Vec::new();
    let mut i: usize = 0;
    while i < proofs.len()
        invariant
            0 <= i <= proofs.len(),
            ids@ == proof_keysets(proofs@).take(i as int),
        decreases proofs.len() - i,
    {
        ids.push(proofs[i].keyset_id);
        i = i + 1;
        assert(ids@ =~= proof_keysets(proofs@).take(i as int));
    }
    assert(ids@ =~= proof_keysets(proofs@));
    ids
}

fn output_keyset_ids(outputs: &Vec<BlindedMessage>) -> (r: Vec<u64>)
    ensures
        r@ == output_keysets(outputs@),
{
    let mut ids: Vec<u64> = Vec::new();
    let mut i: usize = 0;
    while i < outputs.len()
        invariant
            0 <= i <= outputs.len(),
            ids@ == output_keysets(outputs@).take(i as int),
        decreases outputs.len() - i,
    {
        ids.push(outputs[i].keyset_id);
        i = i + 1;
        assert(ids@ =~= output_keysets(outputs@).take(i as int));
    }
    assert(ids@ =~= output_keysets(outputs@));
    ids
}

/// The key that signs the amount `amount` in the keyset `id`, where the
/// mint has one.
pub fn find_signing_key(keysets: &Vec<MintKeySet>, id: u64, amount: Amount) -> (r: Option<
    crate::keyset::MintKeyPair,
>)
    ensures
        r == signing_key(keysets@, id, amount),
{
    match find_keyset(keysets, id) {
        Some(k) => keysets[k].find_key(amount),
        None => None,
    }
}

/// Checks one proof: the mint must have a key for its amount, and the proof
/// must carry that key's signature on its secret.
pub fn verify_proof(keysets: &Vec<MintKeySet>, proof: &Proof) -> (r: Result<(), Error>)
    ensures
        r is Ok <==> proof_verifies(keysets@, *proof),
        r matches Err(e) ==> e == if signing_key(keysets@, proof.keyset_id, proof.amount)
            is None {
            Error::AmountKey
        } else if y_of(proof.secret@) is None {
            Error::NoValidPoint
        } else {
            Error::TokenNotVerified
        },
{
    match find_signing_key(keysets, proof.keyset_id, proof.amount) {
        Some(key) => verify_message(&key.secret_key, &proof.c, &proof.secret),
        None => Err(Error::AmountKey),
    }
}

/// Checks a set of inputs at the time `now` and says what they are worth.
pub fn verify_inputs(keysets: &Vec<MintKeySet>, proofs: &Vec<Proof>, now: u64) -> (r: Result<
    Verification,
    Error,
>)
    ensures
        r == inputs_verdict(keysets@, proofs@, now),
{
    let infos = match proof_infos(proofs) {
        Ok(infos) => infos,
        Err(e) => {
            return Err(e);
        },
    };
    let ys = info_points(&infos);
    assert(ys@ =~= ys_of(proofs@));
    if has_duplicates(&ys) {
        return Err(Error::DuplicateInputs);
    }
    let ids = proof_keyset_ids(proofs);
    let unit = match check_units(keysets, &ids) {
        Ok(unit) => unit,
        Err(e) => {
            return Err(e);
        },
    };
    let amount = match proofs_total(proofs) {
        Ok(amount) => amount,
        Err(e) => {
            return Err(e);
        },
    };
    let mut i: usize = 0;
    while i < proofs.len()
        invariant
            0 <= i <= proofs.len(),
            all_hash(proofs@),
            ys_of(proofs@).no_duplicates(),
            keysets_known(keysets@, proof_keysets(proofs@)),
            single_unit(keysets@, proof_keysets(proofs@)),
            sum_amounts(proof_amounts(proofs@)) <= u64::MAX,
            forall|j: int|
                0 <= j < i ==> signing_key(
                    keysets@,
                    (#[trigger] proofs@[j]).keyset_id,
                    proofs@[j].amount,
                ) is Some,
        decreases proofs.len() - i,
    {
        if find_signing_key(keysets, proofs[i].keyset_id, proofs[i].amount).is_none() {
            return Err(Error::AmountKey);
        }
        i = i + 1;
    }
    let mut i: usize = 0;
    while i < proofs.len()
        invariant
            0 <= i <= proofs.len(),
            all_hash(proofs@),
            ys_of(proofs@).no_duplicates(),
            keysets_known(keysets@, proof_keysets(proofs@)),
            single_unit(keysets@, proof_keysets(proofs@)),
            sum_amounts(proof_amounts(proofs@)) <= u64::MAX,
            keys_exist(keysets@, proofs@),
            forall|j: int| 0 <= j < i ==> proof_verifies(keysets@, #[trigger] proofs@[j]),
        decreases proofs.len() - i,
    {
        if verify_proof(keysets, &proofs[i]).is_err() {
            return Err(Error::TokenNotVerified);
        }
        i = i + 1;
    }
    if !check_inputs_unlocked(proofs, now) {
        return Err(Error::SpendConditionsNotMet);
    }
    Ok(Verification { amount, unit })
}

/// Checks a set of outputs against the signatures stored and says what they
/// are worth.
pub fn verify_outputs(
    keysets: &Vec<MintKeySet>,
    signed: &SignatureTable,
    outputs: &Vec<BlindedMessage>,
) -> (r: Result<Verification, Error>)
    ensures
        r == outputs_verdict(keysets@, signed@, outputs@),
{
    let secrets = blinded_secrets(outputs);
    if has_duplicates(&secrets) {
        return Err(Error::DuplicateOutputs);
    }
    if signed.any_signed(&secrets) {
        return Err(Error::BlindedMessageAlreadySigned);
    }
    let ids = output_keyset_ids(outputs);
    let unit = match check_units(keysets, &ids) {
        Ok(unit) => unit,
        Err(e) => {
            return Err(e);
        },
    };
    let amount = match outputs_total(outputs) {
        Ok(amount) => amount,
        Err(e) => {
            return Err(e);
        },
    };
    Ok(Verification { amount, unit })
}

/// The fee owed for spending `proofs`.
pub fn get_proofs_fee(keysets: &Vec<MintKeySet>, proofs: &Vec<Proof>) -> (r: Result<Amount, Error>)
    ensures
        r == proofs_fee(keysets@, proofs@),
{
    let ghost ids = proof_keysets(proofs@);
    let mut total: u128 = 0;
    let mut i: usize = 0;
    while i < proofs.len()
        invariant
            0 <= i <= proofs.len(),
            ids == proof_keysets(proofs@),
            keysets_known(keysets@, ids.take(i as int)),
            total == fee_ppk_total(keysets@, ids.take(i as int)),
            total <= i * 0xffff_ffff_ffff_ffff,
        decreases proofs.len() - i,
    {
        proof {
            assert(ids.take(i + 1).drop_last() =~= ids.take(i as int));
            assert(ids.take(i + 1).last() == proofs@[i as int].keyset_id);
        }
        match find_keyset(keysets, proofs[i].keyset_id) {
            Some(k) => {
                let ppk: u64 = keysets[k].input_fee_ppk;
                assert((i + 1) * 0xffff_ffff_ffff_ffff == i * 0xffff_ffff_ffff_ffff
                    + 0xffff_ffff_ffff_ffff) by (nonlinear_arith);
                assert(i * 0xffff_ffff_ffff_ffff <= 0xffff_ffff_ffff_ffff * 0xffff_ffff_ffff_ffff)
                    by (nonlinear_arith)
                    requires
                        0 <= i <= 0xffff_ffff_ffff_ffff,
                ;
                total = total + ppk as u128;
                assert forall|j: int| 0 <= j < i + 1 implies keyset_of(
                    keysets@,
                    #[trigger] ids.take(i + 1)[j],
                ) is Some by {
                    if j < i {
                        assert(ids.take(i as int)[j] == ids.take(i + 1)[j]);
                    }
                }
            },
            None => {
                assert(ids[i as int] == proofs@[i as int].keyset_id);
                return Err(Error::UnknownKeySet);
            },
        }
        i = i + 1;
    }
    assert(ids.take(i as int) =~= ids);
    assert(i * 0xffff_ffff_ffff_ffff <= 0xffff_ffff_ffff_ffff * 0xffff_ffff_ffff_ffff)
        by (nonlinear_arith)
        requires
            0 <= i <= 0xffff_ffff_ffff_ffff,
    ;
    let fee: u128 = (total + 999) / 1000;
    if fee > 0xffff_ffff_ffff_ffff {
        Err(Error::AmountOverflow)
    } else {
        Ok(Amount(fee as u64))
    }
}

/// Signs one blinded message with the key for its amount in its keyset.
pub fn blind_sign(keysets: &Vec<MintKeySet>, output: &BlindedMessage) -> (r: Result<
    BlindSignature,
    Error,
>)
    ensures
        match blind_signature_of(keysets@, *output) {
            Ok(bytes) => r matches Ok(signature) && is_signature_on(keysets@, *output, signature),
            Err(e) => r == Err::<BlindSignature, Error>(e),
        },
{
    let k = match find_keyset(keysets, output.keyset_id) {
        Some(k) => k,
        None => {
            return Err(Error::UnknownKeySet);
        },
    };
    if !keysets[k].active {
        return Err(Error::InactiveKeyset);
    }
    let key = match keysets[k].find_key(output.amount) {
        Some(key) => key,
        None => {
            return Err(Error::AmountKey);
        },
    };
    match sign_message(&key.secret_key, &output.blinded_secret) {
        Ok(c) => Ok(BlindSignature { amount: output.amount, keyset_id: output.keyset_id, c }),
        Err(e) => Err(e),
    }
}

/// Signs `outputs` in order, all or none: the error is that of the first
/// output that cannot be signed.
pub fn sign_outputs(keysets: &Vec<MintKeySet>, outputs: &Vec<BlindedMessage>) -> (r: Result<
    Vec<BlindSignature>,
    Error,
>)
    ensures
        r is Ok <==> all_signable(keysets@, outputs@),
        r matches Ok(signatures) ==> are_signatures_on(keysets@, outputs@, signatures@),
        r matches Err(e) ==> exists|i: int| first_unsignable(keysets@, outputs@, i, e),
{
    let mut signatures: Vec<BlindSignature> = Vec::new();
    let mut i: usize = 0;
    while i < outputs.len()
        invariant
            0 <= i <= outputs.len(),
            signatures.len() == i,
            forall|j: int|
                0 <= j < i ==> is_signature_on(keysets@, outputs@[j], #[trigger] signatures@[j]),
            forall|j: int| 0 <= j < i ==> blind_signature_of(keysets@, #[trigger] outputs@[j]) is Ok,
        decreases outputs.len() - i,
    {
        match blind_sign(keysets, &outputs[i]) {
            Ok(signature) => {
                signatures.push(signature);
            },
            Err(e) => {
                assert(first_unsignable(keysets@, outputs@, i as int, e));
                return Err(e);
            },
        }
        i = i + 1;
    }
    Ok(signatures)
}

} // verus!
