//! Spending conditions: proofs that are locked to keys or to the preimage
//! of a hash, and the witness that unlocks them.
//!
//! Signatures are Schnorr signatures over secp256k1 on the SHA-256 digest
//! of what is signed, checked by the `bitcoin` crate. Whether a signature
//! verifies is named here, not defined: [`schnorr_verifies`].

use vstd::prelude::*;

use crate::dhke::{append_bytes, sha256, sha256_digest, PublicKey};
use crate::nuts::{BlindedMessage, Proof, SigFlag};

verus! {

/// Whether `signature` is a Schnorr signature on the digest `digest` by the
/// key whose compressed encoding is `public_key`.
pub uninterp spec fn schnorr_verifies(
    public_key: Seq<u8>,
    digest: Seq<u8>,
    signature: Seq<u8>,
) -> bool;

/// A Schnorr signature: 64 bytes.
#[derive(Clone, Copy, Debug, PartialEq, Eq)]
pub struct Signature {
    pub bytes: [u8; 64],
}

/// What a proof is locked to.
#[derive(Clone, Copy, Debug, PartialEq, Eq)]
pub enum Kind {
    /// Keys that must sign.
    P2PK,
    /// A digest whose preimage must be shown, besides any keys that must
    /// sign.
    HTLC { hash_lock: [u8; 32] },
}

/// The spending condition written in the secret of a proof.
#[derive(Clone, Debug, PartialEq, Eq)]
pub struct Conditions {
    pub kind: Kind,
    /// The keys that may sign.
    pub pubkeys: Vec<PublicKey>,
    /// How many of the keys must sign.
    pub num_sigs: u64,
    pub sig_flag: SigFlag,
    /// Seconds since the epoch after which the refund keys unlock.
    pub locktime: Option<u64>,
    /// The keys that may sign once the lock time has passed; where there are
    /// none, anyone may spend the proof then.
    pub refund_keys: Vec<PublicKey>,
}

/// What is shown to unlock a proof.
#[derive(Clone, Debug, PartialEq, Eq)]
pub struct Witness {
    pub signatures: Vec<Signature>,
    pub preimage: Option<Vec<u8>>,
}

/// Calls `bitcoin::secp256k1::Secp256k1::verify_schnorr` on the signature,
/// the message made of the digest, and the x-only form of the key, and says
/// whether it accepts. A key that encodes no point is accepted for nothing.
#[verifier::external_body]
fn verify_schnorr(public_key: &PublicKey, digest: &[u8; 32], signature: &Signature) -> (r: bool)
    ensures
        r == schnorr_verifies(public_key.bytes@, digest@, signature.bytes@),
{
    let key = match bitcoin::secp256k1::PublicKey::from_slice(&public_key.bytes) {
        Ok(key) => key,
        Err(_) => return false,
    };
    let signature = match bitcoin::secp256k1::schnorr::Signature::from_slice(&signature.bytes) {
        Ok(signature) => signature,
        Err(_) => return false,
    };
    let message = bitcoin::secp256k1::Message::from_digest(*digest);
    let context = bitcoin::secp256k1::Secp256k1::verification_only();
    context.verify_schnorr(&signature, &message, &key.x_only_public_key().0).is_ok()
}

/// Whether one of `signatures` is a signature on `digest` by `key`.
pub open spec fn signed_by(key: PublicKey, digest: Seq<u8>, signatures: Seq<Signature>) -> bool {
    exists|j: int|
        0 <= j < signatures.len() && schnorr_verifies(
            key.bytes@,
            digest,
            (#[trigger] signatures[j]).bytes@,
        )
}

/// How many of `keys` have signed `digest`, each key counted once however
/// often it is listed.
pub open spec fn signers(keys: Seq<PublicKey>, digest: Seq<u8>, signatures: Seq<Signature>) -> nat
    decreases keys.len(),
{
    if keys.len() == 0 {
        0
    } else {
        let counted: nat = if signed_by(keys.last(), digest, signatures)
            && !keys.drop_last().contains(keys.last()) {
            1
        } else {
            0
        };
        signers(keys.drop_last(), digest, signatures) + counted
    }
}

/// Whether one of `keys` has signed `digest`.
pub open spec fn any_signer(
    keys: Seq<PublicKey>,
    digest: Seq<u8>,
    signatures: Seq<Signature>,
) -> bool {
    exists|i: int| 0 <= i < keys.len() && signed_by(#[trigger] keys[i], digest, signatures)
}

/// The signatures of a witness: none where there is no witness.
pub open spec fn signatures_of(witness: Option<Witness>) -> Seq<Signature> {
    match witness {
        Some(witness) => witness.signatures@,
        None => Seq::empty(),
    }
}

/// Whether the witness shows a preimage of `hash_lock`.
pub open spec fn preimage_shown(hash_lock: [u8; 32], witness: Option<Witness>) -> bool {
    match witness {
        Some(witness) => match witness.preimage {
            Some(preimage) => sha256(preimage@) == hash_lock@,
            None => false,
        },
        None => false,
    }
}

/// Whether the refund unlocks at the time `now`: the lock time has passed,
/// and either there are no refund keys or one of them has signed.
pub open spec fn refund_unlocks(
    conditions: Conditions,
    digest: Seq<u8>,
    signatures: Seq<Signature>,
    now: u64,
) -> bool {
    &&& conditions.locktime matches Some(locktime) && locktime < now
    &&& conditions.refund_keys@.len() == 0 || any_signer(
        conditions.refund_keys@,
        digest,
        signatures,
    )
}

/// Whether `witness` meets `conditions` for what hashes to `digest`, at the
/// time `now`.
///
/// The refund unlocks everything. Short of it, as many of the keys as the
/// conditions ask must have signed; and a proof locked to a hash must show
/// the preimage, with signatures only where keys are listed.
pub open spec fn conditions_met(
    conditions: Conditions,
    witness: Option<Witness>,
    digest: Seq<u8>,
    now: u64,
) -> bool {
    let signatures = signatures_of(witness);
    let signed = signers(conditions.pubkeys@, digest, signatures) >= conditions.num_sigs;
    refund_unlocks(conditions, digest, signatures, now) || match conditions.kind {
        Kind::P2PK => signed,
        Kind::HTLC { hash_lock } => (conditions.pubkeys@.len() == 0 || signed) && preimage_shown(
            hash_lock,
            witness,
        ),
    }
}

/// Whether the two conditions are the same.
pub open spec fn same_conditions(a: Conditions, b: Conditions) -> bool {
    &&& a.kind == b.kind
    &&& a.pubkeys@ == b.pubkeys@
    &&& a.num_sigs == b.num_sigs
    &&& a.sig_flag == b.sig_flag
    &&& a.locktime == b.locktime
    &&& a.refund_keys@ == b.refund_keys@
}

/// The secrets of `proofs` laid end to end, in order.
pub open spec fn concat_secrets(proofs: Seq<Proof>) -> Seq<u8>
    decreases proofs.len(),
{
    if proofs.len() == 0 {
        Seq::empty()
    } else {
        concat_secrets(proofs.drop_last()) + proofs.last().secret@
    }
}

/// The blinded points of `outputs` laid end to end, in order.
pub open spec fn concat_blinded(outputs: Seq<BlindedMessage>) -> Seq<u8>
    decreases outputs.len(),
{
    if outputs.len() == 0 {
        Seq::empty()
    } else {
        concat_blinded(outputs.drop_last()) + outputs.last().blinded_secret.bytes@
    }
}

/// What is signed where one set of signatures covers a whole request: the
/// secrets of all inputs and then the blinded points of all outputs.
pub open spec fn request_message(proofs: Seq<Proof>, outputs: Seq<BlindedMessage>) -> Seq<u8> {
    concat_secrets(proofs) + concat_blinded(outputs)
}

/// Whether every input that asks for a signature of its own has one: each
/// proof with conditions that rule that input alone is unlocked by its
/// witness for its own secret.
pub open spec fn inputs_unlocked(proofs: Seq<Proof>, now: u64) -> bool {
    forall|i: int|
        0 <= i < proofs.len() ==> ((#[trigger] proofs[i]).conditions matches Some(conditions)
            ==> conditions.sig_flag == SigFlag::SigAll || conditions_met(
            conditions,
            proofs[i].witness,
            sha256(proofs[i].secret@),
            now,
        ))
}

/// The flag that rules a set of proofs: one set of signatures over the
/// whole request where any of them asks for it, a signature on each input
/// otherwise.
pub open spec fn sig_flag_of(proofs: Seq<Proof>) -> SigFlag {
    if exists|i: int|
        0 <= i < proofs.len() && ((#[trigger] proofs[i]).conditions matches Some(conditions)
            && conditions.sig_flag == SigFlag::SigAll) {
        SigFlag::SigAll
    } else {
        SigFlag::SigInputs
    }
}

/// Whether a request whose inputs ask for one set of signatures over the
/// whole request is unlocked: every input carries the conditions of the
/// first, and the witness of the first meets them for the message of the
/// request.
pub open spec fn request_unlocked(
    proofs: Seq<Proof>,
    outputs: Seq<BlindedMessage>,
    now: u64,
) -> bool {
    &&& proofs.len() > 0
    &&& proofs[0].conditions matches Some(first) && {
        &&& forall|i: int|
            0 <= i < proofs.len() ==> ((#[trigger] proofs[i]).conditions matches Some(conditions)
                && same_conditions(conditions, first))
        &&& conditions_met(first, proofs[0].witness, sha256(request_message(proofs, outputs)), now)
    }
}

fn key_among(keys: &Vec<PublicKey>, n: usize, key: &PublicKey) -> (r: bool)
    requires
        n <= keys.len(),
    ensures
        r == keys@.take(n as int).contains(*key),
{
    let mut i: usize = 0;
    while i < n
        invariant
            0 <= i <= n <= keys.len(),
            forall|j: int| 0 <= j < i ==> keys@[j] != *key,
        decreases n - i,
    {
        if keys[i].same(key) {
            assert(keys@.take(n as int)[i as int] == *key);
            return true;
        }
        i = i + 1;
    }
    assert forall|j: int| 0 <= j < n implies keys@.take(n as int)[j] != *key by {
        assert(keys@[j] != *key);
    }
    false
}

/// Whether one of `signatures` is a signature on `digest` by `key`.
pub fn is_signed_by(key: &PublicKey, digest: &[u8; 32], signatures: &Vec<Signature>) -> (r: bool)
    ensures
        r == signed_by(*key, digest@, signatures@),
{
    let mut j: usize = 0;
    while j < signatures.len()
        invariant
            0 <= j <= signatures.len(),
            forall|k: int|
                0 <= k < j ==> !schnorr_verifies(
                    key.bytes@,
                    digest@,
                    (#[trigger] signatures@[k]).bytes@,
                ),
        decreases signatures.len() - j,
    {
        if verify_schnorr(key, digest, &signatures[j]) {
            return true;
        }
        j = j + 1;
    }
    false
}

/// How many of `keys` have signed `digest`, each key counted once.
pub fn count_signers(
    keys: &Vec<PublicKey>,
    digest: &[u8; 32],
    signatures: &Vec<Signature>,
) -> (r: usize)
    ensures
        r == signers(keys@, digest@, signatures@),
{
    let mut count: usize = 0;
    let mut i: usize = 0;
    while i < keys.len()
        invariant
            0 <= i <= keys.len(),
            count <= i,
            count == signers(keys@.take(i as int), digest@, signatures@),
        decreases keys.len() - i,
    {
        proof {
            assert(keys@.take(i + 1).drop_last() =~= keys@.take(i as int));
        }
        if is_signed_by(&keys[i], digest, signatures) && !key_among(keys, i, &keys[i]) {
            count = count + 1;
        }
        i = i + 1;
    }
    assert(keys@.take(i as int) =~= keys@);
    count
}

/// Whether one of `keys` has signed `digest`.
pub fn has_signer(keys: &Vec<PublicKey>, digest: &[u8; 32], signatures: &Vec<Signature>) -> (r: bool)
    ensures
        r == any_signer(keys@, digest@, signatures@),
{
    let mut i: usize = 0;
    while i < keys.len()
        invariant
            0 <= i <= keys.len(),
            forall|k: int| 0 <= k < i ==> !signed_by(#[trigger] keys@[k], digest@, signatures@),
        decreases keys.len() - i,
    {
        if is_signed_by(&keys[i], digest, signatures) {
            return true;
        }
        i = i + 1;
    }
    false
}

fn digests_equal(a: &[u8; 32], b: &[u8; 32]) -> (r: bool)
    ensures
        r == (a@ == b@),
{
    let mut i: usize = 0;
    while i < 32
        invariant
            0 <= i <= 32,
            forall|j: int| 0 <= j < i ==> a@[j] == b@[j],
        decreases 32 - i,
    {
        if a[i] != b[i] {
            return false;
        }
        i = i + 1;
    }
    assert(a@ =~= b@);
    true
}

/// Whether `witness` meets `conditions` for what hashes to `digest`, at the
/// time `now`.
pub fn check_conditions(
    conditions: &Conditions,
    witness: &Option<Witness>,
    digest: &[u8; 32],
    now: u64,
) -> (r: bool)
    ensures
        r == conditions_met(*conditions, *witness, digest@, now),
{
    let none: Vec<Signature> = Vec::new();
    let signatures: &Vec<Signature> = match witness {
        Some(witness) => &witness.signatures,
        None => &none,
    };
    assert(signatures@ =~= signatures_of(*witness));
    let lapsed = match conditions.locktime {
        Some(locktime) => locktime < now,
        None => false,
    };
    if lapsed && (conditions.refund_keys.len() == 0 || has_signer(
        &conditions.refund_keys,
        digest,
        signatures,
    )) {
        return true;
    }
    let count = count_signers(&conditions.pubkeys, digest, signatures);
    let signed = count as u128 >= conditions.num_sigs as u128;
    match conditions.kind {
        Kind::P2PK => signed,
        Kind::HTLC { hash_lock } => {
            if !(conditions.pubkeys.len() == 0 || signed) {
                return false;
            }
            match witness {
                Some(witness) => match &witness.preimage {
                    Some(preimage) => {
                        let shown = sha256_digest(preimage);
                        digests_equal(&shown, &hash_lock)
                    },
                    None => false,
                },
                None => false,
            }
        },
    }
}

fn keys_equal(a: &Vec<PublicKey>, b: &Vec<PublicKey>) -> (r: bool)
    ensures
        r == (a@ == b@),
{
    if a.len() != b.len() {
        return false;
    }
    let mut i: usize = 0;
    while i < a.len()
        invariant
            0 <= i <= a.len(),
            a.len() == b.len(),
            forall|j: int| 0 <= j < i ==> a@[j] == b@[j],
        decreases a.len() - i,
    {
        if !a[i].same(&b[i]) {
            return false;
        }
        i = i + 1;
    }
    assert(a@ =~= b@);
    true
}

/// Whether the two conditions are the same.
pub fn conditions_equal(a: &Conditions, b: &Conditions) -> (r: bool)
    ensures
        r == same_conditions(*a, *b),
{
    let same_kind = match (a.kind, b.kind) {
        (Kind::P2PK, Kind::P2PK) => true,
        (Kind::HTLC { hash_lock: x }, Kind::HTLC { hash_lock: y }) => {
            let equal = digests_equal(&x, &y);
            proof {
                if equal {
                    assert(x == y);
                }
            }
            equal
        },
        _ => false,
    };
    let same_flag = match (a.sig_flag, b.sig_flag) {
        (SigFlag::SigAll, SigFlag::SigAll) => true,
        (SigFlag::SigInputs, SigFlag::SigInputs) => true,
        _ => false,
    };
    let same_locktime = match (a.locktime, b.locktime) {
        (Some(x), Some(y)) => x == y,
        (None, None) => true,
        _ => false,
    };
    same_kind && keys_equal(&a.pubkeys, &b.pubkeys) && a.num_sigs == b.num_sigs && same_flag
        && same_locktime && keys_equal(&a.refund_keys, &b.refund_keys)
}

/// Whether every input that asks for a signature of its own has one.
pub fn check_inputs_unlocked(proofs: &Vec<Proof>, now: u64) -> (r: bool)
    ensures
        r == inputs_unlocked(proofs@, now),
{
    let mut i: usize = 0;
    while i < proofs.len()
        invariant
            0 <= i <= proofs.len(),
            forall|j: int|
                0 <= j < i ==> ((#[trigger] proofs@[j]).conditions matches Some(conditions)
                    ==> conditions.sig_flag == SigFlag::SigAll || conditions_met(
                    conditions,
                    proofs@[j].witness,
                    sha256(proofs@[j].secret@),
                    now,
                )),
        decreases proofs.len() - i,
    {
        match &proofs[i].conditions {
            Some(conditions) => {
                match conditions.sig_flag {
                    SigFlag::SigAll => {},
                    SigFlag::SigInputs => {
                        let digest = sha256_digest(&proofs[i].secret);
                        if !check_conditions(conditions, &proofs[i].witness, &digest, now) {
                            return false;
                        }
                    },
                }
            },
            None => {},
        }
        i = i + 1;
    }
    true
}

/// The flag that rules a set of proofs.
pub fn enforce_sig_flag(proofs: &Vec<Proof>) -> (r: SigFlag)
    ensures
        r == sig_flag_of(proofs@),
{
    let mut i: usize = 0;
    while i < proofs.len()
        invariant
            0 <= i <= proofs.len(),
            forall|j: int|
                0 <= j < i ==> !((#[trigger] proofs@[j]).conditions matches Some(conditions)
                    && conditions.sig_flag == SigFlag::SigAll),
        decreases proofs.len() - i,
    {
        match &proofs[i].conditions {
            Some(conditions) => {
                match conditions.sig_flag {
                    SigFlag::SigAll => {
                        return SigFlag::SigAll;
                    },
                    SigFlag::SigInputs => {},
                }
            },
            None => {},
        }
        i = i + 1;
    }
    SigFlag::SigInputs
}

/// The message of a request: the secrets of its inputs and then the
/// blinded points of its outputs.
pub fn message_of_request(proofs: &Vec<Proof>, outputs: &Vec<BlindedMessage>) -> (r: Vec<u8>)
    ensures
        r@ == request_message(proofs@, outputs@),
{
    let mut message: Vec<u8> = Vec::new();
    let mut i: usize = 0;
    while i < proofs.len()
        invariant
            0 <= i <= proofs.len(),
            message@ == concat_secrets(proofs@.take(i as int)),
        decreases proofs.len() - i,
    {
        proof {
            assert(proofs@.take(i + 1).drop_last() =~= proofs@.take(i as int));
        }
        append_bytes(&mut message, proofs[i].secret.as_slice());
        i = i + 1;
    }
    assert(proofs@.take(i as int) =~= proofs@);
    let mut blinded: Vec<u8> = Vec::new();
    let mut i: usize = 0;
    while i < outputs.len()
        invariant
            0 <= i <= outputs.len(),
            blinded@ == concat_blinded(outputs@.take(i as int)),
        decreases outputs.len() - i,
    {
        proof {
            assert(outputs@.take(i + 1).drop_last() =~= outputs@.take(i as int));
        }
        append_bytes(&mut blinded, outputs[i].blinded_secret.bytes.as_slice());
        i = i + 1;
    }
    assert(outputs@.take(i as int) =~= outputs@);
    append_bytes(&mut message, blinded.as_slice());
    message
}

/// Whether a request whose inputs ask for one set of signatures over the
/// whole request is unlocked.
pub fn check_request_unlocked(
    proofs: &Vec<Proof>,
    outputs: &Vec<BlindedMessage>,
    now: u64,
) -> (r: bool)
    ensures
        r == request_unlocked(proofs@, outputs@, now),
{
    if proofs.len() == 0 {
        return false;
    }
    let first = match &proofs[0].conditions {
        Some(first) => first,
        None => {
            return false;
        },
    };
    let mut i: usize = 0;
    while i < proofs.len()
        invariant
            0 <= i <= proofs.len(),
            proofs@.len() > 0,
            proofs@[0].conditions == Some(*first),
            forall|j: int|
                0 <= j < i ==> ((#[trigger] proofs@[j]).conditions matches Some(conditions)
                    && same_conditions(conditions, *first)),
        decreases proofs.len() - i,
    {
        match &proofs[i].conditions {
            Some(conditions) => {
                if !conditions_equal(conditions, first) {
                    return false;
                }
            },
            None => {
                return false;
            },
        }
        i = i + 1;
    }
    let message = message_of_request(proofs, outputs);
    let digest = sha256_digest(&message);
    check_conditions(first, &proofs[0].witness, &digest, now)
}

} // verus!
