use cdk_mint::amount::Amount;
use cdk_mint::conditions::{
    check_conditions, check_request_unlocked, conditions_equal, count_signers, enforce_sig_flag,
    message_of_request, Conditions, Kind, Signature, Witness,
};
use cdk_mint::dhke::{hash_to_curve, public_key_of, sign_message, PublicKey, SecretKey};
use cdk_mint::error::Error;
use cdk_mint::keyset::{MintKeyPair, MintKeySet};
use cdk_mint::mint::Mint;
use cdk_mint::nuts::{BlindedMessage, MeltMethodSettings, MintInfo, MintMethodSettings, Proof, QuoteTTL, SigFlag, State, SwapRequest};
use cdk_mint::units::{CurrencyUnit, PaymentMethod};
use cdk_mint::verification::verify_inputs;

fn secret_key(n: u8) -> SecretKey {
    let mut bytes = [0u8; 32];
    bytes[31] = n;
    SecretKey { bytes }
}

fn keyset(id: u64, unit: CurrencyUnit, input_fee_ppk: u64) -> MintKeySet {
    let mut keys = Vec::new();
    for i in 0..64u32 {
        let secret = secret_key((i + 1) as u8);
        let public_key = public_key_of(&secret).unwrap();
        keys.push(MintKeyPair { amount: Amount(1u64 << i), secret_key: secret, public_key });
    }
    MintKeySet { id, unit, active: true, input_fee_ppk, keys }
}

fn mint_info() -> MintInfo {
    MintInfo {
        minting_disabled: false,
        mint_methods: vec![MintMethodSettings {
            method: PaymentMethod::Bolt11,
            unit: CurrencyUnit::Sat,
            min_amount: Some(Amount(1)),
            max_amount: Some(Amount(1_000_000)),
        }],
        melting_disabled: false,
        melt_methods: vec![MeltMethodSettings {
            method: PaymentMethod::Bolt11,
            unit: CurrencyUnit::Sat,
            min_amount: Some(Amount(1)),
            max_amount: Some(Amount(1_000_000)),
            amountless: false,
        }],
        mpp_methods: vec![],
    }
}

fn new_mint(input_fee_ppk: u64) -> Mint {
    Mint::new(
        vec![keyset(1, CurrencyUnit::Sat, input_fee_ppk), keyset(2, CurrencyUnit::Msat, 0)],
        mint_info(),
        QuoteTTL { mint_ttl: 600, melt_ttl: 120 },
    )
}

fn signed_proof(keyset_id: u64, amount: u64, secret: &str) -> Proof {
    let keys = keyset(keyset_id, CurrencyUnit::Sat, 0);
    let key = keys.find_key(Amount(amount)).unwrap();
    let y = hash_to_curve(&secret.as_bytes().to_vec()).unwrap();
    let c = sign_message(&key.secret_key, &y).unwrap();
    Proof {
        amount: Amount(amount),
        keyset_id,
        secret: secret.as_bytes().to_vec(),
        c,
        conditions: None,
        witness: None,
    }
}

fn y_of(secret: &str) -> PublicKey {
    hash_to_curve(&secret.as_bytes().to_vec()).unwrap()
}

fn output(keyset_id: u64, amount: u64, tag: &str) -> BlindedMessage {
    BlindedMessage { amount: Amount(amount), keyset_id, blinded_secret: y_of(tag) }
}

fn sha256(data: &[u8]) -> [u8; 32] {
    let digest = <bitcoin::hashes::sha256::Hash as bitcoin::hashes::Hash>::hash(data);
    <bitcoin::hashes::sha256::Hash as bitcoin::hashes::Hash>::to_byte_array(digest)
}

fn sign(key: u8, message: &[u8]) -> Signature {
    let context = bitcoin::secp256k1::Secp256k1::new();
    let pair =
        bitcoin::secp256k1::Keypair::from_seckey_slice(&context, &secret_key(key).bytes).unwrap();
    let message = bitcoin::secp256k1::Message::from_digest(sha256(message));
    Signature { bytes: context.sign_schnorr_no_aux_rand(&message, &pair).serialize() }
}

fn key(n: u8) -> PublicKey {
    public_key_of(&secret_key(n)).unwrap()
}

fn locked_to(keys: &[u8], num_sigs: u64) -> Conditions {
    Conditions {
        kind: Kind::P2PK,
        pubkeys: keys.iter().map(|k| key(*k)).collect(),
        num_sigs,
        sig_flag: SigFlag::SigInputs,
        locktime: None,
        refund_keys: vec![],
    }
}

fn witness(signatures: Vec<Signature>) -> Option<Witness> {
    Some(Witness { signatures, preimage: None })
}

fn state_of(mint: &Mint, secret: &str) -> Option<State> {
    mint.localstore.proofs.get_state(&y_of(secret))
}

#[test]
fn proof_locked_to_a_key_needs_its_signature() {
    let conditions = locked_to(&[70], 1);
    let digest = sha256(b"locked");
    assert!(check_conditions(&conditions, &witness(vec![sign(70, b"locked")]), &digest, 0));
    // no witness, no signature, the signature of another key, a signature on something else
    assert!(!check_conditions(&conditions, &None, &digest, 0));
    assert!(!check_conditions(&conditions, &witness(vec![]), &digest, 0));
    assert!(!check_conditions(&conditions, &witness(vec![sign(71, b"locked")]), &digest, 0));
    assert!(!check_conditions(&conditions, &witness(vec![sign(70, b"other")]), &digest, 0));
    assert!(!check_conditions(&conditions, &witness(vec![Signature { bytes: [0; 64] }]), &digest, 0));
    // one good signature among bad ones is enough
    assert!(check_conditions(
        &conditions,
        &witness(vec![sign(71, b"locked"), sign(70, b"locked")]),
        &digest,
        0
    ));
}

#[test]
fn each_key_counts_once() {
    let digest = sha256(b"locked");
    let two_of_three = locked_to(&[70, 71, 72], 2);
    assert!(check_conditions(
        &two_of_three,
        &witness(vec![sign(72, b"locked"), sign(70, b"locked")]),
        &digest,
        0
    ));
    // the same signature twice is one signer
    assert!(!check_conditions(
        &two_of_three,
        &witness(vec![sign(70, b"locked"), sign(70, b"locked")]),
        &digest,
        0
    ));
    // a key listed twice is one signer
    let listed_twice = locked_to(&[70, 70], 2);
    assert!(!check_conditions(&listed_twice, &witness(vec![sign(70, b"locked")]), &digest, 0));
    let keys = vec![key(70), key(71), key(70), key(72)];
    let signatures = vec![sign(70, b"locked"), sign(72, b"locked"), sign(73, b"locked")];
    assert_eq!(count_signers(&keys, &digest, &signatures), 2);
    assert_eq!(count_signers(&vec![], &digest, &signatures), 0);
    // asking for no signature asks for nothing
    assert!(check_conditions(&locked_to(&[70], 0), &None, &digest, 0));
}

#[test]
fn refund_unlocks_after_the_lock_time() {
    let digest = sha256(b"locked");
    let mut conditions = locked_to(&[70], 1);
    conditions.locktime = Some(1000);
    conditions.refund_keys = vec![key(80), key(81)];
    let refund = witness(vec![sign(81, b"locked")]);
    assert!(!check_conditions(&conditions, &refund, &digest, 999));
    assert!(!check_conditions(&conditions, &refund, &digest, 1000));
    assert!(check_conditions(&conditions, &refund, &digest, 1001));
    // the owner can still spend after the lock time, and a stranger cannot
    assert!(check_conditions(&conditions, &witness(vec![sign(70, b"locked")]), &digest, 1001));
    assert!(!check_conditions(&conditions, &witness(vec![sign(90, b"locked")]), &digest, 1001));
    // without refund keys anyone may spend once the lock time has passed
    conditions.refund_keys = vec![];
    assert!(!check_conditions(&conditions, &None, &digest, 1000));
    assert!(check_conditions(&conditions, &None, &digest, 1001));
}

#[test]
fn proof_locked_to_a_hash_needs_the_preimage() {
    let digest = sha256(b"locked");
    let mut conditions = locked_to(&[], 1);
    conditions.kind = Kind::HTLC { hash_lock: sha256(b"open sesame") };
    let shown = |preimage: &[u8], signatures: Vec<Signature>| {
        Some(Witness { signatures, preimage: Some(preimage.to_vec()) })
    };
    assert!(check_conditions(&conditions, &shown(b"open sesame", vec![]), &digest, 0));
    assert!(!check_conditions(&conditions, &shown(b"open barley", vec![]), &digest, 0));
    assert!(!check_conditions(&conditions, &witness(vec![]), &digest, 0));
    assert!(!check_conditions(&conditions, &None, &digest, 0));
    // with keys listed, the preimage and the signature are both needed
    conditions.pubkeys = vec![key(70)];
    assert!(!check_conditions(&conditions, &shown(b"open sesame", vec![]), &digest, 0));
    assert!(!check_conditions(&conditions, &witness(vec![sign(70, b"locked")]), &digest, 0));
    assert!(check_conditions(
        &conditions,
        &shown(b"open sesame", vec![sign(70, b"locked")]),
        &digest,
        0
    ));
    // the refund needs no preimage
    conditions.locktime = Some(5);
    conditions.refund_keys = vec![key(80)];
    assert!(check_conditions(&conditions, &witness(vec![sign(80, b"locked")]), &digest, 6));
}

#[test]
fn locked_input_is_checked_when_it_is_spent() {
    let keysets = vec![keyset(1, CurrencyUnit::Sat, 0)];
    let mut locked = signed_proof(1, 8, "locked");
    locked.conditions = Some(locked_to(&[70], 1));
    assert_eq!(verify_inputs(&keysets, &vec![locked.clone()], 0), Err(Error::SpendConditionsNotMet));
    locked.witness = witness(vec![sign(70, b"locked")]);
    let verified = verify_inputs(&keysets, &vec![locked.clone(), signed_proof(1, 4, "free")], 0).unwrap();
    assert_eq!(verified.amount, Amount(12));
    assert_eq!(verified.unit, Some(CurrencyUnit::Sat));

    let mut mint = new_mint(0);
    let mut unsigned = locked.clone();
    unsigned.witness = None;
    let refused = SwapRequest { inputs: vec![unsigned], outputs: vec![output(1, 8, "o1")] };
    assert_eq!(mint.process_swap_request(&refused), Err(Error::SpendConditionsNotMet));
    assert_eq!(state_of(&mint, "locked"), None);
    let swap = SwapRequest { inputs: vec![locked], outputs: vec![output(1, 8, "o1")] };
    assert_eq!(mint.process_swap_request(&swap).unwrap().len(), 1);
    assert_eq!(state_of(&mint, "locked"), Some(State::Spent));
}

#[test]
fn lock_time_is_read_off_the_time_given() {
    let mut mint = new_mint(0);
    let mut locked = signed_proof(1, 8, "locked");
    let mut conditions = locked_to(&[70], 1);
    conditions.locktime = Some(2_000_000_000);
    conditions.refund_keys = vec![key(80)];
    locked.conditions = Some(conditions);
    locked.witness = witness(vec![sign(80, b"locked")]);
    let swap = SwapRequest { inputs: vec![locked], outputs: vec![output(1, 8, "o1")] };
    assert_eq!(
        mint.process_swap_request_at(&swap, 2_000_000_000),
        Err(Error::SpendConditionsNotMet)
    );
    assert_eq!(mint.process_swap_request_at(&swap, 2_000_000_001).unwrap().len(), 1);
}

#[test]
fn one_witness_for_the_whole_request() {
    let mut conditions = locked_to(&[70, 71], 2);
    conditions.sig_flag = SigFlag::SigAll;
    let lock = |secret: &str, amount: u64| {
        let mut proof = signed_proof(1, amount, secret);
        proof.conditions = Some(conditions.clone());
        proof
    };
    let outputs = vec![output(1, 8, "o1"), output(1, 4, "o2")];
    let mut inputs = vec![lock("first", 8), lock("second", 4)];
    assert_eq!(enforce_sig_flag(&inputs), SigFlag::SigAll);
    assert_eq!(enforce_sig_flag(&vec![signed_proof(1, 8, "free")]), SigFlag::SigInputs);

    let mut message = b"firstsecond".to_vec();
    message.extend_from_slice(&y_of("o1").bytes);
    message.extend_from_slice(&y_of("o2").bytes);
    assert_eq!(message_of_request(&inputs, &outputs), message);

    assert!(!check_request_unlocked(&inputs, &outputs, 0));
    inputs[0].witness = witness(vec![sign(70, &message), sign(71, &message)]);
    assert!(check_request_unlocked(&inputs, &outputs, 0));
    // the signatures cover the outputs: for other outputs they are worth nothing
    let others = vec![output(1, 8, "o1"), output(1, 4, "o3")];
    assert!(!check_request_unlocked(&inputs, &others, 0));
    // every input must carry the same conditions
    let mut mixed = inputs.clone();
    mixed.push(signed_proof(1, 2, "free"));
    assert!(!check_request_unlocked(&mixed, &outputs, 0));
    let mut other_keys = inputs.clone();
    other_keys[1].conditions.as_mut().unwrap().pubkeys[1] = key(72);
    assert!(!check_request_unlocked(&other_keys, &outputs, 0));
    assert!(!check_request_unlocked(&vec![], &outputs, 0));

    let mut mint = new_mint(0);
    let refused = SwapRequest { inputs: inputs.clone(), outputs: others };
    assert_eq!(mint.process_swap_request(&refused), Err(Error::SpendConditionsNotMet));
    let swap = SwapRequest { inputs, outputs };
    assert_eq!(mint.process_swap_request(&swap).unwrap().len(), 2);
    assert_eq!(state_of(&mint, "first"), Some(State::Spent));
    assert_eq!(state_of(&mint, "second"), Some(State::Spent));
}

#[test]
fn conditions_are_compared_field_by_field() {
    let base = locked_to(&[70, 71], 2);
    assert!(conditions_equal(&base, &base.clone()));
    let mut other = base.clone();
    other.num_sigs = 1;
    assert!(!conditions_equal(&base, &other));
    let mut other = base.clone();
    other.pubkeys = vec![key(70)];
    assert!(!conditions_equal(&base, &other));
    let mut other = base.clone();
    other.locktime = Some(1);
    assert!(!conditions_equal(&base, &other));
    let mut other = base.clone();
    other.refund_keys = vec![key(70)];
    assert!(!conditions_equal(&base, &other));
    let mut other = base.clone();
    other.sig_flag = SigFlag::SigAll;
    assert!(!conditions_equal(&base, &other));
    let mut hashed = base.clone();
    hashed.kind = Kind::HTLC { hash_lock: [1; 32] };
    assert!(!conditions_equal(&base, &hashed));
    let mut other = hashed.clone();
    other.kind = Kind::HTLC { hash_lock: [2; 32] };
    assert!(!conditions_equal(&hashed, &other));
    assert!(conditions_equal(&hashed, &hashed.clone()));
}
