use cdk_mint::amount::Amount;
use cdk_mint::dhke::{hash_to_curve, public_key_of, sign_message, verify_message, PublicKey, SecretKey};
use cdk_mint::error::Error;
use cdk_mint::keyset::{find_keyset, MintKeySet};
use cdk_mint::units::CurrencyUnit;

fn hex(text: &str) -> Vec<u8> {
    (0..text.len() / 2).map(|i| u8::from_str_radix(&text[2 * i..2 * i + 2], 16).unwrap()).collect()
}

fn point(text: &str) -> PublicKey {
    let mut bytes = [0u8; 33];
    bytes.copy_from_slice(&hex(text));
    PublicKey { bytes }
}

fn scalar(n: u8) -> SecretKey {
    let mut bytes = [0u8; 32];
    bytes[31] = n;
    SecretKey { bytes }
}

#[test]
fn secrets_hash_to_the_curve() {
    let mut message = vec![0u8; 32];
    assert_eq!(
        hash_to_curve(&message),
        Ok(point("024cce997d3b518f739663b757deaec95bcd9473c30a14ac2fd04023a739d1a725"))
    );
    // the first three candidates for this message are no points
    message[31] = 1;
    assert_eq!(
        hash_to_curve(&message),
        Ok(point("022e7158e11c9506f1aa4248bf531298daa7febd6194f003edcd9b93ade6253acf"))
    );
    message[31] = 2;
    assert_eq!(
        hash_to_curve(&message),
        Ok(point("026cdbe15362df59cd1dd3c9c11de8aedac2106eca69236ecd9fbe117af897be4f"))
    );
    assert_eq!(
        hash_to_curve(&b"test_message".to_vec()),
        Ok(point("0215fdc277c704590f3c3bcc08cf9a8f748f46619b96268cece86442b6c3ac461b"))
    );
}

#[test]
fn signing_multiplies_the_point_by_the_key() {
    let y = hash_to_curve(&b"test_message".to_vec()).unwrap();
    assert_eq!(sign_message(&scalar(1), &y), Ok(y));
    assert_eq!(
        sign_message(&scalar(2), &y),
        Ok(point("0207166895ee0df51e7a4cadd158f86077ba2b7d59bbfecf4e7171205701c4ee93"))
    );
    assert_eq!(
        sign_message(&scalar(0x7f), &y),
        Ok(point("02f81bfbaf740c9798e1d0d4272f1643f12b6ce75cb1e4fcbba6463a53be3d4db0"))
    );
    // zero is no key, and neither is a number beyond the group order
    assert_eq!(sign_message(&scalar(0), &y), Err(Error::InvalidPoint));
    assert_eq!(sign_message(&SecretKey { bytes: [0xff; 32] }, &y), Err(Error::InvalidPoint));
    assert_eq!(sign_message(&scalar(1), &PublicKey { bytes: [0xff; 33] }), Err(Error::InvalidPoint));
}

#[test]
fn signatures_are_verified_against_the_secret() {
    let message = b"test_message".to_vec();
    let y = hash_to_curve(&message).unwrap();
    let c = sign_message(&scalar(2), &y).unwrap();
    assert_eq!(verify_message(&scalar(2), &c, &message), Ok(()));
    assert_eq!(verify_message(&scalar(3), &c, &message), Err(Error::TokenNotVerified));
    assert_eq!(verify_message(&scalar(2), &y, &message), Err(Error::TokenNotVerified));
    assert_eq!(verify_message(&scalar(2), &c, &b"another".to_vec()), Err(Error::TokenNotVerified));
    assert!(c.same(&c));
    assert!(!c.same(&y));
}

#[test]
fn public_keys_of_secret_keys() {
    assert_eq!(
        public_key_of(&scalar(1)),
        Ok(point("0279be667ef9dcbbac55a06295ce870b07029bfcdb2dce28d959f2815b16f81798"))
    );
    assert_eq!(
        public_key_of(&scalar(2)),
        Ok(point("02c6047f9441ed7d6d3045406e95c07cd85c778e4b8cef3ca7abac09b95c709ee5"))
    );
    assert_eq!(
        public_key_of(&scalar(0x7f)),
        Ok(point("02841d6063a586fa475a724604da03bc5b92a2e0d2e0a36acfe4c73a5514742881"))
    );
    assert_eq!(public_key_of(&scalar(0)), Err(Error::AmountKey));
}

#[test]
fn keyset_from_secret_keys() {
    let secrets: Vec<SecretKey> = (1..=3).map(scalar).collect();
    let keyset = MintKeySet::from_secret_keys(CurrencyUnit::Sat, 100, &secrets).unwrap();
    assert_eq!(keyset.unit, CurrencyUnit::Sat);
    assert_eq!(keyset.input_fee_ppk, 100);
    assert!(keyset.active);
    assert_eq!(keyset.keys.iter().map(|k| k.amount.0).collect::<Vec<u64>>(), vec![1, 2, 4]);
    assert_eq!(keyset.keys[1].public_key, public_key_of(&scalar(2)).unwrap());
    assert!(keyset.keys[2].secret_key == scalar(3));
    // the id is the head of the digest of the three public keys
    assert_eq!(keyset.id, 0x0097_b97b_0632_8a9a);
    assert_eq!(keyset.find_key(Amount(4)).unwrap().public_key, public_key_of(&scalar(3)).unwrap());
    assert!(keyset.find_key(Amount(3)).is_none());
    assert!(keyset.find_key(Amount(8)).is_none());

    let all: Vec<SecretKey> = (1..=64).map(scalar).collect();
    let full = MintKeySet::from_secret_keys(CurrencyUnit::Msat, 0, &all).unwrap();
    assert_eq!(full.keys[63].amount, Amount(1 << 63));
    let too_many: Vec<SecretKey> = (1..=65).map(scalar).collect();
    assert_eq!(
        MintKeySet::from_secret_keys(CurrencyUnit::Sat, 0, &too_many).err(),
        Some(Error::AmountKey)
    );
    assert_eq!(
        MintKeySet::from_secret_keys(CurrencyUnit::Sat, 0, &vec![scalar(1), scalar(0)]).err(),
        Some(Error::AmountKey)
    );
    let keysets = vec![full, keyset];
    assert_eq!(find_keyset(&keysets, 0x0097_b97b_0632_8a9a), Some(1));
    assert_eq!(find_keyset(&keysets, 5), None);
}
