use cdk_mint::conditions::{Conditions, Kind};
use cdk_mint::dhke::PublicKey;
use cdk_mint::error::Error;
use cdk_mint::nuts::SigFlag;
use cdk_mint::secret::{
    conditions_of, decode_hex, has_sig_all, is_word, keys_of_tag, number_of_tag, parse_hash,
    parse_key, parse_number, spell, Word,
};

fn text(s: &str) -> Vec<u8> {
    s.as_bytes().to_vec()
}

fn tag(words: &[&str]) -> Vec<Vec<u8>> {
    words.iter().map(|w| text(w)).collect()
}

fn key_text(n: u8) -> String {
    format!("02{}", format!("{:02x}", n).repeat(32))
}

fn key(n: u8) -> PublicKey {
    let mut bytes = [n; 33];
    bytes[0] = 2;
    PublicKey { bytes }
}

#[test]
fn words_are_written_as_the_protocol_writes_them() {
    assert_eq!(spell(Word::P2PK), text("P2PK"));
    assert_eq!(spell(Word::HTLC), text("HTLC"));
    assert_eq!(spell(Word::Pubkeys), text("pubkeys"));
    assert_eq!(spell(Word::Refund), text("refund"));
    assert_eq!(spell(Word::NSigs), text("n_sigs"));
    assert_eq!(spell(Word::Locktime), text("locktime"));
    assert_eq!(spell(Word::SigFlag), text("sigflag"));
    assert_eq!(spell(Word::SigAll), text("SIG_ALL"));
    assert!(is_word(&text("refund"), Word::Refund));
    assert!(!is_word(&text("refunds"), Word::Refund));
    assert!(!is_word(&text("refunt"), Word::Refund));
    assert!(!is_word(&text(""), Word::Refund));
    assert!(!is_word(&text("p2pk"), Word::P2PK));
}

#[test]
fn hexadecimal_is_read_in_either_case() {
    assert_eq!(decode_hex(&text("")), Some(vec![]));
    assert_eq!(decode_hex(&text("00ff")), Some(vec![0, 255]));
    assert_eq!(decode_hex(&text("0aF1Bc9d")), Some(vec![0x0a, 0xf1, 0xbc, 0x9d]));
    assert_eq!(decode_hex(&text("10")), Some(vec![16]));
    assert_eq!(decode_hex(&text("abc")), None);
    assert_eq!(decode_hex(&text("0g")), None);
    assert_eq!(decode_hex(&text("g0")), None);
    assert_eq!(decode_hex(&text("+f")), None);
    assert_eq!(decode_hex(&text("0 ")), None);
    assert_eq!(decode_hex(&text("/:")), None);
    assert_eq!(decode_hex(&text("@G")), None);
    assert_eq!(decode_hex(&text("`g")), None);
}

#[test]
fn keys_and_hashes_have_their_lengths() {
    assert_eq!(parse_key(&text(&key_text(7))), Some(key(7)));
    assert_eq!(parse_key(&text(&key_text(7)[2..])), None);
    assert_eq!(parse_key(&text(&format!("{}00", key_text(7)))), None);
    assert_eq!(parse_key(&text("zz")), None);
    let hash = "ab".repeat(32);
    assert_eq!(parse_hash(&text(&hash)), Some([0xab; 32]));
    assert_eq!(parse_hash(&text(&hash[2..])), None);
    assert_eq!(parse_hash(&text(&key_text(7))), None);
}

#[test]
fn numbers_are_read_in_decimal() {
    assert_eq!(parse_number(&text("0")), Some(0));
    assert_eq!(parse_number(&text("7")), Some(7));
    assert_eq!(parse_number(&text("0042")), Some(42));
    assert_eq!(parse_number(&text("1700000000")), Some(1_700_000_000));
    assert_eq!(parse_number(&text("18446744073709551615")), Some(u64::MAX));
    assert_eq!(parse_number(&text("18446744073709551616")), None);
    assert_eq!(parse_number(&text("99999999999999999999")), None);
    assert_eq!(parse_number(&text("184467440737095516150")), None);
    assert_eq!(parse_number(&text("")), None);
    assert_eq!(parse_number(&text("+5")), None);
    assert_eq!(parse_number(&text("-5")), None);
    assert_eq!(parse_number(&text("5a")), None);
    assert_eq!(parse_number(&text(" 5")), None);
}

#[test]
fn tags_are_found_by_their_names() {
    let tags = vec![
        tag(&["locktime"]),
        tag(&["n_sigs", "2", "3"]),
        tag(&["pubkeys", &key_text(1), &key_text(2)]),
        tag(&[]),
        tag(&["n_sigs", "5"]),
        tag(&["pubkeys"]),
        tag(&["pubkeys", &key_text(3)]),
        tag(&["locktime", "9"]),
        tag(&["sigflag", "SIG_INPUTS"]),
    ];
    assert_eq!(keys_of_tag(&tags, Word::Pubkeys), Ok(vec![key(1), key(2), key(3)]));
    assert_eq!(keys_of_tag(&tags, Word::Refund), Ok(vec![]));
    assert_eq!(number_of_tag(&tags, Word::NSigs), Some(2));
    // the first tag of the name decides, and it gives no value
    assert_eq!(number_of_tag(&tags, Word::Locktime), None);
    assert_eq!(number_of_tag(&tags, Word::Refund), None);
    assert!(!has_sig_all(&tags));

    let mut flagged = tags.clone();
    flagged.push(tag(&["sigflag", "SIG_ALL", "more"]));
    assert!(has_sig_all(&flagged));
    assert!(!has_sig_all(&vec![tag(&["sigflag"])]));
    assert!(!has_sig_all(&vec![tag(&["SIG_ALL", "sigflag"])]));

    let mut broken = tags.clone();
    broken.push(tag(&["pubkeys", &key_text(4), "02ab"]));
    assert_eq!(keys_of_tag(&broken, Word::Pubkeys), Err(Error::InvalidSpendConditions));
    assert_eq!(keys_of_tag(&broken, Word::Refund), Ok(vec![]));
    assert_eq!(number_of_tag(&vec![tag(&["n_sigs", "two"])], Word::NSigs), None);
}

#[test]
fn secret_locked_to_keys() {
    let tags = vec![
        tag(&["sigflag", "SIG_ALL"]),
        tag(&["n_sigs", "2"]),
        tag(&["locktime", "1700000000"]),
        tag(&["refund", &key_text(8), &key_text(9)]),
        tag(&["pubkeys", &key_text(2), &key_text(3)]),
    ];
    assert_eq!(
        conditions_of(&text("P2PK"), &text(&key_text(1)), &tags),
        Ok(Some(Conditions {
            kind: Kind::P2PK,
            pubkeys: vec![key(2), key(3), key(1)],
            num_sigs: 2,
            sig_flag: SigFlag::SigAll,
            locktime: Some(1_700_000_000),
            refund_keys: vec![key(8), key(9)],
        }))
    );
    assert_eq!(
        conditions_of(&text("P2PK"), &text(&key_text(1)), &vec![]),
        Ok(Some(Conditions {
            kind: Kind::P2PK,
            pubkeys: vec![key(1)],
            num_sigs: 1,
            sig_flag: SigFlag::SigInputs,
            locktime: None,
            refund_keys: vec![],
        }))
    );
}

#[test]
fn secret_locked_to_a_hash() {
    let hash = "cd".repeat(32);
    let tags = vec![tag(&["pubkeys", &key_text(5)]), tag(&["n_sigs", "1"])];
    assert_eq!(
        conditions_of(&text("HTLC"), &text(&hash), &tags),
        Ok(Some(Conditions {
            kind: Kind::HTLC { hash_lock: [0xcd; 32] },
            pubkeys: vec![key(5)],
            num_sigs: 1,
            sig_flag: SigFlag::SigInputs,
            locktime: None,
            refund_keys: vec![],
        }))
    );
}

#[test]
fn secret_that_spells_no_condition() {
    let hash = "cd".repeat(32);
    // another kind locks nothing, whatever else the secret holds
    assert_eq!(conditions_of(&text("P2SH"), &text("zz"), &vec![tag(&["pubkeys", "zz"])]), Ok(None));
    assert_eq!(conditions_of(&text(""), &text(""), &vec![]), Ok(None));
    assert_eq!(conditions_of(&text("p2pk"), &text(&key_text(1)), &vec![]), Ok(None));
    // the data is a key for the one kind and a hash for the other
    assert_eq!(
        conditions_of(&text("P2PK"), &text(&hash), &vec![]),
        Err(Error::InvalidSpendConditions)
    );
    assert_eq!(
        conditions_of(&text("HTLC"), &text(&key_text(1)), &vec![]),
        Err(Error::InvalidSpendConditions)
    );
    assert_eq!(
        conditions_of(&text("P2PK"), &text(&key_text(1)), &vec![tag(&["refund", "00"])]),
        Err(Error::InvalidSpendConditions)
    );
    assert_eq!(
        conditions_of(&text("HTLC"), &text(&hash), &vec![tag(&["pubkeys", &hash])]),
        Err(Error::InvalidSpendConditions)
    );
}
