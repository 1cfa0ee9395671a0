//! Well-known secrets: the spending condition that the kind, the data and
//! the tags of a secret spell out.
//!
//! A secret that locks a proof names a kind, `P2PK` or `HTLC`, carries data,
//! the key or the hash that the proof is locked to, and a list of tags, each
//! a name followed by its values. Text is held as bytes.

use vstd::prelude::*;

use crate::conditions::{Conditions, Kind};
use crate::dhke::PublicKey;
use crate::error::Error;
use crate::nuts::SigFlag;

verus! {

/// The words that a well-known secret is written with.
#[derive(Clone, Copy, Debug, PartialEq, Eq)]
pub enum Word {
    /// The kind of a secret that locks to keys.
    P2PK,
    /// The kind of a secret that locks to a hash.
    HTLC,
    /// The tag that lists further keys that may sign.
    Pubkeys,
    /// The tag that lists the keys that may sign once the lock time has
    /// passed.
    Refund,
    /// The tag that says how many keys must sign.
    NSigs,
    /// The tag that gives the lock time.
    Locktime,
    /// The tag that says what the signatures cover.
    SigFlag,
    /// The value of that tag which asks for signatures over the whole
    /// request.
    SigAll,
}

/// How a word is written.
pub open spec fn spelling(word: Word) -> Seq<u8> {
    match word {
        Word::P2PK => seq![80u8, 50u8, 80u8, 75u8],
        Word::HTLC => seq![72u8, 84u8, 76u8, 67u8],
        Word::Pubkeys => seq![112u8, 117u8, 98u8, 107u8, 101u8, 121u8, 115u8],
        Word::Refund => seq![114u8, 101u8, 102u8, 117u8, 110u8, 100u8],
        Word::NSigs => seq![110u8, 95u8, 115u8, 105u8, 103u8, 115u8],
        Word::Locktime => seq![108u8, 111u8, 99u8, 107u8, 116u8, 105u8, 109u8, 101u8],
        Word::SigFlag => seq![115u8, 105u8, 103u8, 102u8, 108u8, 97u8, 103u8],
        Word::SigAll => seq![83u8, 73u8, 71u8, 95u8, 65u8, 76u8, 76u8],
    }
}

/// The word `word` as it is written.
pub fn spell(word: Word) -> (r: Vec<u8>)
    ensures
        r@ == spelling(word),
{
    let r: Vec<u8> = match word {
        Word::P2PK => vec![80u8, 50u8, 80u8, 75u8],
        Word::HTLC => vec![72u8, 84u8, 76u8, 67u8],
        Word::Pubkeys => vec![112u8, 117u8, 98u8, 107u8, 101u8, 121u8, 115u8],
        Word::Refund => vec![114u8, 101u8, 102u8, 117u8, 110u8, 100u8],
        Word::NSigs => vec![110u8, 95u8, 115u8, 105u8, 103u8, 115u8],
        Word::Locktime => vec![108u8, 111u8, 99u8, 107u8, 116u8, 105u8, 109u8, 101u8],
        Word::SigFlag => vec![115u8, 105u8, 103u8, 102u8, 108u8, 97u8, 103u8],
        Word::SigAll => vec![83u8, 73u8, 71u8, 95u8, 65u8, 76u8, 76u8],
    };
    assert(r@ =~= spelling(word));
    r
}

/// Whether `text` is the word `word`.
pub fn is_word(text: &Vec<u8>, word: Word) -> (r: bool)
    ensures
        r == (text@ == spelling(word)),
{
    let written = spell(word);
    if text.len() != written.len() {
        return false;
    }
    let mut i: usize = 0;
    while i < text.len()
        invariant
            0 <= i <= text.len(),
            text.len() == written.len(),
            written@ == spelling(word),
            forall|j: int| 0 <= j < i ==> text@[j] == written@[j],
        decreases text.len() - i,
    {
        if text[i] != written[i] {
            return false;
        }
        i = i + 1;
    }
    assert(text@ =~= written@);
    true
}

/// The value of a hexadecimal digit, in either case.
pub open spec fn hex_value(c: u8) -> Option<u8> {
    if 48 <= c <= 57 {
        Some((c - 48) as u8)
    } else if 97 <= c <= 102 {
        Some((c - 87) as u8)
    } else if 65 <= c <= 70 {
        Some((c - 55) as u8)
    } else {
        None
    }
}

/// Whether `text` is written in hexadecimal: an even number of digits.
pub open spec fn is_hex(text: Seq<u8>) -> bool {
    &&& text.len() % 2 == 0
    &&& forall|i: int| 0 <= i < text.len() ==> hex_value(#[trigger] text[i]) is Some
}

/// The bytes that `text` spells in hexadecimal, two digits to a byte, the
/// higher digit first.
pub open spec fn hex_bytes(text: Seq<u8>) -> Seq<u8> {
    Seq::new(
        (text.len() / 2) as nat,
        |i: int| (16 * hex_value(text[2 * i]).unwrap() + hex_value(text[2 * i + 1]).unwrap()) as u8,
    )
}

fn hex_digit(c: u8) -> (r: Option<u8>)
    ensures
        r == hex_value(c),
        r matches Some(v) ==> v < 16,
{
    if 48 <= c && c <= 57 {
        Some(c - 48)
    } else if 97 <= c && c <= 102 {
        Some(c - 87)
    } else if 65 <= c && c <= 70 {
        Some(c - 55)
    } else {
        None
    }
}

/// Reads `text` as hexadecimal: the bytes it spells, or nothing where it is
/// not an even number of hexadecimal digits.
pub fn decode_hex(text: &Vec<u8>) -> (r: Option<Vec<u8>>)
    ensures
        match r {
            Some(bytes) => is_hex(text@) && bytes@ == hex_bytes(text@),
            None => !is_hex(text@),
        },
{
    if text.len() % 2 != 0 {
        return None;
    }
    let mut bytes: Vec<u8> = Vec::new();
    let mut i: usize = 0;
    while i < text.len()
        invariant
            0 <= i <= text.len(),
            i % 2 == 0,
            text.len() % 2 == 0,
            bytes@.len() == i / 2,
            forall|j: int| 0 <= j < i ==> hex_value(#[trigger] text@[j]) is Some,
            forall|k: int| 0 <= k < bytes@.len() ==> bytes@[k] == hex_bytes(text@)[k],
        decreases text.len() - i,
    {
        let high = match hex_digit(text[i]) {
            Some(v) => v,
            None => {
                return None;
            },
        };
        let low = match hex_digit(text[i + 1]) {
            Some(v) => v,
            None => {
                return None;
            },
        };
        bytes.push(16 * high + low);
        i = i + 2;
    }
    assert(bytes@ =~= hex_bytes(text@));
    Some(bytes)
}

/// Whether `text` spells a key: 33 bytes in hexadecimal.
pub open spec fn is_key(text: Seq<u8>) -> bool {
    is_hex(text) && text.len() == 66
}

/// Reads `text` as a key: the 33 bytes that it spells in hexadecimal.
pub fn parse_key(text: &Vec<u8>) -> (r: Option<PublicKey>)
    ensures
        match r {
            Some(key) => is_key(text@) && key.bytes@ == hex_bytes(text@),
            None => !is_key(text@),
        },
{
    let decoded = match decode_hex(text) {
        Some(decoded) => decoded,
        None => {
            return None;
        },
    };
    if decoded.len() != 33 {
        return None;
    }
    let mut bytes = [0u8; 33];
    let mut i: usize = 0;
    while i < 33
        invariant
            0 <= i <= 33,
            decoded@.len() == 33,
            forall|j: int| 0 <= j < i ==> bytes@[j] == decoded@[j],
        decreases 33 - i,
    {
        bytes.set(i, decoded[i]);
        i = i + 1;
    }
    assert(bytes@ =~= decoded@);
    Some(PublicKey { bytes })
}

/// Whether `text` spells a hash: 32 bytes in hexadecimal.
pub open spec fn is_hash(text: Seq<u8>) -> bool {
    is_hex(text) && text.len() == 64
}

/// Reads `text` as a hash: the 32 bytes that it spells in hexadecimal.
pub fn parse_hash(text: &Vec<u8>) -> (r: Option<[u8; 32]>)
    ensures
        match r {
            Some(hash) => is_hash(text@) && hash@ == hex_bytes(text@),
            None => !is_hash(text@),
        },
{
    let decoded = match decode_hex(text) {
        Some(decoded) => decoded,
        None => {
            return None;
        },
    };
    if decoded.len() != 32 {
        return None;
    }
    let mut bytes = [0u8; 32];
    let mut i: usize = 0;
    while i < 32
        invariant
            0 <= i <= 32,
            decoded@.len() == 32,
            forall|j: int| 0 <= j < i ==> bytes@[j] == decoded@[j],
        decreases 32 - i,
    {
        bytes.set(i, decoded[i]);
        i = i + 1;
    }
    assert(bytes@ =~= decoded@);
    Some(bytes)
}

/// Whether `text` is a number: one decimal digit or more.
pub open spec fn is_number(text: Seq<u8>) -> bool {
    &&& text.len() > 0
    &&& forall|i: int| 0 <= i < text.len() ==> 48 <= #[trigger] text[i] <= 57
}

/// The number that the decimal digits `text` spell.
pub open spec fn digits_value(text: Seq<u8>) -> int
    decreases text.len(),
{
    if text.len() == 0 {
        0
    } else {
        digits_value(text.drop_last()) * 10 + (text.last() - 48)
    }
}

/// The number that `text` spells, where it spells one that fits in 64
/// bits.
pub open spec fn number_of(text: Seq<u8>) -> Option<u64> {
    if is_number(text) && digits_value(text) <= u64::MAX {
        Some(digits_value(text) as u64)
    } else {
        None
    }
}

/// A number is no smaller than the number that its first digits spell.
pub proof fn lemma_digits_grow(text: Seq<u8>, k: int)
    requires
        is_number(text),
        0 <= k <= text.len(),
    ensures
        0 <= digits_value(text.take(k)) <= digits_value(text),
    decreases text.len() - k,
{
    if k == text.len() {
        assert(text.take(k) =~= text);
        lemma_digits_nonnegative(text);
    } else {
        lemma_digits_grow(text, k + 1);
        assert(text.take(k + 1).drop_last() =~= text.take(k));
        lemma_digits_nonnegative(text.take(k));
    }
}

proof fn lemma_digits_nonnegative(text: Seq<u8>)
    requires
        forall|i: int| 0 <= i < text.len() ==> 48 <= #[trigger] text[i] <= 57,
    ensures
        0 <= digits_value(text),
    decreases text.len(),
{
    if text.len() > 0 {
        lemma_digits_nonnegative(text.drop_last());
    }
}

/// Reads `text` as a number in decimal.
pub fn parse_number(text: &Vec<u8>) -> (r: Option<u64>)
    ensures
        r == number_of(text@),
{
    if text.len() == 0 {
        return None;
    }
    let mut value: u64 = 0;
    let mut i: usize = 0;
    while i < text.len()
        invariant
            0 <= i <= text.len(),
            forall|j: int| 0 <= j < i ==> 48 <= #[trigger] text@[j] <= 57,
            value == digits_value(text@.take(i as int)),
        decreases text.len() - i,
    {
        let c = text[i];
        if c < 48 || c > 57 {
            return None;
        }
        proof {
            assert(text@.take(i + 1).drop_last() =~= text@.take(i as int));
        }
        if value > (u64::MAX - (c - 48) as u64) / 10 {
            proof {
                if is_number(text@) {
                    lemma_digits_grow(text@, i + 1);
                }
            }
            return None;
        }
        value = value * 10 + (c - 48) as u64;
        i = i + 1;
    }
    assert(text@.take(i as int) =~= text@);
    Some(value)
}

/// Whether the tag `tag` has the name `name`.
pub open spec fn is_named(tag: Seq<Vec<u8>>, name: Word) -> bool {
    tag.len() > 0 && tag[0]@ == spelling(name)
}

/// The values of the tag `tag`: all that follows its name.
pub open spec fn values_of(tag: Seq<Vec<u8>>) -> Seq<Seq<u8>> {
    Seq::new((tag.len() - 1) as nat, |j: int| tag[j + 1]@)
}

/// The values of all tags named `name` from the tag `from` on, in order.
pub open spec fn tag_values(tags: Seq<Vec<Vec<u8>>>, name: Word, from: int) -> Seq<Seq<u8>>
    decreases tags.len() - from,
{
    if from < 0 || from >= tags.len() {
        Seq::empty()
    } else if is_named(tags[from]@, name) {
        values_of(tags[from]@) + tag_values(tags, name, from + 1)
    } else {
        tag_values(tags, name, from + 1)
    }
}

/// Whether `keys` are the keys that `values` spell, one for one.
pub open spec fn keys_spelt(values: Seq<Seq<u8>>, keys: Seq<PublicKey>) -> bool {
    &&& keys.len() == values.len()
    &&& forall|i: int|
        0 <= i < values.len() ==> is_key(#[trigger] values[i]) && keys[i].bytes@ == hex_bytes(
            values[i],
        )
}

/// Whether every one of `values` spells a key.
pub open spec fn all_keys(values: Seq<Seq<u8>>) -> bool {
    forall|i: int| 0 <= i < values.len() ==> is_key(#[trigger] values[i])
}

/// The keys that the tags named `name` list, in order. Fails with
/// `InvalidSpendConditions` where a value spells no key.
pub fn keys_of_tag(tags: &Vec<Vec<Vec<u8>>>, name: Word) -> (r: Result<Vec<PublicKey>, Error>)
    ensures
        match r {
            Ok(keys) => keys_spelt(tag_values(tags@, name, 0), keys@),
            Err(e) => e == Error::InvalidSpendConditions && !all_keys(tag_values(tags@, name, 0)),
        },
{
    let mut keys: Vec<PublicKey> = Vec::new();
    let ghost mut done: Seq<Seq<u8>> = Seq::empty();
    let mut i: usize = 0;
    while i < tags.len()
        invariant
            0 <= i <= tags.len(),
            keys_spelt(done, keys@),
            done + tag_values(tags@, name, i as int) == tag_values(tags@, name, 0),
        decreases tags.len() - i,
    {
        let tag = &tags[i];
        let named = tag.len() > 0 && is_word(&tag[0], name);
        if named {
            let ghost before = done;
            let ghost values = values_of(tag@);
            let mut j: usize = 1;
            while j < tag.len()
                invariant
                    1 <= j <= tag.len(),
                    0 <= i < tags.len(),
                    tag@ == tags@[i as int]@,
                    is_named(tag@, name),
                    values == values_of(tag@),
                    keys_spelt(done, keys@),
                    done == before + values.take(j - 1),
                    before + tag_values(tags@, name, i as int) == tag_values(tags@, name, 0),
                decreases tag.len() - j,
            {
                let ghost all = tag_values(tags@, name, 0);
                assert(values[j - 1] == tag@[j as int]@);
                assert(all[done.len() as int] == tag@[j as int]@) by {
                    assert(all == before + (values + tag_values(tags@, name, i + 1)));
                }
                match parse_key(&tag[j]) {
                    Some(key) => {
                        keys.push(key);
                        proof {
                            done = done.push(tag@[j as int]@);
                            assert(done =~= before + values.take(j as int));
                        }
                    },
                    None => {
                        return Err(Error::InvalidSpendConditions);
                    },
                }
                j = j + 1;
            }
            proof {
                assert(values.take(j - 1) =~= values);
                assert(done + tag_values(tags@, name, i + 1) =~= before + tag_values(
                    tags@,
                    name,
                    i as int,
                ));
            }
        }
        i = i + 1;
    }
    assert(done =~= tag_values(tags@, name, 0));
    Ok(keys)
}

/// The first tag named `name` from the tag `from` on, where there is one.
pub open spec fn first_tag(tags: Seq<Vec<Vec<u8>>>, name: Word, from: int) -> Option<int>
    decreases tags.len() - from,
{
    if from < 0 || from >= tags.len() {
        None
    } else if is_named(tags[from]@, name) {
        Some(from)
    } else {
        first_tag(tags, name, from + 1)
    }
}

/// The number that the first tag named `name` gives: its first value read
/// in decimal. There is none where no tag has the name, or where the first
/// that has it gives no value or one that is no number.
pub open spec fn tag_number(tags: Seq<Vec<Vec<u8>>>, name: Word) -> Option<u64> {
    match first_tag(tags, name, 0) {
        Some(i) => if tags[i]@.len() > 1 {
            number_of(tags[i]@[1]@)
        } else {
            None
        },
        None => None,
    }
}

/// The number that the first tag named `name` gives.
pub fn number_of_tag(tags: &Vec<Vec<Vec<u8>>>, name: Word) -> (r: Option<u64>)
    ensures
        r == tag_number(tags@, name),
{
    let mut i: usize = 0;
    while i < tags.len()
        invariant
            0 <= i <= tags.len(),
            first_tag(tags@, name, 0) == first_tag(tags@, name, i as int),
        decreases tags.len() - i,
    {
        let tag = &tags[i];
        if tag.len() > 0 && is_word(&tag[0], name) {
            if tag.len() > 1 {
                return parse_number(&tag[1]);
            }
            return None;
        }
        i = i + 1;
    }
    None
}

/// Whether a tag asks for one set of signatures over the whole request: it
/// is named `sigflag` and its first value is `SIG_ALL`.
pub open spec fn asks_sig_all(tags: Seq<Vec<Vec<u8>>>) -> bool {
    exists|i: int|
        0 <= i < tags.len() && is_named(#[trigger] tags[i]@, Word::SigFlag) && tags[i]@.len() > 1
            && tags[i]@[1]@ == spelling(Word::SigAll)
}

/// Whether a tag asks for one set of signatures over the whole request.
pub fn has_sig_all(tags: &Vec<Vec<Vec<u8>>>) -> (r: bool)
    ensures
        r == asks_sig_all(tags@),
{
    let mut i: usize = 0;
    while i < tags.len()
        invariant
            0 <= i <= tags.len(),
            forall|k: int|
                0 <= k < i ==> !(is_named(#[trigger] tags@[k]@, Word::SigFlag) && tags@[k]@.len()
                    > 1 && tags@[k]@[1]@ == spelling(Word::SigAll)),
        decreases tags.len() - i,
    {
        let tag = &tags[i];
        if tag.len() > 1 && is_word(&tag[0], Word::SigFlag) && is_word(&tag[1], Word::SigAll) {
            return true;
        }
        i = i + 1;
    }
    false
}

/// Whether `r` is the spending condition that a secret of the kind `kind`
/// with the data `data` and the tags `tags` spells out.
///
/// A secret of another kind than `P2PK` and `HTLC` locks nothing. The data
/// of a `P2PK` secret is a key, that of an `HTLC` secret a hash. The keys
/// that may sign are those that the tags named `pubkeys` list and, for
/// `P2PK`, the key of the data after them. The tags named `refund` list the
/// refund keys. The first tag named `n_sigs` says how many must sign, one
/// where it says nothing; the first named `locktime` gives the lock time.
/// The signatures cover the whole request where a tag says so, and each
/// input by itself otherwise. Where the data or a listed key is not what it
/// has to be, the error is `InvalidSpendConditions`.
pub open spec fn conditions_spelt(
    kind: Seq<u8>,
    data: Seq<u8>,
    tags: Seq<Vec<Vec<u8>>>,
    r: Result<Option<Conditions>, Error>,
) -> bool {
    let p2pk = kind == spelling(Word::P2PK);
    let listed = tag_values(tags, Word::Pubkeys, 0);
    if !p2pk && kind != spelling(Word::HTLC) {
        r == Ok::<Option<Conditions>, Error>(None)
    } else if !all_keys(listed) || !all_keys(tag_values(tags, Word::Refund, 0)) || (if p2pk {
        !is_key(data)
    } else {
        !is_hash(data)
    }) {
        r == Err::<Option<Conditions>, Error>(Error::InvalidSpendConditions)
    } else {
        &&& r matches Ok(Some(conditions))
        &&& match conditions.kind {
            Kind::P2PK => p2pk,
            Kind::HTLC { hash_lock } => !p2pk && hash_lock@ == hex_bytes(data),
        }
        &&& keys_spelt(
            if p2pk {
                listed.push(data)
            } else {
                listed
            },
            conditions.pubkeys@,
        )
        &&& keys_spelt(tag_values(tags, Word::Refund, 0), conditions.refund_keys@)
        &&& conditions.num_sigs == match tag_number(tags, Word::NSigs) {
            Some(n) => n,
            None => 1,
        }
        &&& conditions.locktime == tag_number(tags, Word::Locktime)
        &&& conditions.sig_flag == if asks_sig_all(tags) {
            SigFlag::SigAll
        } else {
            SigFlag::SigInputs
        }
    }
}

/// The spending condition that a secret of the kind `kind` with the data
/// `data` and the tags `tags` spells out, where it spells one.
pub fn conditions_of(kind: &Vec<u8>, data: &Vec<u8>, tags: &Vec<Vec<Vec<u8>>>) -> (r: Result<
    Option<Conditions>,
    Error,
>)
    ensures
        conditions_spelt(kind@, data@, tags@, r),
{
    let p2pk = is_word(kind, Word::P2PK);
    if !p2pk && !is_word(kind, Word::HTLC) {
        return Ok(None);
    }
    let mut pubkeys = match keys_of_tag(tags, Word::Pubkeys) {
        Ok(keys) => keys,
        Err(e) => {
            return Err(e);
        },
    };
    let refund_keys = match keys_of_tag(tags, Word::Refund) {
        Ok(keys) => keys,
        Err(e) => {
            return Err(e);
        },
    };
    let ghost listed = tag_values(tags@, Word::Pubkeys, 0);
    let kind = if p2pk {
        match parse_key(data) {
            Some(key) => {
                pubkeys.push(key);
                Kind::P2PK
            },
            None => {
                return Err(Error::InvalidSpendConditions);
            },
        }
    } else {
        match parse_hash(data) {
            Some(hash_lock) => Kind::HTLC { hash_lock },
            None => {
                return Err(Error::InvalidSpendConditions);
            },
        }
    };
    let num_sigs = match number_of_tag(tags, Word::NSigs) {
        Some(n) => n,
        None => 1,
    };
    let sig_flag = if has_sig_all(tags) {
        SigFlag::SigAll
    } else {
        SigFlag::SigInputs
    };
    Ok(
        Some(
            Conditions {
                kind,
                pubkeys,
                num_sigs,
                sig_flag,
                locktime: number_of_tag(tags, Word::Locktime),
                refund_keys,
            },
        ),
    )
}

} // verus!
