//! The mint's signing keys: one key per amount, gathered in keysets.

use vstd::arithmetic::power2::{
    lemma2_to64, lemma2_to64_rest, lemma_pow2_strictly_increases, lemma_pow2_unfold, pow2,
};
use vstd::prelude::*;

use crate::amount::Amount;
use crate::dhke::{
    append_bytes, point_of_secret, public_key_of, sha256, sha256_digest, PublicKey, SecretKey,
};
use crate::error::Error;
use crate::units::CurrencyUnit;

verus! {

/// The key that signs one amount.
#[derive(Clone, Copy)]
pub struct MintKeyPair {
    pub amount: Amount,
    pub secret_key: SecretKey,
    pub public_key: PublicKey,
}

/// The keys of one unit. A keyset that was published is not changed; a new
/// one takes over and the old one stops signing.
#[derive(Clone)]
pub struct MintKeySet {
    pub id: u64,
    pub unit: CurrencyUnit,
    /// Whether the keyset still signs.
    pub active: bool,
    /// The fee per thousand inputs of this keyset.
    pub input_fee_ppk: u64,
    pub keys: Vec<MintKeyPair>,
}

/// The first keyset of `keysets` with the id `id`, where there is one.
pub open spec fn keyset_of(keysets: Seq<MintKeySet>, id: u64) -> Option<MintKeySet>
    decreases keysets.len(),
{
    if keysets.len() == 0 {
        None
    } else if keysets[0].id == id {
        Some(keysets[0])
    } else {
        keyset_of(keysets.drop_first(), id)
    }
}

/// The first key of `keys` for the amount `amount`, where there is one.
pub open spec fn key_for(keys: Seq<MintKeyPair>, amount: Amount) -> Option<MintKeyPair>
    decreases keys.len(),
{
    if keys.len() == 0 {
        None
    } else if keys[0].amount == amount {
        Some(keys[0])
    } else {
        key_for(keys.drop_first(), amount)
    }
}

/// The key that `keysets` hold for the amount `amount` in the keyset `id`.
pub open spec fn signing_key(keysets: Seq<MintKeySet>, id: u64, amount: Amount) -> Option<
    MintKeyPair,
> {
    match keyset_of(keysets, id) {
        Some(keyset) => key_for(keyset.keys@, amount),
        None => None,
    }
}

/// The keysets `keysets` once `new` takes over: those of the unit of `new`
/// no longer sign, and `new` comes last.
pub open spec fn rotated(keysets: Seq<MintKeySet>, new: MintKeySet) -> Seq<MintKeySet> {
    Seq::new(
        keysets.len(),
        |i: int|
            if keysets[i].unit == new.unit {
                MintKeySet { active: false, ..keysets[i] }
            } else {
                keysets[i]
            },
    ).push(new)
}

/// The most keys a keyset can hold: one for each power of two below 2^64.
pub const MAX_ORDER: usize = 64;

/// The public keys of `keys` laid end to end, in order.
pub open spec fn concat_public_keys(keys: Seq<MintKeyPair>) -> Seq<u8>
    decreases keys.len(),
{
    if keys.len() == 0 {
        Seq::empty()
    } else {
        concat_public_keys(keys.drop_last()) + keys.last().public_key.bytes@
    }
}

/// The id that a digest stands for: its first seven bytes, most significant
/// first, under a leading byte of zero for the version.
pub open spec fn id_of_digest(digest: Seq<u8>) -> u64
    recommends
        digest.len() >= 7,
{
    (digest[0] as u64 * 0x1_0000_0000_0000 + digest[1] as u64 * 0x100_0000_0000 + digest[2] as u64
        * 0x1_0000_0000 + digest[3] as u64 * 0x100_0000 + digest[4] as u64 * 0x1_0000
        + digest[5] as u64 * 0x100 + digest[6] as u64) as u64
}

/// The id of the keyset with the keys `keys`: that of the digest of its
/// public keys laid end to end, smallest amount first.
pub open spec fn keyset_id_of(keys: Seq<MintKeyPair>) -> u64 {
    id_of_digest(sha256(concat_public_keys(keys)))
}

/// Whether `keys` are the keys for `secrets`: the key in place `i` signs two
/// to the power of `i` with the secret in place `i`.
pub open spec fn keys_of_secrets(keys: Seq<MintKeyPair>, secrets: Seq<SecretKey>) -> bool {
    &&& keys.len() == secrets.len()
    &&& forall|i: int|
        0 <= i < keys.len() ==> {
            &&& (#[trigger] keys[i]).amount.0 == pow2(i as nat)
            &&& keys[i].secret_key == secrets[i]
            &&& point_of_secret(secrets[i].bytes@) == Some(keys[i].public_key.bytes@)
        }
}

/// The place of the first keyset with the id `id`, where there is one.
pub fn find_keyset(keysets: &Vec<MintKeySet>, id: u64) -> (r: Option<usize>)
    ensures
        match r {
            Some(i) => i < keysets.len() && keyset_of(keysets@, id) == Some(keysets@[i as int]),
            None => keyset_of(keysets@, id) is None,
        },
{
    let mut i: usize = 0;
    assert(keysets@.skip(0) =~= keysets@);
    while i < keysets.len()
        invariant
            0 <= i <= keysets.len(),
            keyset_of(keysets@, id) == keyset_of(keysets@.skip(i as int), id),
        decreases keysets.len() - i,
    {
        proof {
            assert(keysets@.skip(i as int).drop_first() =~= keysets@.skip(i + 1));
        }
        if keysets[i].id == id {
            return Some(i);
        }
        i = i + 1;
    }
    None
}

impl MintKeySet {
    /// The keyset in which the key for two to the power of `i` has the
    /// secret in place `i` of `secrets`. The keyset signs, and its id is
    /// that of its public keys.
    ///
    /// Fails with `AmountKey` where there are more than 64 secrets or one of
    /// them is no secret key.
    pub fn from_secret_keys(
        unit: CurrencyUnit,
        input_fee_ppk: u64,
        secrets: &Vec<SecretKey>,
    ) -> (r: Result<MintKeySet, Error>)
        ensures
            r is Ok <==> secrets@.len() <= MAX_ORDER && forall|i: int|
                0 <= i < secrets@.len() ==> point_of_secret((#[trigger] secrets@[i]).bytes@)
                    is Some,
            r matches Ok(keyset) ==> {
                &&& keyset.unit == unit
                &&& keyset.active
                &&& keyset.input_fee_ppk == input_fee_ppk
                &&& keys_of_secrets(keyset.keys@, secrets@)
                &&& keyset.id == keyset_id_of(keyset.keys@)
            },
            r matches Err(e) ==> e == Error::AmountKey,
    {
        if secrets.len() > MAX_ORDER {
            return Err(Error::AmountKey);
        }
        let mut keys: Vec<MintKeyPair> = Vec::new();
        let mut all_public: Vec<u8> = Vec::new();
        let mut amount: u64 = 1;
        let mut i: usize = 0;
        proof {
            lemma2_to64();
        }
        while i < secrets.len()
            invariant
                0 <= i <= secrets.len() <= MAX_ORDER,
                i < 64 ==> amount == pow2(i as nat),
                keys_of_secrets(keys@, secrets@.take(i as int)),
                all_public@ == concat_public_keys(keys@),
            decreases secrets.len() - i,
        {
            let public_key = match public_key_of(&secrets[i]) {
                Ok(public_key) => public_key,
                Err(e) => {
                    return Err(e);
                },
            };
            let ghost before = keys@;
            keys.push(MintKeyPair { amount: Amount(amount), secret_key: secrets[i], public_key });
            append_bytes(&mut all_public, public_key.bytes.as_slice());
            proof {
                assert(keys@.drop_last() =~= before);
                lemma_pow2_unfold((i + 1) as nat);
                lemma2_to64_rest();
                assert forall|j: int| 0 <= j < keys@.len() implies {
                    &&& (#[trigger] keys@[j]).amount.0 == pow2(j as nat)
                    &&& keys@[j].secret_key == secrets@.take(i + 1)[j]
                    &&& point_of_secret(secrets@.take(i + 1)[j].bytes@) == Some(
                        keys@[j].public_key.bytes@,
                    )
                } by {
                    if j < i {
                        assert(keys@[j] == before[j]);
                        assert(secrets@.take(i as int)[j] == secrets@.take(i + 1)[j]);
                    }
                }
            }
            if i < 63 {
                proof {
                    lemma_pow2_strictly_increases(i as nat, 63);
                }
                amount = amount * 2;
            }
            i = i + 1;
        }
        assert(secrets@.take(i as int) =~= secrets@);
        assert forall|j: int| 0 <= j < secrets@.len() implies point_of_secret(
            (#[trigger] secrets@[j]).bytes@,
        ) is Some by {
            assert(keys@[j].secret_key == secrets@[j]);
        }
        let digest = sha256_digest(&all_public);
        let id: u64 = digest[0] as u64 * 0x1_0000_0000_0000 + digest[1] as u64 * 0x100_0000_0000
            + digest[2] as u64 * 0x1_0000_0000 + digest[3] as u64 * 0x100_0000 + digest[4] as u64
            * 0x1_0000 + digest[5] as u64 * 0x100 + digest[6] as u64;
        Ok(MintKeySet { id, unit, active: true, input_fee_ppk, keys })
    }

    /// The first key for the amount `amount`, where there is one.
    pub fn find_key(&self, amount: Amount) -> (r: Option<MintKeyPair>)
        ensures
            r == key_for(self.keys@, amount),
    {
        let mut i: usize = 0;
        assert(self.keys@.skip(0) =~= self.keys@);
        while i < self.keys.len()
            invariant
                0 <= i <= self.keys.len(),
                key_for(self.keys@, amount) == key_for(self.keys@.skip(i as int), amount),
            decreases self.keys.len() - i,
        {
            proof {
                assert(self.keys@.skip(i as int).drop_first() =~= self.keys@.skip(i + 1));
            }
            if self.keys[i].amount.0 == amount.0 {
                return Some(self.keys[i]);
            }
            i = i + 1;
        }
        None
    }
}

} // verus!
