//! The mint: its keys, its store and the log of what it tells subscribers.

use vstd::prelude::*;

use crate::amount::Amount;
use crate::database::MintMemoryDatabase;
use crate::database::proofs::{
    any_pending, any_spent, moved, spent_stays, spent_total, state_of, ProofRecord,
};
use crate::database::signatures::{issued_total, SignatureRecord};
use crate::dhke::PublicKey;
use crate::error::{DatabaseError, Error};
use crate::keyset::{find_keyset, keyset_of, rotated, MintKeySet};
use crate::nuts::{MeltQuote, MintInfo, MintQuote, QuoteTTL, State};
use crate::pubsub::{NotificationPayload, PubSubManager};

pub mod change;
pub mod issue;
pub mod melt;
pub mod melt_quote;
pub mod start_up_check;
pub mod swap;

verus! {

/// A mint.
pub struct Mint {
    /// The keysets the mint signs and verifies with.
    pub keysets: Vec<MintKeySet>,
    /// Everything of value that the mint remembers.
    pub localstore: MintMemoryDatabase,
    /// What subscribers have yet to be told.
    pub pubsub_manager: PubSubManager,
}

/// What a mint holds, as plain values.
pub struct MintView {
    pub keysets: Seq<MintKeySet>,
    pub mint_info: MintInfo,
    pub quote_ttl: QuoteTTL,
    /// The stored proofs, oldest first.
    pub proofs: Seq<ProofRecord>,
    /// The stored blind signatures, oldest first.
    pub blind_signatures: Seq<SignatureRecord>,
    /// The mint quotes, oldest first.
    pub mint_quotes: Seq<MintQuote>,
    /// The melt quotes, oldest first.
    pub melt_quotes: Seq<MeltQuote>,
    /// What subscribers have yet to be told, oldest first.
    pub notifications: Seq<NotificationPayload>,
}

impl View for Mint {
    type V = MintView;

    open spec fn view(&self) -> MintView {
        MintView {
            keysets: self.keysets@,
            mint_info: self.localstore.mint_info,
            quote_ttl: self.localstore.quote_ttl,
            proofs: self.localstore.proofs@,
            blind_signatures: self.localstore.blind_signatures@,
            mint_quotes: self.localstore.mint_quotes@,
            melt_quotes: self.localstore.melt_quotes@,
            notifications: self.pubsub_manager@,
        }
    }
}

impl Mint {
    /// Whether the store of the mint is well formed.
    pub open spec fn wf(&self) -> bool {
        self.localstore.wf()
    }

    /// A mint with the given keysets and settings, an empty store and
    /// nothing to tell.
    pub fn new(keysets: Vec<MintKeySet>, mint_info: MintInfo, quote_ttl: QuoteTTL) -> (r: Mint)
        ensures
            r.wf(),
            r@ == (MintView {
                keysets: keysets@,
                mint_info,
                quote_ttl,
                proofs: Seq::empty(),
                blind_signatures: Seq::empty(),
                mint_quotes: Seq::empty(),
                melt_quotes: Seq::empty(),
                notifications: Seq::empty(),
            }),
    {
        let r = Mint {
            keysets,
            localstore: MintMemoryDatabase::new(mint_info, quote_ttl),
            pubsub_manager: PubSubManager::new(),
        };
        assert(r@.proofs =~= Seq::empty());
        assert(r@.blind_signatures =~= Seq::empty());
        assert(r@.mint_quotes =~= Seq::empty());
        assert(r@.melt_quotes =~= Seq::empty());
        r
    }

    /// The sum of all signatures the mint has issued, or `AmountOverflow`
    /// where it does not fit in 64 bits.
    pub fn total_issued(&self) -> (r: Result<Amount, Error>)
        ensures
            r == if issued_total(self@.blind_signatures) <= u64::MAX {
                Ok::<Amount, Error>(Amount(issued_total(self@.blind_signatures) as u64))
            } else {
                Err(Error::AmountOverflow)
            },
    {
        self.localstore.blind_signatures.total_issued()
    }

    /// The sum of all proofs the mint has burnt, or `AmountOverflow` where
    /// it does not fit in 64 bits.
    pub fn total_redeemed(&self) -> (r: Result<Amount, Error>)
        ensures
            r == if spent_total(self@.proofs) <= u64::MAX {
                Ok::<Amount, Error>(Amount(spent_total(self@.proofs) as u64))
            } else {
                Err(Error::AmountOverflow)
            },
    {
        self.localstore.proofs.total_spent()
    }

    /// Lets `keyset` take over its unit: the keysets of that unit stop
    /// signing, though proofs they signed are still good, and `keyset` is
    /// added. Nothing is changed, and the error is `Duplicate`, where the
    /// mint has a keyset with the same id.
    pub fn rotate_keyset(&mut self, keyset: MintKeySet) -> (r: Result<(), Error>)
        requires
            old(self).wf(),
        ensures
            final(self).wf(),
            match keyset_of(old(self)@.keysets, keyset.id) {
                Some(_) => r == Err::<(), Error>(Error::Database(DatabaseError::Duplicate))
                    && final(self)@ == old(self)@,
                None => r is Ok && final(self)@ == (MintView {
                    keysets: rotated(old(self)@.keysets, keyset),
                    ..old(self)@
                }),
            },
    {
        if find_keyset(&self.keysets, keyset.id).is_some() {
            return Err(Error::Database(DatabaseError::Duplicate));
        }
        let mut i: usize = 0;
        while i < self.keysets.len()
            invariant
                0 <= i <= self.keysets.len(),
                self.wf(),
                self@ == (MintView { keysets: self@.keysets, ..old(self)@ }),
                self@.keysets.len() == old(self)@.keysets.len(),
                forall|j: int|
                    0 <= j < i ==> self@.keysets[j] == rotated(old(self)@.keysets, keyset)[j],
                forall|j: int| i <= j < self@.keysets.len() ==> self@.keysets[j] == old(
                    self,
                )@.keysets[j],
            decreases self.keysets.len() - i,
        {
            if self.keysets[i].unit == keyset.unit {
                self.keysets[i].active = false;
            }
            i = i + 1;
        }
        self.keysets.push(keyset);
        assert(self@.keysets =~= rotated(old(self)@.keysets, keyset));
        Ok(())
    }

    /// Moves the stored proofs among `ys` to `proof_state` where all of
    /// them can be spent: none is spent and none is in flight already.
    /// Fails with `TokenAlreadySpent` where one is spent, else with
    /// `TokenPending` where one is pending, and then changes nothing.
    pub fn check_ys_spendable(&mut self, ys: &Vec<PublicKey>, proof_state: State) -> (r: Result<
        (),
        Error,
    >)
        requires
            old(self).wf(),
        ensures
            final(self).wf(),
            spent_stays(old(self)@.proofs, final(self)@.proofs),
            r == if any_spent(old(self)@.proofs, ys@) {
                Err::<(), Error>(Error::TokenAlreadySpent)
            } else if any_pending(old(self)@.proofs, ys@) {
                Err(Error::TokenPending)
            } else {
                Ok(())
            },
            final(self)@ == if r is Ok {
                MintView { proofs: moved(old(self)@.proofs, ys@, proof_state), ..old(self)@ }
            } else {
                old(self)@
            },
            proof_state != State::Spent ==> spent_total(final(self)@.proofs) == spent_total(
                old(self)@.proofs,
            ),
    {
        let mut pending = false;
        let mut k: usize = 0;
        while k < ys.len()
            invariant
                0 <= k <= ys.len(),
                self.wf(),
                self@ == old(self)@,
                forall|j: int|
                    0 <= j < k ==> state_of(self@.proofs, #[trigger] ys@[j]) != Some(State::Spent),
                pending <==> exists|j: int|
                    0 <= j < k && state_of(self@.proofs, #[trigger] ys@[j]) == Some(
                        State::Pending,
                    ),
            decreases ys.len() - k,
        {
            match self.localstore.proofs.get_state(&ys[k]) {
                Some(State::Spent) => {
                    return Err(Error::TokenAlreadySpent);
                },
                Some(State::Pending) => {
                    pending = true;
                },
                _ => {},
            }
            k = k + 1;
        }
        if pending {
            return Err(Error::TokenPending);
        }
        match self.localstore.proofs.update_proofs_states(ys, proof_state) {
            Ok(_) => Ok(()),
            Err(_) => Err(Error::TokenAlreadySpent),
        }
    }
}

} // verus!
