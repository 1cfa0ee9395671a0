//! The stored blind signatures, keyed by the blinded point that was signed.

use vstd::prelude::*;

use crate::amount::Amount;
use crate::dhke::PublicKey;
use crate::error::{DatabaseError, Error};
use crate::nuts::BlindSignature;

verus! {

/// A stored blind signature.
#[derive(Clone, Copy, Debug, PartialEq, Eq)]
pub struct SignatureRecord {
    /// The blinded point that was signed: the key of the record.
    pub blinded_secret: PublicKey,
    pub signature: BlindSignature,
    /// The quote that the signature was issued for, where there is one.
    pub quote_id: Option<u128>,
}

/// Whether a signature on the blinded point `b` is among `s`.
pub open spec fn is_signed(s: Seq<SignatureRecord>, b: PublicKey) -> bool {
    exists|i: int| 0 <= i < s.len() && (#[trigger] s[i]).blinded_secret == b
}

/// Whether no two records of `s` share a blinded point.
pub open spec fn distinct_secrets(s: Seq<SignatureRecord>) -> bool {
    forall|i: int, j: int|
        0 <= i < j < s.len() ==> (#[trigger] s[i]).blinded_secret != (
        #[trigger] s[j]).blinded_secret
}

/// The signature stored for the blinded point `b`, where there is one.
pub open spec fn signature_of(s: Seq<SignatureRecord>, b: PublicKey) -> Option<BlindSignature> {
    if is_signed(s, b) {
        Some(s[choose|i: int| 0 <= i < s.len() && (#[trigger] s[i]).blinded_secret == b].signature)
    } else {
        None
    }
}

/// The signatures stored for the blinded points `bs`, in order.
pub open spec fn signatures_of(s: Seq<SignatureRecord>, bs: Seq<PublicKey>) -> Seq<
    Option<BlindSignature>,
> {
    Seq::new(bs.len(), |k: int| signature_of(s, bs[k]))
}

/// Whether one of the blinded points `bs` has a signature in `s`.
pub open spec fn any_signed(s: Seq<SignatureRecord>, bs: Seq<PublicKey>) -> bool {
    exists|k: int| 0 <= k < bs.len() && is_signed(s, #[trigger] bs[k])
}

/// The blinded points of `records`, in order.
pub open spec fn record_secrets(records: Seq<SignatureRecord>) -> Seq<PublicKey> {
    Seq::new(records.len(), |k: int| records[k].blinded_secret)
}

/// The sum of the amounts of the signatures in `s`.
pub open spec fn issued_total(s: Seq<SignatureRecord>) -> int
    decreases s.len(),
{
    if s.len() == 0 {
        0
    } else {
        issued_total(s.drop_last()) + s.last().signature.amount.0
    }
}

/// The signatures in `s` that were issued for the quote `quote_id`, in the
/// order in which they were stored.
pub open spec fn signatures_for_quote(s: Seq<SignatureRecord>, quote_id: u128) -> Seq<
    BlindSignature,
>
    decreases s.len(),
{
    if s.len() == 0 {
        Seq::empty()
    } else if s.last().quote_id == Some(quote_id) {
        signatures_for_quote(s.drop_last(), quote_id).push(s.last().signature)
    } else {
        signatures_for_quote(s.drop_last(), quote_id)
    }
}

/// The records in `s` that were stored for the quote `quote_id`, in the
/// order in which they were stored.
pub open spec fn records_for_quote(s: Seq<SignatureRecord>, quote_id: u128) -> Seq<SignatureRecord>
    decreases s.len(),
{
    if s.len() == 0 {
        Seq::empty()
    } else if s.last().quote_id == Some(quote_id) {
        records_for_quote(s.drop_last(), quote_id).push(s.last())
    } else {
        records_for_quote(s.drop_last(), quote_id)
    }
}

/// The signatures of `records`, in order.
pub open spec fn record_signatures(records: Seq<SignatureRecord>) -> Seq<BlindSignature> {
    Seq::new(records.len(), |k: int| records[k].signature)
}

/// Where the blinded points are distinct, the signature of a point is that
/// of any record that holds it.
pub proof fn lemma_signature_at(s: Seq<SignatureRecord>, i: int)
    requires
        distinct_secrets(s),
        0 <= i < s.len(),
    ensures
        is_signed(s, s[i].blinded_secret),
        signature_of(s, s[i].blinded_secret) == Some(s[i].signature),
{
    let b = s[i].blinded_secret;
    assert(is_signed(s, b));
    let j = choose|j: int| 0 <= j < s.len() && (#[trigger] s[j]).blinded_secret == b;
    if j < i {
        assert(s[j].blinded_secret != s[i].blinded_secret);
    }
    if i < j {
        assert(s[i].blinded_secret != s[j].blinded_secret);
    }
}

/// The total issued grows by the sum of what is appended.
pub proof fn lemma_issued_concat(s: Seq<SignatureRecord>, t: Seq<SignatureRecord>)
    ensures
        issued_total(s + t) == issued_total(s) + issued_total(t),
    decreases t.len(),
{
    if t.len() == 0 {
        assert(s + t =~= s);
    } else {
        lemma_issued_concat(s, t.drop_last());
        assert((s + t).drop_last() =~= s + t.drop_last());
    }
}

/// The total issued is never negative.
pub proof fn lemma_issued_nonnegative(s: Seq<SignatureRecord>)
    ensures
        0 <= issued_total(s),
    decreases s.len(),
{
    if s.len() > 0 {
        lemma_issued_nonnegative(s.drop_last());
    }
}

/// The blind signatures of the store: each blinded point at most once.
pub struct SignatureTable {
    records: Vec<SignatureRecord>,
}

impl View for SignatureTable {
    type V = Seq<SignatureRecord>;

    closed spec fn view(&self) -> Seq<SignatureRecord> {
        self.records@
    }
}

impl SignatureTable {
    /// Whether no blinded point is stored twice.
    pub open spec fn wf(&self) -> bool {
        distinct_secrets(self@)
    }

    /// A table without signatures.
    pub fn new() -> (r: SignatureTable)
        ensures
            r.wf(),
            r@ == Seq::<SignatureRecord>::empty(),
    {
        SignatureTable { records: Vec::new() }
    }

    /// The place of the signature on the blinded point `b`, where one is
    /// stored.
    pub fn find(&self, b: &PublicKey) -> (r: Option<usize>)
        ensures
            match r {
                Some(i) => i < self@.len() && self@[i as int].blinded_secret == *b,
                None => !is_signed(self@, *b),
            },
    {
        let mut i: usize = 0;
        while i < self.records.len()
            invariant
                0 <= i <= self.records.len(),
                forall|j: int| 0 <= j < i ==> (#[trigger] self.records@[j]).blinded_secret != *b,
            decreases self.records.len() - i,
        {
            if self.records[i].blinded_secret.same(b) {
                return Some(i);
            }
            i = i + 1;
        }
        None
    }

    /// The signatures stored for the blinded points `bs`, in order, nothing
    /// for a point that was never signed.
    pub fn get_blind_signatures(&self, bs: &Vec<PublicKey>) -> (r: Vec<Option<BlindSignature>>)
        requires
            self.wf(),
        ensures
            r@ == signatures_of(self@, bs@),
    {
        let mut found: Vec<Option<BlindSignature>> = Vec::new();
        let mut k: usize = 0;
        while k < bs.len()
            invariant
                0 <= k <= bs.len(),
                self.wf(),
                found@ == signatures_of(self@, bs@.take(k as int)),
            decreases bs.len() - k,
        {
            match self.find(&bs[k]) {
                Some(i) => {
                    proof {
                        lemma_signature_at(self@, i as int);
                    }
                    found.push(Some(self.records[i].signature));
                },
                None => {
                    found.push(None);
                },
            }
            k = k + 1;
            assert(found@ =~= signatures_of(self@, bs@.take(k as int)));
        }
        assert(bs@.take(k as int) =~= bs@);
        found
    }

    /// Whether one of the blinded points `bs` was signed before.
    pub fn any_signed(&self, bs: &Vec<PublicKey>) -> (r: bool)
        ensures
            r == any_signed(self@, bs@),
    {
        let mut k: usize = 0;
        while k < bs.len()
            invariant
                0 <= k <= bs.len(),
                forall|j: int| 0 <= j < k ==> !is_signed(self@, #[trigger] bs@[j]),
            decreases bs.len() - k,
        {
            if self.find(&bs[k]).is_some() {
                return true;
            }
            k = k + 1;
        }
        false
    }

    /// The signatures that were issued for the quote `quote_id`, in the
    /// order in which they were stored.
    pub fn get_blind_signatures_for_quote(&self, quote_id: u128) -> (r: Vec<BlindSignature>)
        ensures
            r@ == signatures_for_quote(self@, quote_id),
    {
        let mut found: Vec<BlindSignature> = Vec::new();
        let mut i: usize = 0;
        while i < self.records.len()
            invariant
                0 <= i <= self.records.len(),
                found@ == signatures_for_quote(self@.take(i as int), quote_id),
            decreases self.records.len() - i,
        {
            let record = self.records[i];
            proof {
                assert(self@.take(i + 1).drop_last() =~= self@.take(i as int));
            }
            match record.quote_id {
                Some(id) => {
                    if id == quote_id {
                        found.push(record.signature);
                    }
                },
                None => {},
            }
            i = i + 1;
        }
        assert(self@.take(i as int) =~= self@);
        found
    }

    /// The sum of the amounts of the signatures, or `AmountOverflow` where
    /// it does not fit in 64 bits.
    pub fn total_issued(&self) -> (r: Result<Amount, Error>)
        ensures
            0 <= issued_total(self@),
            r == if issued_total(self@) <= u64::MAX {
                Ok::<Amount, Error>(Amount(issued_total(self@) as u64))
            } else {
                Err(Error::AmountOverflow)
            },
    {
        let mut total: u64 = 0;
        let mut overflow = false;
        let mut i: usize = 0;
        while i < self.records.len()
            invariant
                0 <= i <= self.records.len(),
                0 <= issued_total(self@.take(i as int)),
                !overflow ==> total == issued_total(self@.take(i as int)),
                overflow ==> issued_total(self@.take(i as int)) > u64::MAX,
            decreases self.records.len() - i,
        {
            proof {
                assert(self@.take(i + 1).drop_last() =~= self@.take(i as int));
            }
            let amount = self.records[i].signature.amount.0;
            if overflow || amount > u64::MAX - total {
                overflow = true;
            } else {
                total = total + amount;
            }
            i = i + 1;
        }
        assert(self@.take(i as int) =~= self@);
        if overflow {
            Err(Error::AmountOverflow)
        } else {
            Ok(Amount(total))
        }
    }

    /// The records that were stored for the quote `quote_id`, in the order
    /// in which they were stored.
    pub fn get_records_for_quote(&self, quote_id: u128) -> (r: Vec<SignatureRecord>)
        ensures
            r@ == records_for_quote(self@, quote_id),
    {
        let mut found: Vec<SignatureRecord> = Vec::new();
        let mut i: usize = 0;
        while i < self.records.len()
            invariant
                0 <= i <= self.records.len(),
                found@ == records_for_quote(self@.take(i as int), quote_id),
            decreases self.records.len() - i,
        {
            let record = self.records[i];
            proof {
                assert(self@.take(i + 1).drop_last() =~= self@.take(i as int));
            }
            match record.quote_id {
                Some(id) => {
                    if id == quote_id {
                        found.push(record);
                    }
                },
                None => {},
            }
            i = i + 1;
        }
        assert(self@.take(i as int) =~= self@);
        found
    }

    /// Stores `records`, all or none. Nothing is stored, and the error is
    /// `DuplicateSignature`, where one of their blinded points was signed
    /// before or occurs twice among them.
    pub fn add_blind_signatures(&mut self, records: &Vec<SignatureRecord>) -> (r: Result<
        (),
        DatabaseError,
    >)
        requires
            old(self).wf(),
        ensures
            final(self).wf(),
            r is Ok <==> record_secrets(records@).no_duplicates() && !any_signed(
                old(self)@,
                record_secrets(records@),
            ),
            r is Ok ==> final(self)@ == old(self)@ + records@,
            r is Ok ==> issued_total(final(self)@) == issued_total(old(self)@) + issued_total(
                records@,
            ),
            r matches Err(e) ==> final(self)@ == old(self)@ && e == DatabaseError::DuplicateSignature,
    {
        let ghost bs = record_secrets(records@);
        let mut k: usize = 0;
        while k < records.len()
            invariant
                0 <= k <= records.len(),
                self@ == old(self)@,
                self.wf(),
                bs == record_secrets(records@),
                bs.take(k as int).no_duplicates(),
                forall|j: int| 0 <= j < k ==> !is_signed(self@, #[trigger] bs[j]),
            decreases records.len() - k,
        {
            let b = records[k].blinded_secret;
            assert(bs[k as int] == b);
            if self.find(&b).is_some() {
                return Err(DatabaseError::DuplicateSignature);
            }
            let mut j: usize = 0;
            while j < k
                invariant
                    0 <= j <= k < records.len(),
                    self@ == old(self)@,
                    self.wf(),
                    bs == record_secrets(records@),
                    b == bs[k as int],
                    forall|m: int| 0 <= m < j ==> bs[m] != b,
                decreases k - j,
            {
                if records[j].blinded_secret.same(&b) {
                    assert(bs[j as int] == bs[k as int]);
                    return Err(DatabaseError::DuplicateSignature);
                }
                j = j + 1;
            }
            k = k + 1;
        }
        assert(bs.take(k as int) =~= bs);
        let mut k: usize = 0;
        while k < records.len()
            invariant
                0 <= k <= records.len(),
                self@ == old(self)@ + records@.take(k as int),
            decreases records.len() - k,
        {
            self.records.push(records[k]);
            k = k + 1;
            assert(self@ =~= old(self)@ + records@.take(k as int));
        }
        proof {
            assert(records@.take(k as int) =~= records@);
            lemma_issued_concat(old(self)@, records@);
            assert forall|i: int, j: int| 0 <= i < j < self@.len() implies (
            #[trigger] self@[i]).blinded_secret != (#[trigger] self@[j]).blinded_secret by {
                let n = old(self)@.len();
                if j < n {
                } else if i < n {
                    assert(bs[j - n] == self@[j].blinded_secret);
                    assert(!is_signed(old(self)@, bs[j - n]));
                    assert(old(self)@[i].blinded_secret != bs[j - n]);
                } else {
                    assert(bs[i - n] == self@[i].blinded_secret);
                    assert(bs[j - n] == self@[j].blinded_secret);
                }
            }
        }
        Ok(())
    }
}

} // verus!
