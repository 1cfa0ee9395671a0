//! The stored proofs, keyed by the point their secret hashes to.

use vstd::prelude::*;

use crate::amount::{lemma_sum_push, sum_amounts, Amount};
use crate::dhke::PublicKey;
use crate::error::{DatabaseError, Error};
use crate::nuts::State;

verus! {

/// What the store is told of a proof that enters it.
#[derive(Clone, Copy, Debug, PartialEq, Eq)]
pub struct ProofInfo {
    /// The point that the proof's secret hashes to.
    pub y: PublicKey,
    pub amount: Amount,
    pub keyset_id: u64,
}

/// A stored proof.
#[derive(Clone, Copy, Debug, PartialEq, Eq)]
pub struct ProofRecord {
    /// The point that the proof's secret hashes to: the key of the record.
    pub y: PublicKey,
    pub amount: Amount,
    pub keyset_id: u64,
    pub state: State,
    /// The melt quote that the proof is an input of, where it is one.
    pub quote_id: Option<u128>,
}

/// Whether a proof with the point `y` is among `s`.
pub open spec fn has_y(s: Seq<ProofRecord>, y: PublicKey) -> bool {
    exists|i: int| 0 <= i < s.len() && (#[trigger] s[i]).y == y
}

/// Whether no two records of `s` share a point.
pub open spec fn distinct_ys(s: Seq<ProofRecord>) -> bool {
    forall|i: int, j: int| 0 <= i < j < s.len() ==> (#[trigger] s[i]).y != (#[trigger] s[j]).y
}

/// The place of a record with the point `y` in `s`.
pub open spec fn index_of_y(s: Seq<ProofRecord>, y: PublicKey) -> int {
    choose|i: int| 0 <= i < s.len() && (#[trigger] s[i]).y == y
}

/// The state of the proof with the point `y`, where one is stored.
pub open spec fn state_of(s: Seq<ProofRecord>, y: PublicKey) -> Option<State> {
    if has_y(s, y) {
        Some(s[index_of_y(s, y)].state)
    } else {
        None
    }
}

/// The amount stored for the point `y`, zero where none is stored.
pub open spec fn amount_of(s: Seq<ProofRecord>, y: PublicKey) -> Amount {
    if has_y(s, y) {
        s[index_of_y(s, y)].amount
    } else {
        Amount(0)
    }
}

/// The amounts stored for the points `ys`, in order.
pub open spec fn stored_amounts(s: Seq<ProofRecord>, ys: Seq<PublicKey>) -> Seq<Amount> {
    Seq::new(ys.len(), |k: int| amount_of(s, ys[k]))
}

/// What a record adds to the total of the spent proofs.
pub open spec fn spent_amount(r: ProofRecord) -> int {
    if r.state == State::Spent {
        r.amount.0 as int
    } else {
        0
    }
}

/// The sum of the amounts of the spent proofs among `s`.
pub open spec fn spent_total(s: Seq<ProofRecord>) -> int
    decreases s.len(),
{
    if s.len() == 0 {
        0
    } else {
        spent_total(s.drop_last()) + spent_amount(s.last())
    }
}

/// The record that `info` enters the store as.
pub open spec fn new_record(info: ProofInfo, quote_id: Option<u128>) -> ProofRecord {
    ProofRecord {
        y: info.y,
        amount: info.amount,
        keyset_id: info.keyset_id,
        state: State::Unspent,
        quote_id,
    }
}

/// The records that `infos` enter the store as.
pub open spec fn new_records(infos: Seq<ProofInfo>, quote_id: Option<u128>) -> Seq<ProofRecord> {
    Seq::new(infos.len(), |k: int| new_record(infos[k], quote_id))
}

/// The points of `infos`, in order.
pub open spec fn info_ys(infos: Seq<ProofInfo>) -> Seq<PublicKey> {
    Seq::new(infos.len(), |k: int| infos[k].y)
}

/// The record `r` in the state `state`.
pub open spec fn with_state(r: ProofRecord, state: State) -> ProofRecord {
    ProofRecord { y: r.y, amount: r.amount, keyset_id: r.keyset_id, state, quote_id: r.quote_id }
}

/// Whether `remove_proofs` takes the record `r` out for the points `ys` and
/// the quote `quote_id`: it is one of the points, it is in flight or set
/// aside, and it is bound to that quote.
pub open spec fn removable(r: ProofRecord, ys: Seq<PublicKey>, quote_id: Option<u128>) -> bool {
    &&& ys.contains(r.y)
    &&& (r.state == State::Pending || r.state == State::Reserved)
    &&& r.quote_id == quote_id
}

/// The points of the proofs among `s` that are in flight for the quote
/// `quote_id`, oldest first.
pub open spec fn pending_ys(s: Seq<ProofRecord>, quote_id: u128) -> Seq<PublicKey>
    decreases s.len(),
{
    if s.len() == 0 {
        Seq::empty()
    } else if s.last().state == State::Pending && s.last().quote_id == Some(quote_id) {
        pending_ys(s.drop_last(), quote_id).push(s.last().y)
    } else {
        pending_ys(s.drop_last(), quote_id)
    }
}

/// The points in flight for a quote are stored, pending, and each occurs
/// once.
pub proof fn lemma_pending_ys(s: Seq<ProofRecord>, quote_id: u128)
    requires
        distinct_ys(s),
    ensures
        pending_ys(s, quote_id).no_duplicates(),
        forall|k: int|
            0 <= k < pending_ys(s, quote_id).len() ==> has_y(
                s,
                #[trigger] pending_ys(s, quote_id)[k],
            ) && state_of(s, pending_ys(s, quote_id)[k]) == Some(State::Pending),
        !any_spent(s, pending_ys(s, quote_id)),
    decreases s.len(),
{
    let ys = pending_ys(s, quote_id);
    if s.len() > 0 {
        let front = s.drop_last();
        let last = s.last();
        assert(distinct_ys(front)) by {
            assert forall|i: int, j: int| 0 <= i < j < front.len() implies (#[trigger] front[i]).y
                != (#[trigger] front[j]).y by {
                assert(s[i].y != s[j].y);
            }
        }
        lemma_pending_ys(front, quote_id);
        let sub = pending_ys(front, quote_id);
        assert forall|k: int| 0 <= k < sub.len() implies has_y(s, #[trigger] sub[k]) && state_of(
            s,
            sub[k],
        ) == Some(State::Pending) && sub[k] != last.y by {
            let i = index_of_y(front, sub[k]);
            assert(0 <= i < front.len() && front[i].y == sub[k]);
            lemma_state_at(front, i);
            assert(s[i] == front[i]);
            lemma_state_at(s, i);
            assert(s[i].y != s[s.len() - 1].y);
        }
        if last.state == State::Pending && last.quote_id == Some(quote_id) {
            lemma_state_at(s, s.len() - 1);
            assert forall|k: int| 0 <= k < ys.len() implies has_y(s, #[trigger] ys[k]) && state_of(
                s,
                ys[k],
            ) == Some(State::Pending) by {
                if k < sub.len() {
                    assert(ys[k] == sub[k]);
                }
            }
            assert forall|a: int, b: int|
                0 <= a < ys.len() && 0 <= b < ys.len() && a != b implies ys[a] != ys[b] by {
                if a < sub.len() && b < sub.len() {
                    assert(ys[a] == sub[a] && ys[b] == sub[b]);
                } else if a < sub.len() {
                    assert(ys[a] == sub[a]);
                } else {
                    assert(ys[b] == sub[b]);
                }
            }
        }
    }
}

/// Whether every proof that is spent in `before` is spent in `after`.
pub open spec fn spent_stays(before: Seq<ProofRecord>, after: Seq<ProofRecord>) -> bool {
    forall|y: PublicKey| #[trigger]
        state_of(before, y) == Some(State::Spent) ==> state_of(after, y) == Some(State::Spent)
}

/// Every proof that is spent stays spent where each spent record is kept as
/// it is.
pub proof fn lemma_spent_stays(before: Seq<ProofRecord>, after: Seq<ProofRecord>)
    requires
        distinct_ys(before),
        distinct_ys(after),
        forall|i: int|
            0 <= i < before.len() && (#[trigger] before[i]).state == State::Spent
                ==> after.contains(before[i]),
    ensures
        spent_stays(before, after),
{
    assert forall|y: PublicKey| #[trigger]
        state_of(before, y) == Some(State::Spent) implies state_of(after, y) == Some(
        State::Spent,
    ) by {
        let i = index_of_y(before, y);
        assert(0 <= i < before.len() && before[i].y == y);
        lemma_state_at(before, i);
        assert(after.contains(before[i]));
        let j = choose|j: int| 0 <= j < after.len() && after[j] == before[i];
        lemma_state_at(after, j);
    }
}

/// What is spent stays spent over two changes where it does over each.
pub proof fn lemma_spent_stays_trans(
    first: Seq<ProofRecord>,
    second: Seq<ProofRecord>,
    third: Seq<ProofRecord>,
)
    requires
        spent_stays(first, second),
        spent_stays(second, third),
    ensures
        spent_stays(first, third),
{
}

/// Where the points are distinct, a point's state is that of any record
/// that holds it.
pub proof fn lemma_state_at(s: Seq<ProofRecord>, i: int)
    requires
        distinct_ys(s),
        0 <= i < s.len(),
    ensures
        has_y(s, s[i].y),
        index_of_y(s, s[i].y) == i,
        state_of(s, s[i].y) == Some(s[i].state),
        amount_of(s, s[i].y) == s[i].amount,
{
    assert(has_y(s, s[i].y));
    let j = index_of_y(s, s[i].y);
    assert(0 <= j < s.len() && s[j].y == s[i].y);
    if j < i {
        assert(s[j].y != s[i].y);
    }
    if i < j {
        assert(s[i].y != s[j].y);
    }
}

/// Appending a record adds what it counts for to the total of the spent.
pub proof fn lemma_spent_push(s: Seq<ProofRecord>, r: ProofRecord)
    ensures
        spent_total(s.push(r)) == spent_total(s) + spent_amount(r),
{
    assert(s.push(r).drop_last() =~= s);
}

/// Replacing a record changes the total of the spent by the difference of
/// what the two records count for.
pub proof fn lemma_spent_update(s: Seq<ProofRecord>, i: int, r: ProofRecord)
    requires
        0 <= i < s.len(),
    ensures
        spent_total(s.update(i, r)) == spent_total(s) - spent_amount(s[i]) + spent_amount(r),
    decreases s.len(),
{
    if i == s.len() - 1 {
        assert(s.update(i, r).drop_last() =~= s.drop_last());
    } else {
        lemma_spent_update(s.drop_last(), i, r);
        assert(s.update(i, r).drop_last() =~= s.drop_last().update(i, r));
    }
}

/// Records that are not spent add nothing to the total of the spent.
pub proof fn lemma_spent_concat_unspent(s: Seq<ProofRecord>, t: Seq<ProofRecord>)
    requires
        forall|k: int| 0 <= k < t.len() ==> (#[trigger] t[k]).state != State::Spent,
    ensures
        spent_total(s + t) == spent_total(s),
    decreases t.len(),
{
    if t.len() == 0 {
        assert(s + t =~= s);
    } else {
        lemma_spent_concat_unspent(s, t.drop_last());
        assert((s + t).drop_last() =~= s + t.drop_last());
    }
}

/// The proofs of the store: each point at most once.
pub struct ProofTable {
    records: Vec<ProofRecord>,
}

impl View for ProofTable {
    type V = Seq<ProofRecord>;

    closed spec fn view(&self) -> Seq<ProofRecord> {
        self.records@
    }
}

impl ProofTable {
    /// Whether no point is stored twice.
    pub open spec fn wf(&self) -> bool {
        distinct_ys(self@)
    }

    /// A table without proofs.
    pub fn new() -> (r: ProofTable)
        ensures
            r.wf(),
            r@ == Seq::<ProofRecord>::empty(),
    {
        ProofTable { records: Vec::new() }
    }

    /// The place of the record with the point `y`, where one is stored.
    pub fn find(&self, y: &PublicKey) -> (r: Option<usize>)
        ensures
            match r {
                Some(i) => i < self@.len() && self@[i as int].y == *y,
                None => !has_y(self@, *y),
            },
    {
        let mut i: usize = 0;
        while i < self.records.len()
            invariant
                0 <= i <= self.records.len(),
                forall|j: int| 0 <= j < i ==> (#[trigger] self.records@[j]).y != *y,
            decreases self.records.len() - i,
        {
            if self.records[i].y.same(y) {
                return Some(i);
            }
            i = i + 1;
        }
        None
    }

    /// The state of the proof with the point `y`, where one is stored.
    pub fn get_state(&self, y: &PublicKey) -> (r: Option<State>)
        requires
            self.wf(),
        ensures
            r == state_of(self@, *y),
    {
        match self.find(y) {
            Some(i) => {
                proof {
                    lemma_state_at(self@, i as int);
                }
                Some(self.records[i].state)
            },
            None => None,
        }
    }

    /// The record of the proof with the point `y`, where one is stored.
    pub fn get(&self, y: &PublicKey) -> (r: Option<ProofRecord>)
        requires
            self.wf(),
        ensures
            match r {
                Some(record) => has_y(self@, *y) && record == self@[index_of_y(self@, *y)],
                None => !has_y(self@, *y),
            },
    {
        match self.find(y) {
            Some(i) => {
                proof {
                    lemma_state_at(self@, i as int);
                }
                Some(self.records[i])
            },
            None => None,
        }
    }

    /// The points of the proofs that are in flight for the quote
    /// `quote_id`, oldest first.
    pub fn get_pending_ys(&self, quote_id: u128) -> (r: Vec<PublicKey>)
        ensures
            r@ == pending_ys(self@, quote_id),
    {
        let mut found: Vec<PublicKey> = Vec::new();
        let mut i: usize = 0;
        while i < self.records.len()
            invariant
                0 <= i <= self.records.len(),
                found@ == pending_ys(self@.take(i as int), quote_id),
            decreases self.records.len() - i,
        {
            let record = self.records[i];
            proof {
                assert(self@.take(i + 1).drop_last() =~= self@.take(i as int));
            }
            let pending = match record.state {
                State::Pending => true,
                _ => false,
            };
            let bound = match record.quote_id {
                Some(id) => id == quote_id,
                None => false,
            };
            if pending && bound {
                found.push(record.y);
            }
            i = i + 1;
        }
        assert(self@.take(i as int) =~= self@);
        found
    }

    /// The sum of the amounts of the spent proofs, or `AmountOverflow` where
    /// it does not fit in 64 bits.
    pub fn total_spent(&self) -> (r: Result<Amount, Error>)
        ensures
            0 <= spent_total(self@),
            r == if spent_total(self@) <= u64::MAX {
                Ok::<Amount, Error>(Amount(spent_total(self@) as u64))
            } else {
                Err(Error::AmountOverflow)
            },
    {
        let mut total: u64 = 0;
        let mut overflow = false;
        let mut i: usize = 0;
        while i < self.records.len()
            invariant
                0 <= i <= self.records.len(),
                0 <= spent_total(self@.take(i as int)),
                !overflow ==> total == spent_total(self@.take(i as int)),
                overflow ==> spent_total(self@.take(i as int)) > u64::MAX,
            decreases self.records.len() - i,
        {
            proof {
                assert(self@.take(i + 1).drop_last() =~= self@.take(i as int));
            }
            let record = self.records[i];
            match record.state {
                State::Spent => {
                    if overflow || record.amount.0 > u64::MAX - total {
                        overflow = true;
                    } else {
                        total = total + record.amount.0;
                    }
                },
                _ => {},
            }
            i = i + 1;
        }
        assert(self@.take(i as int) =~= self@);
        if overflow {
            Err(Error::AmountOverflow)
        } else {
            Ok(Amount(total))
        }
    }

    /// How many proofs are stored.
    pub fn len(&self) -> (n: usize)
        ensures
            n == self@.len(),
    {
        self.records.len()
    }

    /// Stores `infos` as unspent proofs bound to `quote_id`, all or none.
    /// Nothing is stored where a point of `infos` is stored already or
    /// occurs twice in `infos`: the error is `AttemptUpdateSpentProof` where
    /// one of the points is stored as spent, and `Duplicate` otherwise.
    pub fn add_proofs(&mut self, infos: &Vec<ProofInfo>, quote_id: Option<u128>) -> (r: Result<
        (),
        DatabaseError,
    >)
        requires
            old(self).wf(),
        ensures
            final(self).wf(),
            r is Ok <==> addable(old(self)@, info_ys(infos@)),
            r is Ok ==> final(self)@ == old(self)@ + new_records(infos@, quote_id),
            r is Ok ==> spent_total(final(self)@) == spent_total(old(self)@),
            spent_stays(old(self)@, final(self)@),
            r matches Err(e) ==> final(self)@ == old(self)@ && e == if any_spent(
                old(self)@,
                info_ys(infos@),
            ) {
                DatabaseError::AttemptUpdateSpentProof
            } else {
                DatabaseError::Duplicate
            },
    {
        let ghost ys = info_ys(infos@);
        let mut spent_found = false;
        let mut clash_found = false;
        let mut k: usize = 0;
        while k < infos.len()
            invariant
                0 <= k <= infos.len(),
                self.wf(),
                self@ == old(self)@,
                ys == info_ys(infos@),
                spent_found <==> any_spent(self@, ys.take(k as int)),
                clash_found <==> !addable(self@, ys.take(k as int)),
            decreases infos.len() - k,
        {
            let y = infos[k].y;
            let ghost before = ys.take(k as int);
            let ghost after = ys.take(k + 1);
            assert(after =~= before.push(y));
            let mut stored = false;
            let mut stored_spent = false;
            match self.get_state(&y) {
                Some(state) => {
                    stored = true;
                    stored_spent = state == State::Spent;
                },
                None => {},
            }
            let repeated = contains_key_before(infos, k, &y);
            proof {
                assert(before.contains(y) == repeated) by {
                    if repeated {
                        let j = choose|j: int| 0 <= j < k && (#[trigger] infos@[j]).y == y;
                        assert(before[j] == y);
                    }
                    if before.contains(y) {
                        let j = choose|j: int| 0 <= j < before.len() && before[j] == y;
                        assert(infos@[j].y == y);
                    }
                }
                lemma_any_spent_push(self@, before, y);
                lemma_addable_push(self@, before, y);
            }
            if stored_spent {
                spent_found = true;
            }
            if stored || repeated {
                clash_found = true;
            }
            k = k + 1;
        }
        assert(ys.take(k as int) =~= ys);
        if spent_found {
            return Err(DatabaseError::AttemptUpdateSpentProof);
        }
        if clash_found {
            return Err(DatabaseError::Duplicate);
        }
        let mut k: usize = 0;
        while k < infos.len()
            invariant
                0 <= k <= infos.len(),
                self@ == old(self)@ + new_records(infos@, quote_id).take(k as int),
            decreases infos.len() - k,
        {
            let info = infos[k];
            self.records.push(
                ProofRecord {
                    y: info.y,
                    amount: info.amount,
                    keyset_id: info.keyset_id,
                    state: State::Unspent,
                    quote_id,
                },
            );
            k = k + 1;
            assert(self@ =~= old(self)@ + new_records(infos@, quote_id).take(k as int));
        }
        proof {
            let added = new_records(infos@, quote_id);
            assert(added.take(k as int) =~= added);
            lemma_spent_concat_unspent(old(self)@, added);
            assert forall|i: int, j: int| 0 <= i < j < self@.len() implies (#[trigger] self@[i]).y
                != (#[trigger] self@[j]).y by {
                let n = old(self)@.len();
                if j < n {
                } else if i < n {
                    assert(ys[j - n] == self@[j].y);
                    assert(!has_y(old(self)@, ys[j - n]));
                    assert(old(self)@[i].y != ys[j - n]);
                } else {
                    assert(ys[i - n] == self@[i].y);
                    assert(ys[j - n] == self@[j].y);
                }
            }
            assert forall|i: int|
                0 <= i < old(self)@.len() && (#[trigger] old(self)@[i]).state
                    == State::Spent implies self@.contains(old(self)@[i]) by {
                assert(self@[i] == old(self)@[i]);
            }
            lemma_spent_stays(old(self)@, self@);
        }
        Ok(())
    }

    /// Moves the stored proofs among `ys` to `new_state`, all or none, and
    /// hands back the state each point had before, nothing for a point that
    /// is not stored. A spent proof is never moved: where one of the points
    /// is stored as spent the store stays as it was and the error is
    /// `AttemptUpdateSpentProof`.
    pub fn update_proofs_states(&mut self, ys: &Vec<PublicKey>, new_state: State) -> (r: Result<
        Vec<Option<State>>,
        DatabaseError,
    >)
        requires
            old(self).wf(),
        ensures
            final(self).wf(),
            r is Ok <==> !any_spent(old(self)@, ys@),
            spent_stays(old(self)@, final(self)@),
            r matches Ok(previous) ==> {
                &&& previous@ == states_of(old(self)@, ys@)
                &&& final(self)@ == moved(old(self)@, ys@, new_state)
                &&& new_state != State::Spent ==> spent_total(final(self)@) == spent_total(
                    old(self)@,
                )
                &&& new_state == State::Spent && ys@.no_duplicates() ==> spent_total(final(self)@)
                    == spent_total(old(self)@) + sum_amounts(stored_amounts(old(self)@, ys@))
            },
            r matches Err(e) ==> final(self)@ == old(self)@ && e
                == DatabaseError::AttemptUpdateSpentProof,
    {
        let mut previous: Vec<Option<State>> = Vec::new();
        let mut k: usize = 0;
        while k < ys.len()
            invariant
                0 <= k <= ys.len(),
                self.wf(),
                self@ == old(self)@,
                !any_spent(self@, ys@.take(k as int)),
                previous@ == states_of(self@, ys@.take(k as int)),
            decreases ys.len() - k,
        {
            let state = self.get_state(&ys[k]);
            proof {
                assert(ys@.take(k + 1) =~= ys@.take(k as int).push(ys@[k as int]));
                lemma_any_spent_push(self@, ys@.take(k as int), ys@[k as int]);
            }
            if state == Some(State::Spent) {
                proof {
                    lemma_any_spent_prefix(self@, ys@, k + 1);
                }
                return Err(DatabaseError::AttemptUpdateSpentProof);
            }
            previous.push(state);
            k = k + 1;
            assert(previous@ =~= states_of(self@, ys@.take(k as int)));
        }
        assert(ys@.take(k as int) =~= ys@);
        let mut k: usize = 0;
        while k < ys.len()
            invariant
                0 <= k <= ys.len(),
                old(self).wf(),
                !any_spent(old(self)@, ys@),
                self@ == moved(old(self)@, ys@.take(k as int), new_state),
                new_state != State::Spent ==> spent_total(self@) == spent_total(old(self)@),
                new_state == State::Spent && ys@.no_duplicates() ==> spent_total(self@)
                    == spent_total(old(self)@) + sum_amounts(
                    stored_amounts(old(self)@, ys@.take(k as int)),
                ),
            decreases ys.len() - k,
        {
            let ghost before = ys@.take(k as int);
            let ghost after = ys@.take(k + 1);
            let ghost y = ys@[k as int];
            let ghost current = self@;
            proof {
                assert(after =~= before.push(y));
                lemma_moved_distinct(old(self)@, before, new_state);
                assert(stored_amounts(old(self)@, after) =~= stored_amounts(
                    old(self)@,
                    before,
                ).push(amount_of(old(self)@, y)));
                lemma_sum_push(stored_amounts(old(self)@, before), amount_of(old(self)@, y));
            }
            match self.find(&ys[k]) {
                Some(i) => {
                    let record = self.records[i];
                    self.records.set(
                        i,
                        ProofRecord {
                            y: record.y,
                            amount: record.amount,
                            keyset_id: record.keyset_id,
                            state: new_state,
                            quote_id: record.quote_id,
                        },
                    );
                    proof {
                        let origin = old(self)@[i as int];
                        assert(origin.y == y);
                        lemma_state_at(old(self)@, i as int);
                        assert(state_of(old(self)@, ys@[k as int]) != Some(State::Spent));
                        assert(origin.state != State::Spent);
                        lemma_spent_update(current, i as int, with_state(record, new_state));
                        if ys@.no_duplicates() {
                            assert(!before.contains(y)) by {
                                if before.contains(y) {
                                    let j = choose|j: int| 0 <= j < before.len() && before[j] == y;
                                    assert(ys@[j] == ys@[k as int]);
                                }
                            }
                            assert(record == origin);
                        }
                        assert(self@ =~= moved(old(self)@, after, new_state)) by {
                            assert forall|j: int| 0 <= j < self@.len() implies self@[j] == moved(
                                old(self)@,
                                after,
                                new_state,
                            )[j] by {
                                let o = old(self)@[j];
                                if j == i {
                                    assert(after.contains(o.y)) by {
                                        assert(after[k as int] == y);
                                    }
                                } else {
                                    assert(o.y != y);
                                    assert(after.contains(o.y) == before.contains(o.y)) by {
                                        if after.contains(o.y) {
                                            let m = choose|m: int|
                                                0 <= m < after.len() && after[m] == o.y;
                                            assert(before[m] == o.y);
                                        }
                                        if before.contains(o.y) {
                                            let m = choose|m: int|
                                                0 <= m < before.len() && before[m] == o.y;
                                            assert(after[m] == o.y);
                                        }
                                    }
                                }
                            }
                        }
                    }
                },
                None => {
                    proof {
                        assert(!has_y(old(self)@, y)) by {
                            if has_y(old(self)@, y) {
                                let j = index_of_y(old(self)@, y);
                                assert(current[j].y == y);
                            }
                        }
                        assert(self@ =~= moved(old(self)@, after, new_state)) by {
                            assert forall|j: int| 0 <= j < self@.len() implies self@[j] == moved(
                                old(self)@,
                                after,
                                new_state,
                            )[j] by {
                                let o = old(self)@[j];
                                assert(o.y != y);
                                assert(after.contains(o.y) == before.contains(o.y)) by {
                                    if after.contains(o.y) {
                                        let m = choose|m: int|
                                            0 <= m < after.len() && after[m] == o.y;
                                        assert(before[m] == o.y);
                                    }
                                    if before.contains(o.y) {
                                        let m = choose|m: int|
                                            0 <= m < before.len() && before[m] == o.y;
                                        assert(after[m] == o.y);
                                    }
                                }
                            }
                        }
                    }
                },
            }
            k = k + 1;
        }
        proof {
            assert(ys@.take(k as int) =~= ys@);
            lemma_moved_distinct(old(self)@, ys@, new_state);
            lemma_moved_keeps_spent(old(self)@, ys@, new_state);
        }
        Ok(previous)
    }

    /// Takes out the proofs among `ys` that are in flight or set aside and
    /// bound to `quote_id`. Every other proof stays as it is; a spent proof
    /// is never taken out.
    pub fn remove_proofs(&mut self, ys: &Vec<PublicKey>, quote_id: Option<u128>)
        requires
            old(self).wf(),
        ensures
            final(self).wf(),
            final(self)@ == old(self)@.filter(|r: ProofRecord| !removable(r, ys@, quote_id)),
            spent_total(final(self)@) == spent_total(old(self)@),
            spent_stays(old(self)@, final(self)@),
    {
        let ghost keep = |r: ProofRecord| !removable(r, ys@, quote_id);
        let mut kept: Vec<ProofRecord> = Vec::new();
        let mut i: usize = 0;
        while i < self.records.len()
            invariant
                0 <= i <= self.records.len(),
                self@ == old(self)@,
                keep == |r: ProofRecord| !removable(r, ys@, quote_id),
                kept@ == self@.take(i as int).filter(keep),
            decreases self.records.len() - i,
        {
            let record = self.records[i];
            let in_flight = match record.state {
                State::Pending => true,
                State::Reserved => true,
                _ => false,
            };
            let bound = match (record.quote_id, quote_id) {
                (Some(a), Some(b)) => a == b,
                (None, None) => true,
                _ => false,
            };
            let named = contains_key(ys, &record.y);
            proof {
                reveal(Seq::filter);
                assert(self@.take(i + 1).drop_last() =~= self@.take(i as int));
            }
            if !(named && in_flight && bound) {
                kept.push(record);
            }
            i = i + 1;
        }
        proof {
            assert(self@.take(i as int) =~= self@);
            lemma_filter_keeps_distinct(self@, keep);
            lemma_filter_keeps_spent(self@, keep);
            lemma_filter_holds_kept(self@, keep);
            assert forall|i: int| 0 <= i < self@.len() && (#[trigger] self@[i]).state
                == State::Spent implies self@.filter(keep).contains(self@[i]) by {
                assert(keep(self@[i]));
            }
            lemma_spent_stays(self@, self@.filter(keep));
        }
        self.records = kept;
    }
}

/// Whether one of the points `ys` is stored as pending in `s`.
pub open spec fn any_pending(s: Seq<ProofRecord>, ys: Seq<PublicKey>) -> bool {
    exists|k: int| 0 <= k < ys.len() && state_of(s, #[trigger] ys[k]) == Some(State::Pending)
}

/// Whether one of the points `ys` is stored as spent in `s`.
pub open spec fn any_spent(s: Seq<ProofRecord>, ys: Seq<PublicKey>) -> bool {
    exists|k: int| 0 <= k < ys.len() && state_of(s, #[trigger] ys[k]) == Some(State::Spent)
}

/// Whether the points `ys` can enter `s`: none of them is stored, and none
/// occurs twice.
pub open spec fn addable(s: Seq<ProofRecord>, ys: Seq<PublicKey>) -> bool {
    &&& ys.no_duplicates()
    &&& forall|k: int| 0 <= k < ys.len() ==> !has_y(s, #[trigger] ys[k])
}

/// The states stored for the points `ys`, in order.
pub open spec fn states_of(s: Seq<ProofRecord>, ys: Seq<PublicKey>) -> Seq<Option<State>> {
    Seq::new(ys.len(), |k: int| state_of(s, ys[k]))
}

/// The records `s` with those among the points `ys` moved to `state`.
pub open spec fn moved(s: Seq<ProofRecord>, ys: Seq<PublicKey>, state: State) -> Seq<ProofRecord> {
    Seq::new(
        s.len(),
        |i: int|
            if ys.contains(s[i].y) {
                with_state(s[i], state)
            } else {
                s[i]
            },
    )
}

proof fn lemma_any_spent_push(s: Seq<ProofRecord>, ys: Seq<PublicKey>, y: PublicKey)
    ensures
        any_spent(s, ys.push(y)) <==> any_spent(s, ys) || state_of(s, y) == Some(State::Spent),
{
    let longer = ys.push(y);
    if any_spent(s, longer) {
        let k = choose|k: int|
            0 <= k < longer.len() && state_of(s, #[trigger] longer[k]) == Some(State::Spent);
        if k < ys.len() {
            assert(ys[k] == longer[k]);
        }
    }
    if any_spent(s, ys) {
        let k = choose|k: int|
            0 <= k < ys.len() && state_of(s, #[trigger] ys[k]) == Some(State::Spent);
        assert(longer[k] == ys[k]);
    }
    if state_of(s, y) == Some(State::Spent) {
        assert(longer[ys.len() as int] == y);
    }
}

proof fn lemma_any_spent_prefix(s: Seq<ProofRecord>, ys: Seq<PublicKey>, n: int)
    requires
        0 <= n <= ys.len(),
        any_spent(s, ys.take(n)),
    ensures
        any_spent(s, ys),
{
    let k = choose|k: int|
        0 <= k < n && state_of(s, #[trigger] ys.take(n)[k]) == Some(State::Spent);
    assert(ys[k] == ys.take(n)[k]);
}

proof fn lemma_addable_push(s: Seq<ProofRecord>, ys: Seq<PublicKey>, y: PublicKey)
    ensures
        addable(s, ys.push(y)) <==> addable(s, ys) && !has_y(s, y) && !ys.contains(y),
{
    let longer = ys.push(y);
    if addable(s, longer) {
        assert forall|i: int, j: int| 0 <= i < ys.len() && 0 <= j < ys.len() && i != j implies ys[i]
            != ys[j] by {
            assert(longer[i] == ys[i] && longer[j] == ys[j]);
        }
        assert forall|k: int| 0 <= k < ys.len() implies !has_y(s, #[trigger] ys[k]) by {
            assert(longer[k] == ys[k]);
        }
        assert(longer[ys.len() as int] == y);
        if ys.contains(y) {
            let j = choose|j: int| 0 <= j < ys.len() && ys[j] == y;
            assert(longer[j] == longer[ys.len() as int]);
        }
    }
    if addable(s, ys) && !has_y(s, y) && !ys.contains(y) {
        assert forall|i: int, j: int|
            0 <= i < longer.len() && 0 <= j < longer.len() && i != j implies longer[i]
            != longer[j] by {
            if i < ys.len() && j < ys.len() {
            } else if i < ys.len() {
                assert(ys.contains(ys[i]));
            } else {
                assert(ys.contains(ys[j]));
            }
        }
    }
}

/// Moving proofs leaves the points, and their places, as they were.
pub proof fn lemma_moved_distinct(s: Seq<ProofRecord>, ys: Seq<PublicKey>, state: State)
    requires
        distinct_ys(s),
    ensures
        distinct_ys(moved(s, ys, state)),
        moved(s, ys, state).len() == s.len(),
        forall|i: int| 0 <= i < s.len() ==> (#[trigger] moved(s, ys, state)[i]).y == s[i].y,
{
    let m = moved(s, ys, state);
    assert forall|i: int, j: int| 0 <= i < j < m.len() implies (#[trigger] m[i]).y != (
    #[trigger] m[j]).y by {
        assert(s[i].y != s[j].y);
    }
}

/// A stored proof that is moved is then in the state it was moved to.
pub proof fn lemma_moved_state(s: Seq<ProofRecord>, ys: Seq<PublicKey>, state: State, k: int)
    requires
        distinct_ys(s),
        0 <= k < ys.len(),
        has_y(s, ys[k]),
    ensures
        state_of(moved(s, ys, state), ys[k]) == Some(state),
{
    let i = index_of_y(s, ys[k]);
    let m = moved(s, ys, state);
    lemma_moved_distinct(s, ys, state);
    assert(ys.contains(s[i].y));
    assert(m[i].y == ys[k]);
    lemma_state_at(m, i);
}

/// Taking out what was just held gives back what was there: records that
/// enter for a quote and are moved in flight, and are then taken out for
/// that quote, leave the proofs as they were before.
pub proof fn lemma_rollback_restores(
    s: Seq<ProofRecord>,
    infos: Seq<ProofInfo>,
    quote_id: Option<u128>,
)
    requires
        addable(s, info_ys(infos)),
    ensures
        moved(s + new_records(infos, quote_id), info_ys(infos), State::Pending).filter(
            |r: ProofRecord| !removable(r, info_ys(infos), quote_id),
        ) == s,
{
    let ys = info_ys(infos);
    let keep = |r: ProofRecord| !removable(r, ys, quote_id);
    let held = Seq::new(
        infos.len(),
        |k: int| with_state(new_record(infos[k], quote_id), State::Pending),
    );
    let m = moved(s + new_records(infos, quote_id), ys, State::Pending);
    assert(m =~= s + held) by {
        assert forall|i: int| 0 <= i < m.len() implies m[i] == (s + held)[i] by {
            if i < s.len() {
                if ys.contains(s[i].y) {
                    let k = choose|k: int| 0 <= k < ys.len() && ys[k] == s[i].y;
                    assert(!has_y(s, ys[k]));
                }
            } else {
                assert(ys[i - s.len()] == new_records(infos, quote_id)[i - s.len()].y);
            }
        }
    }
    Seq::filter_distributes_over_add(s, held, keep);
    assert forall|i: int| 0 <= i < s.len() implies keep(#[trigger] s[i]) by {
        if ys.contains(s[i].y) {
            let k = choose|k: int| 0 <= k < ys.len() && ys[k] == s[i].y;
            assert(!has_y(s, ys[k]));
        }
    }
    lemma_filter_all(s, keep);
    assert forall|k: int| 0 <= k < held.len() implies !keep(#[trigger] held[k]) by {
        assert(ys[k] == held[k].y);
    }
    lemma_filter_none(held, keep);
    assert(s + Seq::<ProofRecord>::empty() =~= s);
}

/// A filter that keeps every record keeps the sequence.
pub proof fn lemma_filter_all(s: Seq<ProofRecord>, keep: spec_fn(ProofRecord) -> bool)
    requires
        forall|i: int| 0 <= i < s.len() ==> keep(#[trigger] s[i]),
    ensures
        s.filter(keep) == s,
    decreases s.len(),
{
    reveal(Seq::filter);
    if s.len() > 0 {
        lemma_filter_all(s.drop_last(), keep);
        assert(s.drop_last().push(s.last()) =~= s);
    }
}

/// A filter that keeps no record leaves nothing.
pub proof fn lemma_filter_none(s: Seq<ProofRecord>, keep: spec_fn(ProofRecord) -> bool)
    requires
        forall|i: int| 0 <= i < s.len() ==> !keep(#[trigger] s[i]),
    ensures
        s.filter(keep) == Seq::<ProofRecord>::empty(),
    decreases s.len(),
{
    reveal(Seq::filter);
    if s.len() > 0 {
        lemma_filter_none(s.drop_last(), keep);
    }
}

/// Moving to spent a set of distinct points none of which is spent adds the
/// amounts stored for them to the total of the spent.
pub proof fn lemma_spent_total_moved(s: Seq<ProofRecord>, ys: Seq<PublicKey>)
    requires
        distinct_ys(s),
        ys.no_duplicates(),
        !any_spent(s, ys),
    ensures
        spent_total(moved(s, ys, State::Spent)) == spent_total(s) + sum_amounts(
            stored_amounts(s, ys),
        ),
    decreases ys.len(),
{
    if ys.len() == 0 {
        assert(moved(s, ys, State::Spent) =~= s);
        assert(stored_amounts(s, ys) =~= Seq::empty());
    } else {
        let front = ys.drop_last();
        let y = ys.last();
        assert(front.no_duplicates()) by {
            assert forall|a: int, b: int|
                0 <= a < front.len() && 0 <= b < front.len() && a != b implies front[a]
                != front[b] by {
                assert(ys[a] != ys[b]);
            }
        }
        assert(!any_spent(s, front)) by {
            if any_spent(s, front) {
                let k = choose|k: int|
                    0 <= k < front.len() && state_of(s, #[trigger] front[k]) == Some(State::Spent);
                assert(ys[k] == front[k]);
            }
        }
        lemma_spent_total_moved(s, front);
        let m = moved(s, front, State::Spent);
        let m2 = moved(s, ys, State::Spent);
        assert(stored_amounts(s, ys) =~= stored_amounts(s, front).push(amount_of(s, y)));
        lemma_sum_push(stored_amounts(s, front), amount_of(s, y));
        assert(!front.contains(y)) by {
            if front.contains(y) {
                let j = choose|j: int| 0 <= j < front.len() && front[j] == y;
                assert(ys[j] == ys[ys.len() - 1]);
            }
        }
        if has_y(s, y) {
            let i = index_of_y(s, y);
            lemma_state_at(s, i);
            assert(state_of(s, ys[ys.len() - 1]) != Some(State::Spent));
            assert(m[i] == s[i]);
            assert(m2 =~= m.update(i, with_state(s[i], State::Spent))) by {
                assert forall|j: int| 0 <= j < s.len() implies m2[j] == m.update(
                    i,
                    with_state(s[i], State::Spent),
                )[j] by {
                    if j == i {
                        assert(ys.contains(s[i].y));
                    } else {
                        if j < i {
                            assert(s[j].y != s[i].y);
                        } else {
                            assert(s[i].y != s[j].y);
                        }
                        lemma_contains_push(front, y, s[j].y);
                        assert(ys =~= front.push(y));
                    }
                }
            }
            lemma_spent_update(m, i, with_state(s[i], State::Spent));
        } else {
            assert(m2 =~= m) by {
                assert forall|j: int| 0 <= j < s.len() implies m2[j] == m[j] by {
                    assert(s[j].y != y);
                    lemma_contains_push(front, y, s[j].y);
                    assert(ys =~= front.push(y));
                }
            }
        }
    }
}

/// A point is among a sequence with one more point where it is among the
/// sequence or is that point.
pub proof fn lemma_contains_push(ys: Seq<PublicKey>, y: PublicKey, x: PublicKey)
    ensures
        ys.push(y).contains(x) <==> ys.contains(x) || x == y,
{
    let longer = ys.push(y);
    if longer.contains(x) {
        let m = choose|m: int| 0 <= m < longer.len() && longer[m] == x;
        if m < ys.len() {
            assert(ys[m] == x);
        }
    }
    if ys.contains(x) {
        let m = choose|m: int| 0 <= m < ys.len() && ys[m] == x;
        assert(longer[m] == x);
    }
    if x == y {
        assert(longer[ys.len() as int] == x);
    }
}

/// Moving proofs none of which is spent leaves every spent proof spent.
pub proof fn lemma_moved_keeps_spent(s: Seq<ProofRecord>, ys: Seq<PublicKey>, state: State)
    requires
        distinct_ys(s),
        !any_spent(s, ys),
    ensures
        spent_stays(s, moved(s, ys, state)),
{
    let m = moved(s, ys, state);
    lemma_moved_distinct(s, ys, state);
    assert forall|i: int| 0 <= i < s.len() && (#[trigger] s[i]).state == State::Spent implies m.contains(
        s[i],
    ) by {
        lemma_state_at(s, i);
        if ys.contains(s[i].y) {
            let k = choose|k: int| 0 <= k < ys.len() && ys[k] == s[i].y;
            assert(state_of(s, ys[k]) == Some(State::Spent));
        }
        assert(m[i] == s[i]);
    }
    lemma_spent_stays(s, m);
}

proof fn lemma_filter_keeps_distinct(s: Seq<ProofRecord>, keep: spec_fn(ProofRecord) -> bool)
    requires
        distinct_ys(s),
    ensures
        distinct_ys(s.filter(keep)),
        forall|r: ProofRecord| #[trigger] s.filter(keep).contains(r) ==> s.contains(r),
    decreases s.len(),
{
    reveal(Seq::filter);
    if s.len() > 0 {
        let front = s.drop_last();
        assert(distinct_ys(front)) by {
            assert forall|i: int, j: int| 0 <= i < j < front.len() implies (#[trigger] front[i]).y
                != (#[trigger] front[j]).y by {
                assert(s[i].y != s[j].y);
            }
        }
        lemma_filter_keeps_distinct(front, keep);
        let sub = front.filter(keep);
        assert forall|r: ProofRecord| s.filter(keep).contains(r) implies s.contains(r) by {
            let f = s.filter(keep);
            let i = choose|i: int| 0 <= i < f.len() && f[i] == r;
            if keep(s.last()) && i == f.len() - 1 {
                assert(s[s.len() - 1] == r);
            } else {
                assert(sub[i] == r);
                assert(sub.contains(r));
                let j = choose|j: int| 0 <= j < front.len() && front[j] == r;
                assert(s[j] == r);
            }
        }
        if keep(s.last()) {
            let f = sub.push(s.last());
            assert forall|i: int, j: int| 0 <= i < j < f.len() implies (#[trigger] f[i]).y != (
            #[trigger] f[j]).y by {
                if j == f.len() - 1 {
                    assert(sub.contains(sub[i]));
                    let m = choose|m: int| 0 <= m < front.len() && front[m] == sub[i];
                    assert(s[m].y != s[s.len() - 1].y);
                }
            }
        }
    }
}

proof fn lemma_filter_holds_kept(s: Seq<ProofRecord>, keep: spec_fn(ProofRecord) -> bool)
    ensures
        forall|i: int| 0 <= i < s.len() && keep(#[trigger] s[i]) ==> s.filter(keep).contains(s[i]),
    decreases s.len(),
{
    reveal(Seq::filter);
    if s.len() > 0 {
        let front = s.drop_last();
        lemma_filter_holds_kept(front, keep);
        let sub = front.filter(keep);
        let f = s.filter(keep);
        assert forall|i: int| 0 <= i < s.len() && keep(#[trigger] s[i]) implies f.contains(
            s[i],
        ) by {
            if i == s.len() - 1 {
                assert(f[f.len() - 1] == s[i]);
            } else {
                assert(front[i] == s[i]);
                assert(sub.contains(front[i]));
                let j = choose|j: int| 0 <= j < sub.len() && sub[j] == s[i];
                assert(f[j] == s[i]);
            }
        }
    }
}

proof fn lemma_filter_keeps_spent(s: Seq<ProofRecord>, keep: spec_fn(ProofRecord) -> bool)
    requires
        forall|r: ProofRecord| r.state == State::Spent ==> #[trigger] keep(r),
    ensures
        spent_total(s.filter(keep)) == spent_total(s),
    decreases s.len(),
{
    reveal(Seq::filter);
    if s.len() > 0 {
        lemma_filter_keeps_spent(s.drop_last(), keep);
        if keep(s.last()) {
            lemma_spent_push(s.drop_last().filter(keep), s.last());
        }
    }
}

/// Whether the point `y` is among `ys`.
pub fn contains_key(ys: &Vec<PublicKey>, y: &PublicKey) -> (r: bool)
    ensures
        r == ys@.contains(*y),
{
    let mut i: usize = 0;
    while i < ys.len()
        invariant
            0 <= i <= ys.len(),
            forall|j: int| 0 <= j < i ==> ys@[j] != *y,
        decreases ys.len() - i,
    {
        if ys[i].same(y) {
            return true;
        }
        i = i + 1;
    }
    false
}

fn contains_key_before(infos: &Vec<ProofInfo>, n: usize, y: &PublicKey) -> (r: bool)
    requires
        n <= infos.len(),
    ensures
        r == exists|j: int| 0 <= j < n && (#[trigger] infos@[j]).y == *y,
{
    let mut i: usize = 0;
    while i < n
        invariant
            0 <= i <= n <= infos.len(),
            forall|j: int| 0 <= j < i ==> (#[trigger] infos@[j]).y != *y,
        decreases n - i,
    {
        if infos[i].y.same(y) {
            return true;
        }
        i = i + 1;
    }
    false
}

} // verus!
