//! The stored melt quotes, keyed by their id.

use vstd::prelude::*;

use crate::error::DatabaseError;
use crate::nuts::{MeltQuote, MeltQuoteState};

verus! {

/// Whether a quote with the id `id` is among `s`.
pub open spec fn has_melt_quote(s: Seq<MeltQuote>, id: u128) -> bool {
    exists|i: int| 0 <= i < s.len() && (#[trigger] s[i]).id == id
}

/// Whether no two quotes of `s` share an id.
pub open spec fn distinct_melt_ids(s: Seq<MeltQuote>) -> bool {
    forall|i: int, j: int| 0 <= i < j < s.len() ==> (#[trigger] s[i]).id != (#[trigger] s[j]).id
}

/// The quote with the id `id`, where one is stored.
pub open spec fn melt_quote_of(s: Seq<MeltQuote>, id: u128) -> Option<MeltQuote> {
    if has_melt_quote(s, id) {
        Some(s[choose|i: int| 0 <= i < s.len() && (#[trigger] s[i]).id == id])
    } else {
        None
    }
}

/// Whether a quote in the state `next` may be stored in place of one in
/// the state `stored`: always, but that a quote that is `Paid` stays so.
pub open spec fn melt_overwrite_allowed(stored: MeltQuoteState, next: MeltQuoteState) -> bool {
    stored == next || stored != MeltQuoteState::Paid
}

/// Whether a stored melt quote may go from `previous` to `next`. A paid
/// quote goes nowhere; only an unpaid or failed quote goes in flight; only a
/// quote in flight becomes paid; and no quote rests in `Unknown`.
pub open spec fn melt_transition_allowed(previous: MeltQuoteState, next: MeltQuoteState) -> bool {
    match next {
        MeltQuoteState::Pending => previous == MeltQuoteState::Unpaid || previous
            == MeltQuoteState::Failed,
        MeltQuoteState::Paid => previous == MeltQuoteState::Pending,
        MeltQuoteState::Unpaid | MeltQuoteState::Failed => previous == MeltQuoteState::Pending
            || previous == MeltQuoteState::Unpaid || previous == MeltQuoteState::Failed,
        MeltQuoteState::Unknown => false,
    }
}

/// The quote `q` in the state `state`.
pub open spec fn with_melt_state(q: MeltQuote, state: MeltQuoteState) -> MeltQuote {
    MeltQuote { state, ..q }
}

/// The quotes `s` with the one of the id `id` in the state `state`.
pub open spec fn set_melt_state(s: Seq<MeltQuote>, id: u128, state: MeltQuoteState) -> Seq<
    MeltQuote,
> {
    Seq::new(
        s.len(),
        |i: int|
            if s[i].id == id {
                with_melt_state(s[i], state)
            } else {
                s[i]
            },
    )
}

/// The quotes `s` with the one that shares the id of `quote` replaced by
/// `quote`.
pub open spec fn replace_melt_quote(s: Seq<MeltQuote>, quote: MeltQuote) -> Seq<MeltQuote> {
    Seq::new(
        s.len(),
        |i: int|
            if s[i].id == quote.id {
                quote
            } else {
                s[i]
            },
    )
}

/// Where the ids are distinct, the quote of an id is any quote that has it.
pub proof fn lemma_melt_quote_at(s: Seq<MeltQuote>, i: int)
    requires
        distinct_melt_ids(s),
        0 <= i < s.len(),
    ensures
        has_melt_quote(s, s[i].id),
        melt_quote_of(s, s[i].id) == Some(s[i]),
{
    let id = s[i].id;
    assert(has_melt_quote(s, id));
    let j = choose|j: int| 0 <= j < s.len() && (#[trigger] s[j]).id == id;
    if j < i {
        assert(s[j].id != s[i].id);
    }
    if i < j {
        assert(s[i].id != s[j].id);
    }
}

/// A stored quote that is replaced is then the quote it was replaced by.
pub proof fn lemma_replaced_melt_quote(s: Seq<MeltQuote>, quote: MeltQuote)
    requires
        distinct_melt_ids(s),
        has_melt_quote(s, quote.id),
    ensures
        distinct_melt_ids(replace_melt_quote(s, quote)),
        melt_quote_of(replace_melt_quote(s, quote), quote.id) == Some(quote),
{
    let r = replace_melt_quote(s, quote);
    let i = choose|i: int| 0 <= i < s.len() && (#[trigger] s[i]).id == quote.id;
    assert forall|a: int, b: int| 0 <= a < b < r.len() implies (#[trigger] r[a]).id != (
    #[trigger] r[b]).id by {
        assert(s[a].id != s[b].id);
    }
    assert(r[i] == quote);
    lemma_melt_quote_at(r, i);
}

/// A stored quote whose state is set is then in that state.
pub proof fn lemma_set_melt_state(s: Seq<MeltQuote>, id: u128, state: MeltQuoteState)
    requires
        distinct_melt_ids(s),
        has_melt_quote(s, id),
    ensures
        distinct_melt_ids(set_melt_state(s, id, state)),
        melt_quote_of(set_melt_state(s, id, state), id) == Some(
            with_melt_state(melt_quote_of(s, id).unwrap(), state),
        ),
{
    let r = set_melt_state(s, id, state);
    let i = choose|i: int| 0 <= i < s.len() && (#[trigger] s[i]).id == id;
    lemma_melt_quote_at(s, i);
    assert forall|a: int, b: int| 0 <= a < b < r.len() implies (#[trigger] r[a]).id != (
    #[trigger] r[b]).id by {
        assert(s[a].id != s[b].id);
    }
    assert(r[i] == with_melt_state(s[i], state));
    lemma_melt_quote_at(r, i);
}

/// Whether every quote of `before` that is not in flight is in `after` as
/// it was.
pub open spec fn settled_kept(before: Seq<MeltQuote>, after: Seq<MeltQuote>) -> bool {
    forall|id: u128|
        (#[trigger] melt_quote_of(before, id) matches Some(quote) && quote.state
            != MeltQuoteState::Pending) ==> melt_quote_of(after, id) == melt_quote_of(before, id)
}

/// Quotes that keep their places and ids, and change only where they are in
/// flight, keep every quote that is not in flight.
pub proof fn lemma_settled_kept(before: Seq<MeltQuote>, after: Seq<MeltQuote>)
    requires
        distinct_melt_ids(before),
        after.len() == before.len(),
        forall|i: int| 0 <= i < before.len() ==> (#[trigger] after[i]).id == before[i].id,
        forall|i: int|
            0 <= i < before.len() && (#[trigger] before[i]).state != MeltQuoteState::Pending
                ==> after[i] == before[i],
    ensures
        distinct_melt_ids(after),
        settled_kept(before, after),
{
    assert forall|a: int, b: int| 0 <= a < b < after.len() implies (#[trigger] after[a]).id != (
    #[trigger] after[b]).id by {
        assert(before[a].id != before[b].id);
    }
    assert forall|id: u128|
        (#[trigger] melt_quote_of(before, id) matches Some(quote) && quote.state
            != MeltQuoteState::Pending) implies melt_quote_of(after, id) == melt_quote_of(
        before,
        id,
    ) by {
        let i = choose|i: int| 0 <= i < before.len() && (#[trigger] before[i]).id == id;
        lemma_melt_quote_at(before, i);
        assert(after[i] == before[i]);
        lemma_melt_quote_at(after, i);
    }
}

/// A filter that keeps every quote keeps the sequence.
pub proof fn lemma_keep_all_melt_quotes(s: Seq<MeltQuote>, keep: spec_fn(MeltQuote) -> bool)
    requires
        forall|i: int| 0 <= i < s.len() ==> keep(#[trigger] s[i]),
    ensures
        s.filter(keep) == s,
    decreases s.len(),
{
    reveal(Seq::filter);
    if s.len() > 0 {
        lemma_keep_all_melt_quotes(s.drop_last(), keep);
        assert(s.drop_last().push(s.last()) =~= s);
    }
}

/// Taking a quote out of its place leaves the quotes with other ids, in
/// their order, and these have distinct ids still.
pub proof fn lemma_remove_melt_quote(s: Seq<MeltQuote>, i: int)
    requires
        distinct_melt_ids(s),
        0 <= i < s.len(),
    ensures
        s.remove(i) == s.filter(|quote: MeltQuote| quote.id != s[i].id),
        distinct_melt_ids(s.remove(i)),
{
    let id = s[i].id;
    let keep = |quote: MeltQuote| quote.id != id;
    let front = s.take(i);
    let back = s.skip(i + 1);
    assert(s =~= front + seq![s[i]] + back);
    Seq::filter_distributes_over_add(front + seq![s[i]], back, keep);
    Seq::filter_distributes_over_add(front, seq![s[i]], keep);
    assert forall|j: int| 0 <= j < front.len() implies keep(#[trigger] front[j]) by {
        assert(s[j].id != s[i].id);
    }
    assert forall|j: int| 0 <= j < back.len() implies keep(#[trigger] back[j]) by {
        assert(s[i].id != s[i + 1 + j].id);
    }
    lemma_keep_all_melt_quotes(front, keep);
    lemma_keep_all_melt_quotes(back, keep);
    assert(seq![s[i]].filter(keep) =~= Seq::empty()) by {
        reveal_with_fuel(Seq::filter, 2);
        assert(seq![s[i]].drop_last() =~= Seq::<MeltQuote>::empty());
    }
    assert(s.remove(i) =~= front + back);
    assert(front + Seq::<MeltQuote>::empty() + back =~= front + back);
    let r = s.remove(i);
    assert forall|a: int, b: int| 0 <= a < b < r.len() implies (#[trigger] r[a]).id != (
    #[trigger] r[b]).id by {
        let a0 = if a < i {
            a
        } else {
            a + 1
        };
        let b0 = if b < i {
            b
        } else {
            b + 1
        };
        assert(s[a0].id != s[b0].id);
    }
}

/// The melt quotes of the store: each id at most once.
pub struct MeltQuoteTable {
    quotes: Vec<MeltQuote>,
}

impl View for MeltQuoteTable {
    type V = Seq<MeltQuote>;

    closed spec fn view(&self) -> Seq<MeltQuote> {
        self.quotes@
    }
}

impl MeltQuoteTable {
    /// Whether no id is stored twice.
    pub open spec fn wf(&self) -> bool {
        distinct_melt_ids(self@)
    }

    /// A table without quotes.
    pub fn new() -> (r: MeltQuoteTable)
        ensures
            r.wf(),
            r@ == Seq::<MeltQuote>::empty(),
    {
        MeltQuoteTable { quotes: Vec::new() }
    }

    /// The place of the quote with the id `id`, where one is stored.
    pub fn find(&self, id: u128) -> (r: Option<usize>)
        ensures
            match r {
                Some(i) => i < self@.len() && self@[i as int].id == id,
                None => !has_melt_quote(self@, id),
            },
    {
        let mut i: usize = 0;
        while i < self.quotes.len()
            invariant
                0 <= i <= self.quotes.len(),
                forall|j: int| 0 <= j < i ==> (#[trigger] self.quotes@[j]).id != id,
            decreases self.quotes.len() - i,
        {
            if self.quotes[i].id == id {
                return Some(i);
            }
            i = i + 1;
        }
        None
    }

    /// The quote with the id `id`, where one is stored.
    pub fn get_melt_quote(&self, id: u128) -> (r: Option<MeltQuote>)
        requires
            self.wf(),
        ensures
            r == melt_quote_of(self@, id),
    {
        match self.find(id) {
            Some(i) => {
                proof {
                    lemma_melt_quote_at(self@, i as int);
                }
                Some(self.quotes[i].duplicate())
            },
            None => None,
        }
    }

    /// All stored quotes, oldest first.
    pub fn get_melt_quotes(&self) -> (r: Vec<MeltQuote>)
        ensures
            r@ == self@,
    {
        let mut all: Vec<MeltQuote> = Vec::new();
        let mut i: usize = 0;
        while i < self.quotes.len()
            invariant
                0 <= i <= self.quotes.len(),
                all@ == self@.take(i as int),
            decreases self.quotes.len() - i,
        {
            all.push(self.quotes[i].duplicate());
            i = i + 1;
            assert(all@ =~= self@.take(i as int));
        }
        assert(self@.take(i as int) =~= self@);
        all
    }

    /// Stores `quote`: as a new quote where its id is not stored, else in
    /// place of the stored quote of that id, whatever state either is in.
    /// Only a stored quote that is `Paid` keeps its state: where `quote`
    /// would take it out of that state nothing is stored and the error is
    /// `InvalidStateTransition`.
    pub fn add_melt_quote(&mut self, quote: MeltQuote) -> (r: Result<(), DatabaseError>)
        requires
            old(self).wf(),
        ensures
            final(self).wf(),
            match melt_quote_of(old(self)@, quote.id) {
                None => r is Ok && final(self)@ == old(self)@.push(quote),
                Some(stored) => if melt_overwrite_allowed(stored.state, quote.state) {
                    r is Ok && final(self)@ == replace_melt_quote(old(self)@, quote)
                } else {
                    r == Err::<(), DatabaseError>(DatabaseError::InvalidStateTransition)
                        && final(self)@ == old(self)@
                },
            },
    {
        match self.find(quote.id) {
            Some(i) => {
                proof {
                    lemma_melt_quote_at(self@, i as int);
                }
                let stored = self.quotes[i].state;
                if stored == quote.state || stored != MeltQuoteState::Paid {
                    self.quotes.set(i, quote);
                    proof {
                        let replaced = replace_melt_quote(old(self)@, quote);
                        assert forall|j: int| 0 <= j < self@.len() implies self@[j]
                            == replaced[j] by {
                            if j != i {
                                if j < i {
                                    assert(old(self)@[j].id != old(self)@[i as int].id);
                                } else {
                                    assert(old(self)@[i as int].id != old(self)@[j].id);
                                }
                            }
                        }
                        assert(self@ =~= replaced);
                        assert forall|a: int, b: int| 0 <= a < b < self@.len() implies (
                        #[trigger] self@[a]).id != (#[trigger] self@[b]).id by {
                            assert(old(self)@[a].id != old(self)@[b].id);
                        }
                    }
                    Ok(())
                } else {
                    Err(DatabaseError::InvalidStateTransition)
                }
            },
            None => {
                self.quotes.push(quote);
                proof {
                    assert forall|a: int, b: int| 0 <= a < b < self@.len() implies (
                    #[trigger] self@[a]).id != (#[trigger] self@[b]).id by {
                        if b == self@.len() - 1 {
                            assert(old(self)@[a].id != quote.id);
                        } else {
                            assert(old(self)@[a].id != old(self)@[b].id);
                        }
                    }
                }
                Ok(())
            },
        }
    }

    /// Moves the quote with the id `id` to `state` where the quote may go
    /// there, and hands back the state it was in and the quote as it was.
    /// Where it may not go there the table stays as it is, and the caller
    /// learns so from the state handed back. The error is `UnknownQuote`
    /// where no quote has the id.
    pub fn update_melt_quote_state(&mut self, id: u128, state: MeltQuoteState) -> (r: Result<
        (MeltQuoteState, MeltQuote),
        DatabaseError,
    >)
        requires
            old(self).wf(),
        ensures
            final(self).wf(),
            match melt_quote_of(old(self)@, id) {
                None => r == Err::<(MeltQuoteState, MeltQuote), DatabaseError>(
                    DatabaseError::UnknownQuote,
                ) && final(self)@ == old(self)@,
                Some(stored) => r == Ok::<(MeltQuoteState, MeltQuote), DatabaseError>(
                    (stored.state, stored),
                ) && final(self)@ == if melt_transition_allowed(stored.state, state) {
                    set_melt_state(old(self)@, id, state)
                } else {
                    old(self)@
                },
            },
    {
        match self.find(id) {
            None => Err(DatabaseError::UnknownQuote),
            Some(i) => {
                proof {
                    lemma_melt_quote_at(self@, i as int);
                }
                let stored = self.quotes[i].duplicate();
                let previous = stored.state;
                let allowed = match state {
                    MeltQuoteState::Pending => match previous {
                        MeltQuoteState::Unpaid => true,
                        MeltQuoteState::Failed => true,
                        _ => false,
                    },
                    MeltQuoteState::Paid => match previous {
                        MeltQuoteState::Pending => true,
                        _ => false,
                    },
                    MeltQuoteState::Unpaid | MeltQuoteState::Failed => match previous {
                        MeltQuoteState::Pending => true,
                        MeltQuoteState::Unpaid => true,
                        MeltQuoteState::Failed => true,
                        _ => false,
                    },
                    MeltQuoteState::Unknown => false,
                };
                if allowed {
                    let mut changed = stored.duplicate();
                    changed.state = state;
                    self.quotes.set(i, changed);
                    proof {
                        let target = set_melt_state(old(self)@, id, state);
                        assert forall|j: int| 0 <= j < self@.len() implies self@[j]
                            == target[j] by {
                            if j != i {
                                if j < i {
                                    assert(old(self)@[j].id != old(self)@[i as int].id);
                                } else {
                                    assert(old(self)@[i as int].id != old(self)@[j].id);
                                }
                            }
                        }
                        assert(self@ =~= target);
                        assert forall|a: int, b: int| 0 <= a < b < self@.len() implies (
                        #[trigger] self@[a]).id != (#[trigger] self@[b]).id by {
                            assert(old(self)@[a].id != old(self)@[b].id);
                        }
                    }
                }
                Ok((previous, stored))
            },
        }
    }

    /// Takes out the quote with the id `id`, where one is stored. The
    /// others stay as they are and in their order.
    pub fn remove_melt_quote(&mut self, id: u128)
        requires
            old(self).wf(),
        ensures
            final(self).wf(),
            final(self)@ == old(self)@.filter(|quote: MeltQuote| quote.id != id),
            !has_melt_quote(final(self)@, id),
            forall|other: u128|
                other != id ==> melt_quote_of(final(self)@, other) == melt_quote_of(
                    old(self)@,
                    other,
                ),
    {
        let ghost keep = |quote: MeltQuote| quote.id != id;
        match self.find(id) {
            None => {
                proof {
                    assert forall|j: int| 0 <= j < self@.len() implies keep(#[trigger] self@[j]) by {
                        assert(self@[j].id != id);
                    }
                    lemma_keep_all_melt_quotes(self@, keep);
                }
            },
            Some(i) => {
                self.quotes.remove(i);
                proof {
                    let before = old(self)@;
                    let after = self@;
                    assert(after =~= before.remove(i as int));
                    lemma_remove_melt_quote(before, i as int);
                    assert(!has_melt_quote(after, id)) by {
                        if has_melt_quote(after, id) {
                            let a = choose|a: int| 0 <= a < after.len() && (#[trigger] after[a]).id
                                == id;
                            let a0 = if a < i {
                                a
                            } else {
                                a + 1
                            };
                            if a0 < i {
                                assert(before[a0].id != before[i as int].id);
                            } else {
                                assert(before[i as int].id != before[a0].id);
                            }
                        }
                    }
                    assert forall|other: u128| other != id implies melt_quote_of(after, other)
                        == melt_quote_of(before, other) by {
                        if has_melt_quote(before, other) {
                            let b = choose|b: int| 0 <= b < before.len() && (
                            #[trigger] before[b]).id == other;
                            let a = if b < i {
                                b
                            } else {
                                b - 1
                            };
                            assert(after[a] == before[b]);
                            lemma_melt_quote_at(after, a);
                            lemma_melt_quote_at(before, b);
                        } else {
                            if has_melt_quote(after, other) {
                                let a = choose|a: int| 0 <= a < after.len() && (
                                #[trigger] after[a]).id == other;
                                let a0 = if a < i {
                                    a
                                } else {
                                    a + 1
                                };
                                assert(before[a0].id == other);
                            }
                        }
                    }
                }
            },
        }
    }
}

} // verus!
