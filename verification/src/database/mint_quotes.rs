//! The stored mint quotes, keyed by their id.

use vstd::prelude::*;

use crate::error::DatabaseError;
use crate::nuts::{MintQuote, MintQuoteState};

verus! {

/// Whether a quote with the id `id` is among `s`.
pub open spec fn has_mint_quote(s: Seq<MintQuote>, id: u128) -> bool {
    exists|i: int| 0 <= i < s.len() && (#[trigger] s[i]).id == id
}

/// Whether no two quotes of `s` share an id.
pub open spec fn distinct_mint_ids(s: Seq<MintQuote>) -> bool {
    forall|i: int, j: int| 0 <= i < j < s.len() ==> (#[trigger] s[i]).id != (#[trigger] s[j]).id
}

/// The quote with the id `id`, where one is stored.
pub open spec fn mint_quote_of(s: Seq<MintQuote>, id: u128) -> Option<MintQuote> {
    if has_mint_quote(s, id) {
        Some(s[choose|i: int| 0 <= i < s.len() && (#[trigger] s[i]).id == id])
    } else {
        None
    }
}

/// Whether a stored mint quote may go from `previous` to `next`: an unpaid
/// quote becomes paid, a paid quote becomes issued, and an issued quote goes
/// nowhere.
pub open spec fn mint_transition_allowed(previous: MintQuoteState, next: MintQuoteState) -> bool {
    match next {
        MintQuoteState::Unpaid => previous == MintQuoteState::Unpaid,
        MintQuoteState::Paid => previous == MintQuoteState::Unpaid,
        MintQuoteState::Issued => previous == MintQuoteState::Paid,
    }
}

/// The quote `q` in the state `state`.
pub open spec fn with_mint_state(q: MintQuote, state: MintQuoteState) -> MintQuote {
    MintQuote { state, ..q }
}

/// The quotes `s` with the one of the id `id` in the state `state`.
pub open spec fn set_mint_state(s: Seq<MintQuote>, id: u128, state: MintQuoteState) -> Seq<
    MintQuote,
> {
    Seq::new(
        s.len(),
        |i: int|
            if s[i].id == id {
                with_mint_state(s[i], state)
            } else {
                s[i]
            },
    )
}

/// The quotes `s` with the one that shares the id of `quote` replaced by
/// `quote`.
pub open spec fn replace_mint_quote(s: Seq<MintQuote>, quote: MintQuote) -> Seq<MintQuote> {
    Seq::new(
        s.len(),
        |i: int|
            if s[i].id == quote.id {
                quote
            } else {
                s[i]
            },
    )
}

/// Where the ids are distinct, the quote of an id is any quote that has it.
pub proof fn lemma_mint_quote_at(s: Seq<MintQuote>, i: int)
    requires
        distinct_mint_ids(s),
        0 <= i < s.len(),
    ensures
        has_mint_quote(s, s[i].id),
        mint_quote_of(s, s[i].id) == Some(s[i]),
{
    let id = s[i].id;
    assert(has_mint_quote(s, id));
    let j = choose|j: int| 0 <= j < s.len() && (#[trigger] s[j]).id == id;
    if j < i {
        assert(s[j].id != s[i].id);
    }
    if i < j {
        assert(s[i].id != s[j].id);
    }
}

/// The oldest quote of `s` whose invoice is `request`, where there is one.
pub open spec fn first_with_request(s: Seq<MintQuote>, request: Seq<char>) -> Option<MintQuote>
    decreases s.len(),
{
    if s.len() == 0 {
        None
    } else if s[0].request@ == request {
        Some(s[0])
    } else {
        first_with_request(s.drop_first(), request)
    }
}

/// The oldest quote of `s` whose invoice the backend knows as `lookup_id`,
/// where there is one.
pub open spec fn first_with_lookup_id(s: Seq<MintQuote>, lookup_id: Seq<char>) -> Option<
    MintQuote,
>
    decreases s.len(),
{
    if s.len() == 0 {
        None
    } else if s[0].request_lookup_id@ == lookup_id {
        Some(s[0])
    } else {
        first_with_lookup_id(s.drop_first(), lookup_id)
    }
}

/// A quote found by its invoice is one of the stored quotes.
pub proof fn lemma_first_with_request_stored(s: Seq<MintQuote>, request: Seq<char>)
    requires
        distinct_mint_ids(s),
    ensures
        first_with_request(s, request) matches Some(q) ==> q.request@ == request && mint_quote_of(
            s,
            q.id,
        ) == Some(q),
    decreases s.len(),
{
    if s.len() > 0 {
        if s[0].request@ == request {
            lemma_mint_quote_at(s, 0);
        } else {
            let rest = s.drop_first();
            assert(distinct_mint_ids(rest)) by {
                assert forall|i: int, j: int| 0 <= i < j < rest.len() implies (
                #[trigger] rest[i]).id != (#[trigger] rest[j]).id by {
                    assert(s[i + 1].id != s[j + 1].id);
                }
            }
            lemma_first_with_request_stored(rest, request);
            match first_with_request(rest, request) {
                Some(q) => {
                    assert(has_mint_quote(rest, q.id));
                    let i = choose|i: int| 0 <= i < rest.len() && (#[trigger] rest[i]).id == q.id;
                    lemma_mint_quote_at(rest, i);
                    assert(s[i + 1] == rest[i]);
                    lemma_mint_quote_at(s, i + 1);
                },
                None => {},
            }
        }
    }
}

/// A quote found by its lookup id is one of the stored quotes.
pub proof fn lemma_first_with_lookup_id_stored(s: Seq<MintQuote>, lookup_id: Seq<char>)
    requires
        distinct_mint_ids(s),
    ensures
        first_with_lookup_id(s, lookup_id) matches Some(q) ==> q.request_lookup_id@ == lookup_id
            && mint_quote_of(s, q.id) == Some(q),
    decreases s.len(),
{
    if s.len() > 0 {
        if s[0].request_lookup_id@ == lookup_id {
            lemma_mint_quote_at(s, 0);
        } else {
            let rest = s.drop_first();
            assert(distinct_mint_ids(rest)) by {
                assert forall|i: int, j: int| 0 <= i < j < rest.len() implies (
                #[trigger] rest[i]).id != (#[trigger] rest[j]).id by {
                    assert(s[i + 1].id != s[j + 1].id);
                }
            }
            lemma_first_with_lookup_id_stored(rest, lookup_id);
            match first_with_lookup_id(rest, lookup_id) {
                Some(q) => {
                    assert(has_mint_quote(rest, q.id));
                    let i = choose|i: int| 0 <= i < rest.len() && (#[trigger] rest[i]).id == q.id;
                    lemma_mint_quote_at(rest, i);
                    assert(s[i + 1] == rest[i]);
                    lemma_mint_quote_at(s, i + 1);
                },
                None => {},
            }
        }
    }
}

/// Whether every quote of `before` that is not unpaid is in `after` as it
/// was.
pub open spec fn paid_kept(before: Seq<MintQuote>, after: Seq<MintQuote>) -> bool {
    forall|id: u128|
        (#[trigger] mint_quote_of(before, id) matches Some(quote) && quote.state
            != MintQuoteState::Unpaid) ==> mint_quote_of(after, id) == mint_quote_of(before, id)
}

/// Quotes that keep their places and ids, and change only where they are
/// unpaid, keep every quote that is not unpaid.
pub proof fn lemma_paid_kept(before: Seq<MintQuote>, after: Seq<MintQuote>)
    requires
        distinct_mint_ids(before),
        after.len() == before.len(),
        forall|i: int| 0 <= i < before.len() ==> (#[trigger] after[i]).id == before[i].id,
        forall|i: int|
            0 <= i < before.len() && (#[trigger] before[i]).state != MintQuoteState::Unpaid
                ==> after[i] == before[i],
    ensures
        distinct_mint_ids(after),
        paid_kept(before, after),
{
    assert forall|a: int, b: int| 0 <= a < b < after.len() implies (#[trigger] after[a]).id != (
    #[trigger] after[b]).id by {
        assert(before[a].id != before[b].id);
    }
    assert forall|id: u128|
        (#[trigger] mint_quote_of(before, id) matches Some(quote) && quote.state
            != MintQuoteState::Unpaid) implies mint_quote_of(after, id) == mint_quote_of(
        before,
        id,
    ) by {
        let i = choose|i: int| 0 <= i < before.len() && (#[trigger] before[i]).id == id;
        lemma_mint_quote_at(before, i);
        assert(after[i] == before[i]);
        lemma_mint_quote_at(after, i);
    }
}

/// A filter that keeps every quote keeps the sequence.
pub proof fn lemma_keep_all_mint_quotes(s: Seq<MintQuote>, keep: spec_fn(MintQuote) -> bool)
    requires
        forall|i: int| 0 <= i < s.len() ==> keep(#[trigger] s[i]),
    ensures
        s.filter(keep) == s,
    decreases s.len(),
{
    reveal(Seq::filter);
    if s.len() > 0 {
        lemma_keep_all_mint_quotes(s.drop_last(), keep);
        assert(s.drop_last().push(s.last()) =~= s);
    }
}

/// Taking a quote out of its place leaves the quotes with other ids, in
/// their order, and these have distinct ids still.
pub proof fn lemma_remove_mint_quote(s: Seq<MintQuote>, i: int)
    requires
        distinct_mint_ids(s),
        0 <= i < s.len(),
    ensures
        s.remove(i) == s.filter(|quote: MintQuote| quote.id != s[i].id),
        distinct_mint_ids(s.remove(i)),
{
    let id = s[i].id;
    let keep = |quote: MintQuote| quote.id != id;
    let front = s.take(i);
    let back = s.skip(i + 1);
    assert(s =~= front + seq![s[i]] + back);
    Seq::filter_distributes_over_add(front + seq![s[i]], back, keep);
    Seq::filter_distributes_over_add(front, seq![s[i]], keep);
    assert forall|j: int| 0 <= j < front.len() implies keep(#[trigger] front[j]) by {
        assert(s[j].id != s[i].id);
    }
    assert forall|j: int| 0 <= j < back.len() implies keep(#[trigger] back[j]) by {
        assert(s[i].id != s[i + 1 + j].id);
    }
    lemma_keep_all_mint_quotes(front, keep);
    lemma_keep_all_mint_quotes(back, keep);
    assert(seq![s[i]].filter(keep) =~= Seq::empty()) by {
        reveal_with_fuel(Seq::filter, 2);
        assert(seq![s[i]].drop_last() =~= Seq::<MintQuote>::empty());
    }
    assert(s.remove(i) =~= front + back);
    assert(front + Seq::<MintQuote>::empty() + back =~= front + back);
    let r = s.remove(i);
    assert forall|a: int, b: int| 0 <= a < b < r.len() implies (#[trigger] r[a]).id != (
    #[trigger] r[b]).id by {
        let a0 = if a < i {
            a
        } else {
            a + 1
        };
        let b0 = if b < i {
            b
        } else {
            b + 1
        };
        assert(s[a0].id != s[b0].id);
    }
}

/// The mint quotes of the store: each id at most once.
pub struct MintQuoteTable {
    quotes: Vec<MintQuote>,
}

impl View for MintQuoteTable {
    type V = Seq<MintQuote>;

    closed spec fn view(&self) -> Seq<MintQuote> {
        self.quotes@
    }
}

/// Whether a quote in the state `next` may be stored in place of one in
/// the state `stored`: always, but that a quote that is `Issued` stays so.
pub open spec fn mint_overwrite_allowed(stored: MintQuoteState, next: MintQuoteState) -> bool {
    stored == next || stored != MintQuoteState::Issued
}

impl MintQuoteTable {
    /// Whether no id is stored twice.
    pub open spec fn wf(&self) -> bool {
        distinct_mint_ids(self@)
    }

    /// A table without quotes.
    pub fn new() -> (r: MintQuoteTable)
        ensures
            r.wf(),
            r@ == Seq::<MintQuote>::empty(),
    {
        MintQuoteTable { quotes: Vec::new() }
    }

    /// The place of the quote with the id `id`, where one is stored.
    pub fn find(&self, id: u128) -> (r: Option<usize>)
        ensures
            match r {
                Some(i) => i < self@.len() && self@[i as int].id == id,
                None => !has_mint_quote(self@, id),
            },
    {
        let mut i: usize = 0;
        while i < self.quotes.len()
            invariant
                0 <= i <= self.quotes.len(),
                forall|j: int| 0 <= j < i ==> (#[trigger] self.quotes@[j]).id != id,
            decreases self.quotes.len() - i,
        {
            if self.quotes[i].id == id {
                return Some(i);
            }
            i = i + 1;
        }
        None
    }

    /// The quote with the id `id`, where one is stored.
    pub fn get_mint_quote(&self, id: u128) -> (r: Option<MintQuote>)
        requires
            self.wf(),
        ensures
            r == mint_quote_of(self@, id),
    {
        match self.find(id) {
            Some(i) => {
                proof {
                    lemma_mint_quote_at(self@, i as int);
                }
                Some(self.quotes[i].duplicate())
            },
            None => None,
        }
    }

    /// All stored quotes, oldest first.
    pub fn get_mint_quotes(&self) -> (r: Vec<MintQuote>)
        ensures
            r@ == self@,
    {
        let mut all: Vec<MintQuote> = Vec::new();
        let mut i: usize = 0;
        while i < self.quotes.len()
            invariant
                0 <= i <= self.quotes.len(),
                all@ == self@.take(i as int),
            decreases self.quotes.len() - i,
        {
            all.push(self.quotes[i].duplicate());
            i = i + 1;
            assert(all@ =~= self@.take(i as int));
        }
        assert(self@.take(i as int) =~= self@);
        all
    }

    /// Stores `quote`: as a new quote where its id is not stored, else in
    /// place of the stored quote of that id, whatever state either is in.
    /// Only a stored quote that is `Issued` keeps its state: where `quote`
    /// would take it out of that state nothing is stored and the error is
    /// `InvalidStateTransition`.
    pub fn add_mint_quote(&mut self, quote: MintQuote) -> (r: Result<(), DatabaseError>)
        requires
            old(self).wf(),
        ensures
            final(self).wf(),
            match mint_quote_of(old(self)@, quote.id) {
                None => r is Ok && final(self)@ == old(self)@.push(quote),
                Some(stored) => if mint_overwrite_allowed(stored.state, quote.state) {
                    r is Ok && final(self)@ == replace_mint_quote(old(self)@, quote)
                } else {
                    r == Err::<(), DatabaseError>(DatabaseError::InvalidStateTransition)
                        && final(self)@ == old(self)@
                },
            },
    {
        match self.find(quote.id) {
            Some(i) => {
                proof {
                    lemma_mint_quote_at(self@, i as int);
                }
                let stored = self.quotes[i].state;
                if stored == quote.state || stored != MintQuoteState::Issued {
                    self.quotes.set(i, quote);
                    proof {
                        let replaced = replace_mint_quote(old(self)@, quote);
                        assert forall|j: int| 0 <= j < self@.len() implies self@[j]
                            == replaced[j] by {
                            if j != i {
                                if j < i {
                                    assert(old(self)@[j].id != old(self)@[i as int].id);
                                } else {
                                    assert(old(self)@[i as int].id != old(self)@[j].id);
                                }
                            }
                        }
                        assert(self@ =~= replaced);
                        assert forall|a: int, b: int| 0 <= a < b < self@.len() implies (
                        #[trigger] self@[a]).id != (#[trigger] self@[b]).id by {
                            assert(old(self)@[a].id != old(self)@[b].id);
                        }
                    }
                    Ok(())
                } else {
                    Err(DatabaseError::InvalidStateTransition)
                }
            },
            None => {
                self.quotes.push(quote);
                proof {
                    assert forall|a: int, b: int| 0 <= a < b < self@.len() implies (
                    #[trigger] self@[a]).id != (#[trigger] self@[b]).id by {
                        if b == self@.len() - 1 {
                            assert(old(self)@[a].id != quote.id);
                        } else {
                            assert(old(self)@[a].id != old(self)@[b].id);
                        }
                    }
                }
                Ok(())
            },
        }
    }

    /// Moves the quote with the id `id` to `state` where the quote may go
    /// there, and hands back the state it was in and the quote as it was.
    /// Where it may not go there the table stays as it is, and the caller
    /// learns so from the state handed back. The error is `UnknownQuote`
    /// where no quote has the id.
    pub fn update_mint_quote_state(&mut self, id: u128, state: MintQuoteState) -> (r: Result<
        (MintQuoteState, MintQuote),
        DatabaseError,
    >)
        requires
            old(self).wf(),
        ensures
            final(self).wf(),
            match mint_quote_of(old(self)@, id) {
                None => r == Err::<(MintQuoteState, MintQuote), DatabaseError>(
                    DatabaseError::UnknownQuote,
                ) && final(self)@ == old(self)@,
                Some(stored) => r == Ok::<(MintQuoteState, MintQuote), DatabaseError>(
                    (stored.state, stored),
                ) && final(self)@ == if mint_transition_allowed(stored.state, state) {
                    set_mint_state(old(self)@, id, state)
                } else {
                    old(self)@
                },
            },
    {
        match self.find(id) {
            None => Err(DatabaseError::UnknownQuote),
            Some(i) => {
                proof {
                    lemma_mint_quote_at(self@, i as int);
                }
                let stored = self.quotes[i].duplicate();
                let previous = stored.state;
                let allowed = match state {
                    MintQuoteState::Unpaid => match previous {
                        MintQuoteState::Unpaid => true,
                        _ => false,
                    },
                    MintQuoteState::Paid => match previous {
                        MintQuoteState::Unpaid => true,
                        _ => false,
                    },
                    MintQuoteState::Issued => match previous {
                        MintQuoteState::Paid => true,
                        _ => false,
                    },
                };
                if allowed {
                    let mut changed = stored.duplicate();
                    changed.state = state;
                    self.quotes.set(i, changed);
                    proof {
                        let target = set_mint_state(old(self)@, id, state);
                        assert forall|j: int| 0 <= j < self@.len() implies self@[j]
                            == target[j] by {
                            if j != i {
                                if j < i {
                                    assert(old(self)@[j].id != old(self)@[i as int].id);
                                } else {
                                    assert(old(self)@[i as int].id != old(self)@[j].id);
                                }
                            }
                        }
                        assert(self@ =~= target);
                        assert forall|a: int, b: int| 0 <= a < b < self@.len() implies (
                        #[trigger] self@[a]).id != (#[trigger] self@[b]).id by {
                            assert(old(self)@[a].id != old(self)@[b].id);
                        }
                    }
                }
                Ok((previous, stored))
            },
        }
    }

    /// The oldest quote whose invoice is `request`, where there is one.
    pub fn get_mint_quote_by_request(&self, request: &String) -> (r: Option<MintQuote>)
        ensures
            r == first_with_request(self@, request@),
    {
        let mut i: usize = 0;
        assert(self@.skip(0) =~= self@);
        while i < self.quotes.len()
            invariant
                0 <= i <= self.quotes.len(),
                first_with_request(self@, request@) == first_with_request(
                    self@.skip(i as int),
                    request@,
                ),
            decreases self.quotes.len() - i,
        {
            proof {
                assert(self@.skip(i as int).drop_first() =~= self@.skip(i + 1));
            }
            if self.quotes[i].request == *request {
                return Some(self.quotes[i].duplicate());
            }
            i = i + 1;
        }
        None
    }

    /// The oldest quote whose invoice the backend knows as `lookup_id`,
    /// where there is one.
    pub fn get_mint_quote_by_request_lookup_id(&self, lookup_id: &String) -> (r: Option<MintQuote>)
        ensures
            r == first_with_lookup_id(self@, lookup_id@),
    {
        let mut i: usize = 0;
        assert(self@.skip(0) =~= self@);
        while i < self.quotes.len()
            invariant
                0 <= i <= self.quotes.len(),
                first_with_lookup_id(self@, lookup_id@) == first_with_lookup_id(
                    self@.skip(i as int),
                    lookup_id@,
                ),
            decreases self.quotes.len() - i,
        {
            proof {
                assert(self@.skip(i as int).drop_first() =~= self@.skip(i + 1));
            }
            if self.quotes[i].request_lookup_id == *lookup_id {
                return Some(self.quotes[i].duplicate());
            }
            i = i + 1;
        }
        None
    }

    /// Takes out the quote with the id `id`, where one is stored. The
    /// others stay as they are and in their order.
    pub fn remove_mint_quote(&mut self, id: u128)
        requires
            old(self).wf(),
        ensures
            final(self).wf(),
            final(self)@ == old(self)@.filter(|quote: MintQuote| quote.id != id),
            !has_mint_quote(final(self)@, id),
            forall|other: u128|
                other != id ==> mint_quote_of(final(self)@, other) == mint_quote_of(
                    old(self)@,
                    other,
                ),
    {
        let ghost keep = |quote: MintQuote| quote.id != id;
        match self.find(id) {
            None => {
                proof {
                    assert forall|j: int| 0 <= j < self@.len() implies keep(#[trigger] self@[j]) by {
                        assert(self@[j].id != id);
                    }
                    lemma_keep_all_mint_quotes(self@, keep);
                }
            },
            Some(i) => {
                self.quotes.remove(i);
                proof {
                    let before = old(self)@;
                    let after = self@;
                    assert(after =~= before.remove(i as int));
                    lemma_remove_mint_quote(before, i as int);
                    assert(!has_mint_quote(after, id)) by {
                        if has_mint_quote(after, id) {
                            let a = choose|a: int| 0 <= a < after.len() && (#[trigger] after[a]).id
                                == id;
                            let a0 = if a < i {
                                a
                            } else {
                                a + 1
                            };
                            if a0 < i {
                                assert(before[a0].id != before[i as int].id);
                            } else {
                                assert(before[i as int].id != before[a0].id);
                            }
                        }
                    }
                    assert forall|other: u128| other != id implies mint_quote_of(after, other)
                        == mint_quote_of(before, other) by {
                        if has_mint_quote(before, other) {
                            let b = choose|b: int| 0 <= b < before.len() && (
                            #[trigger] before[b]).id == other;
                            let a = if b < i {
                                b
                            } else {
                                b - 1
                            };
                            assert(after[a] == before[b]);
                            lemma_mint_quote_at(after, a);
                            lemma_mint_quote_at(before, b);
                        } else {
                            if has_mint_quote(after, other) {
                                let a = choose|a: int| 0 <= a < after.len() && (
                                #[trigger] after[a]).id == other;
                                let a0 = if a < i {
                                    a
                                } else {
                                    a + 1
                                };
                                assert(before[a0].id == other);
                            }
                        }
                    }
                }
            },
        }
    }
}

} // verus!
