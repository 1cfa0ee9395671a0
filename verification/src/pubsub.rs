//! What subscribers are told: the log of state changes, in the order in
//! which the changes were stored, and the subscribers that the log is handed
//! to, each by its topics.

use vstd::prelude::*;

use crate::dhke::PublicKey;
use crate::nuts::{MeltQuoteState, MintQuoteState, State};

verus! {

/// A change of state that subscribers are told of.
#[derive(Clone, Copy, Debug, PartialEq, Eq)]
pub enum NotificationPayload {
    /// The proof with the given point is now in the given state.
    ProofState(PublicKey, State),
    /// The melt quote with the given id is now in the given state.
    MeltQuote(u128, MeltQuoteState),
    /// The mint quote with the given id is now in the given state.
    MintQuote(u128, MintQuoteState),
}

/// The notifications that tell that the proofs `ys` are in `state`.
pub open spec fn proof_notifications(ys: Seq<PublicKey>, state: State) -> Seq<NotificationPayload> {
    Seq::new(ys.len(), |k: int| NotificationPayload::ProofState(ys[k], state))
}

/// The notifications that wait to be handed to the subscribers.
pub struct PubSubManager {
    pending: Vec<NotificationPayload>,
}

impl View for PubSubManager {
    type V = Seq<NotificationPayload>;

    closed spec fn view(&self) -> Seq<NotificationPayload> {
        self.pending@
    }
}

impl PubSubManager {
    /// A manager with nothing to tell.
    pub fn new() -> (r: PubSubManager)
        ensures
            r@ == Seq::<NotificationPayload>::empty(),
    {
        PubSubManager { pending: Vec::new() }
    }

    /// Tells that the proof with the point `y` is in `state`.
    pub fn proof_state(&mut self, y: PublicKey, state: State)
        ensures
            final(self)@ == old(self)@.push(NotificationPayload::ProofState(y, state)),
    {
        self.pending.push(NotificationPayload::ProofState(y, state));
    }

    /// Tells that the proofs `ys` are in `state`, in the order of `ys`.
    pub fn proof_states(&mut self, ys: &Vec<PublicKey>, state: State)
        ensures
            final(self)@ == old(self)@ + proof_notifications(ys@, state),
    {
        let mut k: usize = 0;
        while k < ys.len()
            invariant
                0 <= k <= ys.len(),
                self@ == old(self)@ + proof_notifications(ys@, state).take(k as int),
            decreases ys.len() - k,
        {
            self.pending.push(NotificationPayload::ProofState(ys[k], state));
            k = k + 1;
            assert(self@ =~= old(self)@ + proof_notifications(ys@, state).take(k as int));
        }
        assert(proof_notifications(ys@, state).take(k as int) =~= proof_notifications(ys@, state));
    }

    /// Tells that the melt quote `quote` is in `state`.
    pub fn melt_quote_status(&mut self, quote: u128, state: MeltQuoteState)
        ensures
            final(self)@ == old(self)@.push(NotificationPayload::MeltQuote(quote, state)),
    {
        self.pending.push(NotificationPayload::MeltQuote(quote, state));
    }

    /// Tells that the mint quote `quote` is in `state`.
    pub fn mint_quote_status(&mut self, quote: u128, state: MintQuoteState)
        ensures
            final(self)@ == old(self)@.push(NotificationPayload::MintQuote(quote, state)),
    {
        self.pending.push(NotificationPayload::MintQuote(quote, state));
    }

    /// Hands out what waits to be told, oldest first, and forgets it.
    pub fn take_notifications(&mut self) -> (r: Vec<NotificationPayload>)
        ensures
            r@ == old(self)@,
            final(self)@ == Seq::<NotificationPayload>::empty(),
    {
        let mut taken: Vec<NotificationPayload> = Vec::new();
        std::mem::swap(&mut taken, &mut self.pending);
        taken
    }
}

/// What a subscriber asks to be told of: the states of one proof or of one
/// quote.
#[derive(Clone, Copy, Debug, PartialEq, Eq)]
pub enum Topic {
    /// The proof with the given point.
    ProofState(PublicKey),
    /// The melt quote with the given id.
    MeltQuote(u128),
    /// The mint quote with the given id.
    MintQuote(u128),
}

/// The topic that a notification belongs to.
pub open spec fn topic_of(notification: NotificationPayload) -> Topic {
    match notification {
        NotificationPayload::ProofState(y, _) => Topic::ProofState(y),
        NotificationPayload::MeltQuote(quote, _) => Topic::MeltQuote(quote),
        NotificationPayload::MintQuote(quote, _) => Topic::MintQuote(quote),
    }
}

/// Those of `notifications` that belong to one of the topics `filter`, in
/// order.
pub open spec fn wanted(filter: Seq<Topic>, notifications: Seq<NotificationPayload>) -> Seq<
    NotificationPayload,
> {
    notifications.filter(|n: NotificationPayload| filter.contains(topic_of(n)))
}

/// A subscriber: the topics it asked for and what waits to be handed to it.
pub struct Subscription {
    pub id: u64,
    pub filter: Seq<Topic>,
    pub inbox: Seq<NotificationPayload>,
}

struct Subscriber {
    id: u64,
    filter: Vec<Topic>,
    inbox: Vec<NotificationPayload>,
}

/// The subscribers of a mint. Each is handed, in the order of publication,
/// the notifications that belong to its topics and were published while it
/// was subscribed.
pub struct Subscribers {
    list: Vec<Subscriber>,
    next_id: u64,
}

/// The subscribers of a mint as a value: those subscribed, oldest first,
/// and how many subscriptions have been handed out, ended ones included.
pub struct SubscribersView {
    /// Those subscribed, oldest first.
    pub list: Seq<Subscription>,
    /// How many subscriptions have been handed out.
    pub issued: u64,
}

impl View for Subscribers {
    type V = SubscribersView;

    closed spec fn view(&self) -> SubscribersView {
        SubscribersView {
            list: Seq::new(
                self.list@.len(),
                |i: int|
                    Subscription {
                        id: self.list@[i].id,
                        filter: self.list@[i].filter@,
                        inbox: self.list@[i].inbox@,
                    },
            ),
            issued: self.next_id,
        }
    }
}

/// Whether a subscriber with the id `id` is among `s`.
pub open spec fn is_subscribed(s: Seq<Subscription>, id: u64) -> bool {
    exists|i: int| 0 <= i < s.len() && (#[trigger] s[i]).id == id
}

/// Whether no two subscribers of `s` share an id.
pub open spec fn distinct_subscribers(s: Seq<Subscription>) -> bool {
    forall|i: int, j: int| 0 <= i < j < s.len() ==> (#[trigger] s[i]).id != (#[trigger] s[j]).id
}

/// The subscribers `s` after `notifications` are published: each has those
/// it asked for appended to what waits for it.
pub open spec fn published(s: Seq<Subscription>, notifications: Seq<NotificationPayload>) -> Seq<
    Subscription,
> {
    Seq::new(
        s.len(),
        |i: int|
            Subscription {
                id: s[i].id,
                filter: s[i].filter,
                inbox: s[i].inbox + wanted(s[i].filter, notifications),
            },
    )
}

/// The subscribers `s` with the inbox of the subscriber `id` emptied.
pub open spec fn emptied(s: Seq<Subscription>, id: u64) -> Seq<Subscription> {
    Seq::new(
        s.len(),
        |i: int|
            if s[i].id == id {
                Subscription { id, filter: s[i].filter, inbox: Seq::empty() }
            } else {
                s[i]
            },
    )
}

fn topic_matches(topic: &Topic, notification: &NotificationPayload) -> (r: bool)
    ensures
        r == (*topic == topic_of(*notification)),
{
    match (topic, notification) {
        (Topic::ProofState(a), NotificationPayload::ProofState(b, _)) => a.same(b),
        (Topic::MeltQuote(a), NotificationPayload::MeltQuote(b, _)) => *a == *b,
        (Topic::MintQuote(a), NotificationPayload::MintQuote(b, _)) => *a == *b,
        _ => false,
    }
}

fn is_wanted(filter: &Vec<Topic>, notification: &NotificationPayload) -> (r: bool)
    ensures
        r == filter@.contains(topic_of(*notification)),
{
    let mut i: usize = 0;
    while i < filter.len()
        invariant
            0 <= i <= filter.len(),
            forall|j: int| 0 <= j < i ==> filter@[j] != topic_of(*notification),
        decreases filter.len() - i,
    {
        if topic_matches(&filter[i], notification) {
            return true;
        }
        i = i + 1;
    }
    false
}

impl Subscribers {
    /// How many subscriptions have been handed out, ended ones included. It
    /// is the id that the next subscription gets: ids are handed out from
    /// zero upwards and never twice.
    pub open spec fn issued(&self) -> u64 {
        self@.issued
    }

    /// Whether no two subscribers share an id and every id was handed out.
    pub open spec fn wf(&self) -> bool {
        &&& distinct_subscribers(self@.list)
        &&& forall|i: int| 0 <= i < self@.list.len()
            ==> (#[trigger] self@.list[i]).id < self.issued()
    }

    /// No subscribers, and no id handed out yet.
    pub fn new() -> (r: Subscribers)
        ensures
            r.wf(),
            r@.list == Seq::<Subscription>::empty(),
            r.issued() == 0,
    {
        let r = Subscribers { list: Vec::new(), next_id: 0 };
        assert(r@.list =~= Seq::empty());
        r
    }

    /// Subscribes to the topics `filter` and hands back the id of the
    /// subscription: the number of subscriptions handed out before it, which
    /// no subscriber has. Nothing waits for a new subscriber. Nothing is
    /// handed back, and nobody subscribed, once all ids below the largest
    /// number are used up.
    pub fn subscribe(&mut self, filter: Vec<Topic>) -> (r: Option<u64>)
        requires
            old(self).wf(),
        ensures
            final(self).wf(),
            r == if old(self).issued() < u64::MAX {
                Some(old(self).issued())
            } else {
                None
            },
            final(self).issued() == if r is Some {
                (old(self).issued() + 1) as u64
            } else {
                old(self).issued()
            },
            match r {
                Some(id) => !is_subscribed(old(self)@.list, id)
                    && final(self)@.list == old(self)@.list.push(
                    Subscription { id, filter: filter@, inbox: Seq::empty() },
                ),
                None => final(self)@.list == old(self)@.list,
            },
    {
        if self.next_id == u64::MAX {
            return None;
        }
        let id = self.next_id;
        self.list.push(Subscriber { id, filter, inbox: Vec::new() });
        self.next_id = id + 1;
        proof {
            assert(self@.list =~= old(self)@.list.push(
                Subscription { id, filter: filter@, inbox: Seq::empty() },
            ));
            assert forall|i: int, j: int| 0 <= i < j < self@.list.len()
                implies (#[trigger] self@.list[i]).id
                != (#[trigger] self@.list[j]).id by {
                if j < old(self)@.list.len() {
                    assert(old(self)@.list[i].id != old(self)@.list[j].id);
                } else {
                    assert(old(self)@.list[i].id < id);
                }
            }
            assert forall|i: int| 0 <= i < self@.list.len() implies (#[trigger] self@.list[i]).id
                < self.next_id by {
                if i < old(self)@.list.len() {
                    assert(old(self)@.list[i].id < id);
                }
            }
            if is_subscribed(old(self)@.list, id) {
                let i = choose|i: int| 0 <= i < old(self)@.list.len()
                    && (#[trigger] old(self)@.list[i]).id
                    == id;
                assert(old(self)@.list[i].id < id);
            }
        }
        Some(id)
    }

    /// Ends the subscription `id` and says whether there was one. What
    /// waited for the subscriber is dropped; the others are as they were.
    pub fn unsubscribe(&mut self, id: u64) -> (r: bool)
        requires
            old(self).wf(),
        ensures
            final(self).wf(),
            r == is_subscribed(old(self)@.list, id),
            final(self)@.list == old(self)@.list.filter(|s: Subscription| s.id != id),
            final(self).issued() == old(self).issued(),
    {
        let ghost keep = |s: Subscription| s.id != id;
        let mut i: usize = 0;
        while i < self.list.len()
            invariant
                0 <= i <= self.list.len(),
                self.wf(),
                self@.list == old(self)@.list,
                self.next_id == old(self).next_id,
                keep == |s: Subscription| s.id != id,
                forall|j: int| 0 <= j < i ==> (#[trigger] self@.list[j]).id != id,
            decreases self.list.len() - i,
        {
            assert(self@.list[i as int].id == self.list@[i as int].id);
            if self.list[i].id == id {
                let ghost before = self@.list;
                self.list.remove(i);
                proof {
                    assert(self@.list =~= before.remove(i as int));
                    lemma_remove_subscriber(before, i as int, id);
                    assert forall|a: int| 0 <= a < self@.list.len()
                        implies (#[trigger] self@.list[a]).id
                        < self.next_id by {
                        let a0 = if a < i {
                            a
                        } else {
                            a + 1
                        };
                        assert(before[a0].id < self.next_id);
                    }
                }
                return true;
            }
            i = i + 1;
        }
        proof {
            lemma_keep_all_subscribers(self@.list, keep);
        }
        false
    }

    /// Hands `notifications` to the subscribers: each is left, in order and
    /// after what waits for it already, those that belong to its topics.
    pub fn publish(&mut self, notifications: &Vec<NotificationPayload>)
        requires
            old(self).wf(),
        ensures
            final(self).wf(),
            final(self)@.list == published(old(self)@.list, notifications@),
            final(self).issued() == old(self).issued(),
    {
        let mut i: usize = 0;
        while i < self.list.len()
            invariant
                0 <= i <= self.list.len(),
                old(self).wf(),
                self.next_id == old(self).next_id,
                self@.list.len() == old(self)@.list.len(),
                forall|j: int| 0 <= j < i
                    ==> self@.list[j] == published(old(self)@.list, notifications@)[j],
                forall|j: int| i <= j < self@.list.len() ==> self@.list[j] == old(self)@.list[j],
            decreases self.list.len() - i,
        {
            let ghost filter = self.list@[i as int].filter@;
            let ghost start = self@.list;
            assert(start[i as int].filter == filter);
            assert(wanted(filter, notifications@.take(0)) =~= Seq::empty()) by {
                reveal(Seq::filter);
            }
            assert(start[i as int].inbox + Seq::<NotificationPayload>::empty()
                =~= start[i as int].inbox);
            let mut k: usize = 0;
            while k < notifications.len()
                invariant
                    0 <= k <= notifications.len(),
                    0 <= i < self.list.len(),
                    self.next_id == old(self).next_id,
                    self@.list.len() == start.len(),
                    filter == start[i as int].filter,
                    forall|j: int| 0 <= j < self@.list.len() && j != i
                        ==> self@.list[j] == start[j],
                    self@.list[i as int].id == start[i as int].id,
                    self@.list[i as int].filter == filter,
                    self@.list[i as int].inbox == start[i as int].inbox + wanted(
                        filter,
                        notifications@.take(k as int),
                    ),
                decreases notifications.len() - k,
            {
                proof {
                    reveal(Seq::filter);
                    assert(notifications@.take(k + 1).drop_last() =~= notifications@.take(
                        k as int,
                    ));
                }
                let ghost before = self@.list;
                assert(before[i as int].filter == self.list@[i as int].filter@);
                if is_wanted(&self.list[i].filter, &notifications[k]) {
                    self.list[i].inbox.push(notifications[k]);
                }
                proof {
                    assert forall|j: int| 0 <= j < self@.list.len() && j != i implies self@.list[j]
                        == start[j] by {
                        assert(self@.list[j] == before[j]);
                    }
                    assert(self@.list[i as int].inbox =~= start[i as int].inbox + wanted(
                        filter,
                        notifications@.take(k + 1),
                    ));
                }
                k = k + 1;
            }
            proof {
                assert(notifications@.take(k as int) =~= notifications@);
                assert(start[i as int] == old(self)@.list[i as int]);
                assert(self@.list[i as int]
                    == published(old(self)@.list, notifications@)[i as int]);
                assert forall|j: int| 0 <= j < i implies self@.list[j] == published(
                    old(self)@.list,
                    notifications@,
                )[j] by {
                    assert(self@.list[j] == start[j]);
                }
            }
            i = i + 1;
        }
        proof {
            assert(self@.list =~= published(old(self)@.list, notifications@));
            assert forall|a: int, b: int| 0 <= a < b < self@.list.len()
                implies (#[trigger] self@.list[a]).id
                != (#[trigger] self@.list[b]).id by {
                assert(old(self)@.list[a].id != old(self)@.list[b].id);
            }
            assert forall|a: int| 0 <= a < self@.list.len() implies (#[trigger] self@.list[a]).id
                < self.next_id by {
                assert(old(self)@.list[a].id < self.next_id);
            }
        }
    }

    /// Hands out what waits for the subscriber `id`, oldest first, and
    /// forgets it; nothing where nobody has the id.
    pub fn take(&mut self, id: u64) -> (r: Vec<NotificationPayload>)
        requires
            old(self).wf(),
        ensures
            final(self).wf(),
            final(self)@.list == emptied(old(self)@.list, id),
            final(self).issued() == old(self).issued(),
            forall|i: int|
                0 <= i < old(self)@.list.len() && (#[trigger] old(self)@.list[i]).id == id
                    ==> r@ == old(
                    self,
                )@.list[i].inbox,
            !is_subscribed(old(self)@.list, id) ==> r@ == Seq::<NotificationPayload>::empty(),
    {
        let mut taken: Vec<NotificationPayload> = Vec::new();
        let mut i: usize = 0;
        while i < self.list.len()
            invariant
                0 <= i <= self.list.len(),
                self.wf(),
                self@.list == old(self)@.list,
                self.next_id == old(self).next_id,
                taken@ == Seq::<NotificationPayload>::empty(),
                forall|j: int| 0 <= j < i ==> (#[trigger] self@.list[j]).id != id,
            decreases self.list.len() - i,
        {
            assert(self@.list[i as int].id == self.list@[i as int].id);
            if self.list[i].id == id {
                let ghost before = self@.list;
                std::mem::swap(&mut taken, &mut self.list[i].inbox);
                proof {
                    assert forall|j: int| 0 <= j < self@.list.len()
                        implies self@.list[j] == emptied(
                        before,
                        id,
                    )[j] by {
                        if j != i {
                            if j < i {
                                assert(before[j].id != before[i as int].id);
                            } else {
                                assert(before[i as int].id != before[j].id);
                            }
                        }
                    }
                    assert(self@.list =~= emptied(before, id));
                    assert forall|a: int, b: int| 0 <= a < b < self@.list.len() implies (
                    #[trigger] self@.list[a]).id != (#[trigger] self@.list[b]).id by {
                        assert(before[a].id != before[b].id);
                    }
                    assert forall|a: int| 0 <= a < self@.list.len()
                        implies (#[trigger] self@.list[a]).id
                        < self.next_id by {
                        assert(before[a].id < self.next_id);
                    }
                    assert forall|j: int|
                        0 <= j < before.len() && (#[trigger] before[j]).id == id implies taken@
                        == before[j].inbox by {
                        if j < i {
                            assert(before[j].id != before[i as int].id);
                        } else if j > i {
                            assert(before[i as int].id != before[j].id);
                        }
                    }
                }
                return taken;
            }
            i = i + 1;
        }
        proof {
            assert(self@.list =~= emptied(self@.list, id));
        }
        taken
    }
}

proof fn lemma_remove_subscriber(s: Seq<Subscription>, i: int, id: u64)
    requires
        distinct_subscribers(s),
        0 <= i < s.len(),
        s[i].id == id,
    ensures
        s.remove(i) == s.filter(|x: Subscription| x.id != id),
        distinct_subscribers(s.remove(i)),
        is_subscribed(s, id),
{
    let keep = |x: Subscription| x.id != id;
    let front = s.take(i);
    let back = s.skip(i + 1);
    assert(s =~= front + seq![s[i]] + back);
    Seq::filter_distributes_over_add(front + seq![s[i]], back, keep);
    Seq::filter_distributes_over_add(front, seq![s[i]], keep);
    assert forall|j: int| 0 <= j < front.len() implies keep(#[trigger] front[j]) by {
        assert(s[j].id != s[i].id);
    }
    assert forall|j: int| 0 <= j < back.len() implies keep(#[trigger] back[j]) by {
        assert(s[i].id != s[i + 1 + j].id);
    }
    lemma_keep_all_subscribers(front, keep);
    lemma_keep_all_subscribers(back, keep);
    assert(seq![s[i]].filter(keep) =~= Seq::empty()) by {
        reveal_with_fuel(Seq::filter, 2);
        assert(seq![s[i]].drop_last() =~= Seq::<Subscription>::empty());
    }
    assert(s.remove(i) =~= front + back);
    assert(front + Seq::<Subscription>::empty() + back =~= front + back);
    let r = s.remove(i);
    assert forall|a: int, b: int| 0 <= a < b < r.len() implies (#[trigger] r[a]).id != (
    #[trigger] r[b]).id by {
        let a0 = if a < i {
            a
        } else {
            a + 1
        };
        let b0 = if b < i {
            b
        } else {
            b + 1
        };
        assert(s[a0].id != s[b0].id);
    }
}

proof fn lemma_keep_all_subscribers(s: Seq<Subscription>, keep: spec_fn(Subscription) -> bool)
    requires
        forall|i: int| 0 <= i < s.len() ==> keep(#[trigger] s[i]),
    ensures
        s.filter(keep) == s,
    decreases s.len(),
{
    reveal(Seq::filter);
    if s.len() > 0 {
        lemma_keep_all_subscribers(s.drop_last(), keep);
        assert(s.drop_last().push(s.last()) =~= s);
    }
}

} // verus!
