//! A connection over a whole run of what the hub hands it, and the laws that
//! hold of every such run.

use crate::filter::{admits, lists};
use crate::session::{Decision, SessionModel, SessionState, MAX_CONSECUTIVE_FAILURES};
use vstd::prelude::*;

verus! {

/// One thing the hub hands to a connection.
pub enum HubItem<D> {
    /// An event with discriminant `tag`. `sent` says whether its transmission
    /// succeeds, should the connection try it.
    Event { tag: D, sent: bool },
    /// The notice that no more events will come.
    Lost,
}

impl<D: PartialEq> SessionModel<D> {
    /// Whether the connection, as it stands, gets `item` to its client.
    pub open spec fn delivers(self, item: HubItem<D>) -> bool {
        item matches HubItem::Event { tag, sent } && self.decide(tag) == Decision::Transmit && sent
    }

    /// The connection after it was handed `item` and, where it decided to
    /// transmit, after the transmission.
    pub open spec fn feed(self, item: HubItem<D>) -> Self {
        match item {
            HubItem::Lost => self.on_hub_lost(),
            HubItem::Event { tag, sent } => if self.decide(tag) == Decision::Transmit {
                self.on_event().on_sent(sent)
            } else {
                self.on_event()
            },
        }
    }

    /// The connection after it was handed all of `items`, first to last.
    pub open spec fn run(self, items: Seq<HubItem<D>>) -> Self
        decreases items.len(),
    {
        if items.len() == 0 {
            self
        } else {
            self.run(items.drop_last()).feed(items.last())
        }
    }

    /// The places in `items` of the events that reach the client, in the order
    /// in which they reach it.
    pub open spec fn delivered(self, items: Seq<HubItem<D>>) -> Seq<int>
        decreases items.len(),
    {
        if items.len() == 0 {
            Seq::empty()
        } else if self.run(items.drop_last()).delivers(items.last()) {
            self.delivered(items.drop_last()).push(items.len() - 1)
        } else {
            self.delivered(items.drop_last())
        }
    }
}

impl<D> SessionModel<D> {
    /// The connection after `n` transmissions in a row have failed.
    pub open spec fn after_failures(self, n: nat) -> Self
        decreases n,
    {
        if n == 0 {
            self
        } else {
            self.after_failures((n - 1) as nat).on_sent(false)
        }
    }
}

/// A run never changes the filter, and leaves a counter that was within
/// bounds within them.
pub proof fn lemma_run_keeps_filter<D: PartialEq>(m: SessionModel<D>, items: Seq<HubItem<D>>)
    ensures
        m.run(items).filter == m.filter,
        m.wf() ==> m.run(items).wf(),
    decreases items.len(),
{
    if items.len() > 0 {
        lemma_run_keeps_filter(m, items.drop_last());
    }
}

/// There is no way back: a connection that is no longer active stays as it is
/// whatever the hub hands it, and delivers nothing.
pub proof fn lemma_closed_stays_closed<D: PartialEq>(m: SessionModel<D>, items: Seq<HubItem<D>>)
    requires
        !(m.state is Active),
    ensures
        m.run(items) == m,
        m.delivered(items) == Seq::<int>::empty(),
    decreases items.len(),
{
    if items.len() > 0 {
        lemma_closed_stays_closed(m, items.drop_last());
    }
}

/// Events reach the client in the order in which the hub handed them over,
/// each at most once, and only events that were handed over reach it: the
/// places delivered are places in the run, strictly increasing.
pub proof fn lemma_delivered_in_order<D: PartialEq>(m: SessionModel<D>, items: Seq<HubItem<D>>)
    ensures
        forall|k: int|
            0 <= k < m.delivered(items).len() ==> 0 <= #[trigger] m.delivered(items)[k] < items.len(),
        forall|j: int, k: int|
            0 <= j < k < m.delivered(items).len() ==> m.delivered(items)[j] < m.delivered(items)[k],
    decreases items.len(),
{
    if items.len() > 0 {
        let front = items.drop_last();
        let before = m.delivered(front);
        let all = m.delivered(items);
        lemma_delivered_in_order(m, front);
        assert forall|k: int| 0 <= k < all.len() implies 0 <= #[trigger] all[k] < items.len() by {
            if k < before.len() {
                assert(all[k] == before[k]);
            }
        }
        assert forall|j: int, k: int| 0 <= j < k < all.len() implies all[j] < all[k] by {
            assert(all[j] == before[j]);
            if k < before.len() {
                assert(all[k] == before[k]);
            }
        }
    }
}

/// A connection that is handed what was published from place `connected_at`
/// on gets nothing to its client that was published before it connected:
/// every event delivered stands at or after that place among the published.
pub proof fn lemma_nothing_from_before_the_connection<D: PartialEq>(
    m: SessionModel<D>,
    published: Seq<HubItem<D>>,
    connected_at: int,
)
    requires
        0 <= connected_at <= published.len(),
    ensures
        forall|k: int|
            0 <= k < m.delivered(published.skip(connected_at)).len() ==> {
                let place = connected_at + #[trigger] m.delivered(published.skip(connected_at))[k];
                &&& connected_at <= place < published.len()
                &&& published.skip(connected_at)[place - connected_at] == published[place]
            },
{
    lemma_delivered_in_order(m, published.skip(connected_at));
}

/// Whatever the hub hands over, the count of failed transmissions stays,
/// grows by one or goes back to zero: it is never brought down but by a
/// transmission that succeeded.
pub proof fn lemma_counter_grows_or_resets<D: PartialEq>(m: SessionModel<D>, item: HubItem<D>)
    ensures
        m.feed(item).failures == m.failures || m.feed(item).failures == m.failures + 1 || (m.feed(
            item,
        ).failures == 0 && m.delivers(item)),
{
}

/// A connection with an empty filter whose transmissions all succeed gets
/// every event it is handed to its client, once and in order, and stays
/// active.
pub proof fn lemma_wildcard_delivers_all<D: PartialEq>(m: SessionModel<D>, items: Seq<HubItem<D>>)
    requires
        m.state is Active,
        m.filter == Some(Seq::<D>::empty()),
        forall|i: int| 0 <= i < items.len() ==> (#[trigger] items[i] matches HubItem::Event { sent, .. } && sent),
    ensures
        m.delivered(items) == Seq::new(items.len(), |i: int| i),
        m.run(items).state is Active,
    decreases items.len(),
{
    if items.len() > 0 {
        let front = items.drop_last();
        lemma_wildcard_delivers_all(m, front);
        lemma_run_keeps_filter(m, front);
        assert(items.last() == items[items.len() - 1]);
        assert(m.run(front).delivers(items.last()));
        assert(m.delivered(items) =~= Seq::new(items.len(), |i: int| i));
    } else {
        assert(m.delivered(items) =~= Seq::new(items.len(), |i: int| i));
    }
}

/// With a filter that parsed, an event reaches the client only if the filter
/// admits its discriminant; an event that the filter does not admit is never
/// delivered. Where the filter is not empty, to be admitted is to be listed
/// in it.
pub proof fn lemma_delivered_are_admitted<D: PartialEq>(
    m: SessionModel<D>,
    wanted: Seq<D>,
    items: Seq<HubItem<D>>,
)
    requires
        m.filter == Some(wanted),
    ensures
        forall|k: int|
            0 <= k < m.delivered(items).len() ==> (#[trigger] items[m.delivered(items)[k]] matches HubItem::Event {
                tag,
                ..
            } && admits(wanted, tag)),
        forall|i: int|
            0 <= i < items.len() && (#[trigger] items[i] matches HubItem::Event { tag, .. } && !admits(
                wanted,
                tag,
            )) ==> !m.delivered(items).contains(i),
        wanted.len() > 0 ==> forall|k: int|
            0 <= k < m.delivered(items).len() ==> (#[trigger] items[m.delivered(items)[k]] matches HubItem::Event {
                tag,
                ..
            } && lists(wanted, tag)),
    decreases items.len(),
{
    if items.len() > 0 {
        let front = items.drop_last();
        lemma_delivered_are_admitted(m, wanted, front);
        lemma_run_keeps_filter(m, front);
        lemma_delivered_in_order(m, front);
        assert forall|k: int| 0 <= k < m.delivered(items).len() implies (#[trigger] items[m.delivered(
            items,
        )[k]] matches HubItem::Event { tag, .. } && admits(wanted, tag)) by {
            if k < m.delivered(front).len() {
                assert(m.delivered(items)[k] == m.delivered(front)[k]);
                assert(items[m.delivered(front)[k]] == front[m.delivered(front)[k]]);
            }
        }
        assert forall|i: int|
            0 <= i < items.len() && (#[trigger] items[i] matches HubItem::Event { tag, .. } && !admits(
                wanted,
                tag,
            )) implies !m.delivered(items).contains(i) by {
            if m.delivered(items).contains(i) {
                let k = choose|k: int| 0 <= k < m.delivered(items).len() && m.delivered(items)[k] == i;
                assert(items[m.delivered(items)[k]] matches HubItem::Event { tag, .. } && admits(wanted, tag));
            }
        }
    }
}

/// A connection whose tag list did not parse delivers nothing, and is no
/// longer active once the hub has handed it anything.
pub proof fn lemma_unparsed_filter_delivers_nothing<D: PartialEq>(
    m: SessionModel<D>,
    items: Seq<HubItem<D>>,
)
    requires
        m.filter is None,
    ensures
        m.delivered(items) == Seq::<int>::empty(),
        items.len() > 0 ==> !(m.run(items).state is Active),
        m.run(items).filter is None,
    decreases items.len(),
{
    if items.len() > 0 {
        lemma_unparsed_filter_delivers_nothing(m, items.drop_last());
    }
}

/// Failed transmissions in a row are counted one by one, and the connection
/// stays active until the count reaches the threshold: the failure that
/// brings it there closes the connection.
pub proof fn lemma_failures_close_at_threshold<D>(m: SessionModel<D>, n: nat)
    requires
        m.state is Active,
        m.failures == 0,
        n <= MAX_CONSECUTIVE_FAILURES,
    ensures
        m.after_failures(n).failures == n,
        m.after_failures(n).filter == m.filter,
        n < MAX_CONSECUTIVE_FAILURES ==> m.after_failures(n).state is Active,
        n == MAX_CONSECUTIVE_FAILURES ==> m.after_failures(n).state is Closing,
    decreases n,
{
    if n > 0 {
        lemma_failures_close_at_threshold(m, (n - 1) as nat);
    }
}

/// A transmission that succeeds after fewer failures in a row than the
/// threshold leaves the connection active with its counter back at zero.
pub proof fn lemma_success_resets<D>(m: SessionModel<D>, n: nat)
    requires
        m.state is Active,
        m.failures == 0,
        n < MAX_CONSECUTIVE_FAILURES,
    ensures
        m.after_failures(n).on_sent(true) == m,
{
    lemma_failures_close_at_threshold(m, n);
}

} // verus!
