//! The events the module raises to its consumers, and the bounded queue that
//! holds them until a consumer drains it.

use vstd::prelude::*;

use crate::chats::ConversationKind;
use crate::delivery::DeliveryStateKind;

verus! {

/// Soft cap on pending events. A consumer that stops draining costs the
/// oldest events rather than unbounded growth; the next drain is headed by an
/// `EventsDropped` naming how many went.
pub const CAPACITY: usize = 4096;

/// One notification to the module's consumers.
#[derive(Debug)]
pub enum Event {
    /// A message arrived in a conversation (`sender`: the account it came
    /// from, when the transport names one).
    MessageReceived {
        convo_id: String,
        from_self: bool,
        content: String,
        timestamp_ms: u64,
        is_new_convo: bool,
        sender: Option<String>,
    },
    /// This installation sent a message.
    MessageSent { convo_id: String, content: String, timestamp_ms: u64 },
    /// A conversation appeared, opened here (`is_outgoing`) or by a peer.
    ConversationCreated {
        convo_id: String,
        is_outgoing: bool,
        peer_label: String,
        kind: ConversationKind,
        name: String,
        description: String,
    },
    /// A conversation's local settings or membership changed.
    ConversationUpdated { convo_id: String },
    /// A conversation was removed from the local history.
    ConversationDeleted { convo_id: String },
    /// A group's roster changed.
    MembersChanged { convo_id: String },
    /// Delivery moved to another state.
    DeliveryStateChanged { state: DeliveryStateKind, detail: String, adopted: bool },
    /// Head of a drain after overflow: `count` events were discarded since the
    /// previous drain, so derived state should be refetched.
    EventsDropped { count: u64 },
}

/// A queue as a sequence of pending events and a count of those evicted since
/// the last drain.
pub struct QueueView {
    pub pending: Seq<Event>,
    pub dropped: nat,
}

/// The queue after `e` is pushed: the oldest event gives way when full.
pub open spec fn push_spec(q: QueueView, e: Event) -> QueueView {
    if q.pending.len() >= CAPACITY {
        QueueView { pending: q.pending.drop_first().push(e), dropped: q.dropped + 1 }
    } else {
        QueueView { pending: q.pending.push(e), dropped: q.dropped }
    }
}

/// The queue after each of `es` is pushed in turn.
pub open spec fn push_all(q: QueueView, es: Seq<Event>) -> QueueView
    decreases es.len(),
{
    if es.len() == 0 {
        q
    } else {
        push_spec(push_all(q, es.drop_last()), es.last())
    }
}

/// What a drain hands out: the `EventsDropped` head when anything was
/// evicted, then the pending events oldest first.
pub open spec fn drained(q: QueueView) -> Seq<Event> {
    if q.dropped > 0 {
        seq![Event::EventsDropped { count: q.dropped as u64 }] + q.pending
    } else {
        q.pending
    }
}

/// Bounded FIFO queue of pending events.
pub struct EventQueue {
    inner: std::collections::VecDeque<Event>,
    dropped: u64,
}

impl View for EventQueue {
    type V = QueueView;

    closed spec fn view(&self) -> QueueView {
        QueueView { pending: self.inner@, dropped: self.dropped as nat }
    }
}

impl EventQueue {
    /// Never more than [`CAPACITY`] pending events.
    pub closed spec fn wf(&self) -> bool {
        self.inner@.len() <= CAPACITY
    }

    /// An empty queue.
    pub fn new() -> (r: Self)
        ensures
            r.wf(),
            r@.pending == Seq::<Event>::empty(),
            r@.dropped == 0,
    {
        EventQueue { inner: std::collections::VecDeque::new(), dropped: 0 }
    }

    /// The number of pending events.
    pub fn len(&self) -> (r: usize)
        ensures
            r == self@.pending.len(),
            self.wf() ==> r <= CAPACITY,
    {
        self.inner.len()
    }

    /// The number of events evicted since the last drain.
    pub fn dropped(&self) -> (r: u64)
        ensures
            r == self@.dropped,
    {
        self.dropped
    }

    /// Queue `event`, evicting the oldest pending one when full.
    pub fn push(&mut self, event: Event)
        requires
            old(self).wf(),
            old(self)@.dropped < u64::MAX,
        ensures
            final(self).wf(),
            final(self)@ == push_spec(old(self)@, event),
    {
        if self.inner.len() >= CAPACITY {
            let _ = self.inner.pop_front();
            self.dropped = self.dropped + 1;
        }
        self.inner.push_back(event);
    }

    /// Hand out everything pending, headed by `EventsDropped` when anything
    /// was evicted, and leave the queue empty with no eviction counted.
    pub fn drain(&mut self) -> (r: Vec<Event>)
        requires
            old(self).wf(),
        ensures
            final(self).wf(),
            r@ == drained(old(self)@),
            final(self)@.pending == Seq::<Event>::empty(),
            final(self)@.dropped == 0,
    {
        let mut out: Vec<Event> = Vec::new();
        if self.dropped > 0 {
            out.push(Event::EventsDropped { count: self.dropped });
            self.dropped = 0;
        }
        let ghost head = out@;
        let ghost all = self.inner@;
        while self.inner.len() > 0
            invariant
                self.dropped == 0,
                self.inner@.len() <= all.len(),
                all.len() <= CAPACITY,
                self.inner@ == all.subrange(all.len() - self.inner@.len(), all.len() as int),
                out@ == head + all.subrange(0, all.len() - self.inner@.len()),
            decreases self.inner@.len(),
        {
            let ghost before = self.inner@;
            match self.inner.pop_front() {
                Some(e) => {
                    proof {
                        assert(all.subrange(0, all.len() - before.len() + 1) =~= all.subrange(
                            0,
                            all.len() - before.len(),
                        ).push(e));
                    }
                    out.push(e);
                    assert(self.inner@ =~= all.subrange(all.len() - self.inner@.len(), all.len() as int));
                },
                None => {},
            }
        }
        assert(all.subrange(0, all.len() as int) =~= all);
        assert(out@ =~= drained(old(self)@));
        out
    }
}

/// Pushing any number of events into an empty queue keeps the newest
/// [`CAPACITY`] of them in order and counts every one that gave way.
pub proof fn lemma_overflow_keeps_newest(es: Seq<Event>)
    ensures
        push_all(QueueView { pending: Seq::empty(), dropped: 0 }, es).pending == (if es.len() <= CAPACITY {
            es
        } else {
            es.subrange(es.len() - CAPACITY, es.len() as int)
        }),
        push_all(QueueView { pending: Seq::empty(), dropped: 0 }, es).dropped == (if es.len() <= CAPACITY {
            0
        } else {
            (es.len() - CAPACITY) as nat
        }),
    decreases es.len(),
{
    if es.len() > 0 {
        let init = es.drop_last();
        lemma_overflow_keeps_newest(init);
        if init.len() < CAPACITY {
            assert(init.push(es.last()) =~= es);
        } else {
            let prev = init.subrange(init.len() - CAPACITY, init.len() as int);
            assert(prev.drop_first().push(es.last()) =~= es.subrange(es.len() - CAPACITY, es.len() as int));
        }
    }
}

/// The event pushed last is the one a drain hands out last.
pub proof fn lemma_drain_ends_with_last_push(q: QueueView, e: Event)
    requires
        q.pending.len() <= CAPACITY,
    ensures
        drained(push_spec(q, e)).len() > 0,
        drained(push_spec(q, e)).last() == e,
{
}

} // verus!
