//! The notification hub: one bounded multi-subscriber channel per user,
//! created lazily on first subscription.  Publishing never blocks: with no
//! channel the event is dropped, and a full channel drops its oldest
//! buffered event.  A receiver is a cursor into the channel's publish
//! history; it observes exactly the events published after its subscription,
//! in publish order, and detects (as `Lagged`) when the drop-oldest policy
//! has run past it, which ends its stream.

use vstd::prelude::*;

verus! {

/// Capacity of one per-user channel: the newest events kept for receivers.
pub const CHANNEL_CAPACITY: usize = 32;

/// A typed event pushed to subscribers: an event name and its payload.
#[derive(Debug)]
pub struct SseEvent {
    pub event_type: String,
    pub data: String,
}

impl Clone for SseEvent {
    fn clone(&self) -> (r: Self)
        ensures
            r == *self,
    {
        SseEvent { event_type: self.event_type.clone(), data: self.data.clone() }
    }
}

/// One user's channel: the (ghost) full publish history, of which the last
/// at-most-`CHANNEL_CAPACITY` events are physically buffered.
pub struct Channel {
    pub buffer: Vec<SseEvent>,
    pub next_seq: u64,
    pub hist: Ghost<Seq<SseEvent>>,
}

impl Channel {
    /// Well-formedness: `next_seq` counts the published events and the
    /// buffer is exactly the tail of the history.
    pub open spec fn wf(self) -> bool {
        &&& self.hist@.len() == self.next_seq
        &&& self.buffer@.len() <= CHANNEL_CAPACITY
        &&& self.buffer@.len() <= self.next_seq
        &&& self.buffer@ == self.hist@.subrange(
            self.next_seq - self.buffer@.len(),
            self.next_seq as int,
        )
    }

    /// A fresh channel with no history.
    pub fn new() -> (r: Channel)
        ensures
            r.wf(),
            r.next_seq == 0,
            r.hist@ == Seq::<SseEvent>::empty(),
    {
        let r = Channel { buffer: Vec::new(), next_seq: 0, hist: Ghost(Seq::empty()) };
        proof {
            assert(r.buffer@ =~= r.hist@.subrange(0, 0));
        }
        r
    }

    /// Publish one event: it is appended to the history, and the oldest
    /// buffered event is dropped if the buffer is full.  When the sequence
    /// counter is exhausted the event is dropped instead.
    pub fn publish(&mut self, e: SseEvent)
        requires
            old(self).wf(),
        ensures
            final(self).wf(),
            old(self).next_seq == u64::MAX ==> *final(self) == *old(self),
            old(self).next_seq < u64::MAX ==> final(self).hist@ == old(self).hist@.push(e)
                && final(self).next_seq == old(self).next_seq + 1,
    {
        if self.next_seq == u64::MAX {
            return;
        }
        if self.buffer.len() == CHANNEL_CAPACITY {
            self.buffer.remove(0);
        }
        self.buffer.push(e);
        self.next_seq = self.next_seq + 1;
        proof {
            self.hist = Ghost(self.hist@.push(e));
            assert(self.buffer@ =~= self.hist@.subrange(
                self.next_seq - self.buffer@.len(),
                self.next_seq as int,
            ));
        }
    }
}

/// One receiver of a user's channel: a cursor into the publish history,
/// with the subscription point and the events observed so far as ghost
/// state.
pub struct Subscription {
    pub user_id: u64,
    pub cursor: u64,
    pub start: Ghost<u64>,
    pub seen: Ghost<Seq<SseEvent>>,
}

/// The receiver is consistent with its channel: it points at or after its
/// subscription point, not past the history, and what it has seen is
/// exactly the history window from its subscription point to its cursor.
pub open spec fn sub_ok(ch: Channel, sub: Subscription) -> bool {
    &&& sub.start@ <= sub.cursor <= ch.next_seq
    &&& sub.seen@ == ch.hist@.subrange(sub.start@ as int, sub.cursor as int)
}

/// Law: a receiver observes exactly the events published after its
/// subscription point, in publish order — its `i`-th observed event is the
/// event published `i`-th after it subscribed.  In particular it can never
/// observe an event published before it subscribed, and any two receivers
/// of one channel observe the events they both cover in the same order.
pub proof fn lemma_subscription_window(ch: Channel, sub: Subscription, i: int)
    requires
        ch.wf(),
        sub_ok(ch, sub),
        0 <= i < sub.seen@.len(),
    ensures
        sub.seen@[i] == ch.hist@[sub.start@ + i],
        sub.start@ + i >= sub.start@,
{
}

/// Law: publishing more events disturbs no existing receiver: its observed
/// window is unchanged, because the history only grows at the end.
pub proof fn lemma_sub_ok_preserved_by_publish(ch0: Channel, ch1: Channel, sub: Subscription)
    requires
        ch0.wf(),
        ch1.wf(),
        sub_ok(ch0, sub),
        ch1.hist@ == ch0.hist@.push(ch1.hist@.last()),
        ch1.next_seq == ch0.next_seq + 1,
    ensures
        sub_ok(ch1, sub),
{
    assert(ch1.hist@.subrange(sub.start@ as int, sub.cursor as int) =~= ch0.hist@.subrange(
        sub.start@ as int,
        sub.cursor as int,
    ));
}

/// What one poll of a receiver yields.
#[derive(Debug)]
pub enum HubPoll {
    /// Nothing new; wait for the next publish.
    Pending,
    /// The drop-oldest policy has run past this receiver: it must end its
    /// stream and let the client re-fetch authoritative state.
    Lagged,
    /// The next event, in publish order.
    Ready(SseEvent),
}

/// What the stream adapter does with one poll result.
#[derive(Debug)]
pub enum StreamAction {
    /// Push this event to the client.
    Emit(SseEvent),
    /// Block until the channel is signalled again.
    Wait,
    /// Close the stream cleanly (the client reconnects and re-fetches).
    End,
}

/// The live-stream adapter's decision for one poll result: emit what is
/// ready, wait when nothing is pending, and end the stream on overflow.
pub fn stream_step(p: HubPoll) -> (r: StreamAction)
    ensures
        match p {
            HubPoll::Pending => r is Wait,
            HubPoll::Lagged => r is End,
            HubPoll::Ready(e) => r == StreamAction::Emit(e),
        },
{
    match p {
        HubPoll::Pending => StreamAction::Wait,
        HubPoll::Lagged => StreamAction::End,
        HubPoll::Ready(e) => StreamAction::Emit(e),
    }
}

/// A keep-alive event, synthesized periodically so intermediaries do not
/// time out an idle connection.
pub fn keepalive_event() -> (r: SseEvent)
    ensures
        r.event_type@ == "keepalive"@,
        r.data@ == Seq::<char>::empty(),
{
    SseEvent { event_type: String::from_str("keepalive"), data: String::new() }
}

/// One user's entry in the hub registry.
pub struct ChannelEntry {
    pub user_id: u64,
    pub channel: Channel,
}

/// Index of the channel of a user, if any.
pub open spec fn find_channel(cs: Seq<ChannelEntry>, user_id: u64) -> Option<int>
    decreases cs.len(),
{
    if cs.len() == 0 {
        None
    } else if cs.last().user_id == user_id {
        Some((cs.len() - 1) as int)
    } else {
        find_channel(cs.drop_last(), user_id)
    }
}

/// What `find_channel` finds.
pub proof fn lemma_find_channel(cs: Seq<ChannelEntry>, user_id: u64)
    ensures
        match find_channel(cs, user_id) {
            Some(i) => 0 <= i < cs.len() && cs[i].user_id == user_id && forall|j: int|
                i < j < cs.len() ==> (#[trigger] cs[j]).user_id != user_id,
            None => forall|j: int| 0 <= j < cs.len() ==> (#[trigger] cs[j]).user_id != user_id,
        },
    decreases cs.len(),
{
    if cs.len() > 0 && cs.last().user_id != user_id {
        lemma_find_channel(cs.drop_last(), user_id);
        assert(forall|j: int| 0 <= j < cs.len() - 1 ==> #[trigger] cs[j] == cs.drop_last()[j]);
    }
}

/// The registry of per-user channels.
pub struct NotificationHub {
    pub channels: Vec<ChannelEntry>,
}

impl NotificationHub {
    /// Well-formedness: one channel per user, each well-formed.
    pub open spec fn wf(self) -> bool {
        &&& forall|i: int, j: int|
            0 <= i < j < self.channels@.len() ==> (#[trigger] self.channels@[i]).user_id
                != (#[trigger] self.channels@[j]).user_id
        &&& forall|i: int| 0 <= i < self.channels@.len() ==> (#[trigger] self.channels@[i]).channel.wf()
    }

    /// An empty hub.
    pub fn new() -> (r: NotificationHub)
        ensures
            r.wf(),
            r.channels@ == Seq::<ChannelEntry>::empty(),
    {
        NotificationHub { channels: Vec::new() }
    }

    /// Index of the channel of a user, if any.
    fn channel_index(&self, user_id: u64) -> (r: Option<usize>)
        ensures
            match r {
                Some(u) => find_channel(self.channels@, user_id) == Some(u as int),
                None => find_channel(self.channels@, user_id) is None,
            },
    {
        let n = self.channels.len();
        let mut i: usize = n;
        while i > 0
            invariant
                n == self.channels@.len(),
                0 <= i <= n,
                forall|j: int| i <= j < n ==> (#[trigger] self.channels@[j]).user_id != user_id,
            decreases i,
        {
            let k = i - 1;
            if self.channels[k].user_id == user_id {
                proof {
                    lemma_find_channel(self.channels@, user_id);
                    match find_channel(self.channels@, user_id) {
                        Some(x) => {
                            assert((#[trigger] self.channels@[k as int]).user_id == user_id);
                            assert(x == k);
                        },
                        None => {
                            assert(self.channels@[k as int].user_id == user_id);
                        },
                    }
                }
                return Some(k);
            }
            i = k;
        }
        proof {
            lemma_find_channel(self.channels@, user_id);
        }
        None
    }

    /// Subscribe a user: the channel is created on first subscription and
    /// reused afterwards; the receiver starts at the current end of the
    /// history, so it observes only events published after this call.
    pub fn subscribe(&mut self, user_id: u64) -> (s: Subscription)
        requires
            old(self).wf(),
        ensures
            final(self).wf(),
            s.user_id == user_id,
            s.start@ == s.cursor,
            s.seen@ == Seq::<SseEvent>::empty(),
            match find_channel(old(self).channels@, user_id) {
                Some(i) => *final(self) == *old(self) && s.cursor == old(
                    self,
                ).channels@[i].channel.next_seq,
                None => {
                    &&& final(self).channels@.len() == old(self).channels@.len() + 1
                    &&& forall|j: int|
                        0 <= j < old(self).channels@.len() ==> #[trigger] final(self).channels@[j]
                            == old(self).channels@[j]
                    &&& final(self).channels@.last().user_id == user_id
                    &&& final(self).channels@.last().channel.next_seq == 0
                    &&& final(self).channels@.last().channel.hist@ == Seq::<SseEvent>::empty()
                    &&& s.cursor == 0
                },
            },
            match find_channel(final(self).channels@, user_id) {
                Some(i) => sub_ok(final(self).channels@[i].channel, s),
                None => false,
            },
    {
        proof {
            lemma_find_channel(self.channels@, user_id);
        }
        match self.channel_index(user_id) {
            Some(i) => {
                let cur = self.channels[i].channel.next_seq;
                let s = Subscription {
                    user_id,
                    cursor: cur,
                    start: Ghost(cur),
                    seen: Ghost(Seq::empty()),
                };
                proof {
                    let ch = self.channels@[find_channel(self.channels@, user_id).unwrap()].channel;
                    assert(s.seen@ =~= ch.hist@.subrange(cur as int, cur as int));
                }
                s
            },
            None => {
                self.channels.push(ChannelEntry { user_id, channel: Channel::new() });
                let s = Subscription {
                    user_id,
                    cursor: 0,
                    start: Ghost(0),
                    seen: Ghost(Seq::empty()),
                };
                proof {
                    lemma_find_channel(self.channels@, user_id);
                    let ch = self.channels@.last().channel;
                    assert(s.seen@ =~= ch.hist@.subrange(0, 0));
                }
                s
            },
        }
    }

    /// Publish to one user, fire-and-forget: with no channel for the user
    /// the event is silently dropped; otherwise it goes onto that user's
    /// channel (dropping that channel's oldest buffered event if full) and
    /// no other channel changes.
    pub fn publish_to(&mut self, user_id: u64, e: SseEvent)
        requires
            old(self).wf(),
        ensures
            final(self).wf(),
            match find_channel(old(self).channels@, user_id) {
                None => *final(self) == *old(self),
                Some(i) => {
                    &&& final(self).channels@.len() == old(self).channels@.len()
                    &&& forall|j: int|
                        0 <= j < old(self).channels@.len() && j != i
                            ==> (#[trigger] final(self).channels@[j]) == old(self).channels@[j]
                    &&& final(self).channels@[i].user_id == user_id
                    &&& ({
                        let c0 = old(self).channels@[i].channel;
                        let c1 = final(self).channels@[i].channel;
                        if c0.next_seq == u64::MAX {
                            c1 == c0
                        } else {
                            c1.hist@ == c0.hist@.push(e) && c1.next_seq == c0.next_seq + 1
                        }
                    })
                },
            },
    {
        proof {
            lemma_find_channel(self.channels@, user_id);
        }
        match self.channel_index(user_id) {
            None => {},
            Some(i) => {
                let mut entry = self.channels.remove(i);
                entry.channel.publish(e);
                self.channels.insert(i, entry);
                proof {
                    assert(forall|j: int|
                        0 <= j < old(self).channels@.len() && j != i
                            ==> (#[trigger] final(self).channels@[j]) == old(self).channels@[j]);
                }
            },
        }
    }

    /// Publish to every registered channel, fire-and-forget, with the same
    /// per-channel drop semantics as `publish_to`.
    pub fn publish_to_all(&mut self, e: &SseEvent)
        requires
            old(self).wf(),
        ensures
            final(self).wf(),
            final(self).channels@.len() == old(self).channels@.len(),
            forall|j: int|
                0 <= j < old(self).channels@.len() ==> (#[trigger] final(self).channels@[j]).user_id
                    == old(self).channels@[j].user_id,
            forall|j: int|
                0 <= j < old(self).channels@.len() ==> ({
                    let c0 = old(self).channels@[j].channel;
                    let c1 = (#[trigger] final(self).channels@[j]).channel;
                    if c0.next_seq == u64::MAX {
                        c1 == c0
                    } else {
                        c1.hist@ == c0.hist@.push(*e) && c1.next_seq == c0.next_seq + 1
                    }
                }),
    {
        let n = self.channels.len();
        let mut i: usize = 0;
        while i < n
            invariant
                n == self.channels@.len(),
                n == old(self).channels@.len(),
                0 <= i <= n,
                self.wf(),
                forall|j: int|
                    0 <= j < n ==> (#[trigger] self.channels@[j]).user_id
                        == old(self).channels@[j].user_id,
                forall|j: int| i <= j < n ==> #[trigger] self.channels@[j] == old(self).channels@[j],
                forall|j: int|
                    0 <= j < i ==> ({
                        let c0 = old(self).channels@[j].channel;
                        let c1 = (#[trigger] self.channels@[j]).channel;
                        if c0.next_seq == u64::MAX {
                            c1 == c0
                        } else {
                            c1.hist@ == c0.hist@.push(*e) && c1.next_seq == c0.next_seq + 1
                        }
                    }),
            decreases n - i,
        {
            let mut entry = self.channels.remove(i);
            entry.channel.publish(e.clone());
            self.channels.insert(i, entry);
            i = i + 1;
        }
    }

    /// Poll a receiver: `Pending` when it has seen everything published (or
    /// its user has no channel), `Lagged` when the drop-oldest policy has
    /// overrun it, and otherwise the next event in publish order.
    pub fn poll(&self, sub: &mut Subscription) -> (r: HubPoll)
        requires
            self.wf(),
        ensures
            final(sub).user_id == old(sub).user_id,
            final(sub).start == old(sub).start,
            match find_channel(self.channels@, old(sub).user_id) {
                None => r is Pending && *final(sub) == *old(sub),
                Some(i) => {
                    let ch = self.channels@[i].channel;
                    if old(sub).cursor >= ch.next_seq {
                        r is Pending && *final(sub) == *old(sub)
                    } else if old(sub).cursor < ch.next_seq - ch.buffer@.len() {
                        r is Lagged && *final(sub) == *old(sub)
                    } else {
                        &&& r == HubPoll::Ready(ch.hist@[old(sub).cursor as int])
                        &&& final(sub).cursor == old(sub).cursor + 1
                        &&& final(sub).seen@ == old(sub).seen@.push(
                            ch.hist@[old(sub).cursor as int],
                        )
                    }
                },
            },
            sub_ok_preserved_claim(self.channels@, *old(sub), *final(sub)),
    {
        proof {
            lemma_find_channel(self.channels@, sub.user_id);
        }
        match self.channel_index(sub.user_id) {
            None => HubPoll::Pending,
            Some(i) => {
                let next_seq = self.channels[i].channel.next_seq;
                let blen = self.channels[i].channel.buffer.len();
                if sub.cursor >= next_seq {
                    HubPoll::Pending
                } else if sub.cursor < next_seq - (blen as u64) {
                    HubPoll::Lagged
                } else {
                    let off = (sub.cursor - (next_seq - (blen as u64))) as usize;
                    let ev = self.channels[i].channel.buffer[off].clone();
                    proof {
                        let ch = self.channels@[i as int].channel;
                        assert(ch.buffer@[off as int] == ch.hist@[sub.cursor as int]);
                    }
                    sub.cursor = sub.cursor + 1;
                    proof {
                        let ch = self.channels@[i as int].channel;
                        sub.seen = Ghost(sub.seen@.push(ch.hist@[(sub.cursor - 1) as int]));
                        if sub_ok_entry(self.channels@, *old(sub)) {
                            assert(sub.seen@ =~= ch.hist@.subrange(
                                sub.start@ as int,
                                sub.cursor as int,
                            ));
                        }
                    }
                    HubPoll::Ready(ev)
                }
            },
        }
    }
}

/// The receiver is consistent with its user's channel in this registry.
pub open spec fn sub_ok_entry(cs: Seq<ChannelEntry>, sub: Subscription) -> bool {
    match find_channel(cs, sub.user_id) {
        Some(i) => sub_ok(cs[i].channel, sub),
        None => true,
    }
}

/// Polling keeps a receiver consistent with its channel.
pub open spec fn sub_ok_preserved_claim(
    cs: Seq<ChannelEntry>,
    before: Subscription,
    after: Subscription,
) -> bool {
    sub_ok_entry(cs, before) ==> sub_ok_entry(cs, after)
}

} // verus!
