//! The thread store: the durable record of direct messages grouped into
//! threads, with anonymity masking, unread bookkeeping, reply routing,
//! edit/delete/pin semantics and search.

use vstd::prelude::*;

use crate::StoreError;
use crate::msg::{
    EditRecord, Message, MessageResponse, MsgState, ThreadSummary, alive, conv_relevant, find_live,
    inbox_desc, last_in_thread, latest_for, lemma_find_live, lemma_last_in_thread,
    lemma_latest_for, mark_one_read, mark_read, mark_thread_deleted, one_read_marked, participates,
    read_marked, reply_target, search_desc, search_hit, thread_del_marked, thread_visible,
    unread_count, unread_upto, unread_for, visible_thread, visible_upto,
};
use crate::reactions::{Reaction, Reactions, reactions_match, spec_set_reaction};
use crate::text::{blank, is_blank};
use crate::users::{Directory, User, find_user_by_id, lemma_find_user_by_id};

verus! {

/// A conversation summary is correct for user `u`: it mirrors the most
/// recent live message of its thread in which `u` participates, carries
/// `u`'s exact unread count for that thread, and names the counterpart only
/// when `u` is the sender of that latest message (the anonymity rule: a
/// recipient never learns the counterpart's name from the listing).
pub open spec fn summary_ok(
    s: Seq<Message>,
    dus: Seq<User>,
    u: u64,
    row: ThreadSummary,
) -> bool {
    match latest_for(s, u, row.thread_id) {
        Some(j) => {
            let m = s[j];
            &&& row.id == m.id
            &&& row.sender_id == m.sender_id
            &&& row.recipient_id == m.recipient_id
            &&& row.content == m.content
            &&& row.created_at == m.created_at
            &&& row.is_read == m.is_read
            &&& row.unread_count == unread_count(s, row.thread_id, u)
            &&& if m.sender_id == Some(u) {
                match find_user_by_id(dus, m.recipient_id) {
                    Some(k) => row.recipient_username == Some(dus[k].username),
                    None => row.recipient_username is None,
                }
            } else {
                row.recipient_username is None
            }
        },
        None => false,
    }
}

/// Whether the listing already holds a summary for the thread.
fn contains_tid(out: &Vec<ThreadSummary>, t: u64) -> (r: bool)
    ensures
        r == exists|a: int| 0 <= a < out@.len() && (#[trigger] out@[a]).thread_id == t,
{
    let m = out.len();
    let mut a: usize = 0;
    while a < m
        invariant
            m == out@.len(),
            0 <= a <= m,
            forall|b: int| 0 <= b < a ==> (#[trigger] out@[b]).thread_id != t,
        decreases m - a,
    {
        if out[a].thread_id == t {
            return true;
        }
        a = a + 1;
    }
    false
}

/// A response row faithfully shapes one message for a viewer: the raw
/// sender identity is reduced to `is_mine` and then discarded — the shaped
/// record has no sender field at all.
pub open spec fn shaped_ok(rx: Seq<Reaction>, m: Message, viewer: u64, resp: MessageResponse) -> bool {
    &&& resp.id == m.id
    &&& resp.thread_id == m.thread_id
    &&& resp.content == m.content
    &&& resp.is_mine == (m.sender_id == Some(viewer))
    &&& resp.created_at == m.created_at
    &&& resp.is_read == m.is_read
    &&& reactions_match(rx, m.id, resp.reactions@)
    &&& resp.unread_count is None
    &&& resp.to_username is None
}

/// A response row faithfully shapes one inbox message: inbox rows are
/// always received, so `is_mine` is always false.
pub open spec fn inbox_row_ok(rx: Seq<Reaction>, m: Message, resp: MessageResponse) -> bool {
    &&& resp.id == m.id
    &&& resp.thread_id == m.thread_id
    &&& resp.content == m.content
    &&& resp.is_mine == false
    &&& resp.created_at == m.created_at
    &&& resp.is_read == m.is_read
    &&& reactions_match(rx, m.id, resp.reactions@)
    &&& resp.unread_count is None
    &&& resp.to_username is None
}

/// A conversation row as shaped for the listing: built from the latest
/// relevant message of its thread, with `is_mine` in place of the sender
/// and the counterpart's name only when the viewer sent that latest message
/// (the anonymity rule).
pub open spec fn conversation_row_ok(
    s: Seq<Message>,
    dus: Seq<User>,
    u: u64,
    row: MessageResponse,
) -> bool {
    match latest_for(s, u, row.thread_id) {
        Some(j) => {
            let m = s[j];
            &&& row.id == m.id
            &&& row.content == m.content
            &&& row.created_at == m.created_at
            &&& row.is_read == m.is_read
            &&& row.is_mine == (m.sender_id == Some(u))
            &&& match row.unread_count {
                Some(c) => c == unread_count(s, row.thread_id, u),
                None => false,
            }
            &&& row.reactions@.len() == 0
            &&& if m.sender_id == Some(u) {
                match find_user_by_id(dus, m.recipient_id) {
                    Some(k) => row.to_username == Some(dus[k].username),
                    None => row.to_username is None,
                }
            } else {
                row.to_username is None
            }
        },
        None => false,
    }
}

/// Law (anonymity): a conversation row whose latest message the viewer did
/// not send never carries the counterpart's name — the listing can leak a
/// sender identity only to that sender.
pub proof fn lemma_conversation_anonymity(
    s: Seq<Message>,
    dus: Seq<User>,
    u: u64,
    row: MessageResponse,
)
    requires
        conversation_row_ok(s, dus, u, row),
        !row.is_mine,
    ensures
        row.to_username is None,
{
}

/// Whether any message of the list has `u` as one of its ends.
fn any_participant(v: &Vec<Message>, u: u64) -> (r: bool)
    ensures
        r == exists|j: int| 0 <= j < v@.len() && participates(#[trigger] v@[j], u),
{
    let m = v.len();
    let mut j: usize = 0;
    while j < m
        invariant
            m == v@.len(),
            0 <= j <= m,
            forall|b: int| 0 <= b < j ==> !participates(#[trigger] v@[b], u),
        decreases m - j,
    {
        if v[j].recipient_id == u || v[j].sender_id == Some(u) {
            return true;
        }
        j = j + 1;
    }
    false
}

/// One user's pin on one message.
#[derive(Clone, Copy, Debug, PartialEq, Eq, Structural)]
pub struct MessagePin {
    pub message_id: u64,
    pub user_id: u64,
}

/// Index of the pin row for (message, user), if any.
pub open spec fn find_msg_pin(ps: Seq<MessagePin>, message_id: u64, user_id: u64) -> Option<int>
    decreases ps.len(),
{
    if ps.len() == 0 {
        None
    } else if ps.last().message_id == message_id && ps.last().user_id == user_id {
        Some((ps.len() - 1) as int)
    } else {
        find_msg_pin(ps.drop_last(), message_id, user_id)
    }
}

/// What `find_msg_pin` finds.
pub proof fn lemma_find_msg_pin(ps: Seq<MessagePin>, message_id: u64, user_id: u64)
    ensures
        match find_msg_pin(ps, message_id, user_id) {
            Some(i) => 0 <= i < ps.len() && ps[i] == (MessagePin { message_id, user_id })
                && forall|j: int|
                    i < j < ps.len() ==> #[trigger] ps[j] != (MessagePin { message_id, user_id }),
            None => forall|j: int|
                0 <= j < ps.len() ==> #[trigger] ps[j] != (MessagePin { message_id, user_id }),
        },
    decreases ps.len(),
{
    if ps.len() > 0 && !(ps.last().message_id == message_id && ps.last().user_id == user_id) {
        lemma_find_msg_pin(ps.drop_last(), message_id, user_id);
        assert(forall|j: int| 0 <= j < ps.len() - 1 ==> #[trigger] ps[j] == ps.drop_last()[j]);
    }
}

/// One user's pin on one thread.
#[derive(Clone, Copy, Debug, PartialEq, Eq, Structural)]
pub struct ThreadPin {
    pub thread_id: u64,
    pub user_id: u64,
}

/// Index of the pin row for (thread, user), if any.
pub open spec fn find_thread_pin(ps: Seq<ThreadPin>, thread_id: u64, user_id: u64) -> Option<int>
    decreases ps.len(),
{
    if ps.len() == 0 {
        None
    } else if ps.last().thread_id == thread_id && ps.last().user_id == user_id {
        Some((ps.len() - 1) as int)
    } else {
        find_thread_pin(ps.drop_last(), thread_id, user_id)
    }
}

/// What `find_thread_pin` finds.
pub proof fn lemma_find_thread_pin(ps: Seq<ThreadPin>, thread_id: u64, user_id: u64)
    ensures
        match find_thread_pin(ps, thread_id, user_id) {
            Some(i) => 0 <= i < ps.len() && ps[i] == (ThreadPin { thread_id, user_id })
                && forall|j: int|
                    i < j < ps.len() ==> #[trigger] ps[j] != (ThreadPin { thread_id, user_id }),
            None => forall|j: int|
                0 <= j < ps.len() ==> #[trigger] ps[j] != (ThreadPin { thread_id, user_id }),
        },
    decreases ps.len(),
{
    if ps.len() > 0 && !(ps.last().thread_id == thread_id && ps.last().user_id == user_id) {
        lemma_find_thread_pin(ps.drop_last(), thread_id, user_id);
        assert(forall|j: int| 0 <= j < ps.len() - 1 ==> #[trigger] ps[j] == ps.drop_last()[j]);
    }
}

/// The thread identifiers `u` has pinned among the first `i` pin rows,
/// most recent pin first.
pub open spec fn pins_desc(ps: Seq<ThreadPin>, u: u64, i: int) -> Seq<u64>
    decreases i,
{
    if i <= 0 {
        Seq::empty()
    } else {
        let rest = pins_desc(ps, u, i - 1);
        if ps[i - 1].user_id == u {
            seq![ps[i - 1].thread_id] + rest
        } else {
            rest
        }
    }
}

/// One user blocking another.
#[derive(Clone, Copy, Debug, PartialEq, Eq, Structural)]
pub struct BlockEntry {
    pub blocker_id: u64,
    pub blocked_id: u64,
}

/// Index of the block row for (blocker, blocked), if any.
pub open spec fn find_block(bs: Seq<BlockEntry>, blocker_id: u64, blocked_id: u64) -> Option<int>
    decreases bs.len(),
{
    if bs.len() == 0 {
        None
    } else if bs.last().blocker_id == blocker_id && bs.last().blocked_id == blocked_id {
        Some((bs.len() - 1) as int)
    } else {
        find_block(bs.drop_last(), blocker_id, blocked_id)
    }
}

/// What `find_block` finds.
pub proof fn lemma_find_block(bs: Seq<BlockEntry>, blocker_id: u64, blocked_id: u64)
    ensures
        match find_block(bs, blocker_id, blocked_id) {
            Some(i) => 0 <= i < bs.len() && bs[i] == (BlockEntry { blocker_id, blocked_id })
                && forall|j: int|
                    i < j < bs.len() ==> #[trigger] bs[j] != (BlockEntry { blocker_id, blocked_id }),
            None => forall|j: int|
                0 <= j < bs.len() ==> #[trigger] bs[j] != (BlockEntry { blocker_id, blocked_id }),
        },
    decreases bs.len(),
{
    if bs.len() > 0 && !(bs.last().blocker_id == blocker_id && bs.last().blocked_id == blocked_id) {
        lemma_find_block(bs.drop_last(), blocker_id, blocked_id);
        assert(forall|j: int| 0 <= j < bs.len() - 1 ==> #[trigger] bs[j] == bs.drop_last()[j]);
    }
}

/// The users `u` has blocked among the first `i` block rows, in block
/// order.
pub open spec fn blocked_upto(bs: Seq<BlockEntry>, u: u64, i: int) -> Seq<u64>
    decreases i,
{
    if i <= 0 {
        Seq::empty()
    } else {
        let pre = blocked_upto(bs, u, i - 1);
        if bs[i - 1].blocker_id == u {
            pre.push(bs[i - 1].blocked_id)
        } else {
            pre
        }
    }
}

/// The store of all direct messages, their edit log, their reactions, and
/// the per-user pins and blocks.  Message and thread identifiers are
/// allocated from one monotone counter, so identifiers are unique and
/// creation order is identifier order.
pub struct ThreadStore {
    pub messages: Vec<Message>,
    pub edits: Vec<EditRecord>,
    pub reactions: Reactions,
    pub pinned_messages: Vec<MessagePin>,
    pub pinned_threads: Vec<ThreadPin>,
    pub blocks: Vec<BlockEntry>,
    pub next_id: u64,
}

impl ThreadStore {
    /// Well-formedness: identifiers grow along the message sequence and stay
    /// below the allocation counter; reactions are well-formed; pins and
    /// blocks hold no duplicate pair.
    pub open spec fn wf(self) -> bool {
        &&& forall|i: int, j: int|
            0 <= i < j < self.messages@.len() ==> (#[trigger] self.messages@[i]).id
                < (#[trigger] self.messages@[j]).id
        &&& forall|i: int|
            0 <= i < self.messages@.len() ==> (#[trigger] self.messages@[i]).id < self.next_id
                && self.messages@[i].thread_id < self.next_id
        &&& self.reactions.wf()
        &&& forall|i: int, j: int|
            0 <= i < j < self.pinned_messages@.len() ==> #[trigger] self.pinned_messages@[i]
                != #[trigger] self.pinned_messages@[j]
        &&& forall|i: int, j: int|
            0 <= i < j < self.pinned_threads@.len() ==> #[trigger] self.pinned_threads@[i]
                != #[trigger] self.pinned_threads@[j]
        &&& forall|i: int, j: int|
            0 <= i < j < self.blocks@.len() ==> #[trigger] self.blocks@[i]
                != #[trigger] self.blocks@[j]
    }

    /// An empty store.
    pub fn new() -> (r: ThreadStore)
        ensures
            r.wf(),
            r.messages@ == Seq::<Message>::empty(),
            r.edits@ == Seq::<EditRecord>::empty(),
            r.reactions.rows@.len() == 0,
            r.pinned_messages@.len() == 0,
            r.pinned_threads@.len() == 0,
            r.blocks@.len() == 0,
            r.next_id == 0,
    {
        ThreadStore {
            messages: Vec::new(),
            edits: Vec::new(),
            reactions: Reactions::new(),
            pinned_messages: Vec::new(),
            pinned_threads: Vec::new(),
            blocks: Vec::new(),
            next_id: 0,
        }
    }

    /// Everything but the message rows is as in `other`.
    pub open spec fn same_aux(self, other: ThreadStore) -> bool {
        &&& self.edits == other.edits
        &&& self.reactions == other.reactions
        &&& self.pinned_messages == other.pinned_messages
        &&& self.pinned_threads == other.pinned_threads
        &&& self.blocks == other.blocks
    }

    /// Whether a message is live (not tombstoned).
    fn is_live(m: &Message) -> (r: bool)
        ensures
            r == alive(*m),
    {
        match m.state {
            MsgState::Deleted { .. } => false,
            _ => true,
        }
    }

    /// Index of the live message with this identifier, if any.
    fn find_live_index(&self, id: u64) -> (r: Option<usize>)
        ensures
            match r {
                Some(u) => find_live(self.messages@, id) == Some(u as int),
                None => find_live(self.messages@, id) is None,
            },
    {
        let n = self.messages.len();
        let mut i: usize = n;
        while i > 0
            invariant
                n == self.messages@.len(),
                0 <= i <= n,
                forall|j: int|
                    i <= j < n ==> !(alive(#[trigger] self.messages@[j])
                        && self.messages@[j].id == id),
            decreases i,
        {
            let k = i - 1;
            if Self::is_live(&self.messages[k]) && self.messages[k].id == id {
                proof {
                    lemma_find_live(self.messages@, id);
                    match find_live(self.messages@, id) {
                        Some(x) => {
                            assert(!(alive(self.messages@[k as int])
                                && self.messages@[k as int].id == id) || x >= k);
                            assert(x == k);
                        },
                        None => {
                            assert(!(alive(self.messages@[k as int])
                                && self.messages@[k as int].id == id));
                        },
                    }
                }
                return Some(k);
            }
            i = k;
        }
        proof {
            lemma_find_live(self.messages@, id);
        }
        None
    }

    /// Index of the most recent live message of the thread, if any.
    fn last_live_index(&self, thread_id: u64) -> (r: Option<usize>)
        ensures
            match r {
                Some(u) => last_in_thread(self.messages@, thread_id) == Some(u as int),
                None => last_in_thread(self.messages@, thread_id) is None,
            },
    {
        let n = self.messages.len();
        let mut i: usize = n;
        while i > 0
            invariant
                n == self.messages@.len(),
                0 <= i <= n,
                forall|j: int| i <= j < n ==> !thread_visible(#[trigger] self.messages@[j], thread_id),
            decreases i,
        {
            let k = i - 1;
            if Self::is_live(&self.messages[k]) && self.messages[k].thread_id == thread_id {
                proof {
                    lemma_last_in_thread(self.messages@, thread_id);
                    match last_in_thread(self.messages@, thread_id) {
                        Some(x) => {
                            assert(thread_visible(self.messages@[k as int], thread_id));
                            assert(x == k);
                        },
                        None => {
                            assert(thread_visible(self.messages@[k as int], thread_id));
                        },
                    }
                }
                return Some(k);
            }
            i = k;
        }
        proof {
            lemma_last_in_thread(self.messages@, thread_id);
        }
        None
    }

    /// Create a new message in a fresh thread.  Fails with `InvalidInput` if
    /// and only if the content is blank; on success returns the new message
    /// and thread identifiers, both freshly allocated.
    pub fn create_message(
        &mut self,
        sender_id: Option<u64>,
        recipient_id: u64,
        content: String,
        now: u64,
    ) -> (r: Result<(u64, u64), StoreError>)
        requires
            old(self).wf(),
            old(self).next_id + 2 <= u64::MAX,
        ensures
            final(self).wf(),
            final(self).same_aux(*old(self)),
            blank(content@) ==> r == Err::<(u64, u64), StoreError>(StoreError::InvalidInput)
                && *final(self) == *old(self),
            !blank(content@) ==> {
                &&& r == Ok::<(u64, u64), StoreError>(
                    (old(self).next_id, (old(self).next_id + 1) as u64),
                )
                &&& final(self).next_id == old(self).next_id + 2
                &&& final(self).messages@ == old(self).messages@.push(
                    Message {
                        id: old(self).next_id,
                        thread_id: (old(self).next_id + 1) as u64,
                        sender_id: sender_id,
                        recipient_id: recipient_id,
                        content: content,
                        created_at: now,
                        is_read: false,
                        state: MsgState::Active,
                    },
                )
            },
    {
        if is_blank(content.as_str()) {
            return Err(StoreError::InvalidInput);
        }
        let message_id = self.next_id;
        let thread_id = self.next_id + 1;
        self.next_id = self.next_id + 2;
        let m = Message {
            id: message_id,
            thread_id: thread_id,
            sender_id: sender_id,
            recipient_id: recipient_id,
            content: content,
            created_at: now,
            is_read: false,
            state: MsgState::Active,
        };
        self.messages.push(m);
        Ok((message_id, thread_id))
    }

    /// Reply in an existing thread.  The counterpart is determined from the
    /// thread's most recent live message by the reply-routing rule; blank
    /// content, an unknown thread, an anonymous origin and a non-participant
    /// are each rejected exactly as `reply_target` says.
    pub fn create_reply(
        &mut self,
        thread_id: u64,
        sender_id: u64,
        content: String,
        now: u64,
    ) -> (r: Result<u64, StoreError>)
        requires
            old(self).wf(),
            old(self).next_id < u64::MAX,
        ensures
            final(self).wf(),
            final(self).same_aux(*old(self)),
            blank(content@) ==> r == Err::<u64, StoreError>(StoreError::InvalidInput)
                && *final(self) == *old(self),
            !blank(content@) ==> match last_in_thread(old(self).messages@, thread_id) {
                None => r == Err::<u64, StoreError>(StoreError::NotFound) && *final(self)
                    == *old(self),
                Some(j) => match reply_target(old(self).messages@[j], sender_id) {
                    Err(e) => r == Err::<u64, StoreError>(e) && *final(self) == *old(self),
                    Ok(rcpt) => {
                        &&& r == Ok::<u64, StoreError>(old(self).next_id)
                        &&& final(self).next_id == old(self).next_id + 1
                        &&& final(self).messages@ == old(self).messages@.push(
                            Message {
                                id: old(self).next_id,
                                thread_id: thread_id,
                                sender_id: Some(sender_id),
                                recipient_id: rcpt,
                                content: content,
                                created_at: now,
                                is_read: false,
                                state: MsgState::Active,
                            },
                        )
                    },
                },
            },
    {
        if is_blank(content.as_str()) {
            return Err(StoreError::InvalidInput);
        }
        let at = match self.last_live_index(thread_id) {
            None => {
                return Err(StoreError::NotFound);
            },
            Some(at) => at,
        };
        proof {
            lemma_last_in_thread(self.messages@, thread_id);
        }
        let recipient_id = if self.messages[at].recipient_id == sender_id {
            match self.messages[at].sender_id {
                Some(x) => x,
                None => {
                    return Err(StoreError::AnonymousSender);
                },
            }
        } else if self.messages[at].sender_id == Some(sender_id) {
            self.messages[at].recipient_id
        } else {
            return Err(StoreError::NotAParticipant);
        };
        let message_id = self.next_id;
        self.next_id = self.next_id + 1;
        let m = Message {
            id: message_id,
            thread_id: thread_id,
            sender_id: Some(sender_id),
            recipient_id: recipient_id,
            content: content,
            created_at: now,
            is_read: false,
            state: MsgState::Active,
        };
        self.messages.push(m);
        Ok(message_id)
    }

    /// The live message with this identifier, if any.
    pub fn get_message_by_id(&self, message_id: u64) -> (r: Option<Message>)
        ensures
            match find_live(self.messages@, message_id) {
                Some(i) => r == Some(self.messages@[i]),
                None => r is None,
            },
    {
        proof {
            lemma_find_live(self.messages@, message_id);
        }
        match self.find_live_index(message_id) {
            Some(i) => Some(self.messages[i].clone()),
            None => None,
        }
    }

    /// All live messages of the thread, in chronological (creation) order.
    pub fn get_thread_messages(&self, thread_id: u64) -> (r: Vec<Message>)
        ensures
            r@ == visible_thread(self.messages@, thread_id),
    {
        let n = self.messages.len();
        let mut out: Vec<Message> = Vec::new();
        let mut i: usize = 0;
        while i < n
            invariant
                n == self.messages@.len(),
                0 <= i <= n,
                out@ == visible_upto(self.messages@, thread_id, i as int),
            decreases n - i,
        {
            if Self::is_live(&self.messages[i]) && self.messages[i].thread_id == thread_id {
                out.push(self.messages[i].clone());
            }
            i = i + 1;
        }
        out
    }

    /// Mark every message of the thread addressed to `reader_id` as read:
    /// the sole automatic read-receipt trigger.
    pub fn mark_thread_as_read(&mut self, thread_id: u64, reader_id: u64)
        requires
            old(self).wf(),
        ensures
            final(self).wf(),
            final(self).same_aux(*old(self)),
            final(self).next_id == old(self).next_id,
            final(self).messages@ == mark_read(old(self).messages@, thread_id, reader_id),
    {
        let n = self.messages.len();
        let mut i: usize = 0;
        while i < n
            invariant
                n == self.messages@.len(),
                n == old(self).messages@.len(),
                0 <= i <= n,
                self.wf(),
                self.same_aux(*old(self)),
                self.next_id == old(self).next_id,
                forall|j: int|
                    0 <= j < i ==> #[trigger] self.messages@[j] == mark_read(
                        old(self).messages@,
                        thread_id,
                        reader_id,
                    )[j],
                forall|j: int| i <= j < n ==> #[trigger] self.messages@[j] == old(self).messages@[j],
            decreases n - i,
        {
            proof {
                let m = old(self).messages@[i as int];
                assert(mark_read(old(self).messages@, thread_id, reader_id)[i as int]
                    == read_marked(m, thread_id, reader_id));
            }
            if self.messages[i].thread_id == thread_id && self.messages[i].recipient_id == reader_id
                && !self.messages[i].is_read {
                let mut nm = self.messages[i].clone();
                nm.is_read = true;
                self.messages.set(i, nm);
            }
            i = i + 1;
        }
        proof {
            assert(final(self).messages@ =~= mark_read(old(self).messages@, thread_id, reader_id));
        }
    }

    /// Mark one message as read, if it is addressed to `reader_id`.
    pub fn mark_message_read(&mut self, message_id: u64, reader_id: u64)
        requires
            old(self).wf(),
        ensures
            final(self).wf(),
            final(self).same_aux(*old(self)),
            final(self).next_id == old(self).next_id,
            final(self).messages@ == mark_one_read(old(self).messages@, message_id, reader_id),
    {
        let n = self.messages.len();
        let mut i: usize = 0;
        while i < n
            invariant
                n == self.messages@.len(),
                n == old(self).messages@.len(),
                0 <= i <= n,
                self.wf(),
                self.same_aux(*old(self)),
                self.next_id == old(self).next_id,
                forall|j: int|
                    0 <= j < i ==> #[trigger] self.messages@[j] == mark_one_read(
                        old(self).messages@,
                        message_id,
                        reader_id,
                    )[j],
                forall|j: int| i <= j < n ==> #[trigger] self.messages@[j] == old(self).messages@[j],
            decreases n - i,
        {
            proof {
                let m = old(self).messages@[i as int];
                assert(mark_one_read(old(self).messages@, message_id, reader_id)[i as int]
                    == one_read_marked(m, message_id, reader_id));
            }
            if self.messages[i].id == message_id && self.messages[i].recipient_id == reader_id
                && !self.messages[i].is_read {
                let mut nm = self.messages[i].clone();
                nm.is_read = true;
                self.messages.set(i, nm);
            }
            i = i + 1;
        }
        proof {
            assert(final(self).messages@ =~= mark_one_read(
                old(self).messages@,
                message_id,
                reader_id,
            ));
        }
    }

    /// Upsert the acting user's reaction on a live message; an unknown or
    /// tombstoned message is `NotFound`.
    pub fn add_message_reaction(&mut self, message_id: u64, user_id: u64, emoji: String) -> (r:
        Result<(), StoreError>)
        requires
            old(self).wf(),
        ensures
            final(self).wf(),
            final(self).messages@ == old(self).messages@,
            final(self).edits == old(self).edits,
            final(self).pinned_messages == old(self).pinned_messages,
            final(self).pinned_threads == old(self).pinned_threads,
            final(self).blocks == old(self).blocks,
            final(self).next_id == old(self).next_id,
            find_live(old(self).messages@, message_id) is None ==> r == Err::<(), StoreError>(
                StoreError::NotFound,
            ) && *final(self) == *old(self),
            find_live(old(self).messages@, message_id) is Some ==> r == Ok::<(), StoreError>(())
                && final(self).reactions.rows@ == spec_set_reaction(
                old(self).reactions.rows@,
                message_id,
                user_id,
                emoji,
            ),
    {
        match self.find_live_index(message_id) {
            None => Err(StoreError::NotFound),
            Some(_) => {
                self.reactions.set_reaction(message_id, user_id, emoji);
                Ok(())
            },
        }
    }

    /// The other end of a thread relative to `me`, read from the thread's
    /// most recent live message: its recipient when that is not `me`,
    /// otherwise its sender if known.  `None` when the thread is empty or
    /// the other end cannot be determined.
    pub fn thread_counterpart(&self, thread_id: u64, me: u64) -> (r: Option<u64>)
        ensures
            match last_in_thread(self.messages@, thread_id) {
                None => r is None,
                Some(j) => {
                    let m = self.messages@[j];
                    if m.recipient_id != me {
                        r == Some(m.recipient_id)
                    } else {
                        match m.sender_id {
                            Some(s) => if s != me {
                                r == Some(s)
                            } else {
                                r is None
                            },
                            None => r is None,
                        }
                    }
                },
            },
    {
        proof {
            lemma_last_in_thread(self.messages@, thread_id);
        }
        match self.last_live_index(thread_id) {
            None => None,
            Some(j) => {
                if self.messages[j].recipient_id != me {
                    Some(self.messages[j].recipient_id)
                } else {
                    match self.messages[j].sender_id {
                        Some(s) => {
                            if s != me {
                                Some(s)
                            } else {
                                None
                            }
                        },
                        None => None,
                    }
                }
            },
        }
    }

    /// `user_id`'s unread count for one thread.
    fn count_unread(&self, thread_id: u64, user_id: u64) -> (c: u64)
        ensures
            c == unread_count(self.messages@, thread_id, user_id),
    {
        let n = self.messages.len();
        let mut c: u64 = 0;
        let mut j: usize = 0;
        while j < n
            invariant
                n == self.messages@.len(),
                0 <= j <= n,
                c == unread_upto(self.messages@, thread_id, user_id, j as int),
                c <= j,
            decreases n - j,
        {
            if Self::is_live(&self.messages[j]) && self.messages[j].thread_id == thread_id
                && self.messages[j].recipient_id == user_id && !self.messages[j].is_read {
                c = c + 1;
            } else {
                proof {
                    assert(!unread_for(self.messages@[j as int], thread_id, user_id));
                }
            }
            j = j + 1;
        }
        c
    }

    /// One summary per thread the user participates in, built from the
    /// thread's most recent live message the user is an end of, with the
    /// user's unread count, ordered most-recent thread first.  The
    /// counterpart's username appears only on threads whose latest message
    /// the user sent.
    pub fn get_user_conversations(&self, dir: &Directory, user_id: u64) -> (r: Vec<ThreadSummary>)
        ensures
            forall|a: int|
                0 <= a < r@.len() ==> summary_ok(self.messages@, dir.users@, user_id, #[trigger] r@[a]),
            forall|a: int, b: int|
                0 <= a < b < r@.len() ==> (#[trigger] r@[a]).thread_id != (#[trigger] r@[b]).thread_id,
            forall|i: int|
                0 <= i < self.messages@.len() && conv_relevant(#[trigger] self.messages@[i], user_id)
                    ==> exists|a: int|
                        0 <= a < r@.len() && (#[trigger] r@[a]).thread_id
                            == self.messages@[i].thread_id,
            forall|a: int, b: int|
                0 <= a < b < r@.len() ==> match (
                    latest_for(self.messages@, user_id, (#[trigger] r@[a]).thread_id),
                    latest_for(self.messages@, user_id, (#[trigger] r@[b]).thread_id),
                ) {
                    (Some(ja), Some(jb)) => ja > jb,
                    _ => true,
                },
    {
        let ghost s = self.messages@;
        let ghost dus = dir.users@;
        let n = self.messages.len();
        let mut out: Vec<ThreadSummary> = Vec::new();
        let mut i: usize = n;
        while i > 0
            invariant
                s == self.messages@,
                dus == dir.users@,
                n == s.len(),
                0 <= i <= n,
                forall|a: int|
                    0 <= a < out@.len() ==> summary_ok(s, dus, user_id, #[trigger] out@[a]),
                forall|a: int, b: int|
                    0 <= a < b < out@.len() ==> (#[trigger] out@[a]).thread_id
                        != (#[trigger] out@[b]).thread_id,
                forall|j: int|
                    i <= j < n && conv_relevant(#[trigger] s[j], user_id) ==> exists|a: int|
                        0 <= a < out@.len() && (#[trigger] out@[a]).thread_id == s[j].thread_id,
                forall|a: int|
                    0 <= a < out@.len() ==> match latest_for(s, user_id, (#[trigger] out@[a]).thread_id) {
                        Some(jj) => jj >= i,
                        None => false,
                    },
                forall|a: int, b: int|
                    0 <= a < b < out@.len() ==> match (
                        latest_for(s, user_id, (#[trigger] out@[a]).thread_id),
                        latest_for(s, user_id, (#[trigger] out@[b]).thread_id),
                    ) {
                        (Some(ja), Some(jb)) => ja > jb,
                        _ => true,
                    },
            decreases i,
        {
            let k = i - 1;
            let is_rel = Self::is_live(&self.messages[k]) && (self.messages[k].recipient_id
                == user_id || self.messages[k].sender_id == Some(user_id));
            if is_rel && !contains_tid(&out, self.messages[k].thread_id) {
                let tid = self.messages[k].thread_id;
                proof {
                    lemma_latest_for(s, user_id, tid);
                    match latest_for(s, user_id, tid) {
                        Some(x) => {
                            if x > k {
                                assert(conv_relevant(s[x], user_id) && s[x].thread_id == tid);
                                assert(exists|a: int|
                                    0 <= a < out@.len() && (#[trigger] out@[a]).thread_id == tid);
                                assert(false);
                            }
                            assert(x == k);
                        },
                        None => {
                            assert(conv_relevant(s[k as int], user_id));
                            assert(false);
                        },
                    }
                }
                let unread = self.count_unread(tid, user_id);
                let uname: Option<String> = if self.messages[k].sender_id == Some(user_id) {
                    match dir.get_user_by_id(self.messages[k].recipient_id) {
                        Some(du) => Some(du.username),
                        None => None,
                    }
                } else {
                    None
                };
                proof {
                    lemma_find_user_by_id(dus, s[k as int].recipient_id);
                }
                let row = ThreadSummary {
                    id: self.messages[k].id,
                    thread_id: tid,
                    sender_id: self.messages[k].sender_id,
                    recipient_id: self.messages[k].recipient_id,
                    content: self.messages[k].content.clone(),
                    created_at: self.messages[k].created_at,
                    is_read: self.messages[k].is_read,
                    unread_count: unread,
                    recipient_username: uname,
                };
                let ghost out_prev = out@;
                out.push(row);
                proof {
                    assert(forall|b: int|
                        0 <= b < out_prev.len() ==> #[trigger] out@[b] == out_prev[b]);
                    assert(out@[out_prev.len() as int] == row);
                    assert(summary_ok(s, dus, user_id, row));
                    assert forall|j: int|
                        k <= j < n && conv_relevant(#[trigger] s[j], user_id) implies exists|a: int|
                        0 <= a < out@.len() && (#[trigger] out@[a]).thread_id == s[j].thread_id by {
                        if j == k {
                            assert(out@[out_prev.len() as int].thread_id == s[j].thread_id);
                        } else {
                            let a0 = choose|a: int|
                                0 <= a < out_prev.len() && (#[trigger] out_prev[a]).thread_id
                                    == s[j].thread_id;
                            assert(out@[a0].thread_id == s[j].thread_id);
                        }
                    }
                }
            }
            i = k;
        }
        out
    }

    /// All live messages addressed to the user, newest first.
    pub fn get_user_inbox(&self, recipient_id: u64) -> (r: Vec<Message>)
        ensures
            r@ == inbox_desc(self.messages@, recipient_id, self.messages@.len() as int),
    {
        let ghost s = self.messages@;
        let n = self.messages.len();
        let mut out: Vec<Message> = Vec::new();
        let mut i: usize = n;
        while i > 0
            invariant
                s == self.messages@,
                n == s.len(),
                0 <= i <= n,
                out@ + inbox_desc(s, recipient_id, i as int) == inbox_desc(s, recipient_id, n as int),
            decreases i,
        {
            let k = i - 1;
            if Self::is_live(&self.messages[k]) && self.messages[k].recipient_id == recipient_id {
                out.push(self.messages[k].clone());
                proof {
                    assert(out@ + inbox_desc(s, recipient_id, k as int) =~= (out@.drop_last()
                        + inbox_desc(s, recipient_id, i as int)));
                }
            }
            i = k;
        }
        proof {
            assert(out@ =~= out@ + inbox_desc(s, recipient_id, 0));
        }
        out
    }

    /// Full-text search over the user's live messages (sender or recipient),
    /// newest first, cut off after `limit` hits.  A blank query matches
    /// nothing.
    pub fn search_messages(&self, user_id: u64, query: &String, limit: u64) -> (r: Vec<Message>)
        ensures
            blank(query@) ==> r@.len() == 0,
            !blank(query@) ==> r@ == search_desc(
                self.messages@,
                user_id,
                query@,
                self.messages@.len() as int,
                limit as nat,
            ),
    {
        let ghost s = self.messages@;
        let mut out: Vec<Message> = Vec::new();
        if is_blank(query.as_str()) {
            return out;
        }
        let n = self.messages.len();
        let mut i: usize = n;
        let mut left: u64 = limit;
        while i > 0 && left > 0
            invariant
                s == self.messages@,
                n == s.len(),
                0 <= i <= n,
                left <= limit,
                out@ + search_desc(s, user_id, query@, i as int, left as nat) == search_desc(
                    s,
                    user_id,
                    query@,
                    n as int,
                    limit as nat,
                ),
            decreases i,
        {
            let k = i - 1;
            let hit = Self::is_live(&self.messages[k]) && (self.messages[k].recipient_id == user_id
                || self.messages[k].sender_id == Some(user_id)) && crate::text::has_substring(
                self.messages[k].content.as_str(),
                query.as_str(),
            );
            if hit {
                out.push(self.messages[k].clone());
                left = left - 1;
                proof {
                    assert(out@ + search_desc(s, user_id, query@, k as int, left as nat)
                        =~= (out@.drop_last() + search_desc(s, user_id, query@, i as int, (left
                        + 1) as nat)));
                }
            } else {
                proof {
                    assert(!search_hit(s[k as int], user_id, query@));
                }
            }
            i = k;
        }
        proof {
            assert(out@ =~= out@ + search_desc(s, user_id, query@, i as int, left as nat));
        }
        out
    }

    /// Overwrite a live message's content, recording the prior content in
    /// the edit log first; only the author may edit.
    pub fn edit_message(&mut self, message_id: u64, user_id: u64, new_content: String, now: u64)
        -> (r: Result<(), StoreError>)
        requires
            old(self).wf(),
        ensures
            final(self).wf(),
            final(self).reactions == old(self).reactions,
            final(self).pinned_messages == old(self).pinned_messages,
            final(self).pinned_threads == old(self).pinned_threads,
            final(self).blocks == old(self).blocks,
            final(self).next_id == old(self).next_id,
            blank(new_content@) ==> r == Err::<(), StoreError>(StoreError::InvalidInput)
                && *final(self) == *old(self),
            !blank(new_content@) ==> match find_live(old(self).messages@, message_id) {
                None => r == Err::<(), StoreError>(StoreError::NotFound) && *final(self)
                    == *old(self),
                Some(i) => if old(self).messages@[i].sender_id != Some(user_id) {
                    r == Err::<(), StoreError>(StoreError::Forbidden) && *final(self) == *old(self)
                } else {
                    &&& r == Ok::<(), StoreError>(())
                    &&& final(self).messages@ == old(self).messages@.update(
                        i,
                        Message {
                            content: new_content,
                            state: MsgState::Edited { at: now },
                            ..old(self).messages@[i]
                        },
                    )
                    &&& final(self).edits@ == old(self).edits@.push(
                        EditRecord {
                            message_id: message_id,
                            old_content: old(self).messages@[i].content,
                            edited_by: user_id,
                            edited_at: now,
                        },
                    )
                },
            },
    {
        if is_blank(new_content.as_str()) {
            return Err(StoreError::InvalidInput);
        }
        proof {
            lemma_find_live(self.messages@, message_id);
        }
        let i = match self.find_live_index(message_id) {
            None => {
                return Err(StoreError::NotFound);
            },
            Some(i) => i,
        };
        if self.messages[i].sender_id != Some(user_id) {
            return Err(StoreError::Forbidden);
        }
        let mut nm = self.messages[i].clone();
        let prior = nm.content;
        nm.content = new_content;
        nm.state = MsgState::Edited { at: now };
        self.edits.push(
            EditRecord {
                message_id: message_id,
                old_content: prior,
                edited_by: user_id,
                edited_at: now,
            },
        );
        self.messages.set(i, nm);
        proof {
            let us1 = final(self).messages@;
            assert(forall|j: int|
                0 <= j < us1.len() ==> (#[trigger] us1[j]).id == old(self).messages@[j].id
                    && us1[j].thread_id == old(self).messages@[j].thread_id);
        }
        Ok(())
    }

    /// Soft-delete a live message; only the author may delete.
    pub fn delete_message(&mut self, message_id: u64, user_id: u64, now: u64) -> (r: Result<
        (),
        StoreError,
    >)
        requires
            old(self).wf(),
        ensures
            final(self).wf(),
            final(self).same_aux(*old(self)),
            final(self).next_id == old(self).next_id,
            match find_live(old(self).messages@, message_id) {
                None => r == Err::<(), StoreError>(StoreError::NotFound) && *final(self)
                    == *old(self),
                Some(i) => if old(self).messages@[i].sender_id != Some(user_id) {
                    r == Err::<(), StoreError>(StoreError::Forbidden) && *final(self) == *old(self)
                } else {
                    &&& r == Ok::<(), StoreError>(())
                    &&& final(self).messages@ == old(self).messages@.update(
                        i,
                        Message {
                            state: MsgState::Deleted { at: now },
                            ..old(self).messages@[i]
                        },
                    )
                },
            },
    {
        proof {
            lemma_find_live(self.messages@, message_id);
        }
        let i = match self.find_live_index(message_id) {
            None => {
                return Err(StoreError::NotFound);
            },
            Some(i) => i,
        };
        if self.messages[i].sender_id != Some(user_id) {
            return Err(StoreError::Forbidden);
        }
        let mut nm = self.messages[i].clone();
        nm.state = MsgState::Deleted { at: now };
        self.messages.set(i, nm);
        proof {
            let us1 = final(self).messages@;
            assert(forall|j: int|
                0 <= j < us1.len() ==> (#[trigger] us1[j]).id == old(self).messages@[j].id
                    && us1[j].thread_id == old(self).messages@[j].thread_id);
        }
        Ok(())
    }

    /// Soft-delete a whole thread for a participant: every live message of
    /// the thread in which the actor participates becomes a tombstone.
    pub fn delete_thread(&mut self, thread_id: u64, user_id: u64, now: u64) -> (r: Result<
        (),
        StoreError,
    >)
        requires
            old(self).wf(),
        ensures
            final(self).wf(),
            final(self).same_aux(*old(self)),
            final(self).next_id == old(self).next_id,
            ({
                let s = old(self).messages@;
                let vis = visible_thread(s, thread_id);
                if vis.len() == 0 {
                    r == Err::<(), StoreError>(StoreError::NotFound) && *final(self) == *old(self)
                } else if !(exists|j: int|
                    0 <= j < vis.len() && participates(#[trigger] vis[j], user_id)) {
                    r == Err::<(), StoreError>(StoreError::Forbidden) && *final(self) == *old(self)
                } else {
                    r == Ok::<(), StoreError>(()) && final(self).messages@ == mark_thread_deleted(
                        s,
                        thread_id,
                        user_id,
                        now,
                    )
                }
            }),
    {
        let vis = self.get_thread_messages(thread_id);
        if vis.len() == 0 {
            return Err(StoreError::NotFound);
        }
        if !any_participant(&vis, user_id) {
            return Err(StoreError::Forbidden);
        }
        let n = self.messages.len();
        let mut i: usize = 0;
        while i < n
            invariant
                n == self.messages@.len(),
                n == old(self).messages@.len(),
                0 <= i <= n,
                self.wf(),
                self.same_aux(*old(self)),
                self.next_id == old(self).next_id,
                forall|j: int|
                    0 <= j < i ==> #[trigger] self.messages@[j] == thread_del_marked(
                        old(self).messages@[j],
                        thread_id,
                        user_id,
                        now,
                    ),
                forall|j: int| i <= j < n ==> #[trigger] self.messages@[j] == old(self).messages@[j],
            decreases n - i,
        {
            if Self::is_live(&self.messages[i]) && self.messages[i].thread_id == thread_id && (
            self.messages[i].recipient_id == user_id || self.messages[i].sender_id == Some(
                user_id,
            )) {
                let mut nm = self.messages[i].clone();
                nm.state = MsgState::Deleted { at: now };
                self.messages.set(i, nm);
            }
            i = i + 1;
        }
        proof {
            assert(final(self).messages@ =~= mark_thread_deleted(
                old(self).messages@,
                thread_id,
                user_id,
                now,
            ));
        }
        Ok(())
    }

    /// Index of the pin row for (message, user), if any.
    fn msg_pin_index(&self, message_id: u64, user_id: u64) -> (r: Option<usize>)
        ensures
            match r {
                Some(u) => find_msg_pin(self.pinned_messages@, message_id, user_id) == Some(
                    u as int,
                ),
                None => find_msg_pin(self.pinned_messages@, message_id, user_id) is None,
            },
    {
        let n = self.pinned_messages.len();
        let mut i: usize = n;
        while i > 0
            invariant
                n == self.pinned_messages@.len(),
                0 <= i <= n,
                forall|j: int|
                    i <= j < n ==> #[trigger] self.pinned_messages@[j] != (MessagePin {
                        message_id,
                        user_id,
                    }),
            decreases i,
        {
            let k = i - 1;
            if self.pinned_messages[k].message_id == message_id && self.pinned_messages[k].user_id
                == user_id {
                proof {
                    lemma_find_msg_pin(self.pinned_messages@, message_id, user_id);
                    match find_msg_pin(self.pinned_messages@, message_id, user_id) {
                        Some(x) => {
                            assert(#[trigger] self.pinned_messages@[k as int] == (MessagePin {
                                message_id,
                                user_id,
                            }));
                            assert(x == k);
                        },
                        None => {
                            assert(self.pinned_messages@[k as int] == (MessagePin {
                                message_id,
                                user_id,
                            }));
                        },
                    }
                }
                return Some(k);
            }
            i = k;
        }
        proof {
            lemma_find_msg_pin(self.pinned_messages@, message_id, user_id);
        }
        None
    }

    /// Toggle the acting user's pin on a live message; returns the new pin
    /// state.
    pub fn toggle_pin_message(&mut self, message_id: u64, user_id: u64) -> (r: Result<
        bool,
        StoreError,
    >)
        requires
            old(self).wf(),
        ensures
            final(self).wf(),
            final(self).messages@ == old(self).messages@,
            final(self).edits == old(self).edits,
            final(self).reactions == old(self).reactions,
            final(self).pinned_threads == old(self).pinned_threads,
            final(self).blocks == old(self).blocks,
            final(self).next_id == old(self).next_id,
            match find_live(old(self).messages@, message_id) {
                None => r == Err::<bool, StoreError>(StoreError::NotFound) && *final(self)
                    == *old(self),
                Some(_) => match find_msg_pin(old(self).pinned_messages@, message_id, user_id) {
                    Some(i) => r == Ok::<bool, StoreError>(false) && final(self).pinned_messages@
                        == old(self).pinned_messages@.remove(i),
                    None => r == Ok::<bool, StoreError>(true) && final(self).pinned_messages@
                        == old(self).pinned_messages@.push(MessagePin { message_id, user_id }),
                },
            },
    {
        if self.find_live_index(message_id).is_none() {
            return Err(StoreError::NotFound);
        }
        proof {
            lemma_find_msg_pin(self.pinned_messages@, message_id, user_id);
        }
        match self.msg_pin_index(message_id, user_id) {
            Some(i) => {
                self.pinned_messages.remove(i);
                proof {
                    let ps1 = final(self).pinned_messages@;
                    assert(forall|j: int|
                        0 <= j < i ==> #[trigger] ps1[j] == old(self).pinned_messages@[j]);
                    assert(forall|j: int|
                        i <= j < ps1.len() ==> #[trigger] ps1[j] == old(
                            self,
                        ).pinned_messages@[j + 1]);
                }
                Ok(false)
            },
            None => {
                self.pinned_messages.push(MessagePin { message_id, user_id });
                Ok(true)
            },
        }
    }

    /// Index of the pin row for (thread, user), if any.
    fn thread_pin_index(&self, thread_id: u64, user_id: u64) -> (r: Option<usize>)
        ensures
            match r {
                Some(u) => find_thread_pin(self.pinned_threads@, thread_id, user_id) == Some(
                    u as int,
                ),
                None => find_thread_pin(self.pinned_threads@, thread_id, user_id) is None,
            },
    {
        let n = self.pinned_threads.len();
        let mut i: usize = n;
        while i > 0
            invariant
                n == self.pinned_threads@.len(),
                0 <= i <= n,
                forall|j: int|
                    i <= j < n ==> #[trigger] self.pinned_threads@[j] != (ThreadPin {
                        thread_id,
                        user_id,
                    }),
            decreases i,
        {
            let k = i - 1;
            if self.pinned_threads[k].thread_id == thread_id && self.pinned_threads[k].user_id
                == user_id {
                proof {
                    lemma_find_thread_pin(self.pinned_threads@, thread_id, user_id);
                    match find_thread_pin(self.pinned_threads@, thread_id, user_id) {
                        Some(x) => {
                            assert(#[trigger] self.pinned_threads@[k as int] == (ThreadPin {
                                thread_id,
                                user_id,
                            }));
                            assert(x == k);
                        },
                        None => {
                            assert(self.pinned_threads@[k as int] == (ThreadPin {
                                thread_id,
                                user_id,
                            }));
                        },
                    }
                }
                return Some(k);
            }
            i = k;
        }
        proof {
            lemma_find_thread_pin(self.pinned_threads@, thread_id, user_id);
        }
        None
    }

    /// Toggle the acting user's pin on a thread with at least one live
    /// message; returns the new pin state.
    pub fn toggle_pin_thread(&mut self, thread_id: u64, user_id: u64) -> (r: Result<
        bool,
        StoreError,
    >)
        requires
            old(self).wf(),
        ensures
            final(self).wf(),
            final(self).messages@ == old(self).messages@,
            final(self).edits == old(self).edits,
            final(self).reactions == old(self).reactions,
            final(self).pinned_messages == old(self).pinned_messages,
            final(self).blocks == old(self).blocks,
            final(self).next_id == old(self).next_id,
            match last_in_thread(old(self).messages@, thread_id) {
                None => r == Err::<bool, StoreError>(StoreError::NotFound) && *final(self)
                    == *old(self),
                Some(_) => match find_thread_pin(old(self).pinned_threads@, thread_id, user_id) {
                    Some(i) => r == Ok::<bool, StoreError>(false) && final(self).pinned_threads@
                        == old(self).pinned_threads@.remove(i),
                    None => r == Ok::<bool, StoreError>(true) && final(self).pinned_threads@
                        == old(self).pinned_threads@.push(ThreadPin { thread_id, user_id }),
                },
            },
    {
        if self.last_live_index(thread_id).is_none() {
            return Err(StoreError::NotFound);
        }
        proof {
            lemma_find_thread_pin(self.pinned_threads@, thread_id, user_id);
        }
        match self.thread_pin_index(thread_id, user_id) {
            Some(i) => {
                self.pinned_threads.remove(i);
                proof {
                    let ps1 = final(self).pinned_threads@;
                    assert(forall|j: int|
                        0 <= j < i ==> #[trigger] ps1[j] == old(self).pinned_threads@[j]);
                    assert(forall|j: int|
                        i <= j < ps1.len() ==> #[trigger] ps1[j] == old(self).pinned_threads@[j + 1]);
                }
                Ok(false)
            },
            None => {
                self.pinned_threads.push(ThreadPin { thread_id, user_id });
                Ok(true)
            },
        }
    }

    /// The threads the user has pinned, most recent pin first.
    pub fn get_pinned_threads(&self, user_id: u64) -> (r: Vec<u64>)
        ensures
            r@ == pins_desc(self.pinned_threads@, user_id, self.pinned_threads@.len() as int),
    {
        let ghost ps = self.pinned_threads@;
        let n = self.pinned_threads.len();
        let mut out: Vec<u64> = Vec::new();
        let mut i: usize = n;
        while i > 0
            invariant
                ps == self.pinned_threads@,
                n == ps.len(),
                0 <= i <= n,
                out@ + pins_desc(ps, user_id, i as int) == pins_desc(ps, user_id, n as int),
            decreases i,
        {
            let k = i - 1;
            if self.pinned_threads[k].user_id == user_id {
                out.push(self.pinned_threads[k].thread_id);
                proof {
                    assert(out@ + pins_desc(ps, user_id, k as int) =~= (out@.drop_last()
                        + pins_desc(ps, user_id, i as int)));
                }
            }
            i = k;
        }
        proof {
            assert(out@ =~= out@ + pins_desc(ps, user_id, 0));
        }
        out
    }

    /// Index of the block row for (blocker, blocked), if any.
    fn block_index(&self, blocker_id: u64, blocked_id: u64) -> (r: Option<usize>)
        ensures
            match r {
                Some(u) => find_block(self.blocks@, blocker_id, blocked_id) == Some(u as int),
                None => find_block(self.blocks@, blocker_id, blocked_id) is None,
            },
    {
        let n = self.blocks.len();
        let mut i: usize = n;
        while i > 0
            invariant
                n == self.blocks@.len(),
                0 <= i <= n,
                forall|j: int|
                    i <= j < n ==> #[trigger] self.blocks@[j] != (BlockEntry {
                        blocker_id,
                        blocked_id,
                    }),
            decreases i,
        {
            let k = i - 1;
            if self.blocks[k].blocker_id == blocker_id && self.blocks[k].blocked_id == blocked_id {
                proof {
                    lemma_find_block(self.blocks@, blocker_id, blocked_id);
                    match find_block(self.blocks@, blocker_id, blocked_id) {
                        Some(x) => {
                            assert(#[trigger] self.blocks@[k as int] == (BlockEntry {
                                blocker_id,
                                blocked_id,
                            }));
                            assert(x == k);
                        },
                        None => {
                            assert(self.blocks@[k as int] == (BlockEntry {
                                blocker_id,
                                blocked_id,
                            }));
                        },
                    }
                }
                return Some(k);
            }
            i = k;
        }
        proof {
            lemma_find_block(self.blocks@, blocker_id, blocked_id);
        }
        None
    }

    /// Block another user; blocking oneself is invalid, re-blocking is a
    /// no-op.
    pub fn block_user(&mut self, blocker_id: u64, blocked_id: u64) -> (r: Result<(), StoreError>)
        requires
            old(self).wf(),
        ensures
            final(self).wf(),
            final(self).messages@ == old(self).messages@,
            final(self).edits == old(self).edits,
            final(self).reactions == old(self).reactions,
            final(self).pinned_messages == old(self).pinned_messages,
            final(self).pinned_threads == old(self).pinned_threads,
            final(self).next_id == old(self).next_id,
            blocker_id == blocked_id ==> r == Err::<(), StoreError>(StoreError::InvalidInput)
                && *final(self) == *old(self),
            blocker_id != blocked_id ==> r == Ok::<(), StoreError>(()) && final(self).blocks@
                == match find_block(old(self).blocks@, blocker_id, blocked_id) {
                Some(_) => old(self).blocks@,
                None => old(self).blocks@.push(BlockEntry { blocker_id, blocked_id }),
            },
    {
        if blocker_id == blocked_id {
            return Err(StoreError::InvalidInput);
        }
        proof {
            lemma_find_block(self.blocks@, blocker_id, blocked_id);
        }
        match self.block_index(blocker_id, blocked_id) {
            Some(_) => Ok(()),
            None => {
                self.blocks.push(BlockEntry { blocker_id, blocked_id });
                Ok(())
            },
        }
    }

    /// Remove a block; removing an absent block is a no-op.
    pub fn unblock_user(&mut self, blocker_id: u64, blocked_id: u64)
        requires
            old(self).wf(),
        ensures
            final(self).wf(),
            final(self).messages@ == old(self).messages@,
            final(self).edits == old(self).edits,
            final(self).reactions == old(self).reactions,
            final(self).pinned_messages == old(self).pinned_messages,
            final(self).pinned_threads == old(self).pinned_threads,
            final(self).next_id == old(self).next_id,
            final(self).blocks@ == match find_block(old(self).blocks@, blocker_id, blocked_id) {
                Some(i) => old(self).blocks@.remove(i),
                None => old(self).blocks@,
            },
    {
        proof {
            lemma_find_block(self.blocks@, blocker_id, blocked_id);
        }
        match self.block_index(blocker_id, blocked_id) {
            Some(i) => {
                self.blocks.remove(i);
                proof {
                    let bs1 = final(self).blocks@;
                    assert(forall|j: int| 0 <= j < i ==> #[trigger] bs1[j] == old(self).blocks@[j]);
                    assert(forall|j: int|
                        i <= j < bs1.len() ==> #[trigger] bs1[j] == old(self).blocks@[j + 1]);
                }
            },
            None => {},
        }
    }

    /// Whether `blocker_id` currently blocks `blocked_id`.
    pub fn is_blocked(&self, blocker_id: u64, blocked_id: u64) -> (r: bool)
        ensures
            r == (find_block(self.blocks@, blocker_id, blocked_id) is Some),
    {
        self.block_index(blocker_id, blocked_id).is_some()
    }

    /// The users blocked by `user_id`, in block order.
    pub fn get_blocked_users(&self, user_id: u64) -> (r: Vec<u64>)
        ensures
            r@ == blocked_upto(self.blocks@, user_id, self.blocks@.len() as int),
    {
        let ghost bs = self.blocks@;
        let n = self.blocks.len();
        let mut out: Vec<u64> = Vec::new();
        let mut i: usize = 0;
        while i < n
            invariant
                bs == self.blocks@,
                n == bs.len(),
                0 <= i <= n,
                out@ == blocked_upto(bs, user_id, i as int),
            decreases n - i,
        {
            if self.blocks[i].blocker_id == user_id {
                out.push(self.blocks[i].blocked_id);
            }
            i = i + 1;
        }
        out
    }

    /// Read a whole thread as its viewer sees it and mark what was
    /// addressed to the viewer as read.  A non-empty thread the viewer is
    /// no end of is forbidden; the returned rows carry the read flags from
    /// before this call (the marking is this call's side effect).
    pub fn view_thread(&mut self, thread_id: u64, viewer_id: u64) -> (r: Result<
        Vec<MessageResponse>,
        StoreError,
    >)
        requires
            old(self).wf(),
        ensures
            final(self).wf(),
            final(self).same_aux(*old(self)),
            final(self).next_id == old(self).next_id,
            ({
                let s = old(self).messages@;
                let vis = visible_thread(s, thread_id);
                if vis.len() > 0 && !(exists|j: int|
                    0 <= j < vis.len() && participates(#[trigger] vis[j], viewer_id)) {
                    r == Err::<Vec<MessageResponse>, StoreError>(StoreError::Forbidden)
                        && *final(self) == *old(self)
                } else {
                    &&& final(self).messages@ == mark_read(s, thread_id, viewer_id)
                    &&& match r {
                        Ok(v) => v@.len() == vis.len() && forall|j: int|
                            0 <= j < vis.len() ==> shaped_ok(
                                old(self).reactions.rows@,
                                vis[j],
                                viewer_id,
                                #[trigger] v@[j],
                            ),
                        Err(_) => false,
                    }
                }
            }),
    {
        let vis = self.get_thread_messages(thread_id);
        let n = vis.len();
        if n > 0 && !any_participant(&vis, viewer_id) {
            return Err(StoreError::Forbidden);
        }
        let mut out: Vec<MessageResponse> = Vec::new();
        let mut j: usize = 0;
        while j < n
            invariant
                n == vis@.len(),
                0 <= j <= n,
                self.wf(),
                *self == *old(self),
                out@.len() == j,
                forall|b: int|
                    0 <= b < j ==> shaped_ok(
                        old(self).reactions.rows@,
                        vis@[b],
                        viewer_id,
                        #[trigger] out@[b],
                    ),
            decreases n - j,
        {
            let agg = self.reactions.get_aggregate(vis[j].id);
            out.push(
                MessageResponse {
                    id: vis[j].id,
                    thread_id: vis[j].thread_id,
                    content: vis[j].content.clone(),
                    is_mine: vis[j].sender_id == Some(viewer_id),
                    created_at: vis[j].created_at,
                    is_read: vis[j].is_read,
                    reactions: agg,
                    unread_count: None,
                    to_username: None,
                },
            );
            j = j + 1;
        }
        self.mark_thread_as_read(thread_id, viewer_id);
        Ok(out)
    }

    /// The viewer's inbox shaped for delivery: every live message addressed
    /// to the viewer, newest first, each with its reaction aggregate.
    pub fn inbox(&self, viewer_id: u64) -> (r: Vec<MessageResponse>)
        ensures
            ({
                let ib = inbox_desc(self.messages@, viewer_id, self.messages@.len() as int);
                r@.len() == ib.len() && forall|j: int|
                    0 <= j < ib.len() ==> inbox_row_ok(
                        self.reactions.rows@,
                        ib[j],
                        #[trigger] r@[j],
                    )
            }),
    {
        let msgs = self.get_user_inbox(viewer_id);
        let n = msgs.len();
        let mut out: Vec<MessageResponse> = Vec::new();
        let mut j: usize = 0;
        while j < n
            invariant
                n == msgs@.len(),
                msgs@ == inbox_desc(self.messages@, viewer_id, self.messages@.len() as int),
                0 <= j <= n,
                out@.len() == j,
                forall|b: int|
                    0 <= b < j ==> inbox_row_ok(self.reactions.rows@, msgs@[b], #[trigger] out@[b]),
            decreases n - j,
        {
            let agg = self.reactions.get_aggregate(msgs[j].id);
            out.push(
                MessageResponse {
                    id: msgs[j].id,
                    thread_id: msgs[j].thread_id,
                    content: msgs[j].content.clone(),
                    is_mine: false,
                    created_at: msgs[j].created_at,
                    is_read: msgs[j].is_read,
                    reactions: agg,
                    unread_count: None,
                    to_username: None,
                },
            );
            j = j + 1;
        }
        out
    }
}

/// The conversation listing as delivered to the viewer: one shaped row per
/// thread the viewer participates in, most recent first.  No row carries a
/// sender identity; the counterpart's name appears only on threads whose
/// latest message the viewer sent.
pub fn list_conversations(store: &ThreadStore, dir: &Directory, user_id: u64) -> (r: Vec<
    MessageResponse,
>)
    ensures
        forall|a: int|
            0 <= a < r@.len() ==> conversation_row_ok(
                store.messages@,
                dir.users@,
                user_id,
                #[trigger] r@[a],
            ),
        forall|a: int, b: int|
            0 <= a < b < r@.len() ==> (#[trigger] r@[a]).thread_id != (#[trigger] r@[b]).thread_id,
        forall|i: int|
            0 <= i < store.messages@.len() && conv_relevant(#[trigger] store.messages@[i], user_id)
                ==> exists|a: int|
                    0 <= a < r@.len() && (#[trigger] r@[a]).thread_id
                        == store.messages@[i].thread_id,
        forall|a: int, b: int|
            0 <= a < b < r@.len() ==> match (
                latest_for(store.messages@, user_id, (#[trigger] r@[a]).thread_id),
                latest_for(store.messages@, user_id, (#[trigger] r@[b]).thread_id),
            ) {
                (Some(ja), Some(jb)) => ja > jb,
                _ => true,
            },
{
    let rows = store.get_user_conversations(dir, user_id);
    let n = rows.len();
    let mut out: Vec<MessageResponse> = Vec::new();
    let mut a: usize = 0;
    while a < n
        invariant
            n == rows@.len(),
            0 <= a <= n,
            out@.len() == a,
            forall|b: int|
                0 <= b < n ==> summary_ok(store.messages@, dir.users@, user_id, #[trigger] rows@[b]),
            forall|b: int|
                0 <= b < a ==> conversation_row_ok(
                    store.messages@,
                    dir.users@,
                    user_id,
                    #[trigger] out@[b],
                ),
            forall|b: int| 0 <= b < a ==> (#[trigger] out@[b]).thread_id == rows@[b].thread_id,
        decreases n - a,
    {
        let row = rows[a].clone();
        out.push(
            MessageResponse {
                id: row.id,
                thread_id: row.thread_id,
                content: row.content,
                is_mine: row.sender_id == Some(user_id),
                created_at: row.created_at,
                is_read: row.is_read,
                reactions: Vec::new(),
                unread_count: Some(row.unread_count),
                to_username: row.recipient_username,
            },
        );
        a = a + 1;
    }
    proof {
        assert forall|i: int|
            0 <= i < store.messages@.len() && conv_relevant(
                #[trigger] store.messages@[i],
                user_id,
            ) implies exists|a: int|
            0 <= a < out@.len() && (#[trigger] out@[a]).thread_id
                == store.messages@[i].thread_id by {
            let a0 = choose|a: int|
                0 <= a < rows@.len() && (#[trigger] rows@[a]).thread_id
                    == store.messages@[i].thread_id;
            assert(out@[a0].thread_id == store.messages@[i].thread_id);
        }
    }
    out
}

} // verus!
