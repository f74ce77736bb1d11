//! The message record and the spec-level vocabulary for reasoning about a
//! store of messages: liveness (tombstones), thread membership, participation,
//! unread counts, and the read-marking transition.

use vstd::prelude::*;

use crate::StoreError;
use crate::text::contains_sub;

verus! {

/// Lifecycle of a message row.  A deleted message is a tombstone: it is kept,
/// but excluded from every read.
#[derive(Clone, Copy, Debug, PartialEq, Eq, Structural)]
pub enum MsgState {
    /// As created.
    Active,
    /// Content was overwritten at the given time; the prior content is in the
    /// edit log.
    Edited { at: u64 },
    /// Soft-deleted at the given time.
    Deleted { at: u64 },
}

/// One direct message.  `sender_id` is `None` when the sender is intentionally
/// anonymous; `recipient_id` is always known.
#[derive(Debug)]
pub struct Message {
    pub id: u64,
    pub thread_id: u64,
    pub sender_id: Option<u64>,
    pub recipient_id: u64,
    pub content: String,
    pub created_at: u64,
    pub is_read: bool,
    pub state: MsgState,
}

impl Clone for Message {
    fn clone(&self) -> (r: Self)
        ensures
            r == *self,
    {
        Message {
            id: self.id,
            thread_id: self.thread_id,
            sender_id: self.sender_id,
            recipient_id: self.recipient_id,
            content: self.content.clone(),
            created_at: self.created_at,
            is_read: self.is_read,
            state: self.state,
        }
    }
}

/// A message that has not been soft-deleted.
pub open spec fn alive(m: Message) -> bool {
    !(m.state is Deleted)
}

/// The user is one of the two ends of this particular message.
pub open spec fn participates(m: Message, u: u64) -> bool {
    m.recipient_id == u || m.sender_id == Some(u)
}

/// The message belongs to the live view of thread `t`.
pub open spec fn thread_visible(m: Message, t: u64) -> bool {
    alive(m) && m.thread_id == t
}

/// The live messages of thread `t` among the first `j` rows, in creation
/// order (creation order is chronological: identifiers are allocated
/// monotonically).
pub open spec fn visible_upto(s: Seq<Message>, t: u64, j: int) -> Seq<Message>
    decreases j,
{
    if j <= 0 {
        Seq::empty()
    } else {
        let pre = visible_upto(s, t, j - 1);
        if thread_visible(s[j - 1], t) {
            pre.push(s[j - 1])
        } else {
            pre
        }
    }
}

/// The live messages of thread `t`, in creation order.
pub open spec fn visible_thread(s: Seq<Message>, t: u64) -> Seq<Message> {
    visible_upto(s, t, s.len() as int)
}

/// The message counts as unread for `u` in thread `t`.
pub open spec fn unread_for(m: Message, t: u64, u: u64) -> bool {
    alive(m) && m.thread_id == t && m.recipient_id == u && !m.is_read
}

/// Number of live unread messages addressed to `u` in thread `t` among the
/// first `j` rows.
pub open spec fn unread_upto(s: Seq<Message>, t: u64, u: u64, j: int) -> nat
    decreases j,
{
    if j <= 0 {
        0
    } else {
        unread_upto(s, t, u, j - 1) + if unread_for(s[j - 1], t, u) {
            1nat
        } else {
            0nat
        }
    }
}

/// Number of live unread messages addressed to `u` in thread `t`.
pub open spec fn unread_count(s: Seq<Message>, t: u64, u: u64) -> nat {
    unread_upto(s, t, u, s.len() as int)
}

/// Index of the live message with the given identifier, if any (identifiers
/// are unique, so at most one row can carry it).
pub open spec fn find_live(s: Seq<Message>, id: u64) -> Option<int>
    decreases s.len(),
{
    if s.len() == 0 {
        None
    } else if alive(s.last()) && s.last().id == id {
        Some((s.len() - 1) as int)
    } else {
        find_live(s.drop_last(), id)
    }
}

/// What `find_live` finds: a live row with the identifier after which no
/// other such row occurs, or a guarantee that none exists.
pub proof fn lemma_find_live(s: Seq<Message>, id: u64)
    ensures
        match find_live(s, id) {
            Some(i) => 0 <= i < s.len() && alive(s[i]) && s[i].id == id && forall|j: int|
                i < j < s.len() ==> !(alive(#[trigger] s[j]) && s[j].id == id),
            None => forall|j: int| 0 <= j < s.len() ==> !(alive(#[trigger] s[j]) && s[j].id == id),
        },
    decreases s.len(),
{
    if s.len() > 0 && !(alive(s.last()) && s.last().id == id) {
        lemma_find_live(s.drop_last(), id);
        assert(forall|j: int| 0 <= j < s.len() - 1 ==> #[trigger] s[j] == s.drop_last()[j]);
    }
}

/// Index of the most recent live message of thread `t`, if the thread has
/// any.
pub open spec fn last_in_thread(s: Seq<Message>, t: u64) -> Option<int>
    decreases s.len(),
{
    if s.len() == 0 {
        None
    } else if thread_visible(s.last(), t) {
        Some((s.len() - 1) as int)
    } else {
        last_in_thread(s.drop_last(), t)
    }
}

/// What `last_in_thread` finds: a live row of the thread after which no
/// other occurs, or a guarantee that the thread has no live row.
pub proof fn lemma_last_in_thread(s: Seq<Message>, t: u64)
    ensures
        match last_in_thread(s, t) {
            Some(i) => 0 <= i < s.len() && thread_visible(s[i], t) && forall|j: int|
                i < j < s.len() ==> !thread_visible(#[trigger] s[j], t),
            None => forall|j: int| 0 <= j < s.len() ==> !thread_visible(#[trigger] s[j], t),
        },
    decreases s.len(),
{
    if s.len() > 0 && !thread_visible(s.last(), t) {
        lemma_last_in_thread(s.drop_last(), t);
        assert(forall|j: int| 0 <= j < s.len() - 1 ==> #[trigger] s[j] == s.drop_last()[j]);
    }
}

/// The message shows up in `u`'s conversation listing: it is live and `u` is
/// one of its ends.
pub open spec fn conv_relevant(m: Message, u: u64) -> bool {
    alive(m) && participates(m, u)
}

/// Index of the most recent live message of thread `t` in which `u`
/// participates — the row a conversation summary is built from.
pub open spec fn latest_for(s: Seq<Message>, u: u64, t: u64) -> Option<int>
    decreases s.len(),
{
    if s.len() == 0 {
        None
    } else if conv_relevant(s.last(), u) && s.last().thread_id == t {
        Some((s.len() - 1) as int)
    } else {
        latest_for(s.drop_last(), u, t)
    }
}

/// What `latest_for` finds.
pub proof fn lemma_latest_for(s: Seq<Message>, u: u64, t: u64)
    ensures
        match latest_for(s, u, t) {
            Some(i) => 0 <= i < s.len() && conv_relevant(s[i], u) && s[i].thread_id == t
                && forall|j: int|
                    i < j < s.len() ==> !(conv_relevant(#[trigger] s[j], u) && s[j].thread_id == t),
            None => forall|j: int|
                0 <= j < s.len() ==> !(conv_relevant(#[trigger] s[j], u) && s[j].thread_id == t),
        },
    decreases s.len(),
{
    if s.len() > 0 && !(conv_relevant(s.last(), u) && s.last().thread_id == t) {
        lemma_latest_for(s.drop_last(), u, t);
        assert(forall|j: int| 0 <= j < s.len() - 1 ==> #[trigger] s[j] == s.drop_last()[j]);
    }
}

/// The reply-routing rule, applied to the most recent message of the thread:
/// the recipient of that message replies to its sender (impossible when the
/// sender is unknown), the sender replies to its recipient, and anyone else
/// is not a participant.
pub open spec fn reply_target(lm: Message, u: u64) -> Result<u64, StoreError> {
    if lm.recipient_id == u {
        match lm.sender_id {
            Some(x) => Ok(x),
            None => Err(StoreError::AnonymousSender),
        }
    } else if lm.sender_id == Some(u) {
        Ok(lm.recipient_id)
    } else {
        Err(StoreError::NotAParticipant)
    }
}

/// One message after the thread-level read marking for `(t, u)`.
pub open spec fn read_marked(m: Message, t: u64, u: u64) -> Message {
    if m.thread_id == t && m.recipient_id == u {
        Message { is_read: true, ..m }
    } else {
        m
    }
}

/// The message runs between the two ends `a` and `b`: its recipient is one
/// of them and its sender is the other, or unknown.
pub open spec fn in_pair(m: Message, a: u64, b: u64) -> bool {
    ||| m.sender_id == Some(a) && m.recipient_id == b
    ||| m.sender_id == Some(b) && m.recipient_id == a
    ||| m.sender_id is None && (m.recipient_id == a || m.recipient_id == b)
}

/// Law (participant pair is immutable): a reply routed from a message that
/// runs between `a` and `b` runs between `a` and `b` again — once a
/// thread's first message fixes its two ends, routing keeps every later
/// message between those same two ends.
pub proof fn lemma_reply_preserves_participants(lm: Message, u: u64, r: u64, a: u64, b: u64)
    requires
        in_pair(lm, a, b),
        reply_target(lm, u) == Ok::<u64, StoreError>(r),
    ensures
        in_pair(Message { sender_id: Some(u), recipient_id: r, ..lm }, a, b),
{
}

/// The read-marking transition: every message of thread `t` addressed to `u`
/// becomes read; nothing else changes.
pub open spec fn mark_read(s: Seq<Message>, t: u64, u: u64) -> Seq<Message> {
    Seq::new(s.len(), |i: int| read_marked(s[i], t, u))
}

/// One message after the single-message read receipt for `(id, u)`.
pub open spec fn one_read_marked(m: Message, id: u64, u: u64) -> Message {
    if m.id == id && m.recipient_id == u {
        Message { is_read: true, ..m }
    } else {
        m
    }
}

/// The single-message read receipt: the message with the identifier becomes
/// read if it is addressed to `u`; nothing else changes.
pub open spec fn mark_one_read(s: Seq<Message>, id: u64, u: u64) -> Seq<Message> {
    Seq::new(s.len(), |i: int| one_read_marked(s[i], id, u))
}

/// One message after a thread-level soft delete by `u`: every live message
/// of thread `t` in which `u` participates becomes a tombstone.
pub open spec fn thread_del_marked(m: Message, t: u64, u: u64, now: u64) -> Message {
    if alive(m) && m.thread_id == t && participates(m, u) {
        Message { state: MsgState::Deleted { at: now }, ..m }
    } else {
        m
    }
}

/// The thread-level soft-delete transition.
pub open spec fn mark_thread_deleted(s: Seq<Message>, t: u64, u: u64, now: u64) -> Seq<Message> {
    Seq::new(s.len(), |i: int| thread_del_marked(s[i], t, u, now))
}

/// The inbox of `u` built from the first `i` rows: live messages addressed
/// to `u`, newest first.
pub open spec fn inbox_desc(s: Seq<Message>, u: u64, i: int) -> Seq<Message>
    decreases i,
{
    if i <= 0 {
        Seq::empty()
    } else {
        let rest = inbox_desc(s, u, i - 1);
        if alive(s[i - 1]) && s[i - 1].recipient_id == u {
            seq![s[i - 1]] + rest
        } else {
            rest
        }
    }
}

/// The message is a search hit for `u` and `q`: live, `u` is one of its
/// ends, and the query occurs in its content.
pub open spec fn search_hit(m: Message, u: u64, q: Seq<char>) -> bool {
    alive(m) && participates(m, u) && contains_sub(m.content@, q)
}

/// The search result over the first `i` rows, newest first, cut off after
/// `lim` hits.
pub open spec fn search_desc(s: Seq<Message>, u: u64, q: Seq<char>, i: int, lim: nat) -> Seq<
    Message,
>
    decreases i,
{
    if i <= 0 || lim == 0 {
        Seq::empty()
    } else {
        if search_hit(s[i - 1], u, q) {
            seq![s[i - 1]] + search_desc(s, u, q, i - 1, (lim - 1) as nat)
        } else {
            search_desc(s, u, q, i - 1, lim)
        }
    }
}

/// A record of the content a message had before one edit overwrote it.
#[derive(Debug)]
pub struct EditRecord {
    pub message_id: u64,
    pub old_content: String,
    pub edited_by: u64,
    pub edited_at: u64,
}

impl Clone for EditRecord {
    fn clone(&self) -> (r: Self)
        ensures
            r == *self,
    {
        EditRecord {
            message_id: self.message_id,
            old_content: self.old_content.clone(),
            edited_by: self.edited_by,
            edited_at: self.edited_at,
        }
    }
}

/// One row of the conversation listing: the latest message of a thread the
/// user participates in, with the unread count for that user.
/// `recipient_username` is populated only when the user is the sender of that
/// latest message; a recipient always sees `None` (anonymity).
#[derive(Debug)]
pub struct ThreadSummary {
    pub id: u64,
    pub thread_id: u64,
    pub sender_id: Option<u64>,
    pub recipient_id: u64,
    pub content: String,
    pub created_at: u64,
    pub is_read: bool,
    pub unread_count: u64,
    pub recipient_username: Option<String>,
}

impl Clone for ThreadSummary {
    fn clone(&self) -> (r: Self)
        ensures
            r == *self,
    {
        ThreadSummary {
            id: self.id,
            thread_id: self.thread_id,
            sender_id: self.sender_id,
            recipient_id: self.recipient_id,
            content: self.content.clone(),
            created_at: self.created_at,
            is_read: self.is_read,
            unread_count: self.unread_count,
            recipient_username: match &self.recipient_username {
                Some(s) => Some(s.clone()),
                None => None,
            },
        }
    }
}

/// Count of reactions sharing one emoji on one subject.
#[derive(Debug)]
pub struct EmojiCount {
    pub emoji: String,
    pub count: u64,
}

impl Clone for EmojiCount {
    fn clone(&self) -> (r: Self)
        ensures
            r == *self,
    {
        EmojiCount { emoji: self.emoji.clone(), count: self.count }
    }
}

/// The visible thread depends only on the rows scanned: two stores that
/// agree on their first `j` rows agree on the view.
pub proof fn lemma_visible_upto_agree(s1: Seq<Message>, s2: Seq<Message>, t: u64, j: int)
    requires
        0 <= j <= s1.len(),
        j <= s2.len(),
        forall|k: int| 0 <= k < j ==> #[trigger] s1[k] == s2[k],
    ensures
        visible_upto(s1, t, j) == visible_upto(s2, t, j),
    decreases j,
{
    if j > 0 {
        lemma_visible_upto_agree(s1, s2, t, j - 1);
    }
}

/// A prefix with no live message of the thread contributes nothing to the
/// view.
pub proof fn lemma_visible_upto_empty(s: Seq<Message>, t: u64, j: int)
    requires
        0 <= j <= s.len(),
        forall|k: int| 0 <= k < j ==> !thread_visible(#[trigger] s[k], t),
    ensures
        visible_upto(s, t, j) == Seq::<Message>::empty(),
    decreases j,
{
    if j > 0 {
        lemma_visible_upto_empty(s, t, j - 1);
    }
}

/// The unread count depends only on the rows scanned.
pub proof fn lemma_unread_upto_agree(s1: Seq<Message>, s2: Seq<Message>, t: u64, u: u64, j: int)
    requires
        0 <= j <= s1.len(),
        j <= s2.len(),
        forall|k: int| 0 <= k < j ==> #[trigger] s1[k] == s2[k],
    ensures
        unread_upto(s1, t, u, j) == unread_upto(s2, t, u, j),
    decreases j,
{
    if j > 0 {
        lemma_unread_upto_agree(s1, s2, t, u, j - 1);
    }
}

/// A prefix with no unread message for `(t, u)` counts zero.
pub proof fn lemma_unread_upto_zero(s: Seq<Message>, t: u64, u: u64, j: int)
    requires
        0 <= j <= s.len(),
        forall|k: int| 0 <= k < j ==> !unread_for(#[trigger] s[k], t, u),
    ensures
        unread_upto(s, t, u, j) == 0,
    decreases j,
{
    if j > 0 {
        lemma_unread_upto_zero(s, t, u, j - 1);
    }
}

/// Law (round trip): creating a message in a fresh thread makes that thread
/// consist of exactly the one message, unread for its recipient; after the
/// recipient's read-marking pass the same single message shows as read and
/// the unread count is zero.
pub proof fn lemma_message_round_trip(s: Seq<Message>, m: Message)
    requires
        alive(m),
        !m.is_read,
        forall|k: int| 0 <= k < s.len() ==> (#[trigger] s[k]).thread_id != m.thread_id,
    ensures
        visible_thread(s.push(m), m.thread_id) == seq![m],
        unread_count(s.push(m), m.thread_id, m.recipient_id) == 1,
        visible_thread(mark_read(s.push(m), m.thread_id, m.recipient_id), m.thread_id) == seq![
            Message { is_read: true, ..m },
        ],
        unread_count(
            mark_read(s.push(m), m.thread_id, m.recipient_id),
            m.thread_id,
            m.recipient_id,
        ) == 0,
{
    let t = m.thread_id;
    let u = m.recipient_id;
    let s1 = s.push(m);
    let n = s.len() as int;
    assert(forall|k: int| 0 <= k < n ==> #[trigger] s1[k] == s[k]);
    lemma_visible_upto_agree(s1, s, t, n);
    lemma_visible_upto_empty(s, t, n);
    assert(s1[n] == m);
    assert(visible_upto(s1, t, n + 1) =~= seq![m]);
    lemma_unread_upto_agree(s1, s, t, u, n);
    lemma_unread_upto_zero(s, t, u, n);
    let s2 = mark_read(s1, t, u);
    let mr = Message { is_read: true, ..m };
    assert(s2.len() == n + 1);
    assert(forall|k: int| 0 <= k < n ==> #[trigger] s2[k] == s[k]);
    assert(s2[n] == mr);
    lemma_visible_upto_agree(s2, s, t, n);
    assert(visible_upto(s2, t, n + 1) =~= seq![mr]);
    lemma_unread_upto_agree(s2, s, t, u, n);
    assert(!unread_for(s2[n], t, u));
}

/// A message as shaped for a viewer.  It has no sender field at all: whether
/// the message is the viewer's own is reduced to `is_mine` before the record
/// leaves the store, and the raw sender identity is discarded.
#[derive(Debug)]
pub struct MessageResponse {
    pub id: u64,
    pub thread_id: u64,
    pub content: String,
    pub is_mine: bool,
    pub created_at: u64,
    pub is_read: bool,
    pub reactions: Vec<EmojiCount>,
    pub unread_count: Option<u64>,
    pub to_username: Option<String>,
}

} // verus!
