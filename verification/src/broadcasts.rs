//! Public broadcasts with view tracking and threaded comments.  A broadcast
//! may be anonymous: the stored sender is masked to `None` at creation, so
//! no later read can recover it.  Comments are soft-deleted and carry
//! emoji reactions through the shared aggregator.

use vstd::prelude::*;

use crate::StoreError;
use crate::msg::EmojiCount;
use crate::reactions::{Reactions, reactions_match, spec_set_reaction};
use crate::text::{blank, is_blank};
use crate::users::{Directory, User, find_user_by_id, lemma_find_user_by_id};

verus! {

/// One public broadcast.
#[derive(Debug)]
pub struct Broadcast {
    pub id: u64,
    pub sender_id: Option<u64>,
    pub content: String,
    pub is_anonymous: bool,
    pub created_at: u64,
}

impl Clone for Broadcast {
    fn clone(&self) -> (r: Self)
        ensures
            r == *self,
    {
        Broadcast {
            id: self.id,
            sender_id: self.sender_id,
            content: self.content.clone(),
            is_anonymous: self.is_anonymous,
            created_at: self.created_at,
        }
    }
}

/// Lifecycle of a comment: kept as a tombstone once deleted.
#[derive(Clone, Copy, Debug, PartialEq, Eq, Structural)]
pub enum CommentState {
    Active,
    Deleted { at: u64 },
}

/// One comment on a broadcast, optionally replying to another comment.
#[derive(Debug)]
pub struct BroadcastComment {
    pub id: u64,
    pub broadcast_id: u64,
    pub user_id: u64,
    pub content: String,
    pub parent_comment_id: Option<u64>,
    pub created_at: u64,
    pub state: CommentState,
}

impl Clone for BroadcastComment {
    fn clone(&self) -> (r: Self)
        ensures
            r == *self,
    {
        BroadcastComment {
            id: self.id,
            broadcast_id: self.broadcast_id,
            user_id: self.user_id,
            content: self.content.clone(),
            parent_comment_id: self.parent_comment_id,
            created_at: self.created_at,
            state: self.state,
        }
    }
}

/// A comment that has not been soft-deleted.
pub open spec fn comment_alive(c: BroadcastComment) -> bool {
    !(c.state is Deleted)
}

/// One recorded view of a broadcast by a user.
#[derive(Clone, Copy, Debug, PartialEq, Eq, Structural)]
pub struct ViewRecord {
    pub broadcast_id: u64,
    pub user_id: u64,
}

/// A broadcast shaped for the listing: the sender's name only when the
/// broadcast is not anonymous.
#[derive(Debug)]
pub struct BroadcastResponse {
    pub id: u64,
    pub sender_username: Option<String>,
    pub content: String,
    pub is_anonymous: bool,
    pub created_at: u64,
    pub view_count: u64,
}

/// A comment shaped for delivery, with its author's name and its reaction
/// aggregate.
#[derive(Debug)]
pub struct CommentResponse {
    pub id: u64,
    pub broadcast_id: u64,
    pub user_id: u64,
    pub username: Option<String>,
    pub content: String,
    pub parent_comment_id: Option<u64>,
    pub created_at: u64,
    pub reactions: Vec<EmojiCount>,
}

/// Index of the broadcast with this identifier, if any.
pub open spec fn find_broadcast(bs: Seq<Broadcast>, id: u64) -> Option<int>
    decreases bs.len(),
{
    if bs.len() == 0 {
        None
    } else if bs.last().id == id {
        Some((bs.len() - 1) as int)
    } else {
        find_broadcast(bs.drop_last(), id)
    }
}

/// What `find_broadcast` finds.
pub proof fn lemma_find_broadcast(bs: Seq<Broadcast>, id: u64)
    ensures
        match find_broadcast(bs, id) {
            Some(i) => 0 <= i < bs.len() && bs[i].id == id && forall|j: int|
                i < j < bs.len() ==> (#[trigger] bs[j]).id != id,
            None => forall|j: int| 0 <= j < bs.len() ==> (#[trigger] bs[j]).id != id,
        },
    decreases bs.len(),
{
    if bs.len() > 0 && bs.last().id != id {
        lemma_find_broadcast(bs.drop_last(), id);
        assert(forall|j: int| 0 <= j < bs.len() - 1 ==> #[trigger] bs[j] == bs.drop_last()[j]);
    }
}

/// Index of the live comment with this identifier, if any.
pub open spec fn find_live_comment(cs: Seq<BroadcastComment>, id: u64) -> Option<int>
    decreases cs.len(),
{
    if cs.len() == 0 {
        None
    } else if comment_alive(cs.last()) && cs.last().id == id {
        Some((cs.len() - 1) as int)
    } else {
        find_live_comment(cs.drop_last(), id)
    }
}

/// What `find_live_comment` finds.
pub proof fn lemma_find_live_comment(cs: Seq<BroadcastComment>, id: u64)
    ensures
        match find_live_comment(cs, id) {
            Some(i) => 0 <= i < cs.len() && comment_alive(cs[i]) && cs[i].id == id && forall|j: int|
                i < j < cs.len() ==> !(comment_alive(#[trigger] cs[j]) && cs[j].id == id),
            None => forall|j: int|
                0 <= j < cs.len() ==> !(comment_alive(#[trigger] cs[j]) && cs[j].id == id),
        },
    decreases cs.len(),
{
    if cs.len() > 0 && !(comment_alive(cs.last()) && cs.last().id == id) {
        lemma_find_live_comment(cs.drop_last(), id);
        assert(forall|j: int| 0 <= j < cs.len() - 1 ==> #[trigger] cs[j] == cs.drop_last()[j]);
    }
}

/// Number of recorded views of a broadcast among the first `i` rows.
pub open spec fn view_count_upto(vs: Seq<ViewRecord>, broadcast_id: u64, i: int) -> nat
    decreases i,
{
    if i <= 0 {
        0
    } else {
        view_count_upto(vs, broadcast_id, i - 1) + if vs[i - 1].broadcast_id == broadcast_id {
            1nat
        } else {
            0nat
        }
    }
}

/// Number of recorded views of a broadcast.
pub open spec fn view_count_of(vs: Seq<ViewRecord>, broadcast_id: u64) -> nat {
    view_count_upto(vs, broadcast_id, vs.len() as int)
}

/// The live comments of a broadcast among the first `i` rows, in creation
/// order.
pub open spec fn comments_upto(cs: Seq<BroadcastComment>, broadcast_id: u64, i: int) -> Seq<
    BroadcastComment,
>
    decreases i,
{
    if i <= 0 {
        Seq::empty()
    } else {
        let pre = comments_upto(cs, broadcast_id, i - 1);
        if comment_alive(cs[i - 1]) && cs[i - 1].broadcast_id == broadcast_id {
            pre.push(cs[i - 1])
        } else {
            pre
        }
    }
}

/// A response row faithfully shapes one comment: author name resolved from
/// the directory, exact reaction aggregate attached.
pub open spec fn comment_row_ok(
    dus: Seq<User>,
    rx: Seq<crate::reactions::Reaction>,
    c: BroadcastComment,
    resp: CommentResponse,
) -> bool {
    &&& resp.id == c.id
    &&& resp.broadcast_id == c.broadcast_id
    &&& resp.user_id == c.user_id
    &&& resp.content == c.content
    &&& resp.parent_comment_id == c.parent_comment_id
    &&& resp.created_at == c.created_at
    &&& match find_user_by_id(dus, c.user_id) {
        Some(k) => resp.username == Some(dus[k].username),
        None => resp.username is None,
    }
    &&& reactions_match(rx, c.id, resp.reactions@)
}

/// The board of broadcasts, their views, their comments and the comment
/// reactions.  Broadcast and comment identifiers come from one monotone
/// counter.
pub struct BroadcastBoard {
    pub broadcasts: Vec<Broadcast>,
    pub views: Vec<ViewRecord>,
    pub comments: Vec<BroadcastComment>,
    pub comment_reactions: Reactions,
    pub next_id: u64,
}

impl BroadcastBoard {
    /// Well-formedness: identifiers grow along each sequence and stay below
    /// the counter; views hold no duplicate pair; reactions are
    /// well-formed.
    pub open spec fn wf(self) -> bool {
        &&& forall|i: int, j: int|
            0 <= i < j < self.broadcasts@.len() ==> (#[trigger] self.broadcasts@[i]).id
                < (#[trigger] self.broadcasts@[j]).id
        &&& forall|i: int|
            0 <= i < self.broadcasts@.len() ==> (#[trigger] self.broadcasts@[i]).id < self.next_id
        &&& forall|i: int, j: int|
            0 <= i < j < self.comments@.len() ==> (#[trigger] self.comments@[i]).id
                < (#[trigger] self.comments@[j]).id
        &&& forall|i: int|
            0 <= i < self.comments@.len() ==> (#[trigger] self.comments@[i]).id < self.next_id
        &&& forall|i: int, j: int|
            0 <= i < j < self.views@.len() ==> #[trigger] self.views@[i] != #[trigger] self.views@[j]
        &&& self.comment_reactions.wf()
    }

    /// An empty board.
    pub fn new() -> (r: BroadcastBoard)
        ensures
            r.wf(),
            r.broadcasts@ == Seq::<Broadcast>::empty(),
            r.views@ == Seq::<ViewRecord>::empty(),
            r.comments@ == Seq::<BroadcastComment>::empty(),
            r.comment_reactions.rows@.len() == 0,
            r.next_id == 0,
    {
        BroadcastBoard {
            broadcasts: Vec::new(),
            views: Vec::new(),
            comments: Vec::new(),
            comment_reactions: Reactions::new(),
            next_id: 0,
        }
    }

    /// Create a broadcast.  Blank content is rejected; an anonymous
    /// broadcast stores no sender at all, so no read can recover it.
    pub fn create_broadcast(
        &mut self,
        sender_id: Option<u64>,
        content: String,
        is_anonymous: bool,
        now: u64,
    ) -> (r: Result<u64, StoreError>)
        requires
            old(self).wf(),
            old(self).next_id < u64::MAX,
        ensures
            final(self).wf(),
            final(self).views == old(self).views,
            final(self).comments == old(self).comments,
            final(self).comment_reactions == old(self).comment_reactions,
            blank(content@) ==> r == Err::<u64, StoreError>(StoreError::InvalidInput)
                && *final(self) == *old(self),
            !blank(content@) ==> {
                &&& r == Ok::<u64, StoreError>(old(self).next_id)
                &&& final(self).next_id == old(self).next_id + 1
                &&& final(self).broadcasts@ == old(self).broadcasts@.push(
                    Broadcast {
                        id: old(self).next_id,
                        sender_id: if is_anonymous {
                            None
                        } else {
                            sender_id
                        },
                        content: content,
                        is_anonymous: is_anonymous,
                        created_at: now,
                    },
                )
            },
    {
        if is_blank(content.as_str()) {
            return Err(StoreError::InvalidInput);
        }
        let id = self.next_id;
        self.next_id = self.next_id + 1;
        self.broadcasts.push(
            Broadcast {
                id: id,
                sender_id: if is_anonymous {
                    None
                } else {
                    sender_id
                },
                content: content,
                is_anonymous: is_anonymous,
                created_at: now,
            },
        );
        Ok(id)
    }

    /// Number of recorded views of one broadcast.
    fn count_views(&self, broadcast_id: u64) -> (c: u64)
        ensures
            c == view_count_of(self.views@, broadcast_id),
    {
        let n = self.views.len();
        let mut c: u64 = 0;
        let mut j: usize = 0;
        while j < n
            invariant
                n == self.views@.len(),
                0 <= j <= n,
                c == view_count_upto(self.views@, broadcast_id, j as int),
                c <= j,
            decreases n - j,
        {
            if self.views[j].broadcast_id == broadcast_id {
                c = c + 1;
            }
            j = j + 1;
        }
        c
    }

    /// The most recent broadcasts, newest first, at most `limit` rows, with
    /// the sender's name only on non-anonymous rows and the exact view
    /// count on each.
    pub fn get_broadcasts(&self, dir: &Directory, limit: u64) -> (r: Vec<BroadcastResponse>)
        ensures
            r@.len() == if limit < self.broadcasts@.len() {
                limit as int
            } else {
                self.broadcasts@.len() as int
            },
            forall|j: int|
                0 <= j < r@.len() ==> ({
                    let b = self.broadcasts@[self.broadcasts@.len() - 1 - j];
                    &&& (#[trigger] r@[j]).id == b.id
                    &&& r@[j].content == b.content
                    &&& r@[j].is_anonymous == b.is_anonymous
                    &&& r@[j].created_at == b.created_at
                    &&& r@[j].view_count == view_count_of(self.views@, b.id)
                    &&& match b.sender_id {
                        Some(sid) => match find_user_by_id(dir.users@, sid) {
                            Some(k) => r@[j].sender_username == Some(dir.users@[k].username),
                            None => r@[j].sender_username is None,
                        },
                        None => r@[j].sender_username is None,
                    }
                }),
    {
        let n = self.broadcasts.len();
        let take: usize = if limit < (n as u64) {
            limit as usize
        } else {
            n
        };
        let mut out: Vec<BroadcastResponse> = Vec::new();
        let mut j: usize = 0;
        while j < take
            invariant
                n == self.broadcasts@.len(),
                take <= n,
                0 <= j <= take,
                out@.len() == j,
                forall|b0: int|
                    0 <= b0 < j ==> ({
                        let b = self.broadcasts@[n - 1 - b0];
                        &&& (#[trigger] out@[b0]).id == b.id
                        &&& out@[b0].content == b.content
                        &&& out@[b0].is_anonymous == b.is_anonymous
                        &&& out@[b0].created_at == b.created_at
                        &&& out@[b0].view_count == view_count_of(self.views@, b.id)
                        &&& match b.sender_id {
                            Some(sid) => match find_user_by_id(dir.users@, sid) {
                                Some(k) => out@[b0].sender_username == Some(dir.users@[k].username),
                                None => out@[b0].sender_username is None,
                            },
                            None => out@[b0].sender_username is None,
                        }
                    }),
            decreases take - j,
        {
            let k = n - 1 - j;
            let vc = self.count_views(self.broadcasts[k].id);
            let uname: Option<String> = match self.broadcasts[k].sender_id {
                Some(sid) => {
                    proof {
                        lemma_find_user_by_id(dir.users@, sid);
                    }
                    match dir.get_user_by_id(sid) {
                        Some(du) => Some(du.username),
                        None => None,
                    }
                },
                None => None,
            };
            out.push(
                BroadcastResponse {
                    id: self.broadcasts[k].id,
                    sender_username: uname,
                    content: self.broadcasts[k].content.clone(),
                    is_anonymous: self.broadcasts[k].is_anonymous,
                    created_at: self.broadcasts[k].created_at,
                    view_count: vc,
                },
            );
            j = j + 1;
        }
        out
    }

    /// Record that a user has viewed a broadcast; repeat views are no-ops.
    pub fn track_broadcast_view(&mut self, broadcast_id: u64, user_id: u64) -> (r: Result<
        (),
        StoreError,
    >)
        requires
            old(self).wf(),
        ensures
            final(self).wf(),
            final(self).broadcasts == old(self).broadcasts,
            final(self).comments == old(self).comments,
            final(self).comment_reactions == old(self).comment_reactions,
            final(self).next_id == old(self).next_id,
            find_broadcast(old(self).broadcasts@, broadcast_id) is None ==> r == Err::<
                (),
                StoreError,
            >(StoreError::NotFound) && *final(self) == *old(self),
            find_broadcast(old(self).broadcasts@, broadcast_id) is Some ==> r == Ok::<
                (),
                StoreError,
            >(()) && final(self).views@ == if old(self).views@.contains(
                ViewRecord { broadcast_id, user_id },
            ) {
                old(self).views@
            } else {
                old(self).views@.push(ViewRecord { broadcast_id, user_id })
            },
    {
        if self.broadcast_index(broadcast_id).is_none() {
            return Err(StoreError::NotFound);
        }
        let n = self.views.len();
        let mut j: usize = 0;
        while j < n
            invariant
                *self == *old(self),
                self.wf(),
                find_broadcast(self.broadcasts@, broadcast_id) is Some,
                n == self.views@.len(),
                0 <= j <= n,
                forall|b: int|
                    0 <= b < j ==> #[trigger] self.views@[b] != (ViewRecord {
                        broadcast_id,
                        user_id,
                    }),
            decreases n - j,
        {
            if self.views[j].broadcast_id == broadcast_id && self.views[j].user_id == user_id {
                proof {
                    assert(self.views@.contains(ViewRecord { broadcast_id, user_id }));
                }
                return Ok(());
            }
            j = j + 1;
        }
        proof {
            if self.views@.contains(ViewRecord { broadcast_id, user_id }) {
                let b = choose|b: int|
                    0 <= b < self.views@.len() && self.views@[b] == (ViewRecord {
                        broadcast_id,
                        user_id,
                    });
                assert(false);
            }
        }
        self.views.push(ViewRecord { broadcast_id, user_id });
        Ok(())
    }

    /// Index of the broadcast with this identifier, if any.
    fn broadcast_index(&self, id: u64) -> (r: Option<usize>)
        ensures
            match r {
                Some(u) => find_broadcast(self.broadcasts@, id) == Some(u as int),
                None => find_broadcast(self.broadcasts@, id) is None,
            },
    {
        let n = self.broadcasts.len();
        let mut i: usize = n;
        while i > 0
            invariant
                n == self.broadcasts@.len(),
                0 <= i <= n,
                forall|j: int| i <= j < n ==> (#[trigger] self.broadcasts@[j]).id != id,
            decreases i,
        {
            let k = i - 1;
            if self.broadcasts[k].id == id {
                proof {
                    lemma_find_broadcast(self.broadcasts@, id);
                    match find_broadcast(self.broadcasts@, id) {
                        Some(x) => {
                            assert((#[trigger] self.broadcasts@[k as int]).id == id);
                            assert(x == k);
                        },
                        None => {
                            assert(self.broadcasts@[k as int].id == id);
                        },
                    }
                }
                return Some(k);
            }
            i = k;
        }
        proof {
            lemma_find_broadcast(self.broadcasts@, id);
        }
        None
    }

    /// Index of the live comment with this identifier, if any.
    fn comment_index(&self, id: u64) -> (r: Option<usize>)
        ensures
            match r {
                Some(u) => find_live_comment(self.comments@, id) == Some(u as int),
                None => find_live_comment(self.comments@, id) is None,
            },
    {
        let n = self.comments.len();
        let mut i: usize = n;
        while i > 0
            invariant
                n == self.comments@.len(),
                0 <= i <= n,
                forall|j: int|
                    i <= j < n ==> !(comment_alive(#[trigger] self.comments@[j])
                        && self.comments@[j].id == id),
            decreases i,
        {
            let k = i - 1;
            let live = match self.comments[k].state {
                CommentState::Deleted { .. } => false,
                CommentState::Active => true,
            };
            if live && self.comments[k].id == id {
                proof {
                    lemma_find_live_comment(self.comments@, id);
                    match find_live_comment(self.comments@, id) {
                        Some(x) => {
                            assert(comment_alive(#[trigger] self.comments@[k as int])
                                && self.comments@[k as int].id == id);
                            assert(x == k);
                        },
                        None => {
                            assert(comment_alive(self.comments@[k as int])
                                && self.comments@[k as int].id == id);
                        },
                    }
                }
                return Some(k);
            }
            i = k;
        }
        proof {
            lemma_find_live_comment(self.comments@, id);
        }
        None
    }

    /// Comment on a broadcast, optionally replying to a live comment of the
    /// same broadcast.  Blank content, an unknown broadcast, and an unknown
    /// or foreign parent comment are each rejected.
    pub fn create_broadcast_comment(
        &mut self,
        broadcast_id: u64,
        user_id: u64,
        content: String,
        parent_comment_id: Option<u64>,
        now: u64,
    ) -> (r: Result<u64, StoreError>)
        requires
            old(self).wf(),
            old(self).next_id < u64::MAX,
        ensures
            final(self).wf(),
            final(self).broadcasts == old(self).broadcasts,
            final(self).views == old(self).views,
            final(self).comment_reactions == old(self).comment_reactions,
            blank(content@) ==> r == Err::<u64, StoreError>(StoreError::InvalidInput)
                && *final(self) == *old(self),
            !blank(content@) && find_broadcast(old(self).broadcasts@, broadcast_id) is None ==> r
                == Err::<u64, StoreError>(StoreError::NotFound) && *final(self) == *old(self),
            !blank(content@) && find_broadcast(old(self).broadcasts@, broadcast_id) is Some ==> ({
                let parent_ok = match parent_comment_id {
                    Some(p) => match find_live_comment(old(self).comments@, p) {
                        Some(pi) => old(self).comments@[pi].broadcast_id == broadcast_id,
                        None => false,
                    },
                    None => true,
                };
                if !parent_ok {
                    r == Err::<u64, StoreError>(StoreError::NotFound) && *final(self) == *old(self)
                } else {
                    &&& r == Ok::<u64, StoreError>(old(self).next_id)
                    &&& final(self).next_id == old(self).next_id + 1
                    &&& final(self).comments@ == old(self).comments@.push(
                        BroadcastComment {
                            id: old(self).next_id,
                            broadcast_id: broadcast_id,
                            user_id: user_id,
                            content: content,
                            parent_comment_id: parent_comment_id,
                            created_at: now,
                            state: CommentState::Active,
                        },
                    )
                }
            }),
    {
        if is_blank(content.as_str()) {
            return Err(StoreError::InvalidInput);
        }
        if self.broadcast_index(broadcast_id).is_none() {
            return Err(StoreError::NotFound);
        }
        match parent_comment_id {
            Some(p) => {
                proof {
                    lemma_find_live_comment(self.comments@, p);
                }
                match self.comment_index(p) {
                    Some(pi) => {
                        if self.comments[pi].broadcast_id != broadcast_id {
                            return Err(StoreError::NotFound);
                        }
                    },
                    None => {
                        return Err(StoreError::NotFound);
                    },
                }
            },
            None => {},
        }
        let id = self.next_id;
        self.next_id = self.next_id + 1;
        self.comments.push(
            BroadcastComment {
                id: id,
                broadcast_id: broadcast_id,
                user_id: user_id,
                content: content,
                parent_comment_id: parent_comment_id,
                created_at: now,
                state: CommentState::Active,
            },
        );
        Ok(id)
    }

    /// The live comments of a broadcast in creation order, shaped with the
    /// author's name and the exact reaction aggregate.
    pub fn get_broadcast_comments(&self, dir: &Directory, broadcast_id: u64) -> (r: Vec<
        CommentResponse,
    >)
        ensures
            ({
                let cs = comments_upto(self.comments@, broadcast_id, self.comments@.len() as int);
                r@.len() == cs.len() && forall|j: int|
                    0 <= j < cs.len() ==> comment_row_ok(
                        dir.users@,
                        self.comment_reactions.rows@,
                        cs[j],
                        #[trigger] r@[j],
                    )
            }),
    {
        let n = self.comments.len();
        let mut out: Vec<CommentResponse> = Vec::new();
        let mut i: usize = 0;
        while i < n
            invariant
                n == self.comments@.len(),
                0 <= i <= n,
                out@.len() == comments_upto(self.comments@, broadcast_id, i as int).len(),
                forall|j: int|
                    0 <= j < out@.len() ==> comment_row_ok(
                        dir.users@,
                        self.comment_reactions.rows@,
                        comments_upto(self.comments@, broadcast_id, i as int)[j],
                        #[trigger] out@[j],
                    ),
            decreases n - i,
        {
            let live = match self.comments[i].state {
                CommentState::Deleted { .. } => false,
                CommentState::Active => true,
            };
            if live && self.comments[i].broadcast_id == broadcast_id {
                proof {
                    lemma_find_user_by_id(dir.users@, self.comments@[i as int].user_id);
                }
                let uname: Option<String> = match dir.get_user_by_id(self.comments[i].user_id) {
                    Some(du) => Some(du.username),
                    None => None,
                };
                let agg = self.comment_reactions.get_aggregate(self.comments[i].id);
                out.push(
                    CommentResponse {
                        id: self.comments[i].id,
                        broadcast_id: self.comments[i].broadcast_id,
                        user_id: self.comments[i].user_id,
                        username: uname,
                        content: self.comments[i].content.clone(),
                        parent_comment_id: self.comments[i].parent_comment_id,
                        created_at: self.comments[i].created_at,
                        reactions: agg,
                    },
                );
            }
            i = i + 1;
        }
        out
    }

    /// Upsert the acting user's reaction on a live comment.
    pub fn react_to_comment(&mut self, comment_id: u64, user_id: u64, emoji: String) -> (r: Result<
        (),
        StoreError,
    >)
        requires
            old(self).wf(),
        ensures
            final(self).wf(),
            final(self).broadcasts == old(self).broadcasts,
            final(self).views == old(self).views,
            final(self).comments == old(self).comments,
            final(self).next_id == old(self).next_id,
            find_live_comment(old(self).comments@, comment_id) is None ==> r == Err::<
                (),
                StoreError,
            >(StoreError::NotFound) && *final(self) == *old(self),
            find_live_comment(old(self).comments@, comment_id) is Some ==> r == Ok::<
                (),
                StoreError,
            >(()) && final(self).comment_reactions.rows@ == spec_set_reaction(
                old(self).comment_reactions.rows@,
                comment_id,
                user_id,
                emoji,
            ),
    {
        match self.comment_index(comment_id) {
            None => Err(StoreError::NotFound),
            Some(_) => {
                self.comment_reactions.set_reaction(comment_id, user_id, emoji);
                Ok(())
            },
        }
    }

    /// Soft-delete a live comment; only its author may delete it.
    pub fn delete_broadcast_comment(&mut self, comment_id: u64, user_id: u64, now: u64) -> (r:
        Result<(), StoreError>)
        requires
            old(self).wf(),
        ensures
            final(self).wf(),
            final(self).broadcasts == old(self).broadcasts,
            final(self).views == old(self).views,
            final(self).comment_reactions == old(self).comment_reactions,
            final(self).next_id == old(self).next_id,
            match find_live_comment(old(self).comments@, comment_id) {
                None => r == Err::<(), StoreError>(StoreError::NotFound) && *final(self)
                    == *old(self),
                Some(i) => if old(self).comments@[i].user_id != user_id {
                    r == Err::<(), StoreError>(StoreError::Forbidden) && *final(self) == *old(self)
                } else {
                    r == Ok::<(), StoreError>(()) && final(self).comments@
                        == old(self).comments@.update(
                        i,
                        BroadcastComment {
                            state: CommentState::Deleted { at: now },
                            ..old(self).comments@[i]
                        },
                    )
                },
            },
    {
        proof {
            lemma_find_live_comment(self.comments@, comment_id);
        }
        let i = match self.comment_index(comment_id) {
            None => {
                return Err(StoreError::NotFound);
            },
            Some(i) => i,
        };
        if self.comments[i].user_id != user_id {
            return Err(StoreError::Forbidden);
        }
        let mut nc = self.comments[i].clone();
        nc.state = CommentState::Deleted { at: now };
        self.comments.set(i, nc);
        proof {
            let cs1 = final(self).comments@;
            assert(forall|j: int|
                0 <= j < cs1.len() ==> (#[trigger] cs1[j]).id == old(self).comments@[j].id);
        }
        Ok(())
    }
}

} // verus!
