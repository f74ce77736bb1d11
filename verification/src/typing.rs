//! The typing-indicator tracker: short-lived presence markers keyed by
//! (thread, user).  A marker counts as "typing" while its age is below the
//! liveness window; a periodic sweep removes markers older than the longer
//! staleness window, so a marker still live for any reader is never swept.

use vstd::prelude::*;

verus! {

/// Seconds a marker counts as "currently typing".
pub const TYPING_LIVE_SECS: u64 = 5;

/// Seconds after which the sweep removes a marker.  Strictly larger than
/// the liveness window.
pub const TYPING_STALE_SECS: u64 = 10;

/// One presence marker: `user_id` started typing in `thread_id` at
/// `started_at`.
#[derive(Clone, Copy, Debug, PartialEq, Eq, Structural)]
pub struct TypingMarker {
    pub thread_id: u64,
    pub user_id: u64,
    pub started_at: u64,
}

/// The marker counts as "currently typing" at time `now` (a marker from a
/// clock ahead of `now` counts as live).
pub open spec fn marker_live(started_at: u64, now: u64) -> bool {
    now - started_at < TYPING_LIVE_SECS
}

/// The sweep removes the marker at time `now`.
pub open spec fn marker_stale(started_at: u64, now: u64) -> bool {
    now - started_at > TYPING_STALE_SECS
}

/// Index of the marker for (thread, user), if any.
pub open spec fn find_marker(ms: Seq<TypingMarker>, thread_id: u64, user_id: u64) -> Option<int>
    decreases ms.len(),
{
    if ms.len() == 0 {
        None
    } else if ms.last().thread_id == thread_id && ms.last().user_id == user_id {
        Some((ms.len() - 1) as int)
    } else {
        find_marker(ms.drop_last(), thread_id, user_id)
    }
}

/// What `find_marker` finds.
pub proof fn lemma_find_marker(ms: Seq<TypingMarker>, thread_id: u64, user_id: u64)
    ensures
        match find_marker(ms, thread_id, user_id) {
            Some(i) => 0 <= i < ms.len() && ms[i].thread_id == thread_id && ms[i].user_id == user_id
                && forall|j: int|
                    i < j < ms.len() ==> !((#[trigger] ms[j]).thread_id == thread_id && ms[j].user_id
                        == user_id),
            None => forall|j: int|
                0 <= j < ms.len() ==> !((#[trigger] ms[j]).thread_id == thread_id && ms[j].user_id
                    == user_id),
        },
    decreases ms.len(),
{
    if ms.len() > 0 && !(ms.last().thread_id == thread_id && ms.last().user_id == user_id) {
        lemma_find_marker(ms.drop_last(), thread_id, user_id);
        assert(forall|j: int| 0 <= j < ms.len() - 1 ==> #[trigger] ms[j] == ms.drop_last()[j]);
    }
}

/// The upsert transition for one marker.
pub open spec fn spec_mark_typing(
    ms: Seq<TypingMarker>,
    thread_id: u64,
    user_id: u64,
    now: u64,
) -> Seq<TypingMarker> {
    let m = TypingMarker { thread_id, user_id, started_at: now };
    match find_marker(ms, thread_id, user_id) {
        Some(i) => ms.update(i, m),
        None => ms.push(m),
    }
}

/// The users typing in thread `t` at time `now`, excluding `ex`, among the
/// first `i` markers.
pub open spec fn typers_upto(
    ms: Seq<TypingMarker>,
    t: u64,
    ex: u64,
    now: u64,
    i: int,
) -> Seq<u64>
    decreases i,
{
    if i <= 0 {
        Seq::empty()
    } else {
        let pre = typers_upto(ms, t, ex, now, i - 1);
        let m = ms[i - 1];
        if m.thread_id == t && m.user_id != ex && marker_live(m.started_at, now) {
            pre.push(m.user_id)
        } else {
            pre
        }
    }
}

/// The markers that survive a sweep at time `now`, among the first `i`.
pub open spec fn retained_upto(ms: Seq<TypingMarker>, now: u64, i: int) -> Seq<TypingMarker>
    decreases i,
{
    if i <= 0 {
        Seq::empty()
    } else {
        let pre = retained_upto(ms, now, i - 1);
        if marker_stale(ms[i - 1].started_at, now) {
            pre
        } else {
            pre.push(ms[i - 1])
        }
    }
}

/// Everything the typing listing reports is backed by a live marker, and
/// every live marker of the thread is reported.
pub proof fn lemma_typers_exact(ms: Seq<TypingMarker>, t: u64, ex: u64, now: u64, i: int)
    requires
        0 <= i <= ms.len(),
    ensures
        forall|u: u64|
            typers_upto(ms, t, ex, now, i).contains(u) <==> exists|j: int|
                0 <= j < i && (#[trigger] ms[j]).thread_id == t && ms[j].user_id == u && u != ex
                    && marker_live(ms[j].started_at, now),
    decreases i,
{
    if i > 0 {
        lemma_typers_exact(ms, t, ex, now, i - 1);
        let pre = typers_upto(ms, t, ex, now, i - 1);
        let m = ms[i - 1];
        assert forall|u: u64| typers_upto(ms, t, ex, now, i).contains(u) implies exists|j: int|
            0 <= j < i && (#[trigger] ms[j]).thread_id == t && ms[j].user_id == u && u != ex
                && marker_live(ms[j].started_at, now) by {
            if m.thread_id == t && m.user_id != ex && marker_live(m.started_at, now) {
                if u == m.user_id && !pre.contains(u) {
                    assert((#[trigger] ms[i - 1]).thread_id == t);
                } else if pre.contains(u) {
                }
            }
        }
        assert forall|u: u64|
            (exists|j: int|
                0 <= j < i && (#[trigger] ms[j]).thread_id == t && ms[j].user_id == u && u != ex
                    && marker_live(ms[j].started_at, now)) implies typers_upto(
            ms,
            t,
            ex,
            now,
            i,
        ).contains(u) by {
            let j = choose|j: int|
                0 <= j < i && (#[trigger] ms[j]).thread_id == t && ms[j].user_id == u && u != ex
                    && marker_live(ms[j].started_at, now);
            if j < i - 1 {
                assert(pre.contains(u));
                if m.thread_id == t && m.user_id != ex && marker_live(m.started_at, now) {
                    assert(typers_upto(ms, t, ex, now, i) == pre.push(m.user_id));
                    assert(typers_upto(ms, t, ex, now, i)[choose|k: int|
                        0 <= k < pre.len() && pre[k] == u] == u);
                }
            } else {
                assert(typers_upto(ms, t, ex, now, i).last() == u);
            }
        }
    }
}

/// Law (typing liveness): right after a typing ping, the typist is listed
/// for every other reader at the same instant.
pub proof fn lemma_mark_typing_then_listed(
    ms: Seq<TypingMarker>,
    t: u64,
    u: u64,
    ex: u64,
    now: u64,
)
    requires
        u != ex,
    ensures
        ({
            let ms1 = spec_mark_typing(ms, t, u, now);
            typers_upto(ms1, t, ex, now, ms1.len() as int).contains(u)
        }),
{
    let ms1 = spec_mark_typing(ms, t, u, now);
    lemma_find_marker(ms, t, u);
    lemma_typers_exact(ms1, t, ex, now, ms1.len() as int);
    match find_marker(ms, t, u) {
        Some(i) => {
            assert(ms1[i] == TypingMarker { thread_id: t, user_id: u, started_at: now });
        },
        None => {
            assert(ms1.last() == TypingMarker { thread_id: t, user_id: u, started_at: now });
        },
    }
}

/// A marker that is live at `now` is never removed by a sweep at `now`: the
/// staleness window exceeds the liveness window.
pub proof fn lemma_live_not_swept(ms: Seq<TypingMarker>, now: u64, j: int)
    requires
        0 <= j < ms.len(),
        marker_live(ms[j].started_at, now),
    ensures
        retained_upto(ms, now, ms.len() as int).contains(ms[j]),
{
    lemma_retained_keeps(ms, now, ms.len() as int, j);
}

/// A non-stale marker is kept by the sweep.
pub proof fn lemma_retained_keeps(ms: Seq<TypingMarker>, now: u64, i: int, j: int)
    requires
        0 <= j < i <= ms.len(),
        !marker_stale(ms[j].started_at, now),
    ensures
        retained_upto(ms, now, i).contains(ms[j]),
    decreases i,
{
    if j == i - 1 {
        assert(retained_upto(ms, now, i).last() == ms[j]);
    } else {
        lemma_retained_keeps(ms, now, i - 1, j);
        let pre = retained_upto(ms, now, i - 1);
        let k = choose|k: int| 0 <= k < pre.len() && pre[k] == ms[j];
        assert(retained_upto(ms, now, i)[k] == ms[j]);
    }
}

/// The tracker of typing markers.
#[derive(Debug)]
pub struct TypingTracker {
    pub markers: Vec<TypingMarker>,
}

impl TypingTracker {
    /// Well-formedness: at most one marker per (thread, user) pair.
    pub open spec fn wf(self) -> bool {
        forall|i: int, j: int|
            0 <= i < j < self.markers@.len() ==> !((#[trigger] self.markers@[i]).thread_id
                == (#[trigger] self.markers@[j]).thread_id && self.markers@[i].user_id
                == self.markers@[j].user_id)
    }

    /// An empty tracker.
    pub fn new() -> (r: TypingTracker)
        ensures
            r.wf(),
            r.markers@ == Seq::<TypingMarker>::empty(),
    {
        TypingTracker { markers: Vec::new() }
    }

    /// Index of the marker for (thread, user), if any.
    fn marker_index(&self, thread_id: u64, user_id: u64) -> (r: Option<usize>)
        ensures
            match r {
                Some(u) => find_marker(self.markers@, thread_id, user_id) == Some(u as int),
                None => find_marker(self.markers@, thread_id, user_id) is None,
            },
    {
        let n = self.markers.len();
        let mut i: usize = n;
        while i > 0
            invariant
                n == self.markers@.len(),
                0 <= i <= n,
                forall|j: int|
                    i <= j < n ==> !((#[trigger] self.markers@[j]).thread_id == thread_id
                        && self.markers@[j].user_id == user_id),
            decreases i,
        {
            let k = i - 1;
            if self.markers[k].thread_id == thread_id && self.markers[k].user_id == user_id {
                proof {
                    lemma_find_marker(self.markers@, thread_id, user_id);
                    match find_marker(self.markers@, thread_id, user_id) {
                        Some(x) => {
                            assert((#[trigger] self.markers@[k as int]).thread_id == thread_id
                                && self.markers@[k as int].user_id == user_id);
                            assert(x == k);
                        },
                        None => {
                            assert(self.markers@[k as int].thread_id == thread_id
                                && self.markers@[k as int].user_id == user_id);
                        },
                    }
                }
                return Some(k);
            }
            i = k;
        }
        proof {
            lemma_find_marker(self.markers@, thread_id, user_id);
        }
        None
    }

    /// Upsert the marker for (thread, user) with `started_at = now`.
    pub fn set_typing_indicator(&mut self, thread_id: u64, user_id: u64, now: u64)
        requires
            old(self).wf(),
        ensures
            final(self).wf(),
            final(self).markers@ == spec_mark_typing(old(self).markers@, thread_id, user_id, now),
    {
        proof {
            lemma_find_marker(self.markers@, thread_id, user_id);
        }
        match self.marker_index(thread_id, user_id) {
            Some(i) => {
                self.markers.set(i, TypingMarker { thread_id, user_id, started_at: now });
                proof {
                    let ms1 = final(self).markers@;
                    assert(forall|j: int|
                        0 <= j < ms1.len() ==> (#[trigger] ms1[j]).thread_id
                            == old(self).markers@[j].thread_id && ms1[j].user_id
                            == old(self).markers@[j].user_id);
                }
            },
            None => {
                self.markers.push(TypingMarker { thread_id, user_id, started_at: now });
            },
        }
    }

    /// Drop the marker for (thread, user), if present.
    pub fn clear_typing_indicator(&mut self, thread_id: u64, user_id: u64)
        requires
            old(self).wf(),
        ensures
            final(self).wf(),
            final(self).markers@ == match find_marker(old(self).markers@, thread_id, user_id) {
                Some(i) => old(self).markers@.remove(i),
                None => old(self).markers@,
            },
    {
        proof {
            lemma_find_marker(self.markers@, thread_id, user_id);
        }
        match self.marker_index(thread_id, user_id) {
            Some(i) => {
                self.markers.remove(i);
                proof {
                    let ms1 = final(self).markers@;
                    assert(forall|j: int| 0 <= j < i ==> #[trigger] ms1[j] == old(self).markers@[j]);
                    assert(forall|j: int|
                        i <= j < ms1.len() ==> #[trigger] ms1[j] == old(self).markers@[j + 1]);
                }
            },
            None => {},
        }
    }

    /// The users currently typing in a thread, excluding the asking user.
    pub fn get_typing_users(&self, thread_id: u64, exclude_user_id: u64, now: u64) -> (r: Vec<u64>)
        ensures
            r@ == typers_upto(
                self.markers@,
                thread_id,
                exclude_user_id,
                now,
                self.markers@.len() as int,
            ),
    {
        let n = self.markers.len();
        let mut out: Vec<u64> = Vec::new();
        let mut i: usize = 0;
        while i < n
            invariant
                n == self.markers@.len(),
                0 <= i <= n,
                out@ == typers_upto(self.markers@, thread_id, exclude_user_id, now, i as int),
            decreases n - i,
        {
            let m = self.markers[i];
            if m.thread_id == thread_id && m.user_id != exclude_user_id && (m.started_at >= now
                || now - m.started_at < TYPING_LIVE_SECS) {
                out.push(m.user_id);
            }
            i = i + 1;
        }
        out
    }

    /// The periodic sweep: physically remove every marker older than the
    /// staleness window.
    pub fn cleanup_typing_indicators(&mut self, now: u64)
        requires
            old(self).wf(),
        ensures
            final(self).wf(),
            final(self).markers@ == retained_upto(
                old(self).markers@,
                now,
                old(self).markers@.len() as int,
            ),
    {
        let ghost ms = self.markers@;
        let n = self.markers.len();
        let mut keep: Vec<TypingMarker> = Vec::new();
        let ghost mut srcs: Seq<int> = Seq::empty();
        let mut i: usize = 0;
        while i < n
            invariant
                ms == self.markers@,
                n == ms.len(),
                self.wf(),
                0 <= i <= n,
                keep@ == retained_upto(ms, now, i as int),
                srcs.len() == keep@.len(),
                forall|a: int| 0 <= a < srcs.len() ==> 0 <= #[trigger] srcs[a] < i,
                forall|a: int| 0 <= a < srcs.len() ==> keep@[a] == ms[#[trigger] srcs[a]],
                forall|a: int, b: int| 0 <= a < b < srcs.len() ==> srcs[a] < srcs[b],
            decreases n - i,
        {
            let m = self.markers[i];
            if !(m.started_at < now && now - m.started_at > TYPING_STALE_SECS) {
                keep.push(m);
                proof {
                    srcs = srcs.push(i as int);
                }
            }
            i = i + 1;
        }
        self.markers = keep;
        proof {
            let ms1 = self.markers@;
            assert forall|a: int, b: int| 0 <= a < b < ms1.len() implies !((#[trigger] ms1[a]).thread_id
                == (#[trigger] ms1[b]).thread_id && ms1[a].user_id == ms1[b].user_id) by {
                assert(ms1[a] == ms[srcs[a]]);
                assert(ms1[b] == ms[srcs[b]]);
                assert(!((#[trigger] ms[srcs[a]]).thread_id == (#[trigger] ms[srcs[b]]).thread_id
                    && ms[srcs[a]].user_id == ms[srcs[b]].user_id));
            }
        }
    }
}

} // verus!
