//! The reaction aggregator: at most one emoji per (subject, user) pair,
//! last write wins, and counts are grouped by emoji on read.  The same
//! aggregator serves message reactions and broadcast-comment reactions.

use vstd::prelude::*;

use crate::msg::EmojiCount;

verus! {

/// One reaction row: `user_id` currently reacts to `subject_id` with `emoji`.
#[derive(Debug)]
pub struct Reaction {
    pub subject_id: u64,
    pub user_id: u64,
    pub emoji: String,
}

impl Clone for Reaction {
    fn clone(&self) -> (r: Self)
        ensures
            r == *self,
    {
        Reaction {
            subject_id: self.subject_id,
            user_id: self.user_id,
            emoji: self.emoji.clone(),
        }
    }
}

/// The row binds this (subject, user) pair.
pub open spec fn rx_matches(r: Reaction, subject_id: u64, user_id: u64) -> bool {
    r.subject_id == subject_id && r.user_id == user_id
}

/// Index of the row for a (subject, user) pair, if any (the last one; under
/// well-formedness there is at most one).
pub open spec fn rx_find(rows: Seq<Reaction>, subject_id: u64, user_id: u64) -> Option<int>
    decreases rows.len(),
{
    if rows.len() == 0 {
        None
    } else if rx_matches(rows.last(), subject_id, user_id) {
        Some((rows.len() - 1) as int)
    } else {
        rx_find(rows.drop_last(), subject_id, user_id)
    }
}

/// The upsert transition: overwrite the pair's row if present, append one
/// otherwise.
pub open spec fn spec_set_reaction(
    rows: Seq<Reaction>,
    subject_id: u64,
    user_id: u64,
    emoji: String,
) -> Seq<Reaction> {
    let row = Reaction { subject_id, user_id, emoji };
    match rx_find(rows, subject_id, user_id) {
        Some(i) => rows.update(i, row),
        None => rows.push(row),
    }
}

/// The row carries emoji `e` on `subject_id`.
pub open spec fn rx_has_emoji(r: Reaction, subject_id: u64, e: Seq<char>) -> bool {
    r.subject_id == subject_id && r.emoji@ == e
}

/// Number of rows among the first `j` whose subject is `subject_id` and whose
/// current emoji is `e`.
pub open spec fn emoji_count_upto(rows: Seq<Reaction>, subject_id: u64, e: Seq<char>, j: int) -> nat
    decreases j,
{
    if j <= 0 {
        0
    } else {
        emoji_count_upto(rows, subject_id, e, j - 1) + if rx_has_emoji(rows[j - 1], subject_id, e) {
            1nat
        } else {
            0nat
        }
    }
}

/// Number of rows of the subject whose current emoji is `e`.
pub open spec fn emoji_count(rows: Seq<Reaction>, subject_id: u64, e: Seq<char>) -> nat {
    emoji_count_upto(rows, subject_id, e, rows.len() as int)
}

/// `got` is a correct aggregate of the subject's reactions: one entry per
/// emoji in use, each with its exact count, covering every row of the
/// subject.
pub open spec fn reactions_match(rows: Seq<Reaction>, subject_id: u64, got: Seq<EmojiCount>) -> bool {
    &&& forall|a: int, b: int|
        0 <= a < b < got.len() ==> (#[trigger] got[a]).emoji@ != (#[trigger] got[b]).emoji@
    &&& forall|a: int|
        0 <= a < got.len() ==> (#[trigger] got[a]).count == emoji_count(
            rows,
            subject_id,
            got[a].emoji@,
        ) && got[a].count >= 1
    &&& forall|i: int|
        0 <= i < rows.len() && (#[trigger] rows[i]).subject_id == subject_id ==> exists|a: int|
            0 <= a < got.len() && (#[trigger] got[a]).emoji@ == rows[i].emoji@
}

/// What `rx_find` finds: a matching index after which no other row matches,
/// or a guarantee that no row matches.
pub proof fn lemma_rx_find(rows: Seq<Reaction>, subject_id: u64, user_id: u64)
    ensures
        match rx_find(rows, subject_id, user_id) {
            Some(i) => 0 <= i < rows.len() && rx_matches(rows[i], subject_id, user_id)
                && forall|j: int|
                    i < j < rows.len() ==> !rx_matches(#[trigger] rows[j], subject_id, user_id),
            None => forall|j: int|
                0 <= j < rows.len() ==> !rx_matches(#[trigger] rows[j], subject_id, user_id),
        },
    decreases rows.len(),
{
    if rows.len() > 0 && !rx_matches(rows.last(), subject_id, user_id) {
        lemma_rx_find(rows.drop_last(), subject_id, user_id);
        assert(forall|j: int| 0 <= j < rows.len() - 1 ==> #[trigger] rows[j] == rows.drop_last()[j]);
    }
}

/// `rx_find` looks only at the (subject, user) pairs of the rows, never at
/// the emojis, so two row sequences with the same pairs agree on it.
proof fn lemma_rx_find_same_pairs(a: Seq<Reaction>, b: Seq<Reaction>, subject_id: u64, user_id: u64)
    requires
        a.len() == b.len(),
        forall|i: int|
            0 <= i < a.len() ==> (#[trigger] a[i]).subject_id == (#[trigger] b[i]).subject_id
                && a[i].user_id == b[i].user_id,
    ensures
        rx_find(a, subject_id, user_id) == rx_find(b, subject_id, user_id),
    decreases a.len(),
{
    if a.len() > 0 {
        assert(forall|i: int|
            0 <= i < a.len() - 1 ==> #[trigger] a.drop_last()[i] == a[i]
                && #[trigger] b.drop_last()[i] == b[i]);
        lemma_rx_find_same_pairs(a.drop_last(), b.drop_last(), subject_id, user_id);
    }
}

/// Law: re-reacting with the same emoji is idempotent — applying the upsert
/// twice for one (subject, user, emoji) triple leaves exactly the rows that
/// applying it once leaves, so the aggregate count never rises on a repeat.
pub proof fn lemma_set_reaction_idempotent(
    rows: Seq<Reaction>,
    subject_id: u64,
    user_id: u64,
    emoji: String,
)
    ensures
        spec_set_reaction(
            spec_set_reaction(rows, subject_id, user_id, emoji),
            subject_id,
            user_id,
            emoji,
        ) == spec_set_reaction(rows, subject_id, user_id, emoji),
{
    let row = Reaction { subject_id, user_id, emoji };
    let s1 = spec_set_reaction(rows, subject_id, user_id, emoji);
    lemma_rx_find(rows, subject_id, user_id);
    match rx_find(rows, subject_id, user_id) {
        Some(i) => {
            assert(s1 == rows.update(i, row));
            lemma_rx_find_same_pairs(rows, s1, subject_id, user_id);
            assert(s1.update(i, row) =~= s1);
        },
        None => {
            assert(s1 == rows.push(row));
            assert(s1.last() == row);
            assert(rx_find(s1, subject_id, user_id) == Some(rows.len() as int));
            assert(s1.update(rows.len() as int, row) =~= s1);
        },
    }
}

/// The store of reaction rows for one family of subjects.
#[derive(Debug)]
pub struct Reactions {
    pub rows: Vec<Reaction>,
}

impl Reactions {
    /// Well-formedness: at most one row per (subject, user) pair.
    pub open spec fn wf(self) -> bool {
        forall|i: int, j: int|
            0 <= i < j < self.rows@.len() ==> !((#[trigger] self.rows@[i]).subject_id
                == (#[trigger] self.rows@[j]).subject_id && self.rows@[i].user_id
                == self.rows@[j].user_id)
    }

    /// An empty aggregator.
    pub fn new() -> (r: Reactions)
        ensures
            r.wf(),
            r.rows@ == Seq::<Reaction>::empty(),
    {
        Reactions { rows: Vec::new() }
    }

    /// Upsert the acting user's reaction on a subject: re-reacting overwrites
    /// the previous emoji, never duplicates the row.
    pub fn set_reaction(&mut self, subject_id: u64, user_id: u64, emoji: String)
        requires
            old(self).wf(),
        ensures
            final(self).wf(),
            final(self).rows@ == spec_set_reaction(old(self).rows@, subject_id, user_id, emoji),
    {
        let ghost rows0 = self.rows@;
        let n = self.rows.len();
        let mut i: usize = 0;
        while i < n
            invariant
                self.rows@ == rows0,
                rows0 == old(self).rows@,
                self.wf(),
                n == rows0.len(),
                0 <= i <= n,
                forall|j: int| 0 <= j < i ==> !rx_matches(#[trigger] rows0[j], subject_id, user_id),
            decreases n - i,
        {
            if self.rows[i].subject_id == subject_id && self.rows[i].user_id == user_id {
                proof {
                    lemma_rx_find(rows0, subject_id, user_id);
                    // The scan found the first match; `rx_find` names the
                    // last one; well-formedness makes them the same index.
                    match rx_find(rows0, subject_id, user_id) {
                        Some(k) => {
                            assert((#[trigger] rows0[i as int]).subject_id == rows0[k].subject_id
                                && rows0[i as int].user_id == rows0[k].user_id);
                            assert(k == i);
                        },
                        None => {
                            assert(rx_matches(rows0[i as int], subject_id, user_id));
                        },
                    }
                }
                self.rows.set(i, Reaction { subject_id, user_id, emoji });
                proof {
                    // The pair at every index is unchanged, so uniqueness of
                    // pairs is preserved.
                    assert(forall|a: int|
                        0 <= a < rows0.len() ==> (#[trigger] self.rows@[a]).subject_id
                            == rows0[a].subject_id && self.rows@[a].user_id == rows0[a].user_id);
                }
                return;
            }
            i = i + 1;
        }
        proof {
            lemma_rx_find(rows0, subject_id, user_id);
            match rx_find(rows0, subject_id, user_id) {
                Some(k) => {
                    assert(!rx_matches(rows0[k], subject_id, user_id));
                },
                None => {},
            }
        }
        self.rows.push(Reaction { subject_id, user_id, emoji });
    }

    /// The aggregate for one subject: one entry per emoji currently used on
    /// it, each with its exact row count; emojis are listed without
    /// duplicates and cover every row of the subject.
    pub fn get_aggregate(&self, subject_id: u64) -> (r: Vec<EmojiCount>)
        ensures
            reactions_match(self.rows@, subject_id, r@),
    {
        let n = self.rows.len();
        let mut out: Vec<EmojiCount> = Vec::new();
        let mut i: usize = 0;
        while i < n
            invariant
                n == self.rows@.len(),
                0 <= i <= n,
                forall|a: int, b: int|
                    0 <= a < b < out@.len() ==> (#[trigger] out@[a]).emoji@ != (#[trigger] out@[b]).emoji@,
                forall|a: int|
                    0 <= a < out@.len() ==> (#[trigger] out@[a]).count == emoji_count(
                        self.rows@,
                        subject_id,
                        out@[a].emoji@,
                    ) && out@[a].count >= 1,
                forall|j: int|
                    0 <= j < i && (#[trigger] self.rows@[j]).subject_id == subject_id
                        ==> exists|a: int|
                            0 <= a < out@.len() && (#[trigger] out@[a]).emoji@ == self.rows@[j].emoji@,
            decreases n - i,
        {
            if self.rows[i].subject_id == subject_id {
                if !contains_emoji(&out, &self.rows[i].emoji) {
                    let c = self.count_emoji(subject_id, i, n);
                    let ghost out_prev = out@;
                    out.push(EmojiCount { emoji: self.rows[i].emoji.clone(), count: c });
                    proof {
                        assert forall|j: int|
                            0 <= j < i + 1 && (#[trigger] self.rows@[j]).subject_id == subject_id
                            implies exists|a: int|
                                0 <= a < out@.len() && (#[trigger] out@[a]).emoji@
                                    == self.rows@[j].emoji@ by {
                            if j < i {
                                let a0 = choose|a: int|
                                    0 <= a < out_prev.len() && (#[trigger] out_prev[a]).emoji@
                                        == self.rows@[j].emoji@;
                                assert(out@[a0].emoji@ == self.rows@[j].emoji@);
                            } else {
                                assert(out@[out_prev.len() as int].emoji@
                                    == self.rows@[i as int].emoji@);
                            }
                        }
                    }
                }
            }
            i = i + 1;
        }
        out
    }

    /// Count the rows of `subject_id` carrying the same emoji as row `at`.
    fn count_emoji(&self, subject_id: u64, at: usize, n: usize) -> (c: u64)
        requires
            n == self.rows@.len(),
            at < n,
            self.rows@[at as int].subject_id == subject_id,
        ensures
            c == emoji_count(self.rows@, subject_id, self.rows@[at as int].emoji@),
            c >= 1,
    {
        let ghost e = self.rows@[at as int].emoji@;
        let mut c: u64 = 0;
        let mut j: usize = 0;
        while j < n
            invariant
                n == self.rows@.len(),
                at < n,
                self.rows@[at as int].subject_id == subject_id,
                e == self.rows@[at as int].emoji@,
                0 <= j <= n,
                c == emoji_count_upto(self.rows@, subject_id, e, j as int),
                c <= j,
                j > at ==> c >= 1,
            decreases n - j,
        {
            if self.rows[j].subject_id == subject_id && self.rows[j].emoji == self.rows[at].emoji {
                c = c + 1;
            } else {
                proof {
                    assert(!rx_has_emoji(self.rows@[j as int], subject_id, e));
                }
            }
            j = j + 1;
        }
        c
    }
}

/// Whether an aggregate already lists the given emoji.
fn contains_emoji(out: &Vec<EmojiCount>, e: &String) -> (r: bool)
    ensures
        r == exists|b: int| 0 <= b < out@.len() && (#[trigger] out@[b]).emoji@ == e@,
{
    let m = out.len();
    let mut a: usize = 0;
    while a < m
        invariant
            m == out@.len(),
            0 <= a <= m,
            forall|b: int| 0 <= b < a ==> (#[trigger] out@[b]).emoji@ != e@,
        decreases m - a,
    {
        if out[a].emoji == *e {
            return true;
        }
        a = a + 1;
    }
    false
}

} // verus!
