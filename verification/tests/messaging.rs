use whisperhub::StoreError;
use whisperhub::default_limit;
use whisperhub::msg::MsgState;
use whisperhub::store::{ThreadStore, list_conversations};
use whisperhub::users::Directory;

fn seeded_users() -> (Directory, u64, u64, u64) {
    let mut dir = Directory::new();
    let a = dir
        .create_local_user("alice".to_string(), "hash-a".to_string(), 1)
        .unwrap()
        .id;
    let b = dir
        .create_local_user("bob".to_string(), "hash-b".to_string(), 2)
        .unwrap()
        .id;
    let c = dir
        .create_local_user("carol".to_string(), "hash-c".to_string(), 3)
        .unwrap()
        .id;
    (dir, a, b, c)
}

#[test]
fn create_message_rejects_blank_content() {
    let mut store = ThreadStore::new();
    assert_eq!(
        store.create_message(Some(1), 2, "   \t\n".to_string(), 10),
        Err(StoreError::InvalidInput)
    );
    assert_eq!(store.get_thread_messages(0).len(), 0);
}

#[test]
fn round_trip_unread_then_read() {
    let (_dir, a, b, _c) = seeded_users();
    let mut store = ThreadStore::new();
    let (mid, tid) = store
        .create_message(Some(a), b, "hello".to_string(), 100)
        .unwrap();
    let msgs = store.get_thread_messages(tid);
    assert_eq!(msgs.len(), 1);
    assert_eq!(msgs[0].id, mid);
    assert!(!msgs[0].is_read);

    // The recipient reads the thread once: the message flips to read.
    let view = store.view_thread(tid, b).unwrap();
    assert_eq!(view.len(), 1);
    assert!(!view[0].is_read); // flags from before the marking side effect
    assert!(!view[0].is_mine);
    let again = store.view_thread(tid, b).unwrap();
    assert_eq!(again.len(), 1);
    assert!(again[0].is_read);
}

#[test]
fn reply_routing_recipient_to_sender_and_back() {
    let (_dir, s, r, third) = seeded_users();
    let mut store = ThreadStore::new();
    let (_mid, tid) = store
        .create_message(Some(s), r, "hi there".to_string(), 100)
        .unwrap();

    // The recipient replies: the reply is addressed to the known sender.
    let reply1 = store.create_reply(tid, r, "hi back".to_string(), 101).unwrap();
    let m1 = store.get_message_by_id(reply1).unwrap();
    assert_eq!(m1.recipient_id, s);
    assert_eq!(m1.sender_id, Some(r));

    // The sender replies: the reply goes to the original recipient.
    let reply2 = store.create_reply(tid, s, "and again".to_string(), 102).unwrap();
    let m2 = store.get_message_by_id(reply2).unwrap();
    assert_eq!(m2.recipient_id, r);

    // A third user is no participant.
    assert_eq!(
        store.create_reply(tid, third, "intruding".to_string(), 103),
        Err(StoreError::NotAParticipant)
    );
}

#[test]
fn reply_to_anonymous_origin_fails() {
    let (_dir, _a, b, _c) = seeded_users();
    let mut store = ThreadStore::new();
    let (_mid, tid) = store
        .create_message(None, b, "anonymous hello".to_string(), 100)
        .unwrap();
    assert_eq!(
        store.create_reply(tid, b, "who are you".to_string(), 101),
        Err(StoreError::AnonymousSender)
    );
}

#[test]
fn reply_to_unknown_thread_is_not_found() {
    let mut store = ThreadStore::new();
    assert_eq!(
        store.create_reply(999, 1, "hello".to_string(), 100),
        Err(StoreError::NotFound)
    );
}

#[test]
fn conversations_hide_sender_identity_from_recipient() {
    let (dir, a, b, _c) = seeded_users();
    let mut store = ThreadStore::new();
    store
        .create_message(Some(a), b, "secret admirer".to_string(), 100)
        .unwrap();

    // The recipient's listing must not name the counterpart.
    let for_b = list_conversations(&store, &dir, b);
    assert_eq!(for_b.len(), 1);
    assert!(!for_b[0].is_mine);
    assert!(for_b[0].to_username.is_none());
    assert_eq!(for_b[0].unread_count, Some(1));

    // The sender sees the recipient's name on their own latest message.
    let for_a = list_conversations(&store, &dir, a);
    assert_eq!(for_a.len(), 1);
    assert!(for_a[0].is_mine);
    assert_eq!(for_a[0].to_username.as_deref(), Some("bob"));
}

#[test]
fn conversations_list_most_recent_thread_first() {
    let (dir, a, b, c) = seeded_users();
    let mut store = ThreadStore::new();
    let (_m1, t1) = store.create_message(Some(a), b, "first".to_string(), 100).unwrap();
    let (_m2, t2) = store.create_message(Some(a), c, "second".to_string(), 200).unwrap();
    let rows = list_conversations(&store, &dir, a);
    assert_eq!(rows.len(), 2);
    assert_eq!(rows[0].thread_id, t2);
    assert_eq!(rows[1].thread_id, t1);
    // A reply in the first thread moves it to the front.
    store.create_reply(t1, b, "pong".to_string(), 300).unwrap();
    let rows = list_conversations(&store, &dir, a);
    assert_eq!(rows[0].thread_id, t1);
}

#[test]
fn view_thread_forbidden_for_outsiders() {
    let (_dir, a, b, c) = seeded_users();
    let mut store = ThreadStore::new();
    let (_mid, tid) = store
        .create_message(Some(a), b, "private".to_string(), 100)
        .unwrap();
    assert!(matches!(store.view_thread(tid, c), Err(StoreError::Forbidden)));
    // An empty (unknown) thread is not forbidden, just empty.
    assert_eq!(store.view_thread(4242, c).unwrap().len(), 0);
}

#[test]
fn reaction_is_idempotent_per_user() {
    let (_dir, a, b, c) = seeded_users();
    let mut store = ThreadStore::new();
    let (mid, _tid) = store
        .create_message(Some(a), b, "react to me".to_string(), 100)
        .unwrap();
    store.add_message_reaction(mid, b, "\u{1F44D}".to_string()).unwrap();
    store.add_message_reaction(mid, b, "\u{1F44D}".to_string()).unwrap();
    let agg = store.reactions.get_aggregate(mid);
    assert_eq!(agg.len(), 1);
    assert_eq!(agg[0].emoji, "\u{1F44D}");
    assert_eq!(agg[0].count, 1);

    // A second user raises the count; re-reacting with a new emoji moves it.
    store.add_message_reaction(mid, c, "\u{1F44D}".to_string()).unwrap();
    let agg = store.reactions.get_aggregate(mid);
    assert_eq!(agg.len(), 1);
    assert_eq!(agg[0].count, 2);
    store.add_message_reaction(mid, b, "\u{2764}".to_string()).unwrap();
    let mut counts: Vec<(String, u64)> = store
        .reactions
        .get_aggregate(mid)
        .into_iter()
        .map(|e| (e.emoji, e.count))
        .collect();
    counts.sort();
    assert_eq!(
        counts,
        vec![("\u{2764}".to_string(), 1), ("\u{1F44D}".to_string(), 1)]
    );
}

#[test]
fn reaction_on_missing_message_is_not_found() {
    let mut store = ThreadStore::new();
    assert_eq!(
        store.add_message_reaction(7, 1, "x".to_string()),
        Err(StoreError::NotFound)
    );
}

#[test]
fn edit_preserves_history_and_marks_state() {
    let (_dir, a, b, _c) = seeded_users();
    let mut store = ThreadStore::new();
    let (mid, _tid) = store
        .create_message(Some(a), b, "first draft".to_string(), 100)
        .unwrap();
    // Only the author edits; blank content is refused first.
    assert_eq!(
        store.edit_message(mid, a, "  ".to_string(), 101),
        Err(StoreError::InvalidInput)
    );
    assert_eq!(
        store.edit_message(mid, b, "hijack".to_string(), 101),
        Err(StoreError::Forbidden)
    );
    store.edit_message(mid, a, "final text".to_string(), 102).unwrap();
    let m = store.get_message_by_id(mid).unwrap();
    assert_eq!(m.content, "final text");
    assert!(matches!(m.state, MsgState::Edited { at: 102 }));
    assert_eq!(store.edits.len(), 1);
    assert_eq!(store.edits[0].old_content, "first draft");
    assert_eq!(store.edits[0].edited_by, a);
}

#[test]
fn delete_is_a_tombstone_excluded_from_reads() {
    let (_dir, a, b, _c) = seeded_users();
    let mut store = ThreadStore::new();
    let (mid, tid) = store
        .create_message(Some(a), b, "ephemeral".to_string(), 100)
        .unwrap();
    assert_eq!(store.delete_message(mid, b, 101), Err(StoreError::Forbidden));
    store.delete_message(mid, a, 101).unwrap();
    // The row is kept, but no read returns it.
    assert_eq!(store.messages.len(), 1);
    assert!(store.get_message_by_id(mid).is_none());
    assert_eq!(store.get_thread_messages(tid).len(), 0);
    assert_eq!(store.delete_message(mid, a, 102), Err(StoreError::NotFound));
}

#[test]
fn delete_thread_tombstones_participant_messages() {
    let (_dir, a, b, c) = seeded_users();
    let mut store = ThreadStore::new();
    let (_mid, tid) = store
        .create_message(Some(a), b, "one".to_string(), 100)
        .unwrap();
    store.create_reply(tid, b, "two".to_string(), 101).unwrap();
    assert_eq!(store.delete_thread(tid, c, 102), Err(StoreError::Forbidden));
    store.delete_thread(tid, b, 102).unwrap();
    assert_eq!(store.get_thread_messages(tid).len(), 0);
    assert_eq!(store.delete_thread(tid, b, 103), Err(StoreError::NotFound));
}

#[test]
fn inbox_lists_received_messages_newest_first() {
    let (_dir, a, b, c) = seeded_users();
    let mut store = ThreadStore::new();
    store.create_message(Some(a), b, "oldest".to_string(), 100).unwrap();
    store.create_message(Some(c), b, "newest".to_string(), 200).unwrap();
    store.create_message(Some(b), a, "not for b".to_string(), 300).unwrap();
    let rows = store.inbox(b);
    assert_eq!(rows.len(), 2);
    assert_eq!(rows[0].content, "newest");
    assert_eq!(rows[1].content, "oldest");
    assert!(!rows[0].is_mine);
}

#[test]
fn search_matches_substring_with_limit() {
    let (_dir, a, b, _c) = seeded_users();
    let mut store = ThreadStore::new();
    store
        .create_message(Some(a), b, "the quick brown fox".to_string(), 100)
        .unwrap();
    store
        .create_message(Some(a), b, "quicksilver".to_string(), 200)
        .unwrap();
    store
        .create_message(Some(a), b, "slow snail".to_string(), 300)
        .unwrap();
    let hits = store.search_messages(b, &"quick".to_string(), 10);
    assert_eq!(hits.len(), 2);
    assert_eq!(hits[0].content, "quicksilver");
    assert_eq!(hits[1].content, "the quick brown fox");
    // The limit cuts from the newest end; a blank query matches nothing.
    assert_eq!(store.search_messages(b, &"quick".to_string(), 1).len(), 1);
    assert_eq!(store.search_messages(b, &"  ".to_string(), 10).len(), 0);
    // A non-participant finds nothing.
    assert_eq!(store.search_messages(77, &"quick".to_string(), 10).len(), 0);
}

#[test]
fn pins_toggle_and_list_most_recent_first() {
    let (_dir, a, b, _c) = seeded_users();
    let mut store = ThreadStore::new();
    let (m1, t1) = store.create_message(Some(a), b, "one".to_string(), 100).unwrap();
    let (_m2, t2) = store.create_message(Some(a), b, "two".to_string(), 200).unwrap();
    assert_eq!(store.toggle_pin_message(m1, a), Ok(true));
    assert_eq!(store.toggle_pin_message(m1, a), Ok(false));
    assert_eq!(store.toggle_pin_message(999, a), Err(StoreError::NotFound));
    assert_eq!(store.toggle_pin_thread(t1, a), Ok(true));
    assert_eq!(store.toggle_pin_thread(t2, a), Ok(true));
    assert_eq!(store.get_pinned_threads(a), vec![t2, t1]);
    assert_eq!(store.toggle_pin_thread(t1, a), Ok(false));
    assert_eq!(store.get_pinned_threads(a), vec![t2]);
}

#[test]
fn blocking_is_idempotent_and_self_block_invalid() {
    let mut store = ThreadStore::new();
    assert_eq!(store.block_user(5, 5), Err(StoreError::InvalidInput));
    store.block_user(5, 6).unwrap();
    store.block_user(5, 6).unwrap();
    assert!(store.is_blocked(5, 6));
    assert!(!store.is_blocked(6, 5));
    assert_eq!(store.get_blocked_users(5), vec![6]);
    store.unblock_user(5, 6);
    assert!(!store.is_blocked(5, 6));
    assert_eq!(store.get_blocked_users(5), Vec::<u64>::new());
}

#[test]
fn mark_message_read_targets_one_recipient_message() {
    let (_dir, a, b, _c) = seeded_users();
    let mut store = ThreadStore::new();
    let (mid, _tid) = store
        .create_message(Some(a), b, "read me".to_string(), 100)
        .unwrap();
    // The wrong reader changes nothing.
    store.mark_message_read(mid, a);
    assert!(!store.get_message_by_id(mid).unwrap().is_read);
    store.mark_message_read(mid, b);
    assert!(store.get_message_by_id(mid).unwrap().is_read);
}

#[test]
fn thread_counterpart_follows_latest_message() {
    let (_dir, a, b, _c) = seeded_users();
    let mut store = ThreadStore::new();
    assert!(store.thread_counterpart(999, a).is_none());
    let (_mid, t_anon) = store
        .create_message(None, b, "from nowhere".to_string(), 100)
        .unwrap();
    // The recipient of an anonymous thread has no counterpart to notify.
    assert!(store.thread_counterpart(t_anon, b).is_none());
    let (_mid, t) = store.create_message(Some(a), b, "hi".to_string(), 200).unwrap();
    assert_eq!(store.thread_counterpart(t, a), Some(b));
    assert_eq!(store.thread_counterpart(t, b), Some(a));
}

#[test]
fn default_limit_is_fifty() {
    assert_eq!(default_limit(), 50);
}
