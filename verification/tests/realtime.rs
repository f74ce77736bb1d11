use whisperhub::hub::{
    CHANNEL_CAPACITY, HubPoll, NotificationHub, SseEvent, StreamAction, keepalive_event,
    stream_step,
};
use whisperhub::typing::{TypingTracker, TYPING_LIVE_SECS, TYPING_STALE_SECS};

fn ev(name: &str, data: &str) -> SseEvent {
    SseEvent { event_type: name.to_string(), data: data.to_string() }
}

fn expect_ready(p: HubPoll) -> SseEvent {
    match p {
        HubPoll::Ready(e) => e,
        _ => panic!("expected a ready event"),
    }
}

#[test]
fn fanout_reaches_all_receivers_in_publish_order() {
    let mut hub = NotificationHub::new();
    let mut tab1 = hub.subscribe(7);
    let mut tab2 = hub.subscribe(7);
    hub.publish_to(7, ev("new_message", "a"));
    hub.publish_to(7, ev("new_message", "b"));

    // Both simultaneous subscriptions observe both events, in publish order.
    for sub in [&mut tab1, &mut tab2] {
        let first = expect_ready(hub.poll(sub));
        assert_eq!(first.data, "a");
        let second = expect_ready(hub.poll(sub));
        assert_eq!(second.data, "b");
        assert!(matches!(hub.poll(sub), HubPoll::Pending));
    }
}

#[test]
fn late_subscriber_never_sees_earlier_events() {
    let mut hub = NotificationHub::new();
    let mut early = hub.subscribe(3);
    hub.publish_to(3, ev("new_message", "before"));
    let mut late = hub.subscribe(3);
    hub.publish_to(3, ev("new_message", "after"));

    assert_eq!(expect_ready(hub.poll(&mut early)).data, "before");
    assert_eq!(expect_ready(hub.poll(&mut early)).data, "after");
    // The late subscription starts after "before" was published.
    assert_eq!(expect_ready(hub.poll(&mut late)).data, "after");
    assert!(matches!(hub.poll(&mut late), HubPoll::Pending));
}

#[test]
fn publish_to_unknown_user_is_silently_dropped() {
    let mut hub = NotificationHub::new();
    hub.publish_to(99, ev("new_message", "into the void"));
    let mut sub = hub.subscribe(99);
    // The channel did not exist at publish time, so nothing arrives.
    assert!(matches!(hub.poll(&mut sub), HubPoll::Pending));
}

#[test]
fn overflow_drops_oldest_and_receiver_detects_lag() {
    let mut hub = NotificationHub::new();
    let mut slow = hub.subscribe(1);
    for i in 0..(CHANNEL_CAPACITY + 2) {
        hub.publish_to(1, ev("new_message", &format!("{i}")));
    }
    // The two oldest events were dropped for this receiver.
    assert!(matches!(hub.poll(&mut slow), HubPoll::Lagged));
    assert!(matches!(stream_step(hub.poll(&mut slow)), StreamAction::End));
    // A fresh receiver starts at the end and just waits.
    let mut fresh = hub.subscribe(1);
    assert!(matches!(hub.poll(&mut fresh), HubPoll::Pending));
    hub.publish_to(1, ev("new_message", "latest"));
    assert_eq!(expect_ready(hub.poll(&mut fresh)).data, "latest");
}

#[test]
fn publish_to_all_reaches_every_channel() {
    let mut hub = NotificationHub::new();
    let mut a = hub.subscribe(1);
    let mut b = hub.subscribe(2);
    hub.publish_to_all(&ev("new_broadcast", "42"));
    assert_eq!(expect_ready(hub.poll(&mut a)).event_type, "new_broadcast");
    assert_eq!(expect_ready(hub.poll(&mut b)).event_type, "new_broadcast");
}

#[test]
fn stream_adapter_maps_poll_results() {
    assert!(matches!(stream_step(HubPoll::Pending), StreamAction::Wait));
    assert!(matches!(stream_step(HubPoll::Lagged), StreamAction::End));
    match stream_step(HubPoll::Ready(ev("typing", "x"))) {
        StreamAction::Emit(e) => assert_eq!(e.data, "x"),
        _ => panic!("expected an emit"),
    }
    let ka = keepalive_event();
    assert_eq!(ka.event_type, "keepalive");
    assert_eq!(ka.data, "");
}

#[test]
fn typing_marker_lives_then_expires_then_is_swept() {
    let mut tracker = TypingTracker::new();
    let t: u64 = 10;
    let u: u64 = 20;
    let other: u64 = 21;
    tracker.set_typing_indicator(t, u, 1000);

    // Immediately visible to the counterpart, never echoed to the typist.
    assert_eq!(tracker.get_typing_users(t, other, 1000), vec![u]);
    assert_eq!(tracker.get_typing_users(t, u, 1000), Vec::<u64>::new());

    // After the liveness window the user is no longer listed...
    assert_eq!(
        tracker.get_typing_users(t, other, 1000 + TYPING_LIVE_SECS),
        Vec::<u64>::new()
    );
    // ...but the marker still physically exists until the staleness sweep.
    assert_eq!(tracker.markers.len(), 1);
    tracker.cleanup_typing_indicators(1000 + TYPING_STALE_SECS);
    assert_eq!(tracker.markers.len(), 1);
    tracker.cleanup_typing_indicators(1000 + TYPING_STALE_SECS + 1);
    assert_eq!(tracker.markers.len(), 0);
}

#[test]
fn typing_upsert_refreshes_and_clear_removes() {
    let mut tracker = TypingTracker::new();
    tracker.set_typing_indicator(1, 2, 100);
    tracker.set_typing_indicator(1, 2, 104);
    assert_eq!(tracker.markers.len(), 1);
    // The refreshed marker is live relative to its newest ping.
    assert_eq!(tracker.get_typing_users(1, 9, 108), vec![2]);
    tracker.clear_typing_indicator(1, 2);
    assert_eq!(tracker.markers.len(), 0);
    // Clearing an absent marker is a no-op.
    tracker.clear_typing_indicator(1, 2);
}

#[test]
fn typing_markers_are_scoped_to_their_thread() {
    let mut tracker = TypingTracker::new();
    tracker.set_typing_indicator(1, 2, 100);
    tracker.set_typing_indicator(5, 6, 100);
    assert_eq!(tracker.get_typing_users(1, 0, 100), vec![2]);
    assert_eq!(tracker.get_typing_users(5, 0, 100), vec![6]);
    assert_eq!(tracker.get_typing_users(9, 0, 100), Vec::<u64>::new());
}
