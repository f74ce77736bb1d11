//! The end-to-end exchange: an anonymous first contact, a failed reply, an
//! identified retry, and a live notification for the original sender.

use whisperhub::StoreError;
use whisperhub::hub::{HubPoll, NotificationHub, SseEvent};
use whisperhub::store::{ThreadStore, list_conversations};
use whisperhub::users::Directory;

#[test]
fn anonymous_first_contact_then_identified_exchange() {
    let mut dir = Directory::new();
    let a = dir.create_local_user("ann".to_string(), "h".to_string(), 1).unwrap().id;
    let b = dir.create_local_user("ben".to_string(), "h".to_string(), 2).unwrap().id;
    let mut store = ThreadStore::new();
    let mut hub = NotificationHub::new();

    // Ann sends "hi" without authenticating: the sender is unknown.
    let (_m1, t1) = store.create_message(None, b, "hi".to_string(), 100).unwrap();

    // Ben's inbox shows one unread message that is not his own.
    let inbox = store.inbox(b);
    assert_eq!(inbox.len(), 1);
    assert!(!inbox[0].is_read);
    assert!(!inbox[0].is_mine);
    let convs = list_conversations(&store, &dir, b);
    assert_eq!(convs[0].unread_count, Some(1));
    assert!(convs[0].to_username.is_none());

    // Ben tries to reply: the origin is anonymous, so routing fails.
    assert_eq!(
        store.create_reply(t1, b, "who is this".to_string(), 101),
        Err(StoreError::AnonymousSender)
    );

    // Ann, now authenticated, opens her live stream and sends again.
    let mut ann_stream = hub.subscribe(a);
    let (_m2, t2) = store
        .create_message(Some(a), b, "hi, it is ann".to_string(), 200)
        .unwrap();
    hub.publish_to(
        b,
        SseEvent { event_type: "new_message".to_string(), data: "t2".to_string() },
    );

    // Ben replies; the reply routes to Ann, and the hub notifies her.
    let reply = store.create_reply(t2, b, "hello ann".to_string(), 201).unwrap();
    let stored = store.get_message_by_id(reply).unwrap();
    assert_eq!(stored.recipient_id, a);
    hub.publish_to(
        a,
        SseEvent { event_type: "new_message".to_string(), data: "reply".to_string() },
    );
    match hub.poll(&mut ann_stream) {
        HubPoll::Ready(e) => {
            assert_eq!(e.event_type, "new_message");
            assert_eq!(e.data, "reply");
        },
        _ => panic!("ann should have received the live hint"),
    }
    assert!(matches!(hub.poll(&mut ann_stream), HubPoll::Pending));
}
