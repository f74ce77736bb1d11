use whisperhub::StoreError;
use whisperhub::broadcasts::BroadcastBoard;
use whisperhub::config::Config;
use whisperhub::users::{AuthError, Directory, Identity, LoginRequest, RegisterRequest};

#[test]
fn register_validation_rules() {
    let blank = RegisterRequest { username: "  ".to_string(), password: "longenough".to_string() };
    assert_eq!(Directory::validate_register(&blank), Err(AuthError::InvalidUsername));
    let short = RegisterRequest { username: "dave".to_string(), password: "five5".to_string() };
    assert_eq!(Directory::validate_register(&short), Err(AuthError::WeakPassword));
    let ok = RegisterRequest { username: "dave".to_string(), password: "six666".to_string() };
    assert_eq!(Directory::validate_register(&ok), Ok(()));
}

#[test]
fn local_accounts_are_unique_ignoring_case() {
    let mut dir = Directory::new();
    let u = dir
        .create_local_user("Alice".to_string(), "h1".to_string(), 1)
        .unwrap();
    assert_eq!(u.username, "Alice");
    assert_eq!(u.provider, "local");
    assert!(matches!(
        dir.create_local_user("alice".to_string(), "h2".to_string(), 2),
        Err(AuthError::UsernameTaken)
    ));
    assert!(matches!(
        dir.create_local_user("   ".to_string(), "h3".to_string(), 3),
        Err(AuthError::InvalidUsername)
    ));
    // Lookup is case-insensitive too.
    assert_eq!(dir.get_user_by_username(&"ALICE".to_string()).unwrap().id, u.id);
}

#[test]
fn login_candidate_requires_account_with_password() {
    let mut dir = Directory::new();
    dir.create_local_user("erin".to_string(), "h".to_string(), 1).unwrap();
    let github_user =
        dir.upsert_user(&"frank".to_string(), &"github".to_string(), Some("gh-1".to_string()), 2);
    let ok = LoginRequest { username: "Erin".to_string(), password: "pw".to_string() };
    assert_eq!(dir.login_candidate(&ok).unwrap().username, "erin");
    let unknown = LoginRequest { username: "nobody".to_string(), password: "pw".to_string() };
    assert!(matches!(dir.login_candidate(&unknown), Err(AuthError::UnknownUser)));
    let oauth_only =
        LoginRequest { username: github_user.username.clone(), password: "pw".to_string() };
    assert!(matches!(dir.login_candidate(&oauth_only), Err(AuthError::NoPassword)));
}

#[test]
fn upsert_finds_links_and_creates() {
    let mut dir = Directory::new();
    // Fresh provider identity: a new account is created.
    let u1 = dir.upsert_user(&"gina".to_string(), &"github".to_string(), Some("g-7".to_string()), 1);
    // Same provider identity again: found, not duplicated.
    let u2 = dir.upsert_user(&"gina".to_string(), &"github".to_string(), Some("g-7".to_string()), 2);
    assert_eq!(u1.id, u2.id);
    assert_eq!(dir.get_all_users().len(), 1);

    // An unlinked local account with the same name is linked, not cloned.
    let local = dir
        .create_local_user("henry".to_string(), "hash".to_string(), 3)
        .unwrap();
    let linked =
        dir.upsert_user(&"Henry".to_string(), &"github".to_string(), Some("g-8".to_string()), 4);
    assert_eq!(linked.id, local.id);
    assert_eq!(linked.provider, "github");
    assert_eq!(linked.provider_id.as_deref(), Some("g-8"));
    assert_eq!(dir.get_all_users().len(), 2);
}

#[test]
fn resolve_user_dispatches_on_identity() {
    let mut dir = Directory::new();
    let u = dir.create_local_user("iris".to_string(), "h".to_string(), 1).unwrap();
    let local = Identity {
        user_id: Some(u.id),
        username: Some("iris".to_string()),
        provider: "local".to_string(),
        external_id: format!("{}", u.id),
    };
    assert_eq!(dir.resolve_user(&local, 2).unwrap().id, u.id);

    let empty = Identity {
        user_id: None,
        username: None,
        provider: "local".to_string(),
        external_id: String::new(),
    };
    assert!(matches!(dir.resolve_user(&empty, 3), Err(StoreError::Forbidden)));

    let external = Identity {
        user_id: None,
        username: Some("jack".to_string()),
        provider: "github".to_string(),
        external_id: "gh-77".to_string(),
    };
    let resolved = dir.resolve_user(&external, 4).unwrap();
    assert_eq!(resolved.username, "jack");
    assert_eq!(resolved.provider, "github");
}

#[test]
fn profile_update_coalesces_fields() {
    let mut dir = Directory::new();
    let u = dir.create_local_user("kate".to_string(), "h".to_string(), 1).unwrap();
    dir.create_local_user("liam".to_string(), "h".to_string(), 2).unwrap();
    let updated = dir
        .update_user_profile(u.id, None, Some("hello".to_string()), None)
        .unwrap();
    assert_eq!(updated.username, "kate");
    assert_eq!(updated.bio.as_deref(), Some("hello"));
    // A username another account holds is refused; an unknown id is not found.
    assert!(matches!(
        dir.update_user_profile(u.id, Some("LIAM".to_string()), None, None),
        Err(StoreError::InvalidInput)
    ));
    assert!(matches!(
        dir.update_user_profile(999, None, None, None),
        Err(StoreError::NotFound)
    ));
    // The bio survives a later partial update.
    let renamed = dir
        .update_user_profile(u.id, Some("kate2".to_string()), None, None)
        .unwrap();
    assert_eq!(renamed.username, "kate2");
    assert_eq!(renamed.bio.as_deref(), Some("hello"));
}

#[test]
fn delete_user_removes_the_account() {
    let mut dir = Directory::new();
    let u = dir.create_local_user("mona".to_string(), "h".to_string(), 1).unwrap();
    dir.delete_user(u.id);
    assert!(dir.get_user_by_id(u.id).is_none());
    // Deleting again is a no-op.
    dir.delete_user(u.id);
}

#[test]
fn preferences_default_then_coalesce() {
    let mut dir = Directory::new();
    let u = dir.create_local_user("nina".to_string(), "h".to_string(), 1).unwrap();
    assert!(dir.get_user_preferences(u.id).is_none());
    let eff = dir.effective_preferences(u.id);
    assert_eq!(eff.theme, "dark");
    assert!(eff.notification_sound);

    dir.upsert_user_preferences(u.id, Some("light".to_string()), Some(false), None, None, None);
    let p = dir.get_user_preferences(u.id).unwrap();
    assert_eq!(p.theme, "light");
    assert!(!p.notification_sound);
    assert!(p.browser_notifications);

    // A later partial update keeps the stored values it does not mention.
    dir.upsert_user_preferences(u.id, None, None, Some(false), None, None);
    let p = dir.get_user_preferences(u.id).unwrap();
    assert_eq!(p.theme, "light");
    assert!(!p.notification_sound);
    assert!(!p.browser_notifications);
    assert!(p.show_read_receipts);
}

#[test]
fn broadcasts_mask_anonymous_senders() {
    let mut dir = Directory::new();
    let u = dir.create_local_user("omar".to_string(), "h".to_string(), 1).unwrap();
    let mut board = BroadcastBoard::new();
    assert_eq!(
        board.create_broadcast(Some(u.id), " ".to_string(), false, 10),
        Err(StoreError::InvalidInput)
    );
    let signed = board
        .create_broadcast(Some(u.id), "signed post".to_string(), false, 10)
        .unwrap();
    let anon = board
        .create_broadcast(Some(u.id), "anonymous post".to_string(), true, 20)
        .unwrap();
    // The anonymous row stores no sender at all.
    assert!(board.broadcasts[1].sender_id.is_none());

    let rows = board.get_broadcasts(&dir, 50);
    assert_eq!(rows.len(), 2);
    assert_eq!(rows[0].id, anon);
    assert!(rows[0].sender_username.is_none());
    assert_eq!(rows[1].id, signed);
    assert_eq!(rows[1].sender_username.as_deref(), Some("omar"));

    // The limit keeps the newest rows.
    let one = board.get_broadcasts(&dir, 1);
    assert_eq!(one.len(), 1);
    assert_eq!(one[0].id, anon);
}

#[test]
fn broadcast_views_count_once_per_user() {
    let mut board = BroadcastBoard::new();
    let id = board
        .create_broadcast(None, "watch me".to_string(), true, 1)
        .unwrap();
    assert_eq!(board.track_broadcast_view(999, 5), Err(StoreError::NotFound));
    board.track_broadcast_view(id, 5).unwrap();
    board.track_broadcast_view(id, 5).unwrap();
    board.track_broadcast_view(id, 6).unwrap();
    let dir = Directory::new();
    let rows = board.get_broadcasts(&dir, 10);
    assert_eq!(rows[0].view_count, 2);
}

#[test]
fn comments_thread_react_and_soft_delete() {
    let mut dir = Directory::new();
    let u = dir.create_local_user("pia".to_string(), "h".to_string(), 1).unwrap();
    let mut board = BroadcastBoard::new();
    let bid = board.create_broadcast(None, "post".to_string(), true, 1).unwrap();

    assert_eq!(
        board.create_broadcast_comment(999, u.id, "lost".to_string(), None, 2),
        Err(StoreError::NotFound)
    );
    let top = board
        .create_broadcast_comment(bid, u.id, "first!".to_string(), None, 2)
        .unwrap();
    let child = board
        .create_broadcast_comment(bid, u.id, "self-reply".to_string(), Some(top), 3)
        .unwrap();
    assert_eq!(
        board.create_broadcast_comment(bid, u.id, "orphan".to_string(), Some(999), 4),
        Err(StoreError::NotFound)
    );

    // Re-reacting with the same emoji never duplicates the row.
    board.react_to_comment(top, u.id, "\u{1F389}".to_string()).unwrap();
    board.react_to_comment(top, u.id, "\u{1F389}".to_string()).unwrap();
    assert_eq!(
        board.react_to_comment(999, u.id, "x".to_string()),
        Err(StoreError::NotFound)
    );

    let rows = board.get_broadcast_comments(&dir, bid);
    assert_eq!(rows.len(), 2);
    assert_eq!(rows[0].id, top);
    assert_eq!(rows[0].username.as_deref(), Some("pia"));
    assert_eq!(rows[0].reactions.len(), 1);
    assert_eq!(rows[0].reactions[0].count, 1);
    assert_eq!(rows[1].parent_comment_id, Some(top));

    assert_eq!(
        board.delete_broadcast_comment(child, 424242, 5),
        Err(StoreError::Forbidden)
    );
    board.delete_broadcast_comment(child, u.id, 5).unwrap();
    let rows = board.get_broadcast_comments(&dir, bid);
    assert_eq!(rows.len(), 1);
    assert_eq!(rows[0].id, top);
}

#[test]
fn config_holds_resolved_values() {
    let c = Config::new(
        "id".to_string(),
        "secret".to_string(),
        "http://localhost/cb".to_string(),
        "postgres://db".to_string(),
        "127.0.0.1".to_string(),
        "8080".to_string(),
    );
    assert_eq!(c.host, "127.0.0.1");
    assert_eq!(c.port, "8080");
    assert_eq!(c.redirect_uri, "http://localhost/cb");
}
