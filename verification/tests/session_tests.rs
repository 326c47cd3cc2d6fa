use button_clicker::events::{ActionTag, SessionEvent};
use button_clicker::record::{LiveIdentity, StoreError};
use button_clicker::reconcile::{reconcile, sync_account};
use button_clicker::session::{
    close_on_store_failure, session_step, start_session, SessionEffect, SessionState,
};
use button_clicker::store::ScoreStore;

fn live(name: &str, avatar: &str) -> LiveIdentity {
    LiveIdentity { username: String::from(name), avatar_url: String::from(avatar) }
}

fn owner_click(id: &str) -> SessionEvent {
    SessionEvent::Interaction { actor_id: String::from(id), action: ActionTag::Increment }
}

#[test]
fn session_start_creates_missing_record() {
    let mut store = ScoreStore::new();
    let id = String::from("1001");
    let sess = start_session(&mut store, &id, &live("alice", "a.png"));
    assert_eq!(sess.state, SessionState::Active);
    assert_eq!(sess.owner_id, "1001");
    assert_eq!(sess.counter_snapshot, 0);
    let u = store.find_by_user_id(&id).unwrap();
    assert_eq!(u.counter, 0);
    assert_eq!(u.username, "alice");
}

#[test]
fn session_start_reconciles_stale_identity_and_keeps_counter() {
    let mut store = ScoreStore::new();
    let id = String::from("1001");
    let old_name = String::from("old");
    let old_avatar = String::from("old.png");
    store.create_user(&id, &old_name, &old_avatar).unwrap();
    store.increment_counter(&id).unwrap();
    store.increment_counter(&id).unwrap();
    let sess = start_session(&mut store, &id, &live("new", "new.png"));
    assert_eq!(sess.counter_snapshot, 2);
    let u = store.find_by_user_id(&id).unwrap();
    assert_eq!(u.username, "new");
    assert_eq!(u.avatar_url, "new.png");
    assert_eq!(u.counter, 2);
}

#[test]
fn reconcile_is_noop_when_fields_match() {
    let mut store = ScoreStore::new();
    let id = String::from("1001");
    let name = String::from("alice");
    let avatar = String::from("a.png");
    store.create_user(&id, &name, &avatar).unwrap();
    store.increment_counter(&id).unwrap();
    let wrote = reconcile(&mut store, &id, &live("alice", "a.png"));
    assert_eq!(wrote, (false, false));
    let u = store.find_by_user_id(&id).unwrap();
    assert_eq!(u.username, "alice");
    assert_eq!(u.avatar_url, "a.png");
    assert_eq!(u.counter, 1);
}

#[test]
fn reconcile_writes_only_the_differing_field() {
    let mut store = ScoreStore::new();
    let id = String::from("1001");
    let name = String::from("alice");
    let avatar = String::from("a.png");
    store.create_user(&id, &name, &avatar).unwrap();
    store.increment_counter(&id).unwrap();
    let wrote = reconcile(&mut store, &id, &live("alicia", "a.png"));
    assert_eq!(wrote, (true, false));
    let u = store.find_by_user_id(&id).unwrap();
    assert_eq!(u.username, "alicia");
    assert_eq!(u.avatar_url, "a.png");
    assert_eq!(u.counter, 1);
    let wrote = reconcile(&mut store, &id, &live("alicia", "b.png"));
    assert_eq!(wrote, (false, true));
    let u = store.find_by_user_id(&id).unwrap();
    assert_eq!(u.avatar_url, "b.png");
    assert_eq!(u.counter, 1);
}

#[test]
fn sync_account_creates_then_force_writes() {
    let mut store = ScoreStore::new();
    let id = String::from("1001");
    let created = sync_account(&mut store, &id, &live("alice", "a.png"));
    assert!(created);
    let u = store.find_by_user_id(&id).unwrap();
    assert_eq!(u.counter, 0);
    assert_eq!(u.username, "alice");
    store.increment_counter(&id).unwrap();
    let created = sync_account(&mut store, &id, &live("renamed", "r.png"));
    assert!(!created);
    let u = store.find_by_user_id(&id).unwrap();
    assert_eq!(u.username, "renamed");
    assert_eq!(u.avatar_url, "r.png");
    assert_eq!(u.counter, 1);
}

#[test]
fn three_clicks_on_counter_five_render_eight() {
    // User with counter 5 starts a session and clicks increment 3 times:
    // the final rendered counter is 8 and so is the stored record.
    let mut store = ScoreStore::new();
    let id = String::from("A");
    let name = String::from("usera");
    let avatar = String::from("a.png");
    store.create_user(&id, &name, &avatar).unwrap();
    let mut i = 0;
    while i < 5 {
        store.increment_counter(&id).unwrap();
        i += 1;
    }
    let mut sess = start_session(&mut store, &id, &live("usera", "a.png"));
    assert_eq!(sess.counter_snapshot, 5);
    let mut rendered = 0i64;
    let mut clicks = 0;
    while clicks < 3 {
        let eff = session_step(&mut sess, &mut store, owner_click("A"));
        match eff {
            SessionEffect::Render { counter } => rendered = counter,
            other => panic!("expected a render effect, got {:?}", other),
        }
        clicks += 1;
    }
    assert_eq!(rendered, 8);
    assert_eq!(sess.counter_snapshot, 8);
    assert_eq!(store.find_by_user_id(&id).unwrap().counter, 8);
    assert_eq!(sess.state, SessionState::Active);
}

#[test]
fn foreign_events_interleaved_have_zero_effect() {
    // N owner increments with non-owner events interleaved: the final
    // counter is the initial counter plus N.
    let mut store = ScoreStore::new();
    let id = String::from("A");
    let mut sess = start_session(&mut store, &id, &live("usera", "a.png"));
    let mut owner_clicks = 0i64;
    let mut i = 0;
    while i < 8 {
        if i % 2 == 0 {
            let eff = session_step(&mut sess, &mut store, owner_click("A"));
            assert!(matches!(eff, SessionEffect::Render { .. }));
            owner_clicks += 1;
        } else {
            let eff = session_step(
                &mut sess,
                &mut store,
                SessionEvent::Interaction {
                    actor_id: String::from("B"),
                    action: ActionTag::Increment,
                },
            );
            assert_eq!(eff, SessionEffect::Acknowledge);
        }
        i += 1;
    }
    assert_eq!(store.find_by_user_id(&id).unwrap().counter, owner_clicks);
    assert_eq!(sess.state, SessionState::Active);
}

#[test]
fn timeout_closes_session_and_requests_one_deletion() {
    let mut store = ScoreStore::new();
    let id = String::from("A");
    let mut sess = start_session(&mut store, &id, &live("usera", "a.png"));
    let mut deletions = 0;
    let eff = session_step(&mut sess, &mut store, SessionEvent::Timeout);
    if eff == SessionEffect::DeleteMessage {
        deletions += 1;
    }
    assert_eq!(sess.state, SessionState::Closed);
    assert_eq!(deletions, 1);
    // The session is closed: the loop stops here, so no further deletion
    // can be requested.
}

#[test]
fn non_owner_interaction_is_acknowledged_and_ignored() {
    let mut store = ScoreStore::new();
    let id = String::from("A");
    let mut sess = start_session(&mut store, &id, &live("usera", "a.png"));
    store.increment_counter(&id).unwrap();
    let before = store.find_by_user_id(&id).unwrap().counter;
    let eff = session_step(
        &mut sess,
        &mut store,
        SessionEvent::Interaction { actor_id: String::from("B"), action: ActionTag::Increment },
    );
    assert_eq!(eff, SessionEffect::Acknowledge);
    assert_eq!(sess.state, SessionState::Active);
    assert_eq!(store.find_by_user_id(&id).unwrap().counter, before);
}

#[test]
fn owner_stop_closes_session() {
    let mut store = ScoreStore::new();
    let id = String::from("A");
    let mut sess = start_session(&mut store, &id, &live("usera", "a.png"));
    let eff = session_step(
        &mut sess,
        &mut store,
        SessionEvent::Interaction { actor_id: String::from("A"), action: ActionTag::Stop },
    );
    assert_eq!(eff, SessionEffect::DeleteMessage);
    assert_eq!(sess.state, SessionState::Closed);
}

#[test]
fn owner_unknown_action_closes_session() {
    let mut store = ScoreStore::new();
    let id = String::from("A");
    let mut sess = start_session(&mut store, &id, &live("usera", "a.png"));
    let eff = session_step(
        &mut sess,
        &mut store,
        SessionEvent::Interaction { actor_id: String::from("A"), action: ActionTag::Unknown },
    );
    assert_eq!(eff, SessionEffect::DeleteMessage);
    assert_eq!(sess.state, SessionState::Closed);
    assert_eq!(store.find_by_user_id(&id).unwrap().counter, 0);
}

#[test]
fn store_failure_surfaces_error_and_ends_session() {
    let mut store = ScoreStore::new();
    let id = String::from("A");
    let mut sess = start_session(&mut store, &id, &live("usera", "a.png"));
    let eff = close_on_store_failure(&mut sess, StoreError::StoreUnavailable);
    assert_eq!(eff, SessionEffect::Fail { error: StoreError::StoreUnavailable });
    assert_eq!(sess.state, SessionState::Closed);
}
