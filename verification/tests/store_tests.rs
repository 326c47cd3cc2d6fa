use button_clicker::record::{Field, StoreError};
use button_clicker::store::ScoreStore;

fn seed(store: &mut ScoreStore, id: &str, name: &str, avatar: &str, clicks: u32) {
    let id = String::from(id);
    let name = String::from(name);
    let avatar = String::from(avatar);
    store.create_user(&id, &name, &avatar).unwrap();
    let mut i = 0;
    while i < clicks {
        store.increment_counter(&id).unwrap();
        i += 1;
    }
}

#[test]
fn create_user_initializes_counter_to_zero() {
    let mut store = ScoreStore::new();
    let id = String::from("1001");
    let name = String::from("alice");
    let avatar = String::from("https://cdn.example/alice.png");
    assert!(store.create_user(&id, &name, &avatar).is_ok());
    let u = store.find_by_user_id(&id).unwrap();
    assert_eq!(u.counter, 0);
    assert_eq!(u.user_id, "1001");
    assert_eq!(u.username, "alice");
    assert_eq!(u.avatar_url, "https://cdn.example/alice.png");
    assert_eq!(store.count_all(), 1);
}

#[test]
fn create_user_duplicate_reports_already_exists() {
    let mut store = ScoreStore::new();
    let id = String::from("1001");
    let name = String::from("alice");
    let avatar = String::from("a.png");
    store.create_user(&id, &name, &avatar).unwrap();
    let r = store.create_user(&id, &name, &avatar);
    assert_eq!(r, Err(StoreError::AlreadyExists));
    assert_eq!(store.count_all(), 1);
}

#[test]
fn create_if_absent_twice_leaves_one_record_with_zero_counter() {
    let mut store = ScoreStore::new();
    let id = String::from("1001");
    let name = String::from("alice");
    let avatar = String::from("a.png");
    let first = store.create_if_absent(&id, &name, &avatar);
    let second = store.create_if_absent(&id, &name, &avatar);
    assert!(first);
    assert!(!second);
    assert_eq!(store.count_all(), 1);
    assert_eq!(store.find_by_user_id(&id).unwrap().counter, 0);
}

#[test]
fn increment_returns_post_increment_value() {
    let mut store = ScoreStore::new();
    seed(&mut store, "1001", "alice", "a.png", 0);
    let id = String::from("1001");
    assert_eq!(store.increment_counter(&id).unwrap(), 1);
    assert_eq!(store.increment_counter(&id).unwrap(), 2);
    assert_eq!(store.increment_counter(&id).unwrap(), 3);
    assert_eq!(store.find_by_user_id(&id).unwrap().counter, 3);
}

#[test]
fn increment_missing_user_is_not_found() {
    let mut store = ScoreStore::new();
    let id = String::from("9999");
    assert_eq!(store.increment_counter(&id), Err(StoreError::NotFound));
    assert_eq!(store.count_all(), 0);
}

#[test]
fn update_field_touches_only_the_named_field() {
    let mut store = ScoreStore::new();
    seed(&mut store, "1001", "alice", "a.png", 2);
    let id = String::from("1001");
    let new_name = String::from("alicia");
    store.update_field(&id, Field::Username, &new_name).unwrap();
    let u = store.find_by_user_id(&id).unwrap();
    assert_eq!(u.username, "alicia");
    assert_eq!(u.avatar_url, "a.png");
    assert_eq!(u.counter, 2);
    let new_avatar = String::from("b.png");
    store.update_field(&id, Field::AvatarUrl, &new_avatar).unwrap();
    let u = store.find_by_user_id(&id).unwrap();
    assert_eq!(u.username, "alicia");
    assert_eq!(u.avatar_url, "b.png");
    assert_eq!(u.counter, 2);
}

#[test]
fn update_field_missing_user_is_not_found() {
    let mut store = ScoreStore::new();
    let id = String::from("9999");
    let v = String::from("x");
    assert_eq!(store.update_field(&id, Field::Username, &v), Err(StoreError::NotFound));
}

#[test]
fn overwrite_identity_force_writes_identity_and_keeps_counter() {
    let mut store = ScoreStore::new();
    seed(&mut store, "1001", "alice", "a.png", 4);
    let id = String::from("1001");
    let name = String::from("fresh");
    let avatar = String::from("fresh.png");
    store.overwrite_identity(&id, &name, &avatar).unwrap();
    let u = store.find_by_user_id(&id).unwrap();
    assert_eq!(u.user_id, "1001");
    assert_eq!(u.username, "fresh");
    assert_eq!(u.avatar_url, "fresh.png");
    assert_eq!(u.counter, 4);
}

#[test]
fn find_by_username_returns_first_match_in_iteration_order() {
    let mut store = ScoreStore::new();
    seed(&mut store, "1001", "dup", "a.png", 1);
    seed(&mut store, "1002", "dup", "b.png", 7);
    let name = String::from("dup");
    let u = store.find_by_username(&name).unwrap();
    assert_eq!(u.user_id, "1001");
    assert_eq!(u.counter, 1);
}

#[test]
fn find_by_username_missing_is_none() {
    let mut store = ScoreStore::new();
    seed(&mut store, "1001", "alice", "a.png", 0);
    let name = String::from("nobody");
    assert!(store.find_by_username(&name).is_none());
}

#[test]
fn find_by_user_id_missing_is_none() {
    let mut store = ScoreStore::new();
    let id = String::from("42");
    assert!(store.find_by_user_id(&id).is_none());
}

#[test]
fn interleaved_increments_from_two_sessions_lose_nothing() {
    // Two concurrent sessions of the same user: every increment lands and
    // the total delta is the sum of what each session observed.
    let mut store = ScoreStore::new();
    seed(&mut store, "1001", "alice", "a.png", 0);
    let id = String::from("1001");
    let mut session_a_increments = 0i64;
    let mut session_b_increments = 0i64;
    let mut last = 0i64;
    let mut i = 0;
    while i < 10 {
        let n = store.increment_counter(&id).unwrap();
        assert_eq!(n, last + 1);
        last = n;
        if i % 3 == 0 {
            session_a_increments += 1;
        } else {
            session_b_increments += 1;
        }
        i += 1;
    }
    let stored = store.find_by_user_id(&id).unwrap().counter;
    assert_eq!(stored, session_a_increments + session_b_increments);
    assert_eq!(stored, 10);
}
