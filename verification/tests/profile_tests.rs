use button_clicker::record::StoreError;
use button_clicker::profile::lookup_profile;
use button_clicker::store::ScoreStore;
use button_clicker::Config;

fn seed(store: &mut ScoreStore, id: &str, name: &str, avatar: &str, clicks: u32) {
    let id = String::from(id);
    let name = String::from(name);
    let avatar = String::from(avatar);
    store.create_user(&id, &name, &avatar).unwrap();
    let mut i = 0;
    while i < clicks {
        store.increment_counter(&id).unwrap();
        i += 1;
    }
}

#[test]
fn own_profile_is_found_by_id_even_with_a_stale_cached_name() {
    // The viewer renamed upstream since the last sync: the lookup by id
    // still finds the record, so their account never looks broken.
    let mut store = ScoreStore::new();
    seed(&mut store, "1001", "oldname", "a.png", 6);
    let viewer_id = String::from("1001");
    let viewer_name = String::from("newname");
    let p = lookup_profile(&store, &viewer_id, &viewer_name, None).unwrap();
    assert_eq!(p.username, "oldname");
    assert_eq!(p.counter, 6);
    assert_eq!(p.avatar_url, "a.png");
    assert!(!p.use_live_avatar);
}

#[test]
fn own_profile_with_matching_name_uses_live_avatar() {
    let mut store = ScoreStore::new();
    seed(&mut store, "1001", "alice", "a.png", 1);
    let viewer_id = String::from("1001");
    let viewer_name = String::from("alice");
    let p = lookup_profile(&store, &viewer_id, &viewer_name, None).unwrap();
    assert!(p.use_live_avatar);
}

#[test]
fn profile_by_username_finds_the_cached_record() {
    let mut store = ScoreStore::new();
    seed(&mut store, "1001", "alice", "a.png", 2);
    seed(&mut store, "1002", "bob", "b.png", 9);
    let viewer_id = String::from("1001");
    let viewer_name = String::from("alice");
    let wanted = String::from("bob");
    let p = lookup_profile(&store, &viewer_id, &viewer_name, Some(&wanted)).unwrap();
    assert_eq!(p.username, "bob");
    assert_eq!(p.counter, 9);
    assert_eq!(p.avatar_url, "b.png");
    assert!(!p.use_live_avatar);
}

#[test]
fn profile_lookup_miss_is_not_found() {
    let mut store = ScoreStore::new();
    seed(&mut store, "1001", "alice", "a.png", 0);
    let viewer_id = String::from("9999");
    let viewer_name = String::from("ghost");
    let by_id = lookup_profile(&store, &viewer_id, &viewer_name, None);
    assert_eq!(by_id.err(), Some(StoreError::NotFound));
    let wanted = String::from("nobody");
    let by_name = lookup_profile(&store, &viewer_id, &viewer_name, Some(&wanted));
    assert_eq!(by_name.err(), Some(StoreError::NotFound));
}

#[test]
fn ambiguous_cached_names_resolve_to_the_first_record() {
    let mut store = ScoreStore::new();
    seed(&mut store, "1001", "dup", "a.png", 1);
    seed(&mut store, "1002", "dup", "b.png", 2);
    let viewer_id = String::from("1003");
    let viewer_name = String::from("viewer");
    let wanted = String::from("dup");
    let p = lookup_profile(&store, &viewer_id, &viewer_name, Some(&wanted)).unwrap();
    assert_eq!(p.counter, 1);
    assert_eq!(p.avatar_url, "a.png");
}

#[test]
fn config_carries_the_boundary_settings() {
    let c = Config {
        token: String::from("example-token"),
        log_channel_id: Some(42),
        store_uri: String::from("localhost"),
    };
    assert_eq!(c.log_channel_id, Some(42));
    assert_eq!(c.store_uri, "localhost");
}
