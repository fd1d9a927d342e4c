use backend::account_handler::{generate_users, AccountHandler, GENERATED_NAME_LENGTH};
use backend::index;
use backend::user::{LoginInformation, LoginResult, User, USER_ID_MAX};

fn login_with(username: &str, password: &str) -> LoginInformation {
    LoginInformation { username: username.to_string(), password: password.to_string() }
}

fn user(id: u128, username: &str, password: &str) -> User {
    User { username: username.to_string(), id, password: password.to_string() }
}

fn three_users() -> AccountHandler {
    let mut store = AccountHandler::new();
    store.users.insert(1, user(1, "alice", "wonderland"));
    store.users.insert(2, user(2, "alibaba", "sesame"));
    store.users.insert(3, user(3, "bob", "builder"));
    store
}

fn id_of(outcome: LoginResult) -> u128 {
    match outcome {
        LoginResult::Success(id) => id,
        other => panic!("no success: {:?}", other),
    }
}

#[test]
fn index_greets() {
    assert_eq!(index(), "can you understand me?");
}

#[test]
fn new_store_is_empty() {
    let store = AccountHandler::new();
    assert!(store.users.is_empty());
    assert!(!User::username_exists(&store, &"alice".to_string()));
    assert_eq!(User::lookup_user_id(&store, &"alice".to_string()), None);
}

#[test]
fn username_exists_is_exact() {
    let store = three_users();
    assert!(User::username_exists(&store, &"alice".to_string()));
    assert!(User::username_exists(&store, &"bob".to_string()));
    assert!(!User::username_exists(&store, &"Alice".to_string()));
    assert!(!User::username_exists(&store, &"ali".to_string()));
    assert!(!User::username_exists(&store, &"alice ".to_string()));
    assert!(!User::username_exists(&store, &"".to_string()));
}

#[test]
fn lookup_finds_the_id() {
    let store = three_users();
    assert_eq!(User::lookup_user_id(&store, &"alice".to_string()), Some(1));
    assert_eq!(User::lookup_user_id(&store, &"alibaba".to_string()), Some(2));
    assert_eq!(User::lookup_user_id(&store, &"bob".to_string()), Some(3));
    assert_eq!(User::lookup_user_id(&store, &"BOB".to_string()), None);
    assert_eq!(User::lookup_user_id(&store, &"carol".to_string()), None);
}

#[test]
fn next_user_id_follows_the_greatest() {
    assert_eq!(User::next_user_id(&AccountHandler::new()), 0);
    assert_eq!(User::next_user_id(&three_users()), 4);
    let mut store = AccountHandler::new();
    store.users.insert(0, user(0, "zero", "0"));
    assert_eq!(User::next_user_id(&store), 1);
    store.users.insert(USER_ID_MAX - 1, user(USER_ID_MAX - 1, "last", "f"));
    assert_eq!(User::next_user_id(&store), USER_ID_MAX);
    store.users.insert(u128::MAX - 1, user(u128::MAX - 1, "far", "f"));
    assert_eq!(User::next_user_id(&store), u128::MAX);
}

#[test]
fn generated_ids_are_free_and_in_range() {
    let store = three_users();
    for _ in 0..200 {
        let id = User::generate_user_id(&store);
        assert!(!store.users.contains_key(&id));
        assert!(id < USER_ID_MAX);
    }
}

#[test]
fn generated_ids_are_not_all_the_same() {
    let store = AccountHandler::new();
    let first = User::generate_user_id(&store);
    let mut differs = false;
    for _ in 0..50 {
        if User::generate_user_id(&store) != first {
            differs = true;
        }
    }
    assert!(differs);
}

#[test]
fn generate_id_avoids_a_filled_range() {
    let mut store = AccountHandler::new();
    for id in 0..500u128 {
        store.users.insert(id, user(id, &format!("user{}", id), "pw"));
    }
    for _ in 0..2000 {
        let id = User::generate_user_id(&store);
        assert!(!store.users.contains_key(&id));
        assert!(id >= 500);
        assert!(id < USER_ID_MAX);
    }
    assert_eq!(store.users.len(), 500);
}

#[test]
fn signup_then_login() {
    let mut store = AccountHandler::new();
    let id = id_of(login_with("alice", "secret").signup(&mut store));
    assert_eq!(store.users.len(), 1);
    let filed = store.users.get(&id).unwrap();
    assert_eq!(filed.id, id);
    assert_eq!(filed.username, "alice");
    assert_eq!(filed.password, "secret");
    assert!(User::username_exists(&store, &"alice".to_string()));
    assert_eq!(User::lookup_user_id(&store, &"alice".to_string()), Some(id));
    assert_eq!(login_with("alice", "secret").login(&store), LoginResult::Success(id));
}

#[test]
fn signup_with_a_taken_name_changes_nothing() {
    let mut store = three_users();
    let outcome = login_with("alice", "other").signup(&mut store);
    assert_eq!(outcome, LoginResult::UsernameTaken);
    assert_eq!(store.users.len(), 3);
    let alice = store.users.get(&1).unwrap();
    assert_eq!(alice.username, "alice");
    assert_eq!(alice.password, "wonderland");
    assert_eq!(store.users.get(&2).unwrap().username, "alibaba");
    assert_eq!(store.users.get(&3).unwrap().username, "bob");
    assert_eq!(login_with("alice", "other").login(&store), LoginResult::PasswordWrong);
}

#[test]
fn signup_with_a_fresh_name_adds_one_user() {
    let mut store = three_users();
    let id = id_of(login_with("carol", "pw").signup(&mut store));
    assert!(id != 1 && id != 2 && id != 3);
    assert!(id < USER_ID_MAX);
    assert_eq!(store.users.len(), 4);
    assert!(User::username_exists(&store, &"carol".to_string()));
    assert_eq!(User::lookup_user_id(&store, &"carol".to_string()), Some(id));
    assert_eq!(store.users.get(&1).unwrap().password, "wonderland");
}

#[test]
fn signup_names_differ_by_case() {
    let mut store = three_users();
    let id = id_of(login_with("Alice", "pw").signup(&mut store));
    assert_eq!(store.users.len(), 4);
    assert_eq!(User::lookup_user_id(&store, &"Alice".to_string()), Some(id));
    assert_eq!(User::lookup_user_id(&store, &"alice".to_string()), Some(1));
}

#[test]
fn login_outcomes() {
    let store = three_users();
    assert_eq!(login_with("alice", "wonderland").login(&store), LoginResult::Success(1));
    assert_eq!(login_with("bob", "builder").login(&store), LoginResult::Success(3));
    assert_eq!(login_with("alice", "Wonderland").login(&store), LoginResult::PasswordWrong);
    assert_eq!(login_with("alice", "").login(&store), LoginResult::PasswordWrong);
    assert_eq!(login_with("alice", "sesame").login(&store), LoginResult::PasswordWrong);
    assert_eq!(login_with("carol", "wonderland").login(&store), LoginResult::UsernameNoExist);
    assert_eq!(login_with("", "").login(&store), LoginResult::UsernameNoExist);
}

#[test]
fn hundred_signups_in_turn() {
    let mut store = three_users();
    let mut ids: Vec<u128> = Vec::new();
    for round in 0..100 {
        let id = id_of(login_with(&format!("guest-{}", round), "pw").signup(&mut store));
        assert!(!ids.contains(&id));
        ids.push(id);
    }
    assert_eq!(store.users.len(), 103);
    for round in 0..100 {
        let name = format!("guest-{}", round);
        assert_eq!(User::lookup_user_id(&store, &name), Some(ids[round]));
    }
}

#[test]
fn generate_users_makes_up_accounts() {
    let mut store = three_users();
    let created = generate_users(&mut store, 25);
    assert_eq!(created, 25);
    assert_eq!(store.users.len(), 28);
    assert_eq!(store.users.get(&1).unwrap().username, "alice");
    let mut made_up = 0;
    for (id, filed) in store.users.iter() {
        assert_eq!(filed.id, *id);
        if *id > 3 || *id == 0 {
            made_up += 1;
            assert_eq!(filed.password, "password");
            assert_eq!(filed.username.chars().count(), GENERATED_NAME_LENGTH);
            assert!(filed.username.chars().all(|c| c.is_ascii_alphanumeric()));
        }
    }
    assert_eq!(made_up, 25);
}

#[test]
fn generate_users_none() {
    let mut store = three_users();
    assert_eq!(generate_users(&mut store, 0), 0);
    assert_eq!(store.users.len(), 3);
}

#[test]
fn generate_users_stops_at_the_last_id() {
    let mut store = AccountHandler::new();
    store.users.insert(u128::MAX, user(u128::MAX, "last", "pw"));
    assert_eq!(generate_users(&mut store, 5), 0);
    assert_eq!(store.users.len(), 1);
}

#[test]
fn generate_users_from_nothing() {
    let mut store = AccountHandler::new();
    let created = generate_users(&mut store, 1);
    assert_eq!(created, 1);
    assert_eq!(store.users.len(), 1);
    let mut store = AccountHandler::new();
    let created = generate_users(&mut store, 40);
    assert!(created >= 1);
    assert_eq!(store.users.len(), created);
    for (id, filed) in store.users.iter() {
        assert_eq!(filed.id, *id);
        assert_eq!(filed.password, "password");
        assert_eq!(filed.username.chars().count(), GENERATED_NAME_LENGTH);
    }
}

#[test]
fn pick_takes_the_first_free_draw() {
    let mut store = AccountHandler::new();
    store.users.insert(5, user(5, "five", "pw"));
    store.users.insert(6, user(6, "six", "pw"));
    assert_eq!(User::pick_user_id(&store, &vec![5, 9, 6, 3]), 9);
    assert_eq!(User::pick_user_id(&store, &vec![9, 5]), 9);
    assert_eq!(User::pick_user_id(&store, &vec![6, 6, 5, 0]), 0);
    assert_eq!(User::pick_user_id(&AccountHandler::new(), &vec![42]), 42);
}

#[test]
fn pick_falls_back_where_every_draw_hits() {
    let mut store = AccountHandler::new();
    store.users.insert(5, user(5, "five", "pw"));
    store.users.insert(6, user(6, "six", "pw"));
    assert_eq!(User::pick_user_id(&store, &vec![5, 6, 5]), 7);
    let thousand: Vec<u128> = (0..1000).map(|round| 5 + (round % 2)).collect();
    assert_eq!(User::pick_user_id(&store, &thousand), 7);
    assert_eq!(User::pick_user_id(&store, &Vec::new()), 7);
    assert_eq!(User::pick_user_id(&AccountHandler::new(), &Vec::new()), 0);
    store.users.insert(USER_ID_MAX - 1, user(USER_ID_MAX - 1, "last", "pw"));
    assert_eq!(User::pick_user_id(&store, &vec![USER_ID_MAX - 1, 5]), USER_ID_MAX);
}

#[test]
fn pick_needs_no_fallback_where_a_draw_is_free() {
    let mut store = AccountHandler::new();
    store.users.insert(u128::MAX, user(u128::MAX, "last", "pw"));
    assert_eq!(User::pick_user_id(&store, &vec![u128::MAX, 3]), 3);
}

#[test]
fn signup_with_a_taken_name_where_no_id_is_left() {
    let mut store = three_users();
    store.users.insert(u128::MAX, user(u128::MAX, "last", "pw"));
    assert_eq!(login_with("alice", "pw").signup(&mut store), LoginResult::UsernameTaken);
    assert_eq!(login_with("last", "pw").signup(&mut store), LoginResult::UsernameTaken);
    assert_eq!(store.users.len(), 4);
}

#[test]
fn signup_keeps_the_credentials_as_given() {
    let mut store = AccountHandler::new();
    let id = id_of(login_with("#Al-ice -", " p#w-").signup(&mut store));
    let filed = store.users.get(&id).unwrap();
    assert_eq!(filed.username, "#Al-ice -");
    assert_eq!(filed.password, " p#w-");
}
