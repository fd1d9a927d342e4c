use backend::account_handler::AccountHandler;
use backend::document::DocumentError;
use backend::user::{LoginInfoParseError, LoginInformation, User};

fn put(store: &mut AccountHandler, id: u128, username: &str, password: &str) {
    store.users.insert(
        id,
        User { username: username.to_string(), id, password: password.to_string() },
    );
}

fn filled_store() -> AccountHandler {
    let mut store = AccountHandler::new();
    put(&mut store, 1, "alice", "wonderland");
    put(&mut store, 0xdeadbeef, "bob \"the\" builder", "p\\w\n");
    put(&mut store, u128::MAX - 1, "żółw", "🔑");
    store
}

#[test]
fn records_list_every_user() {
    let store = filled_store();
    let mut records = User::records(&store);
    records.sort();
    assert_eq!(records.len(), 3);
    assert_eq!(records[0], ("alice".to_string(), 1, "wonderland".to_string()));
    assert_eq!(records[1], ("bob \"the\" builder".to_string(), 0xdeadbeef, "p\\w\n".to_string()));
    assert_eq!(records[2], ("żółw".to_string(), u128::MAX - 1, "🔑".to_string()));
    assert!(User::records(&AccountHandler::new()).is_empty());
}

#[test]
fn from_records_files_by_id() {
    let records = vec![
        ("alice".to_string(), 1u128, "a".to_string()),
        ("bob".to_string(), 2u128, "b".to_string()),
        ("carol".to_string(), 3u128, "c".to_string()),
    ];
    let users = User::from_records(&records).unwrap();
    assert_eq!(users.len(), 3);
    assert_eq!(users.get(&1).unwrap().username, "alice");
    assert_eq!(users.get(&1).unwrap().password, "a");
    assert_eq!(users.get(&1).unwrap().id, 1);
    assert_eq!(users.get(&2).unwrap().username, "bob");
    assert_eq!(users.get(&3).unwrap().password, "c");
    assert!(User::from_records(&Vec::new()).unwrap().is_empty());
}

#[test]
fn from_records_refuses_an_id_that_comes_twice() {
    let records = vec![
        ("alice".to_string(), 1u128, "a".to_string()),
        ("bob".to_string(), 2u128, "b".to_string()),
        ("carol".to_string(), 1u128, "c".to_string()),
    ];
    assert_eq!(User::from_records(&records).err(), Some(DocumentError::SharedId));
    let records = vec![
        ("alice".to_string(), 7u128, "a".to_string()),
        ("alice".to_string(), 7u128, "a".to_string()),
    ];
    assert_eq!(User::from_records(&records).err(), Some(DocumentError::SharedId));
}

#[test]
fn save_then_load_gives_the_store_back() {
    let store = filled_store();
    let text = store.save().unwrap();
    let loaded = AccountHandler::load(&text).unwrap();
    assert_eq!(loaded.users.len(), 3);
    for (id, filed) in store.users.iter() {
        let back = loaded.users.get(id).unwrap();
        assert_eq!(back.id, *id);
        assert_eq!(back.username, filed.username);
        assert_eq!(back.password, filed.password);
    }
    let again = User::load(&User::save(&loaded).unwrap()).unwrap();
    assert_eq!(again.len(), 3);
}

#[test]
fn save_of_an_empty_store() {
    let text = AccountHandler::new().save().unwrap();
    assert_eq!(text, "{}");
    assert!(AccountHandler::load(&text).unwrap().users.is_empty());
}

#[test]
fn save_writes_name_then_id_and_password() {
    let mut store = AccountHandler::new();
    put(&mut store, 7, "alice", "pw");
    let text = User::save(&store).unwrap();
    let compact: String = text.chars().filter(|c| !c.is_whitespace()).collect();
    assert_eq!(compact, "{\"alice\":[7,\"pw\"]}");
}

#[test]
fn load_reads_a_document() {
    let text = "{ \"alice\": [1, \"wonderland\"], \"bob\": [340282366920938463463374607431768211455, \"b\"] }";
    let users = User::load(text).unwrap();
    assert_eq!(users.len(), 2);
    let alice = users.get(&1).unwrap();
    assert_eq!(alice.id, 1);
    assert_eq!(alice.username, "alice");
    assert_eq!(alice.password, "wonderland");
    let bob = users.get(&u128::MAX).unwrap();
    assert_eq!(bob.id, u128::MAX);
    assert_eq!(bob.username, "bob");
}

#[test]
fn load_keeps_the_later_of_two_entries_of_a_name() {
    let users = User::load("{\"alice\": [1, \"old\"], \"alice\": [2, \"new\"]}").unwrap();
    assert_eq!(users.len(), 1);
    assert_eq!(users.get(&2).unwrap().password, "new");
}

#[test]
fn load_refuses_two_users_with_one_id() {
    let text = "{\"alice\": [1, \"a\"], \"bob\": [1, \"b\"]}";
    assert_eq!(User::load(text).err(), Some(DocumentError::SharedId));
    assert_eq!(AccountHandler::load(text).err(), Some(DocumentError::SharedId));
    let text = "{\"alice\": [5, \"a\"], \"bob\": [6, \"b\"], \"carol\": [5, \"a\"]}";
    assert_eq!(User::load(text).err(), Some(DocumentError::SharedId));
}

#[test]
fn load_refuses_what_is_no_document() {
    assert_eq!(User::load("").err(), Some(DocumentError::Malformed));
    assert_eq!(User::load("{").err(), Some(DocumentError::Malformed));
    assert_eq!(User::load("[]").err(), Some(DocumentError::Malformed));
    assert_eq!(User::load("{\"alice\": 1}").err(), Some(DocumentError::Malformed));
    assert_eq!(User::load("{\"alice\": [1]}").err(), Some(DocumentError::Malformed));
    assert_eq!(User::load("{\"alice\": [\"1\", \"pw\"]}").err(), Some(DocumentError::Malformed));
    assert_eq!(User::load("{\"alice\": [-1, \"pw\"]}").err(), Some(DocumentError::Malformed));
    assert_eq!(User::load("{\"alice\": [1, \"pw\"]} x").err(), Some(DocumentError::Malformed));
    assert_eq!(
        User::load("{\"alice\": [340282366920938463463374607431768211456, \"pw\"]}").err(),
        Some(DocumentError::Malformed)
    );
    assert_eq!(AccountHandler::load("null").err(), Some(DocumentError::Malformed));
}

#[test]
fn form_with_both_fields() {
    let form = LoginInformation::from_data(b"{\"username\": \"alice\", \"password\": \"secret\"}").unwrap();
    assert_eq!(form.username, "alice");
    assert_eq!(form.password, "secret");
    let form = LoginInformation::from_data(b" {\"password\":\"\",\"extra\":\"x\",\"username\":\"\"} ").unwrap();
    assert_eq!(form.username, "");
    assert_eq!(form.password, "");
}

#[test]
fn form_takes_each_byte_as_a_character() {
    let mut data: Vec<u8> = b"{\"username\": \"ren".to_vec();
    data.push(0xe9);
    data.extend_from_slice(b"\", \"password\": \"");
    data.push(0xc3);
    data.push(0xa9);
    data.extend_from_slice(b"\"}");
    let form = LoginInformation::from_data(&data).unwrap();
    assert_eq!(form.username, "ren\u{e9}");
    assert_eq!(form.password, "\u{c3}\u{a9}");
}

#[test]
fn form_that_is_empty() {
    assert_eq!(LoginInformation::from_data(b"").unwrap_err(), LoginInfoParseError::Empty);
}

#[test]
fn form_that_does_not_parse() {
    let bad: Vec<&[u8]> = vec![
        b" ",
        b"{",
        b"username=alice",
        b"[\"username\", \"password\"]",
        b"{\"username\": \"alice\", \"password\": 5}",
        b"{\"username\": \"alice\", \"password\": null}",
        b"{\"username\": \"alice\"}",
        b"{\"password\": \"secret\"}",
        b"{\"Username\": \"alice\", \"Password\": \"secret\"}",
        b"{}",
    ];
    for data in bad {
        assert_eq!(LoginInformation::from_data(data).unwrap_err(), LoginInfoParseError::ParsingError);
    }
}

#[test]
fn form_from_fields() {
    let fields = vec![
        ("other".to_string(), "x".to_string()),
        ("password".to_string(), "secret".to_string()),
        ("username".to_string(), "alice".to_string()),
        ("username".to_string(), "later".to_string()),
    ];
    let form = LoginInformation::from_fields(&fields).unwrap();
    assert_eq!(form.username, "alice");
    assert_eq!(form.password, "secret");
    let fields = vec![("username".to_string(), "alice".to_string())];
    assert_eq!(LoginInformation::from_fields(&fields).unwrap_err(), LoginInfoParseError::ParsingError);
    assert_eq!(LoginInformation::from_fields(&Vec::new()).unwrap_err(), LoginInfoParseError::ParsingError);
}

#[test]
fn save_refuses_a_store_with_a_shared_name() {
    let mut store = AccountHandler::new();
    put(&mut store, 1, "alice", "first");
    put(&mut store, 2, "alice", "second");
    assert_eq!(store.save().err(), Some(DocumentError::Unwritable));
    assert_eq!(User::save(&store).err(), Some(DocumentError::Unwritable));
}

#[test]
fn save_writes_users_filed_under_another_id() {
    let mut store = AccountHandler::new();
    store.users.insert(
        9,
        User { username: "alice".to_string(), id: 1, password: "pw".to_string() },
    );
    let text = store.save().unwrap();
    let loaded = AccountHandler::load(&text).unwrap();
    assert_eq!(loaded.users.len(), 1);
    assert_eq!(loaded.users.get(&9).unwrap().id, 9);
    assert_eq!(loaded.users.get(&9).unwrap().username, "alice");
}

#[test]
fn saved_text_is_a_document_of_the_store() {
    let store = filled_store();
    let text = store.save().unwrap();
    assert!(User::is_saved_as(&store, &text));
    assert!(User::is_saved_as(&AccountHandler::new(), "{}"));
    assert!(User::is_saved_as(&AccountHandler::new(), " { } "));
}

#[test]
fn other_text_is_no_document_of_the_store() {
    let mut store = AccountHandler::new();
    put(&mut store, 1, "alice", "a");
    put(&mut store, 2, "bob", "b");
    assert!(User::is_saved_as(&store, "{\"alice\": [1, \"a\"], \"bob\": [2, \"b\"]}"));
    assert!(User::is_saved_as(&store, "{\"bob\": [2, \"b\"], \"alice\": [1, \"a\"]}"));
    assert!(!User::is_saved_as(&store, ""));
    assert!(!User::is_saved_as(&store, "{}"));
    assert!(!User::is_saved_as(&store, "{\"alice\": [1, \"a\"]}"));
    assert!(!User::is_saved_as(&store, "{\"alice\": [1, \"a\"], \"bob\": [2, \"B\"]}"));
    assert!(!User::is_saved_as(&store, "{\"alice\": [1, \"a\"], \"Bob\": [2, \"b\"]}"));
    assert!(!User::is_saved_as(&store, "{\"alice\": [1, \"a\"], \"bob\": [3, \"b\"]}"));
    assert!(!User::is_saved_as(&store, "{\"alice\": [2, \"a\"], \"bob\": [1, \"b\"]}"));
    assert!(!User::is_saved_as(
        &store,
        "{\"alice\": [1, \"a\"], \"bob\": [2, \"b\"], \"carol\": [3, \"c\"]}"
    ));
    assert!(!User::is_saved_as(
        &store,
        "{\"alice\": [1, \"a\"], \"bob\": [2, \"b\"], \"bobby\": [2, \"b\"]}"
    ));
    assert!(!User::is_saved_as(&store, "{\"alice\": [1, \"a\"], \"al\": [1, \"a\"]}"));
    let mut shared = AccountHandler::new();
    put(&mut shared, 1, "alice", "a");
    put(&mut shared, 2, "alice", "a");
    assert!(!User::is_saved_as(&shared, "{\"alice\": [1, \"a\"]}"));
    assert!(!User::is_saved_as(&shared, "{\"alice\": [2, \"a\"]}"));
}
