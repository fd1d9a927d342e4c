use backend::account_handler::AccountHandler;
use backend::code::encode;
use backend::search::{
    find_by_name, get_code, lead_with, search, search_as, search_names, Candidate, SearchHit,
    SEARCH_LIMIT,
};
use backend::user::{LoginInformation, LoginResult, User};

fn file(store: &mut AccountHandler, id: u128, username: &str) {
    store.users.insert(
        id,
        User { username: username.to_string(), id, password: "pw".to_string() },
    );
}

fn small_store() -> AccountHandler {
    let mut store = AccountHandler::new();
    file(&mut store, 1, "alice");
    file(&mut store, 2, "alibaba");
    file(&mut store, 3, "bob");
    store
}

fn names(hits: &Vec<SearchHit>) -> Vec<String> {
    hits.iter().map(|hit| hit.username.clone()).collect()
}

fn hit(id: u128, username: &str) -> SearchHit {
    SearchHit { id, code: encode(id), username: username.to_string() }
}

#[test]
fn search_by_part_of_the_name() {
    let store = small_store();
    let hits = search(&store, "ali");
    let mut found = names(&hits);
    found.sort();
    assert_eq!(found, vec!["alibaba".to_string(), "alice".to_string()]);
    for hit in hits.iter() {
        assert_eq!(hit.code, encode(hit.id));
        assert_eq!(store.users.get(&hit.id).unwrap().username, hit.username);
    }
}

#[test]
fn search_ignores_case() {
    let store = small_store();
    let mut found = names(&search(&store, "ALI"));
    found.sort();
    assert_eq!(found, vec!["alibaba".to_string(), "alice".to_string()]);
    let mut loud = AccountHandler::new();
    file(&mut loud, 9, "BoB");
    assert_eq!(names(&search(&loud, "bob")), vec!["BoB".to_string()]);
    assert_eq!(names(&search(&loud, "OB")), vec!["BoB".to_string()]);
}

#[test]
fn search_finds_nothing() {
    let store = small_store();
    assert!(search(&store, "zed").is_empty());
    assert!(search(&store, "alicee").is_empty());
    assert!(search(&AccountHandler::new(), "a").is_empty());
}

#[test]
fn search_with_an_empty_query_finds_everyone() {
    let store = small_store();
    let mut found = names(&search(&store, ""));
    found.sort();
    assert_eq!(found, vec!["alibaba".to_string(), "alice".to_string(), "bob".to_string()]);
}

#[test]
fn search_by_code_leads_the_answer() {
    let store = small_store();
    let hits = search(&store, "00000001");
    assert_eq!(hits.len(), 1);
    assert_eq!(hits[0].id, 1);
    assert_eq!(hits[0].username, "alice");
    assert_eq!(hits[0].code, "00000001");
    let hits = search(&store, "#0000-0003");
    assert_eq!(names(&hits), vec!["bob".to_string()]);
}

#[test]
fn search_by_code_of_nobody() {
    let store = small_store();
    assert!(search(&store, "00000004").is_empty());
}

#[test]
fn code_match_goes_in_front_of_name_matches() {
    let mut store = small_store();
    file(&mut store, 0xabcdef01, "zed");
    file(&mut store, 7, "xabcdef01x");
    file(&mut store, 8, "ABCDEF01");
    let hits = search(&store, "abcdef01");
    assert_eq!(hits.len(), 3);
    assert_eq!(hits[0].id, 0xabcdef01);
    assert_eq!(hits[0].username, "zed");
    let mut rest = vec![hits[1].id, hits[2].id];
    rest.sort();
    assert_eq!(rest, vec![7, 8]);
}

#[test]
fn code_match_found_by_name_too_is_moved_not_doubled() {
    let mut store = AccountHandler::new();
    file(&mut store, 0xaaaa0001, "aaaa0001-first");
    file(&mut store, 0xaaaa0002, "the aaaa0002 one");
    file(&mut store, 5, "AAAA0002 too");
    file(&mut store, 6, "aaaa0002");
    let hits = search(&store, "aaaa0002");
    assert_eq!(hits.len(), 3);
    assert_eq!(hits[0].id, 0xaaaa0002);
    assert_eq!(hits[0].username, "the aaaa0002 one");
    assert_eq!(hits.iter().filter(|hit| hit.id == 0xaaaa0002).count(), 1);
    let mut rest = vec![hits[1].id, hits[2].id];
    rest.sort();
    assert_eq!(rest, vec![5, 6]);
}

#[test]
fn search_is_capped() {
    let mut store = AccountHandler::new();
    for id in 0..80u128 {
        file(&mut store, id, &format!("member{}", id));
    }
    file(&mut store, 100, "outsider");
    let hits = search(&store, "MEMBER");
    assert_eq!(hits.len(), SEARCH_LIMIT);
    assert_eq!(SEARCH_LIMIT, 50);
    let mut ids: Vec<u128> = hits.iter().map(|hit| hit.id).collect();
    ids.sort();
    ids.dedup();
    assert_eq!(ids.len(), 50);
    assert!(hits.iter().all(|hit| hit.username.starts_with("member")));
    assert_eq!(search_names(&store, "member").len(), 50);
    assert_eq!(search_names(&store, "member7").len(), 11);
}

#[test]
fn code_match_goes_beyond_the_cap() {
    let mut store = AccountHandler::new();
    for id in 0..80u128 {
        file(&mut store, id, &format!("member{}", id));
    }
    file(&mut store, 0x64, "hundred");
    let hits = search(&store, "00000064");
    assert_eq!(hits.len(), 1);
    assert_eq!(hits[0].id, 0x64);
    assert_eq!(hits[0].username, "hundred");
    let mut crowd = AccountHandler::new();
    for id in 0..80u128 {
        file(&mut crowd, id + 0x100, &format!("0000000a-{}", id));
    }
    file(&mut crowd, 10, "ten");
    let hits = search(&crowd, "0000000a");
    assert_eq!(hits.len(), 51);
    assert_eq!(hits[0].id, 10);
    assert_eq!(hits[0].username, "ten");
    assert!(hits[1..].iter().all(|hit| hit.username.starts_with("0000000a-")));
    let mut named = AccountHandler::new();
    for id in 0..80u128 {
        file(&mut named, id, &format!("0000000a-{}", id));
    }
    let hits = search(&named, "0000000a");
    assert_eq!(hits[0].id, 10);
    assert_eq!(hits[0].username, "0000000a-10");
    assert!(hits.len() == 50 || hits.len() == 51);
    assert_eq!(hits.iter().filter(|hit| hit.id == 10).count(), 1);
}

#[test]
fn search_names_takes_no_code() {
    let store = small_store();
    assert!(search_names(&store, "00000001").is_empty());
    let mut found = names(&search_names(&store, "B"));
    found.sort();
    assert_eq!(found, vec!["alibaba".to_string(), "bob".to_string()]);
}

#[test]
fn lead_with_moves_or_puts_in_front() {
    let hits = vec![hit(1, "alice"), hit(2, "alibaba"), hit(3, "bob")];
    let led = lead_with(hit(2, "alibaba"), &hits);
    assert_eq!(led.iter().map(|hit| hit.id).collect::<Vec<u128>>(), vec![2, 1, 3]);
    let led = lead_with(hit(9, "ninth"), &hits);
    assert_eq!(led.iter().map(|hit| hit.id).collect::<Vec<u128>>(), vec![9, 1, 2, 3]);
    assert_eq!(led[0].username, "ninth");
    assert_eq!(led[3].code, "00000003");
    let led = lead_with(hit(1, "alice"), &Vec::new());
    assert_eq!(led.len(), 1);
}

#[test]
fn search_as_wants_a_login() {
    let store = small_store();
    let alice = LoginInformation { username: "alice".to_string(), password: "pw".to_string() };
    let hits = search_as(&store, &alice, "bo").unwrap();
    assert_eq!(names(&hits), vec!["bob".to_string()]);
    let wrong = LoginInformation { username: "alice".to_string(), password: "no".to_string() };
    assert_eq!(search_as(&store, &wrong, "bo").unwrap_err(), LoginResult::PasswordWrong);
    let nobody = LoginInformation { username: "carol".to_string(), password: "pw".to_string() };
    assert_eq!(search_as(&store, &nobody, "bo").unwrap_err(), LoginResult::UsernameNoExist);
}

#[test]
fn get_code_after_login() {
    let mut store = small_store();
    file(&mut store, 0xdeadbeef, "dora");
    let dora = LoginInformation { username: "dora".to_string(), password: "pw".to_string() };
    assert_eq!(get_code(&store, &dora).unwrap(), "deadbeef");
    let bob = LoginInformation { username: "bob".to_string(), password: "pw".to_string() };
    assert_eq!(get_code(&store, &bob).unwrap(), "00000003");
    let wrong = LoginInformation { username: "bob".to_string(), password: "PW".to_string() };
    assert_eq!(get_code(&store, &wrong).unwrap_err(), LoginResult::PasswordWrong);
    let nobody = LoginInformation { username: "".to_string(), password: "pw".to_string() };
    assert_eq!(get_code(&store, &nobody).unwrap_err(), LoginResult::UsernameNoExist);
}

fn ready(id: u128, username: &str, lowered: &str) -> Candidate {
    Candidate { id, username: username.to_string(), lowered: lowered.to_string() }
}

#[test]
fn find_by_name_among_given_names() {
    let candidates =
        vec![ready(1, "alice", "alice"), ready(2, "alibaba", "alibaba"), ready(3, "bob", "bob")];
    let hits = find_by_name(&candidates, "ali");
    assert_eq!(names(&hits), vec!["alice".to_string(), "alibaba".to_string()]);
    assert_eq!(hits[0].id, 1);
    assert_eq!(hits[0].code, "00000001");
    assert_eq!(hits[1].id, 2);
    assert_eq!(hits[1].code, "00000002");
    assert_eq!(names(&find_by_name(&candidates, "b")), vec!["alibaba".to_string(), "bob".to_string()]);
    assert_eq!(names(&find_by_name(&candidates, "bob")), vec!["bob".to_string()]);
    assert_eq!(find_by_name(&candidates, "").len(), 3);
    assert!(find_by_name(&candidates, "alicia").is_empty());
    assert!(find_by_name(&Vec::new(), "").is_empty());
}

#[test]
fn find_by_name_reads_the_lowered_name() {
    let candidates = vec![ready(1, "ALICE", "alice"), ready(2, "Bob", "bob")];
    assert_eq!(names(&find_by_name(&candidates, "lic")), vec!["ALICE".to_string()]);
    assert!(find_by_name(&candidates, "LIC").is_empty());
    assert!(find_by_name(&candidates, "B").is_empty());
}

#[test]
fn find_by_name_keeps_the_order_and_the_cap() {
    let mut candidates: Vec<Candidate> = Vec::new();
    for id in 0..120u128 {
        let name = if id % 2 == 0 { format!("even{}", id) } else { format!("odd{}", id) };
        candidates.push(ready(id, &name, &name));
    }
    let hits = find_by_name(&candidates, "even");
    assert_eq!(hits.len(), 50);
    for (at, hit) in hits.iter().enumerate() {
        assert_eq!(hit.id, 2 * at as u128);
    }
    let hits = find_by_name(&candidates, "odd11");
    assert_eq!(hits.iter().map(|hit| hit.id).collect::<Vec<u128>>(), vec![11, 111, 113, 115, 117, 119]);
}
