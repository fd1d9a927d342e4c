//! The account store: every user of the service, found by id.

use crate::document::DocumentError;
use crate::login::signed_up;
use crate::document::records_in;
use crate::random::draw_name;
use crate::random::is_alphanumeric;
use crate::records::ids_unique;
use crate::records::writes_down;
use crate::user::LoginInformation;
use crate::user::LoginResult;
use crate::user::User;
use std::collections::HashMap;
use vstd::prelude::*;

verus! {

/// The length of the names that [`generate_users`] makes up.
pub const GENERATED_NAME_LENGTH: usize = 12;

/// The store of all accounts. `users` maps each id to the record of the user
/// who holds it.
#[derive(Clone)]
pub struct AccountHandler {
    pub users: HashMap<u128, User>,
}

/// Some user of `users` is called `name`, letter for letter.
pub open spec fn name_taken(users: Map<u128, User>, name: Seq<char>) -> bool {
    exists|id: u128| users.contains_key(id) && (#[trigger] users[id]).username@ == name
}

/// Every record is filed under its own id.
pub open spec fn filed_by_id(users: Map<u128, User>) -> bool {
    forall|id: u128| users.contains_key(id) ==> (#[trigger] users[id]).id == id
}

/// No two records share a username.
pub open spec fn names_unique(users: Map<u128, User>) -> bool {
    forall|a: u128, b: u128|
        users.contains_key(a) && users.contains_key(b) && (#[trigger] users[a]).username@ == (
        #[trigger] users[b]).username@ ==> a == b
}

/// The invariant of a store: records are filed under their own ids and
/// usernames are unique.
pub open spec fn consistent(users: Map<u128, User>) -> bool {
    filed_by_id(users) && names_unique(users)
}

impl View for AccountHandler {
    type V = Map<u128, User>;

    open spec fn view(&self) -> Map<u128, User> {
        self.users@
    }
}

impl AccountHandler {
    /// The store's invariant, see [`consistent`].
    pub open spec fn wf(&self) -> bool {
        consistent(self@)
    }

    /// A store without users.
    pub fn new() -> (store: AccountHandler)
        ensures
            store@ == Map::<u128, User>::empty(),
            store.wf(),
    {
        AccountHandler { users: HashMap::new() }
    }

    /// Writes the store down as a document, see [`User::save`]. A store in
    /// which no two users share a name is always written down, and the text
    /// reads as a document of every user of the store and nobody else. A
    /// store in which two users share a name gives `Unwritable`.
    pub fn save(&self) -> (document: Result<String, DocumentError>)
        ensures
            match document {
                Ok(text) => {
                    &&& names_unique(self@)
                    &&& records_in(text@) matches Some(map)
                    &&& writes_down(self@, map)
                },
                Err(error) => error == DocumentError::Unwritable && !names_unique(self@),
            },
    {
        User::save(self)
    }

    /// Reads a store from its document, see [`User::load`]. The store holds
    /// every user of the document and nobody else, and keeps its invariant. A
    /// text that is no document gives `Malformed`, a document in which two
    /// users are written with one id gives `SharedId`.
    pub fn load(text: &str) -> (loaded: Result<AccountHandler, DocumentError>)
        ensures
            match loaded {
                Ok(store) => {
                    &&& records_in(text@) matches Some(map)
                    &&& ids_unique(map)
                    &&& writes_down(store@, map)
                    &&& store.wf()
                },
                Err(error) => match records_in(text@) {
                    Some(map) => error == DocumentError::SharedId && !ids_unique(map),
                    None => error == DocumentError::Malformed,
                },
            },
    {
        match User::load(text) {
            Ok(users) => {
                let mut store = AccountHandler::new();
                store.users = users;
                Ok(store)
            },
            Err(error) => Err(error),
        }
    }
}

/// Whether a user looks like one that [`generate_users`] made up: the name is
/// [`GENERATED_NAME_LENGTH`] letters and digits, the password is `password`.
pub open spec fn is_generated(user: User) -> bool {
    &&& user.username@.len() == GENERATED_NAME_LENGTH
    &&& forall|i: int| 0 <= i < user.username@.len() ==> is_alphanumeric(#[trigger] user.username@[i])
    &&& user.password@ == "password"@
}

/// `after` is `before` with `created` more users, each of them made up and
/// filed under its own id. The users of `before` are all still there.
pub open spec fn grown_by(before: Map<u128, User>, after: Map<u128, User>, created: nat) -> bool {
    &&& after.len() == before.len() + created
    &&& forall|id: u128| #[trigger]
        before.contains_key(id) ==> after.contains_key(id) && after[id] == before[id]
    &&& forall|id: u128| #[trigger]
        after.contains_key(id) && !before.contains_key(id) ==> is_generated(after[id])
            && after[id].id == id
}

/// Whether credentials are made up: the name is [`GENERATED_NAME_LENGTH`]
/// letters and digits, the password is `password`.
pub open spec fn made_up(login: LoginInformation) -> bool {
    &&& login.username@.len() == GENERATED_NAME_LENGTH
    &&& forall|i: int|
        0 <= i < login.username@.len() ==> is_alphanumeric(#[trigger] login.username@[i])
    &&& login.password@ == "password"@
}

/// How many of the outcomes are a success.
pub open spec fn successes(outcomes: Seq<LoginResult>) -> nat
    decreases outcomes.len(),
{
    if outcomes.len() == 0 {
        0
    } else {
        successes(outcomes.drop_last()) + if outcomes.last() is Success {
            1nat
        } else {
            0nat
        }
    }
}

/// The rounds of [`generate_users`], one for each of `logins`: every round
/// starts from a store in which the id `u128::MAX` is free, signs up made-up
/// credentials, and leaves the store to the next round. `stores` are the
/// stores before, between and after the rounds, `outcomes` how the signups
/// ended.
pub open spec fn rounds(
    stores: Seq<Map<u128, User>>,
    logins: Seq<LoginInformation>,
    outcomes: Seq<LoginResult>,
) -> bool {
    &&& stores.len() == logins.len() + 1
    &&& outcomes.len() == logins.len()
    &&& forall|i: int|
        0 <= i < logins.len() ==> {
            &&& made_up(#[trigger] logins[i])
            &&& !stores[i].contains_key(u128::MAX)
            &&& signed_up(stores[i], logins[i], outcomes[i], stores[i + 1])
        }
}

/// What [`generate_users`] does to a store when asked for `number` users:
/// it runs rounds from `before` to `after`, `number` of them unless the id
/// `u128::MAX` came into use before that, and `created` of them succeeded.
pub open spec fn generated(
    before: Map<u128, User>,
    number: nat,
    stores: Seq<Map<u128, User>>,
    logins: Seq<LoginInformation>,
    outcomes: Seq<LoginResult>,
    after: Map<u128, User>,
    created: nat,
) -> bool {
    &&& rounds(stores, logins, outcomes)
    &&& stores[0] == before
    &&& stores.last() == after
    &&& logins.len() <= number
    &&& logins.len() < number ==> after.contains_key(u128::MAX)
    &&& created == successes(outcomes)
}

/// Signs up to `number` made-up users, each under a random name and the
/// password `password`, and tells how many were created.
///
/// One round is run for each user asked for: a name is drawn and signed up,
/// see [`LoginInformation::signup`]. A round creates no user where the name
/// drawn is taken already, and the rounds end early once the id `u128::MAX`
/// is in use, since nothing follows it. In a store without users the first
/// round always creates one.
pub fn generate_users(db: &mut AccountHandler, number: usize) -> (created: usize)
    ensures
        exists|
            stores: Seq<Map<u128, User>>,
            logins: Seq<LoginInformation>,
            outcomes: Seq<LoginResult>,
        |
            generated(
                old(db)@,
                number as nat,
                stores,
                logins,
                outcomes,
                final(db)@,
                created as nat,
            ),
        created <= number,
        grown_by(old(db)@, final(db)@, created as nat),
        consistent(old(db)@) ==> consistent(final(db)@),
{
    let mut rng = rand::thread_rng();
    let mut created: usize = 0;
    let mut round: usize = 0;
    let ghost mut stores: Seq<Map<u128, User>> = seq![db@];
    let ghost mut logins: Seq<LoginInformation> = Seq::empty();
    let ghost mut outcomes: Seq<LoginResult> = Seq::empty();
    while round < number && !db.users.contains_key(&u128::MAX)
        invariant
            created <= round <= number,
            logins.len() == round,
            rounds(stores, logins, outcomes),
            stores[0] == old(db)@,
            stores.last() == db@,
            created == successes(outcomes),
            grown_by(old(db)@, db@, created as nat),
            consistent(old(db)@) ==> consistent(db@),
        decreases number - round,
    {
        let ghost before = db@;
        let ghost stores_before = stores;
        let ghost logins_before = logins;
        let ghost outcomes_before = outcomes;
        let login = LoginInformation {
            username: draw_name(&mut rng, GENERATED_NAME_LENGTH),
            password: "password".to_owned(),
        };
        let outcome = login.signup(db);
        proof {
            stores = stores.push(db@);
            logins = logins.push(login);
            outcomes = outcomes.push(outcome);
            assert(outcomes.drop_last() =~= outcomes_before);
            assert forall|i: int| 0 <= i < logins.len() implies {
                &&& made_up(#[trigger] logins[i])
                &&& !stores[i].contains_key(u128::MAX)
                &&& signed_up(stores[i], logins[i], outcomes[i], stores[i + 1])
            } by {
                if i < logins_before.len() {
                    assert(logins[i] == logins_before[i]);
                    assert(stores[i] == stores_before[i]);
                    assert(stores[i + 1] == stores_before[i + 1]);
                    assert(outcomes[i] == outcomes_before[i]);
                } else {
                    assert(stores[i] == before);
                }
            }
        }
        match outcome {
            LoginResult::Success(id) => {
                created = created + 1;
                assert(db@[id] == User { username: login.username, id, password: login.password });
                assert forall|other: u128| #[trigger]
                    db@.contains_key(other) && !old(db)@.contains_key(other) implies is_generated(
                    db@[other],
                ) && db@[other].id == other by {
                    if other != id {
                        assert(before.contains_key(other));
                    }
                }
            },
            _ => {},
        }
        round = round + 1;
    }
    proof {
        assert(generated(
            old(db)@,
            number as nat,
            stores,
            logins,
            outcomes,
            db@,
            created as nat,
        ));
    }
    created
}

/// A success among the outcomes is counted, and no more successes are
/// counted than there are outcomes.
pub proof fn lemma_successes_bounds(outcomes: Seq<LoginResult>, at: int)
    requires
        0 <= at < outcomes.len(),
    ensures
        successes(outcomes) <= outcomes.len(),
        outcomes[at] is Success ==> successes(outcomes) >= 1,
    decreases outcomes.len(),
{
    if outcomes.len() > 1 {
        let front = outcomes.drop_last();
        if at < front.len() {
            lemma_successes_bounds(front, at);
        } else {
            lemma_successes_bounds(front, 0);
        }
    } else {
        assert(successes(outcomes.drop_last()) == 0);
    }
}

/// Asked for at least one user, [`generate_users`] creates at least one in
/// a store without users: the first name drawn cannot be taken.
pub proof fn lemma_generated_from_nothing(
    number: nat,
    stores: Seq<Map<u128, User>>,
    logins: Seq<LoginInformation>,
    outcomes: Seq<LoginResult>,
    after: Map<u128, User>,
    created: nat,
)
    requires
        number > 0,
        generated(Map::<u128, User>::empty(), number, stores, logins, outcomes, after, created),
    ensures
        created >= 1,
{
    if logins.len() == 0 {
        assert(stores.last() == stores[0]);
    } else {
        assert(made_up(logins[0]));
        assert(signed_up(stores[0], logins[0], outcomes[0], stores[1]));
        lemma_successes_bounds(outcomes, 0);
    }
}

} // verus!
