//! Logging in and signing up, and what holds of the two.

use crate::account_handler::AccountHandler;
use crate::account_handler::consistent;
use crate::account_handler::name_taken;
use crate::user::first_named;
use crate::user::fresh_id;
use crate::user::LoginInformation;
use crate::user::LoginResult;
use crate::user::resolves;
use crate::user::User;
use vstd::prelude::*;
use vstd::std_specs::hash::*;
use vstd::std_specs::iter::IteratorSpec;

verus! {

broadcast use vstd::std_specs::hash::group_hash_axioms;

/// The outcome of a login with `password` once the username was looked up and
/// `found` came back.
pub open spec fn login_outcome(
    users: Map<u128, User>,
    found: Option<u128>,
    password: Seq<char>,
) -> LoginResult {
    match found {
        None => LoginResult::UsernameNoExist,
        Some(id) => if !users.contains_key(id) {
            LoginResult::PasswordNoExist
        } else if users[id].password@ == password {
            LoginResult::Success(id)
        } else {
            LoginResult::PasswordWrong
        },
    }
}

/// A signup with `login` takes a store from `before` to `after` and ends in
/// `outcome`: where the name is taken nothing changes, and where it is not,
/// the new user is filed under a fresh id.
pub open spec fn signed_up(
    before: Map<u128, User>,
    login: LoginInformation,
    outcome: LoginResult,
    after: Map<u128, User>,
) -> bool {
    if name_taken(before, login.username@) {
        outcome == LoginResult::UsernameTaken && after == before
    } else {
        &&& outcome matches LoginResult::Success(id)
        &&& fresh_id(before, id)
        &&& after == before.insert(
            id,
            User { username: login.username, id, password: login.password },
        )
    }
}

impl LoginInformation {
    /// Checks the credentials against the store.
    ///
    /// An unknown username gives `UsernameNoExist`. Otherwise the password on
    /// file for the user of that name decides: `Success` with the user's id if
    /// it is the one given, letter for letter, and `PasswordWrong` if not.
    /// Passwords are filed with the users themselves, so `PasswordNoExist`
    /// never comes out.
    pub fn login(&self, account_handler: &AccountHandler) -> (outcome: LoginResult)
        ensures
            outcome == login_outcome(
                account_handler@,
                first_named(account_handler.users.iter().remaining().unref(), self.username@),
                self.password@,
            ),
            resolves(
                account_handler@,
                self.username@,
                first_named(account_handler.users.iter().remaining().unref(), self.username@),
            ),
            !(outcome is PasswordNoExist),
    {
        match User::lookup_user_id(account_handler, &self.username) {
            Some(id) => match account_handler.users.get(&id) {
                Some(user) => if user.password == self.password {
                    LoginResult::Success(id)
                } else {
                    LoginResult::PasswordWrong
                },
                None => LoginResult::PasswordNoExist,
            },
            None => LoginResult::UsernameNoExist,
        }
    }

    /// Creates a user with these credentials.
    ///
    /// If the username is taken, nothing changes and `UsernameTaken` comes
    /// back. Otherwise the user is filed under a fresh id, see
    /// [`User::generate_user_id`], and `Success` carries that id. Writing the
    /// store out afterwards is left to the caller. Where the name is free, the
    /// id `u128::MAX` must be free beforehand, since nothing follows it.
    pub fn signup(&self, account_handler: &mut AccountHandler) -> (outcome: LoginResult)
        requires
            !name_taken(old(account_handler)@, self.username@) ==> !old(account_handler)@.contains_key(
                u128::MAX,
            ),
        ensures
            signed_up(old(account_handler)@, *self, outcome, final(account_handler)@),
            outcome == LoginResult::UsernameTaken ==> *final(account_handler) == *old(
                account_handler,
            ),
            outcome is Success ==> final(account_handler)@.len() == old(account_handler)@.len() + 1,
            consistent(old(account_handler)@) ==> consistent(final(account_handler)@),
    {
        if User::username_exists(account_handler, &self.username) {
            return LoginResult::UsernameTaken;
        }
        let id = User::generate_user_id(account_handler);
        account_handler.users.insert(
            id,
            User { id, username: self.username.clone(), password: self.password.clone() },
        );
        proof {
            if consistent(old(account_handler)@) {
                lemma_signup_keeps_consistent(
                    old(account_handler)@,
                    *self,
                    LoginResult::Success(id),
                    account_handler@,
                );
            }
        }
        LoginResult::Success(id)
    }
}

/// A signup under a name that is taken ends in `UsernameTaken` and leaves the
/// store as it was.
pub proof fn lemma_signup_taken(
    before: Map<u128, User>,
    login: LoginInformation,
    outcome: LoginResult,
    after: Map<u128, User>,
)
    requires
        signed_up(before, login, outcome, after),
        name_taken(before, login.username@),
    ensures
        outcome == LoginResult::UsernameTaken,
        after == before,
        after.len() == before.len(),
{
}

/// A signup under a name that is free succeeds with an id that was not in
/// use. The store has one user more, the name is taken from then on, and
/// whoever looks the name up finds the new id.
pub proof fn lemma_signup_fresh(
    before: Map<u128, User>,
    login: LoginInformation,
    outcome: LoginResult,
    after: Map<u128, User>,
    found: Option<u128>,
)
    requires
        before.dom().finite(),
        signed_up(before, login, outcome, after),
        !name_taken(before, login.username@),
        resolves(after, login.username@, found),
    ensures
        outcome matches LoginResult::Success(id) && !before.contains_key(id) && found == Some(id),
        after.len() == before.len() + 1,
        name_taken(after, login.username@),
{
    let id = outcome->Success_0;
    assert(after.contains_key(id) && after[id].username@ == login.username@);
    if found is Some && found->0 != id {
        assert(before.contains_key(found->0) && before[found->0].username@ == login.username@);
    }
}

/// A signup keeps the invariant of the store.
pub proof fn lemma_signup_keeps_consistent(
    before: Map<u128, User>,
    login: LoginInformation,
    outcome: LoginResult,
    after: Map<u128, User>,
)
    requires
        consistent(before),
        signed_up(before, login, outcome, after),
    ensures
        consistent(after),
{
    if !name_taken(before, login.username@) {
        let id = outcome->Success_0;
        assert forall|a: u128, b: u128|
            after.contains_key(a) && after.contains_key(b) && (#[trigger] after[a]).username@ == (
            #[trigger] after[b]).username@ implies a == b by {
            if a != id && b != id {
                assert(before[a] == after[a] && before[b] == after[b]);
            } else if a != id {
                assert(before.contains_key(a) && before[a].username@ == login.username@);
            } else if b != id {
                assert(before.contains_key(b) && before[b].username@ == login.username@);
            }
        }
        assert forall|k: u128| after.contains_key(k) implies (#[trigger] after[k]).id == k by {
            if k != id {
                assert(before[k] == after[k]);
            }
        }
    }
}

/// A login under the name of a user of the store finds that user: with the
/// user's password it ends in `Success` and the user's id, with any other in
/// `PasswordWrong`.
pub proof fn lemma_login_known(
    users: Map<u128, User>,
    id: u128,
    password: Seq<char>,
    found: Option<u128>,
)
    requires
        consistent(users),
        users.contains_key(id),
        resolves(users, users[id].username@, found),
    ensures
        found == Some(id),
        users[id].password@ == password ==> login_outcome(users, found, password)
            == LoginResult::Success(id),
        users[id].password@ != password ==> login_outcome(users, found, password)
            == LoginResult::PasswordWrong,
{
    if found is Some {
        assert(users.contains_key(found->0));
    }
}

/// A login under a name that no user has ends in `UsernameNoExist`.
pub proof fn lemma_login_unknown(
    users: Map<u128, User>,
    name: Seq<char>,
    password: Seq<char>,
    found: Option<u128>,
)
    requires
        !name_taken(users, name),
        resolves(users, name, found),
    ensures
        found is None,
        login_outcome(users, found, password) == LoginResult::UsernameNoExist,
{
}

/// The first `count` of a row of signups, one after the other, under names
/// that differ from each other and from every name taken before the first:
/// all of them succeed, each id is in use afterwards, and the store has
/// `count` users more.
pub proof fn lemma_signups_so_far(
    stores: Seq<Map<u128, User>>,
    logins: Seq<LoginInformation>,
    outcomes: Seq<LoginResult>,
    count: nat,
)
    requires
        stores.len() == logins.len() + 1,
        outcomes.len() == logins.len(),
        count <= logins.len(),
        stores[0].dom().finite(),
        forall|i: int|
            0 <= i < logins.len() ==> signed_up(
                #[trigger] stores[i],
                logins[i],
                outcomes[i],
                stores[i + 1],
            ),
        forall|i: int| 0 <= i < logins.len() ==> !name_taken(stores[0], (#[trigger] logins[i]).username@),
        forall|i: int, j: int|
            0 <= i < j < logins.len() ==> (#[trigger] logins[i]).username@ != (
            #[trigger] logins[j]).username@,
    ensures
        stores[count as int].dom().finite(),
        stores[count as int].len() == stores[0].len() + count,
        forall|i: int| 0 <= i < count ==> (#[trigger] outcomes[i]) is Success,
        forall|i: int|
            0 <= i < count ==> stores[count as int].contains_key((#[trigger] outcomes[i])->Success_0),
        forall|i: int, j: int|
            0 <= i < j < count ==> (#[trigger] outcomes[i])->Success_0 != (
            #[trigger] outcomes[j])->Success_0,
        forall|name: Seq<char>|
            name_taken(stores[count as int], name) ==> name_taken(stores[0], name) || exists|k: int|
                0 <= k < count && (#[trigger] logins[k]).username@ == name,
    decreases count,
{
    if count > 0 {
        let last = count - 1;
        lemma_signups_so_far(stores, logins, outcomes, last as nat);
        let before = stores[last];
        let after = stores[last + 1];
        let login = logins[last];
        assert(signed_up(before, login, outcomes[last], after));
        if name_taken(before, login.username@) {
            assert(!name_taken(stores[0], login.username@));
            let k = choose|k: int| 0 <= k < last && (#[trigger] logins[k]).username@ == login.username@;
            assert(logins[k].username@ != logins[last].username@);
        }
        let id = outcomes[last]->Success_0;
        assert forall|i: int| 0 <= i < count implies after.contains_key(
            (#[trigger] outcomes[i])->Success_0,
        ) by {}
        assert forall|i: int, j: int| 0 <= i < j < count implies (#[trigger] outcomes[i])->Success_0
            != (#[trigger] outcomes[j])->Success_0 by {
            if j == last {
                assert(before.contains_key(outcomes[i]->Success_0));
            }
        }
        assert forall|name: Seq<char>| name_taken(after, name) implies name_taken(stores[0], name)
            || exists|k: int| 0 <= k < count && (#[trigger] logins[k]).username@ == name by {
            let holder = choose|holder: u128|
                after.contains_key(holder) && (#[trigger] after[holder]).username@ == name;
            if holder == id {
                assert(logins[last].username@ == name);
            } else {
                assert(before.contains_key(holder) && before[holder].username@ == name);
                assert(name_taken(before, name));
                if !name_taken(stores[0], name) {
                    let k = choose|k: int| 0 <= k < last && (#[trigger] logins[k]).username@ == name;
                    assert(logins[k].username@ == name);
                }
            }
        }
    }
}

/// A row of signups, one after the other, under names that differ from each
/// other and from every name taken before: all of them succeed, no two with
/// the same id, and in the end the store has as many users more as there were
/// signups.
pub proof fn lemma_signups_in_turn(
    stores: Seq<Map<u128, User>>,
    logins: Seq<LoginInformation>,
    outcomes: Seq<LoginResult>,
)
    requires
        stores.len() == logins.len() + 1,
        outcomes.len() == logins.len(),
        stores[0].dom().finite(),
        forall|i: int|
            0 <= i < logins.len() ==> signed_up(
                #[trigger] stores[i],
                logins[i],
                outcomes[i],
                stores[i + 1],
            ),
        forall|i: int| 0 <= i < logins.len() ==> !name_taken(stores[0], (#[trigger] logins[i]).username@),
        forall|i: int, j: int|
            0 <= i < j < logins.len() ==> (#[trigger] logins[i]).username@ != (
            #[trigger] logins[j]).username@,
    ensures
        forall|i: int| 0 <= i < outcomes.len() ==> (#[trigger] outcomes[i]) is Success,
        forall|i: int, j: int|
            0 <= i < j < outcomes.len() ==> (#[trigger] outcomes[i])->Success_0 != (
            #[trigger] outcomes[j])->Success_0,
        stores.last().len() == stores[0].len() + logins.len(),
{
    lemma_signups_so_far(stores, logins, outcomes, logins.len());
}

} // verus!
