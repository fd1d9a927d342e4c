//! Users and the ids they are filed under: who holds a name, and which id
//! the next user gets.

use crate::account_handler::AccountHandler;
use crate::account_handler::name_taken;
use crate::random::draw_below;
use vstd::prelude::*;
use vstd::std_specs::hash::*;
use vstd::std_specs::iter::IteratorSpec;

verus! {

broadcast use vstd::std_specs::hash::group_hash_axioms;

/// Random ids are drawn below this bound, so that each is written with eight
/// hexadecimal digits.
pub const USER_ID_MAX: u128 = 4294967296;

/// How often a random id is drawn before the store falls back on the id after
/// its greatest.
pub const USER_ID_DRAWS: usize = 1000;

/// One account.
#[derive(Clone)]
pub struct User {
    pub username: String,
    pub id: u128,
    pub password: String,
}

/// What a user types to log in or to sign up.
#[derive(Debug, Clone)]
pub struct LoginInformation {
    pub username: String,
    pub password: String,
}

/// Why a login form could not be read.
#[derive(Debug, PartialEq, Eq, Clone, Copy, Structural)]
pub enum LoginInfoParseError {
    /// Nothing went wrong.
    Success,
    /// The form is no JSON object of strings, or lacks a username or a
    /// password.
    ParsingError,
    /// The form is empty.
    Empty,
}

/// How a login or a signup ended.
#[derive(Debug, PartialEq, Eq, Clone, Structural)]
pub enum LoginResult {
    /// The user is logged in, or was created, under this id.
    Success(u128),
    /// No user has the name.
    UsernameNoExist,
    /// The name belongs to a user, but no password is on file for that user.
    PasswordNoExist,
    /// The password is not the user's.
    PasswordWrong,
    /// Another user has the name already.
    UsernameTaken,
}

/// The id of the first entry, in the order given, whose user is called `name`.
pub open spec fn first_named(entries: Seq<(u128, User)>, name: Seq<char>) -> Option<u128>
    decreases entries.len(),
{
    if entries.len() == 0 {
        None
    } else if entries[0].1.username@ == name {
        Some(entries[0].0)
    } else {
        first_named(entries.drop_first(), name)
    }
}

/// `found` answers the question who is called `name`: it is the id of a user
/// of that name, or `None` where there is no such user.
pub open spec fn resolves(users: Map<u128, User>, name: Seq<char>, found: Option<u128>) -> bool {
    match found {
        Some(id) => users.contains_key(id) && users[id].username@ == name,
        None => !name_taken(users, name),
    }
}

/// `id` comes right after the greatest id in `users`; in a store without users
/// it is 0.
pub open spec fn follows_greatest(users: Map<u128, User>, id: int) -> bool {
    if users.dom().is_empty() {
        id == 0
    } else {
        &&& 0 < id
        &&& users.contains_key((id - 1) as u128)
        &&& forall|other: u128| users.contains_key(other) ==> other < id
    }
}

/// Some id below [`USER_ID_MAX`] is in use.
pub open spec fn low_id_in_use(users: Map<u128, User>) -> bool {
    exists|id: u128| id < USER_ID_MAX && #[trigger] users.contains_key(id)
}

/// `id` is fit for a new user of a store that holds `users`: it is free, and
/// it is below [`USER_ID_MAX`] or, in a store where such ids are in use, the
/// id that follows the greatest.
pub open spec fn fresh_id(users: Map<u128, User>, id: u128) -> bool {
    &&& !users.contains_key(id)
    &&& id < USER_ID_MAX || (follows_greatest(users, id as int) && low_id_in_use(users))
}

/// `id` is what [`User::generate_user_id`] makes of the random ids `draws`, in
/// the order in which they were drawn: every draw but the last hit an id in
/// use. If the last one is free, it is the id. If it is not, the draws are
/// used up, and the id is the one that follows the greatest in use.
pub open spec fn drawn_id(users: Map<u128, User>, draws: Seq<u128>, id: u128) -> bool {
    &&& 0 < draws.len() <= USER_ID_DRAWS
    &&& forall|i: int| 0 <= i < draws.len() ==> #[trigger] draws[i] < USER_ID_MAX
    &&& forall|i: int| 0 <= i < draws.len() - 1 ==> users.contains_key(#[trigger] draws[i])
    &&& if users.contains_key(draws.last()) {
        draws.len() == USER_ID_DRAWS && follows_greatest(users, id as int)
    } else {
        id == draws.last()
    }
}

/// The first of the draws that no user holds.
pub open spec fn first_free(users: Map<u128, User>, draws: Seq<u128>) -> Option<u128>
    decreases draws.len(),
{
    if draws.len() == 0 {
        None
    } else if !users.contains_key(draws[0]) {
        Some(draws[0])
    } else {
        first_free(users, draws.drop_first())
    }
}

/// `id` is the id picked on the draws given: the first of them that no user
/// holds, or, where every one of them is in use, the id that follows the
/// greatest in use.
pub open spec fn picked(users: Map<u128, User>, draws: Seq<u128>, id: u128) -> bool {
    match first_free(users, draws) {
        Some(free) => id == free,
        None => follows_greatest(users, id as int),
    }
}

/// Where every draw before position `at` is in use, the search for a free one
/// is decided at `at`: by the draw there if it is free, by the end of the
/// draws if `at` is the end.
pub proof fn lemma_first_free_at(users: Map<u128, User>, draws: Seq<u128>, at: int)
    requires
        0 <= at <= draws.len(),
        forall|i: int| 0 <= i < at ==> users.contains_key(#[trigger] draws[i]),
    ensures
        at == draws.len() ==> first_free(users, draws) is None,
        at < draws.len() && !users.contains_key(draws[at]) ==> first_free(users, draws) == Some(
            draws[at],
        ),
    decreases at,
{
    if at > 0 {
        let rest = draws.drop_first();
        assert(users.contains_key(draws[0]));
        assert forall|i: int| 0 <= i < at - 1 implies users.contains_key(#[trigger] rest[i]) by {
            assert(rest[i] == draws[i + 1]);
        }
        lemma_first_free_at(users, rest, at - 1);
        if at < draws.len() {
            assert(rest[at - 1] == draws[at]);
        }
    }
}

/// Whatever is drawn, the id that comes of it is fresh.
pub proof fn lemma_drawn_id_is_fresh(users: Map<u128, User>, draws: Seq<u128>, id: u128)
    requires
        drawn_id(users, draws, id),
    ensures
        fresh_id(users, id),
{
    if users.contains_key(draws.last()) {
        assert(draws.last() < USER_ID_MAX);
    } else {
        assert(draws[draws.len() - 1] < USER_ID_MAX);
    }
}

/// Where no entry before position `at` carries the name, the search for the
/// name is decided at `at`: by the entry there if it carries the name, by the
/// end of the entries if `at` is the end.
pub proof fn lemma_first_named_at(entries: Seq<(u128, User)>, name: Seq<char>, at: int)
    requires
        0 <= at <= entries.len(),
        forall|i: int| 0 <= i < at ==> (#[trigger] entries[i]).1.username@ != name,
    ensures
        at == entries.len() ==> first_named(entries, name) is None,
        at < entries.len() && entries[at].1.username@ == name ==> first_named(entries, name)
            == Some(entries[at].0),
    decreases at,
{
    if at > 0 {
        let rest = entries.drop_first();
        assert(entries[0].1.username@ != name);
        assert forall|i: int| 0 <= i < at - 1 implies (#[trigger] rest[i]).1.username@ != name by {
            assert(rest[i] == entries[i + 1]);
        }
        lemma_first_named_at(rest, name, at - 1);
        if at < entries.len() {
            assert(rest[at - 1] == entries[at]);
        }
    }
}

impl User {
    /// Whether some user of the store is called `username`. Names are compared
    /// letter for letter: case matters.
    pub fn username_exists(account_handler: &AccountHandler, username: &String) -> (found: bool)
        ensures
            found == name_taken(account_handler@, username@),
    {
        for (id, user) in walk: account_handler.users.iter()
            invariant
                forall|i: int| 0 <= i < walk.index() ==> (*walk.seq()[i].1).username@ != username@,
        {
            if user.username == *username {
                assert(account_handler@.contains_key(*id));
                return true;
            }
        }
        false
    }

    /// The id of the user called `username`, if there is one. Should several
    /// users share the name, the first of them in the order in which the store
    /// hands out its entries is meant.
    pub fn lookup_user_id(account_handler: &AccountHandler, username: &String) -> (found: Option<
        u128,
    >)
        ensures
            found == first_named(account_handler.users.iter().remaining().unref(), username@),
            resolves(account_handler@, username@, found),
    {
        if !User::username_exists(account_handler, username) {
            proof {
                let order = account_handler.users.iter().remaining();
                assert forall|i: int| 0 <= i < order.len() implies (#[trigger] order.unref()[i]).1.username@
                    != username@ by {
                    assert(account_handler@.contains_key(*order[i].0));
                }
                lemma_first_named_at(order.unref(), username@, order.len() as int);
            }
            return None;
        }
        let ghost order = account_handler.users.iter().remaining();
        for (id, user) in walk: account_handler.users.iter()
            invariant
                walk.seq() == order,
                forall|i: int| 0 <= i < walk.index() ==> (*order[i].1).username@ != username@,
            ensures
                forall|i: int| 0 <= i < order.len() ==> (*order[i].1).username@ != username@,
        {
            if user.username == *username {
                proof {
                    assert(account_handler@.contains_key(*id));
                    lemma_first_named_at(order.unref(), username@, walk.index());
                }
                return Some(*id);
            }
        }
        proof {
            lemma_first_named_at(order.unref(), username@, order.len() as int);
        }
        None
    }

    /// The id that follows the greatest one in use, or 0 for a store without
    /// users. The id `u128::MAX` must be free, since nothing follows it.
    pub fn next_user_id(account_handler: &AccountHandler) -> (id: u128)
        requires
            !account_handler@.contains_key(u128::MAX),
        ensures
            follows_greatest(account_handler@, id as int),
    {
        let mut greatest: Option<u128> = None;
        let ghost order = account_handler.users.keys().remaining();
        for id in walk: account_handler.users.keys()
            invariant
                walk.seq() == order,
                greatest is None <==> walk.index() == 0,
                greatest matches Some(g) ==> exists|i: int|
                    0 <= i < walk.index() && *order[i] == g,
                greatest matches Some(g) ==> forall|i: int|
                    0 <= i < walk.index() ==> *order[i] <= g,
            ensures
                greatest is None <==> order.len() == 0,
                greatest matches Some(g) ==> exists|i: int| 0 <= i < order.len() && *order[i] == g,
                greatest matches Some(g) ==> forall|i: int| 0 <= i < order.len() ==> *order[i] <= g,
        {
            greatest = match greatest {
                Some(g) if g >= *id => Some(g),
                _ => Some(*id),
            };
        }
        proof {
            let keys = order.unref();
            assert(keys.to_set() == account_handler@.dom());
            assert forall|other: u128| account_handler@.contains_key(other) implies exists|i: int|
                0 <= i < order.len() && *order[i] == other by {
                assert(keys.to_set().contains(other));
                let i = choose|i: int| 0 <= i < keys.len() && keys[i] == other;
                assert(*order[i] == other);
            }
            if order.len() > 0 {
                assert(keys.to_set().contains(keys[0]));
            }
            if greatest is Some {
                let g = greatest->0;
                let i = choose|i: int| 0 <= i < order.len() && *order[i] == g;
                assert(keys.to_set().contains(keys[i]));
            }
        }
        match greatest {
            Some(g) => g + 1,
            None => 0,
        }
    }

    /// Picks an id on the draws given, in their order: the first draw that no
    /// user holds, or, where every draw hits an id in use, the id after the
    /// greatest one in use. For that case the id `u128::MAX` must be free,
    /// since nothing follows it.
    pub fn pick_user_id(account_handler: &AccountHandler, draws: &Vec<u128>) -> (id: u128)
        requires
            first_free(account_handler@, draws@) is None ==> !account_handler@.contains_key(
                u128::MAX,
            ),
        ensures
            picked(account_handler@, draws@, id),
    {
        let mut at: usize = 0;
        while at < draws.len()
            invariant
                at <= draws.len(),
                forall|i: int| 0 <= i < at ==> account_handler@.contains_key(#[trigger] draws@[i]),
            decreases draws.len() - at,
        {
            if !account_handler.users.contains_key(&draws[at]) {
                proof {
                    lemma_first_free_at(account_handler@, draws@, at as int);
                }
                return draws[at];
            }
            at = at + 1;
        }
        proof {
            lemma_first_free_at(account_handler@, draws@, at as int);
        }
        User::next_user_id(account_handler)
    }

    /// Picks an id for a new user. Up to [`USER_ID_DRAWS`] times a random id
    /// below [`USER_ID_MAX`] is drawn, until one comes that no user holds, and
    /// the id is picked on these draws, see [`User::pick_user_id`]: the one
    /// that no user holds, or, when every draw hit an id in use, the id after
    /// the greatest one in use.
    ///
    /// Either way the id is free. The id `u128::MAX` must be free beforehand,
    /// since nothing follows it.
    pub fn generate_user_id(account_handler: &AccountHandler) -> (id: u128)
        requires
            !account_handler@.contains_key(u128::MAX),
        ensures
            exists|draws: Seq<u128>|
                drawn_id(account_handler@, draws, id) && picked(account_handler@, draws, id),
            fresh_id(account_handler@, id),
    {
        let mut rng = rand::thread_rng();
        let mut draws: Vec<u128> = Vec::new();
        let mut free = false;
        while !free && draws.len() < USER_ID_DRAWS
            invariant
                draws.len() <= USER_ID_DRAWS,
                free ==> draws.len() > 0,
                forall|i: int| 0 <= i < draws.len() ==> #[trigger] draws@[i] < USER_ID_MAX,
                forall|i: int|
                    0 <= i < draws.len() - 1 ==> account_handler@.contains_key(#[trigger] draws@[i]),
                draws.len() > 0 ==> (free <==> !account_handler@.contains_key(draws@.last())),
            decreases (if free { 0int } else { 1int }), USER_ID_DRAWS - draws.len(),
        {
            let candidate = draw_below(&mut rng, USER_ID_MAX);
            draws.push(candidate);
            free = !account_handler.users.contains_key(&candidate);
        }
        let id = User::pick_user_id(account_handler, &draws);
        proof {
            if free {
                lemma_first_free_at(account_handler@, draws@, draws.len() - 1);
            } else {
                lemma_first_free_at(account_handler@, draws@, draws.len() as int);
            }
            assert(drawn_id(account_handler@, draws@, id));
            lemma_drawn_id_is_fresh(account_handler@, draws@, id);
        }
        id
    }
}

} // verus!
