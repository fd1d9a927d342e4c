//! The store written down and read back: one record for each user.

use crate::account_handler::AccountHandler;
use crate::account_handler::consistent;
use crate::account_handler::filed_by_id;
use crate::account_handler::names_unique;
use crate::document::DocumentError;
use crate::document::lists_records;
use crate::document::names_distinct;
use crate::document::parse_records;
use crate::document::Record;
use crate::document::RecordMap;
use crate::document::records_in;
use crate::document::render_records;
use crate::user::User;
use std::collections::HashMap;
use vstd::prelude::*;
use vstd::std_specs::hash::*;
use vstd::std_specs::iter::IteratorSpec;

verus! {

broadcast use vstd::std_specs::hash::group_hash_axioms;

/// A record as plain values.
pub open spec fn record_view(record: Record) -> (Seq<char>, u128, Seq<char>) {
    (record.0@, record.1, record.2@)
}

/// The record that writes down an entry of the store: the user's name, the
/// id that the user is filed under, and the password.
pub open spec fn record_of(entry: (u128, User)) -> (Seq<char>, u128, Seq<char>) {
    (entry.1.username@, entry.0, entry.1.password@)
}

/// The records of a list as plain values.
pub open spec fn record_views(records: Seq<Record>) -> Seq<(Seq<char>, u128, Seq<char>)> {
    records.map_values(|record: Record| record_view(record))
}

/// The records that write down the entries of a store, one for one.
pub open spec fn records_of(entries: Seq<(u128, User)>) -> Seq<(Seq<char>, u128, Seq<char>)> {
    entries.map_values(|entry: (u128, User)| record_of(entry))
}

/// The record is that of a user of the store: its id is in use, by a user
/// with the name and the password of the record.
pub open spec fn agrees(users: Map<u128, User>, record: Record) -> bool {
    &&& users.contains_key(record.1)
    &&& users[record.1].username@ == record.0@
    &&& users[record.1].password@ == record.2@
}

/// The document `map` writes down the users of a store, all of them and
/// nobody else: each entry gives the name, the id and the password of one
/// user, and each user stands in it under their name.
pub open spec fn writes_down(users: Map<u128, User>, map: RecordMap) -> bool {
    &&& forall|name: Seq<char>| #[trigger]
        map.contains_key(name) ==> {
            &&& users.contains_key(map[name].0)
            &&& users[map[name].0].username@ == name
            &&& users[map[name].0].password@ == map[name].1
        }
    &&& forall|id: u128| #[trigger]
        users.contains_key(id) ==> map.contains_key(users[id].username@) && map[users[id].username@].0
            == id
}

/// The user that a record writes down.
pub open spec fn user_of(record: Record) -> User {
    User { username: record.0, id: record.1, password: record.2 }
}

/// The users of the records, each filed under the id in its record. Where an
/// id comes twice, the later record stands.
pub open spec fn filed(records: Seq<Record>) -> Map<u128, User>
    decreases records.len(),
{
    if records.len() == 0 {
        Map::empty()
    } else {
        filed(records.drop_last()).insert(records.last().1, user_of(records.last()))
    }
}

/// Two users are the same in what is written down of them: the id, the
/// username and the password.
pub open spec fn same_user(a: User, b: User) -> bool {
    a.id == b.id && a.username@ == b.username@ && a.password@ == b.password@
}

/// No id comes twice among the records.
pub open spec fn ids_distinct(records: Seq<Record>) -> bool {
    forall|i: int, j: int|
        0 <= i < j < records.len() ==> (#[trigger] records[i]).1 != (#[trigger] records[j]).1
}

/// No two entries of the document carry one id.
pub open spec fn ids_unique(map: RecordMap) -> bool {
    forall|a: Seq<char>, b: Seq<char>|
        #![trigger map[a], map[b]]
        map.contains_key(a) && map.contains_key(b) && map[a].0 == map[b].0 ==> a == b
}

/// The records are those of the store, one for each user: every record is
/// that of a user, every user has a record, and no id comes twice.
pub open spec fn lists_store(records: Seq<Record>, users: Map<u128, User>) -> bool {
    &&& records.len() == users.len()
    &&& ids_distinct(records)
    &&& forall|i: int| 0 <= i < records.len() ==> agrees(users, #[trigger] records[i])
    &&& forall|id: u128| #[trigger]
        users.contains_key(id) ==> exists|i: int|
            0 <= i < records.len() && (#[trigger] records[i]).1 == id
}

impl User {
    /// The users of the store as records, in the order in which the store hands
    /// out its entries: what [`User::save`] writes down.
    pub fn records(account_handler: &AccountHandler) -> (records: Vec<Record>)
        ensures
            record_views(records@) == records_of(account_handler.users.iter().remaining().unref()),
            lists_store(records@, account_handler@),
    {
        let mut records: Vec<Record> = Vec::new();
        let ghost order = account_handler.users.iter().remaining().unref();
        for (id, user) in walk: account_handler.users.iter()
            invariant
                walk.seq().unref() == order,
                record_views(records@) == records_of(order.take(walk.index())),
            ensures
                record_views(records@) == records_of(order.take(order.len() as int)),
        {
            let ghost before = records@;
            let record = (user.username.clone(), *id, user.password.clone());
            records.push(record);
            proof {
                let seen = order.take(walk.index());
                assert(order.take(walk.index() + 1) =~= seen.push((*id, *user)));
                assert(record_views(records@) =~= record_views(before).push(record_view(record)));
                assert(records_of(seen.push((*id, *user))) =~= records_of(seen).push(
                    record_of((*id, *user)),
                ));
            }
        }
        proof {
            assert(order.take(order.len() as int) =~= order);
            let walk = account_handler.users.iter().remaining();
            assert forall|i: int| 0 <= i < order.len() implies account_handler@.contains_key(
                (#[trigger] order[i]).0,
            ) && account_handler@[order[i].0] == order[i].1 by {
                assert(account_handler@.contains_key(*walk[i].0));
            }
            assert forall|id: u128| #[trigger] account_handler@.contains_key(id) implies exists|
                i: int,
            |
                0 <= i < order.len() && (#[trigger] order[i]).0 == id by {
                assert(walk.contains((&id, &account_handler@[id])));
                let i = choose|i: int| 0 <= i < walk.len() && walk[i] == (&id, &account_handler@[id]);
                assert(order[i].0 == id);
            }
            lemma_records_list_store(order, account_handler@, records@);
        }
        records
    }

    /// Whether `text` is a document of the store as it stands: it reads as a
    /// document, see [`User::load`], and that document writes down every user
    /// of the store and nobody else.
    pub fn is_saved_as(account_handler: &AccountHandler, text: &str) -> (exact: bool)
        ensures
            exact == (records_in(text@) matches Some(map) && writes_down(account_handler@, map)),
    {
        match parse_records(text) {
            Ok(records) => {
                let ghost map = records_in(text@)->0;
                let mut at: usize = 0;
                while at < records.len()
                    invariant
                        at <= records.len(),
                        records_in(text@) == Some(map),
                        lists_records(records@, map),
                        forall|i: int| 0 <= i < at ==> agrees(account_handler@, #[trigger] records@[i]),
                    decreases records.len() - at,
                {
                    let agreed = match account_handler.users.get(&records[at].1) {
                        Some(user) => user.username == records[at].0 && user.password
                            == records[at].2,
                        None => false,
                    };
                    if !agreed {
                        proof {
                            let record = records@[at as int];
                            assert(!agrees(account_handler@, record));
                            assert(map.contains_key(record.0@));
                            assert(map[record.0@] == (record.1, record.2@));
                            assert(!writes_down(account_handler@, map));
                        }
                        return false;
                    }
                    at = at + 1;
                }
                proof {
                    lemma_all_written(account_handler@, records@, map);
                }
                records.len() == account_handler.users.len()
            },
            Err(_) => false,
        }
    }

    /// Writes the users of the store down as a document: a JSON object from
    /// each username to the user's id and password. Putting the document where
    /// it is kept is left to the caller.
    ///
    /// A store in which no two users share a name is always written down, and
    /// the text reads as a document of every user of the store and nobody
    /// else: it is handed out once [`User::is_saved_as`] has found it so. A
    /// store in which two users share a name has no such document, and gives
    /// `Unwritable`.
    pub fn save(account_handler: &AccountHandler) -> (document: Result<String, DocumentError>)
        ensures
            match document {
                Ok(text) => {
                    &&& names_unique(account_handler@)
                    &&& records_in(text@) matches Some(map)
                    &&& writes_down(account_handler@, map)
                },
                Err(error) => error == DocumentError::Unwritable && !names_unique(account_handler@),
            },
    {
        let records = User::records(account_handler);
        proof {
            if names_unique(account_handler@) {
                assert(names_distinct(records@)) by {
                    assert forall|i: int, j: int| 0 <= i < j < records.len() implies (
                    #[trigger] records@[i]).0@ != (#[trigger] records@[j]).0@ by {
                        assert(agrees(account_handler@, records@[i]));
                        assert(agrees(account_handler@, records@[j]));
                    }
                }
            }
        }
        match render_records(&records) {
            Ok(text) => {
                proof {
                    if names_unique(account_handler@) {
                        lemma_all_written(account_handler@, records@, records_in(text@)->0);
                    }
                    if records_in(text@) is Some {
                        lemma_written_names_unique(account_handler@, records_in(text@)->0);
                    }
                }
                if User::is_saved_as(account_handler, text.as_str()) {
                    Ok(text)
                } else {
                    Err(DocumentError::Unwritable)
                }
            },
            Err(_) => Err(DocumentError::Unwritable),
        }
    }

    /// Files the user of each record under the id in the record. Records that
    /// carry one id twice are refused with `SharedId`: no user is dropped for
    /// another.
    pub fn from_records(records: &Vec<Record>) -> (filing: Result<
        HashMap<u128, User>,
        DocumentError,
    >)
        ensures
            match filing {
                Ok(users) => ids_distinct(records@) && users@ == filed(records@),
                Err(error) => error == DocumentError::SharedId && !ids_distinct(records@),
            },
    {
        let mut users: HashMap<u128, User> = HashMap::new();
        let mut at: usize = 0;
        while at < records.len()
            invariant
                at <= records.len(),
                users@ == filed(records@.take(at as int)),
                ids_distinct(records@.take(at as int)),
            decreases records.len() - at,
        {
            let ghost seen = records@.take(at as int);
            if users.contains_key(&records[at].1) {
                proof {
                    lemma_filed(seen);
                    let i = choose|i: int|
                        0 <= i < seen.len() && seen[i].1 == records@[at as int].1 && filed(
                            seen,
                        )[records@[at as int].1] == user_of(#[trigger] seen[i]);
                    assert(records@[i] == seen[i]);
                    assert(records@[i].1 == records@[at as int].1);
                }
                return Err(DocumentError::SharedId);
            }
            let user = User {
                username: records[at].0.clone(),
                id: records[at].1,
                password: records[at].2.clone(),
            };
            users.insert(records[at].1, user);
            proof {
                let longer = records@.take(at + 1);
                assert(longer.drop_last() =~= seen);
                lemma_filed(seen);
                assert forall|i: int, j: int| 0 <= i < j < longer.len() implies (
                #[trigger] longer[i]).1 != (#[trigger] longer[j]).1 by {
                    assert(longer[i] == seen[i]);
                    if j < seen.len() {
                        assert(longer[j] == seen[j]);
                    } else {
                        assert(filed(seen).contains_key(seen[i].1));
                    }
                }
            }
            at = at + 1;
        }
        proof {
            assert(records@.take(records.len() as int) =~= records@);
        }
        Ok(users)
    }

    /// Reads the users of a store from its document, see [`User::save`].
    ///
    /// A text that is no such document gives `Malformed`, and a document in
    /// which two users are written with one id gives `SharedId`: no user is
    /// taken from either. Otherwise every user of the document is filed under
    /// the id written there, nobody else is, and the store that comes out
    /// keeps its invariant.
    pub fn load(text: &str) -> (loaded: Result<HashMap<u128, User>, DocumentError>)
        ensures
            match loaded {
                Ok(users) => {
                    &&& records_in(text@) matches Some(map)
                    &&& ids_unique(map)
                    &&& writes_down(users@, map)
                    &&& consistent(users@)
                },
                Err(error) => match records_in(text@) {
                    Some(map) => error == DocumentError::SharedId && !ids_unique(map),
                    None => error == DocumentError::Malformed,
                },
            },
    {
        match parse_records(text) {
            Ok(records) => {
                proof {
                    lemma_listed_ids(records@, records_in(text@)->0);
                }
                match User::from_records(&records) {
                    Ok(users) => {
                        proof {
                            lemma_filed_writes_down(records@, records_in(text@)->0);
                        }
                        Ok(users)
                    },
                    Err(error) => Err(error),
                }
            },
            Err(_) => Err(DocumentError::Malformed),
        }
    }
}

/// The users filed from records are filed under their own ids, each of them
/// comes from one of the records, and the id of every record is in use. Where
/// no username comes twice among the records, none does among the users.
pub proof fn lemma_filed(records: Seq<Record>)
    ensures
        filed_by_id(filed(records)),
        forall|id: u128| #[trigger]
            filed(records).contains_key(id) ==> exists|i: int|
                0 <= i < records.len() && records[i].1 == id && filed(records)[id] == user_of(
                    #[trigger] records[i],
                ),
        forall|i: int|
            0 <= i < records.len() ==> filed(records).contains_key((#[trigger] records[i]).1),
        (forall|i: int, j: int|
            0 <= i < j < records.len() ==> (#[trigger] records[i]).0@ != (#[trigger] records[j]).0@)
            ==> names_unique(filed(records)),
    decreases records.len(),
{
    if records.len() > 0 {
        let front = records.drop_last();
        let last = records.last();
        let users = filed(records);
        lemma_filed(front);
        assert forall|id: u128| #[trigger] users.contains_key(id) implies exists|i: int|
            0 <= i < records.len() && records[i].1 == id && users[id] == user_of(
                #[trigger] records[i],
            ) by {
            if id == last.1 {
                assert(records[records.len() - 1] == last);
            } else {
                assert(filed(front).contains_key(id));
                let i = choose|i: int|
                    0 <= i < front.len() && front[i].1 == id && filed(front)[id] == user_of(
                        #[trigger] front[i],
                    );
                assert(records[i] == front[i]);
            }
        }
        assert forall|i: int| 0 <= i < records.len() implies users.contains_key(
            (#[trigger] records[i]).1,
        ) by {
            if i < front.len() {
                assert(records[i] == front[i]);
            }
        }
        if forall|i: int, j: int|
            0 <= i < j < records.len() ==> (#[trigger] records[i]).0@ != (#[trigger] records[j]).0@ {
            assert forall|i: int, j: int| 0 <= i < j < front.len() implies (#[trigger] front[i]).0@
                != (#[trigger] front[j]).0@ by {
                assert(records[i] == front[i] && records[j] == front[j]);
            }
            assert forall|a: u128, b: u128|
                users.contains_key(a) && users.contains_key(b) && (#[trigger] users[a]).username@
                    == (#[trigger] users[b]).username@ implies a == b by {
                let i = choose|i: int|
                    0 <= i < records.len() && records[i].1 == a && users[a] == user_of(
                        #[trigger] records[i],
                    );
                let j = choose|j: int|
                    0 <= j < records.len() && records[j].1 == b && users[b] == user_of(
                        #[trigger] records[j],
                    );
                if i < j {
                    assert(records[i].0@ != records[j].0@);
                } else if j < i {
                    assert(records[j].0@ != records[i].0@);
                }
            }
        }
    }
}

/// In a list of a document, no id comes twice exactly where no two entries
/// of the document carry one id.
pub proof fn lemma_listed_ids(records: Seq<Record>, map: RecordMap)
    requires
        lists_records(records, map),
    ensures
        ids_distinct(records) <==> ids_unique(map),
{
    if ids_distinct(records) {
        assert forall|a: Seq<char>, b: Seq<char>|
            #![trigger map[a], map[b]]
            map.contains_key(a) && map.contains_key(b) && map[a].0 == map[b].0 implies a == b by {
            let i = choose|i: int| 0 <= i < records.len() && (#[trigger] records[i]).0@ == a;
            let j = choose|j: int| 0 <= j < records.len() && (#[trigger] records[j]).0@ == b;
            assert(map[records[i].0@] == (records[i].1, records[i].2@));
            assert(map[records[j].0@] == (records[j].1, records[j].2@));
            if i < j {
                assert(records[i].1 != records[j].1);
            } else if j < i {
                assert(records[j].1 != records[i].1);
            }
        }
    }
    if ids_unique(map) {
        assert forall|i: int, j: int| 0 <= i < j < records.len() implies (#[trigger] records[i]).1
            != (#[trigger] records[j]).1 by {
            let a = records[i].0@;
            let b = records[j].0@;
            assert(map.contains_key(a) && map[a] == (records[i].1, records[i].2@));
            assert(map.contains_key(b) && map[b] == (records[j].1, records[j].2@));
            assert(a != b);
            if records[i].1 == records[j].1 {
                assert(map[a].0 == map[b].0);
            }
        }
    }
}

/// The users filed from a list of a document in which no id comes twice are
/// the users of the document, all of them and nobody else, and they keep the
/// invariant of a store.
pub proof fn lemma_filed_writes_down(records: Seq<Record>, map: RecordMap)
    requires
        lists_records(records, map),
        ids_distinct(records),
    ensures
        writes_down(filed(records), map),
        consistent(filed(records)),
{
    let users = filed(records);
    lemma_filed(records);
    assert forall|i: int| 0 <= i < records.len() implies users[(#[trigger] records[i]).1]
        == user_of(records[i]) by {
        let id = records[i].1;
        assert(users.contains_key(id));
        let k = choose|k: int|
            0 <= k < records.len() && records[k].1 == id && users[id] == user_of(
                #[trigger] records[k],
            );
        if k < i {
            assert(records[k].1 != records[i].1);
        } else if i < k {
            assert(records[i].1 != records[k].1);
        }
    }
    assert forall|name: Seq<char>| #[trigger] map.contains_key(name) implies {
        &&& users.contains_key(map[name].0)
        &&& users[map[name].0].username@ == name
        &&& users[map[name].0].password@ == map[name].1
    } by {
        let i = choose|i: int| 0 <= i < records.len() && (#[trigger] records[i]).0@ == name;
        assert(users[records[i].1] == user_of(records[i]));
    }
    assert forall|id: u128| #[trigger] users.contains_key(id) implies map.contains_key(
        users[id].username@,
    ) && map[users[id].username@].0 == id by {
        let k = choose|k: int|
            0 <= k < records.len() && records[k].1 == id && users[id] == user_of(
                #[trigger] records[k],
            );
        assert(map.contains_key(records[k].0@));
    }
}

/// A store that a document writes down has no two users of one name.
pub proof fn lemma_written_names_unique(users: Map<u128, User>, map: RecordMap)
    ensures
        writes_down(users, map) ==> names_unique(users),
{
    if writes_down(users, map) {
        assert forall|a: u128, b: u128|
            users.contains_key(a) && users.contains_key(b) && (#[trigger] users[a]).username@ == (
            #[trigger] users[b]).username@ implies a == b by {
            assert(map[users[a].username@].0 == a);
            assert(map[users[b].username@].0 == b);
        }
    }
}

/// The records that write down the entries of a store, one for one, are those
/// of the store: where `entries` hold each user of the store once.
pub proof fn lemma_records_list_store(
    entries: Seq<(u128, User)>,
    users: Map<u128, User>,
    records: Seq<Record>,
)
    requires
        users.dom().finite(),
        entries.len() == users.len(),
        forall|i: int|
            0 <= i < entries.len() ==> users.contains_key((#[trigger] entries[i]).0) && users[entries[i].0]
                == entries[i].1,
        forall|id: u128| #[trigger]
            users.contains_key(id) ==> exists|i: int|
                0 <= i < entries.len() && (#[trigger] entries[i]).0 == id,
        record_views(records) == records_of(entries),
    ensures
        lists_store(records, users),
{
    let written = record_views(records);
    let listed = records_of(entries);
    assert(records.len() == written.len() == listed.len() == entries.len());
    assert forall|i: int| 0 <= i < records.len() implies record_view(#[trigger] records[i])
        == record_of(entries[i]) by {
        assert(written[i] == record_view(records[i]));
        assert(listed[i] == record_of(entries[i]));
    }
    assert forall|i: int| 0 <= i < records.len() implies agrees(users, #[trigger] records[i]) by {
        assert(record_view(records[i]) == record_of(entries[i]));
        assert(users.contains_key(entries[i].0));
    }
    assert forall|id: u128| #[trigger] users.contains_key(id) implies exists|i: int|
        0 <= i < records.len() && (#[trigger] records[i]).1 == id by {
        let i = choose|i: int| 0 <= i < entries.len() && (#[trigger] entries[i]).0 == id;
        assert(record_view(records[i]) == record_of(entries[i]));
    }
    let ids = record_ids(records);
    assert(ids.to_set() =~= users.dom()) by {
        assert forall|id: u128| ids.to_set().contains(id) implies users.dom().contains(id) by {
            let i = choose|i: int| 0 <= i < ids.len() && ids[i] == id;
            assert(agrees(users, records[i]));
        }
        assert forall|id: u128| users.dom().contains(id) implies ids.to_set().contains(id) by {
            assert(users.contains_key(id));
            let i = choose|i: int| 0 <= i < records.len() && (#[trigger] records[i]).1 == id;
            assert(ids[i] == id);
        }
    }
    ids.lemma_no_dup_set_cardinality();
    assert forall|i: int, j: int| 0 <= i < j < records.len() implies (#[trigger] records[i]).1 != (
    #[trigger] records[j]).1 by {
        assert(ids[i] == records[i].1 && ids[j] == records[j].1);
    }
}

/// The id that a record carries.
pub open spec fn record_ids(records: Seq<Record>) -> Seq<u128> {
    records.map_values(|record: Record| record.1)
}

/// Where a list of a document holds records of users of the store alone, the
/// document writes down the whole store if and only if there are as many
/// records as users.
pub proof fn lemma_all_written(users: Map<u128, User>, records: Seq<Record>, map: RecordMap)
    requires
        users.dom().finite(),
        lists_records(records, map),
        forall|i: int| 0 <= i < records.len() ==> agrees(users, #[trigger] records[i]),
    ensures
        writes_down(users, map) <==> records.len() == users.len(),
{
    let ids = record_ids(records);
    assert forall|i: int, j: int| 0 <= i < ids.len() && 0 <= j < ids.len() && i != j implies ids[i]
        != ids[j] by {
        assert(agrees(users, records[i]) && agrees(users, records[j]));
        if i < j {
            assert(records[i].0@ != records[j].0@);
        } else {
            assert(records[j].0@ != records[i].0@);
        }
    }
    assert(ids.no_duplicates());
    ids.unique_seq_to_set();
    assert forall|id: u128| ids.to_set().contains(id) implies users.dom().contains(id) by {
        let i = choose|i: int| 0 <= i < ids.len() && ids[i] == id;
        assert(agrees(users, records[i]));
    }
    assert(ids.to_set().subset_of(users.dom()));
    vstd::set_lib::lemma_len_subset(ids.to_set(), users.dom());
    assert forall|name: Seq<char>| #[trigger] map.contains_key(name) implies {
        &&& users.contains_key(map[name].0)
        &&& users[map[name].0].username@ == name
        &&& users[map[name].0].password@ == map[name].1
    } by {
        let i = choose|i: int| 0 <= i < records.len() && (#[trigger] records[i]).0@ == name;
        assert(agrees(users, records[i]));
    }
    if records.len() == users.len() {
        vstd::set_lib::lemma_subset_equality(ids.to_set(), users.dom());
        assert forall|id: u128| #[trigger] users.contains_key(id) implies map.contains_key(
            users[id].username@,
        ) && map[users[id].username@].0 == id by {
            assert(ids.to_set().contains(id));
            let i = choose|i: int| 0 <= i < ids.len() && ids[i] == id;
            assert(agrees(users, records[i]));
            assert(map.contains_key(records[i].0@));
        }
    }
    if writes_down(users, map) {
        assert forall|id: u128| users.dom().contains(id) implies ids.to_set().contains(id) by {
            assert(users.contains_key(id));
            let name = users[id].username@;
            assert(map.contains_key(name));
            let i = choose|i: int| 0 <= i < records.len() && (#[trigger] records[i]).0@ == name;
            assert(map[records[i].0@] == (records[i].1, records[i].2@));
            assert(ids[i] == id);
        }
        assert(ids.to_set() =~= users.dom());
    }
}

/// Reading a document of a store gives the store back: where the document
/// writes down a store whose users are filed under their own ids, the users
/// read from it hold the same ids as the store, each with the same user.
pub proof fn lemma_load_gives_back(
    users: Map<u128, User>,
    map: RecordMap,
    loaded: Map<u128, User>,
)
    requires
        filed_by_id(users),
        writes_down(users, map),
        filed_by_id(loaded),
        writes_down(loaded, map),
    ensures
        forall|id: u128| #[trigger] loaded.contains_key(id) <==> users.contains_key(id),
        forall|id: u128| #[trigger] users.contains_key(id) ==> same_user(loaded[id], users[id]),
{
    assert forall|id: u128| #[trigger] loaded.contains_key(id) implies users.contains_key(id)
        && same_user(loaded[id], users[id]) by {
        assert(map.contains_key(loaded[id].username@));
    }
    assert forall|id: u128| #[trigger] users.contains_key(id) implies loaded.contains_key(id) by {
        assert(map.contains_key(users[id].username@));
    }
}

/// Filing the records of a store gives the store back: where `entries` are
/// the entries of a store whose users are filed under their own ids, and
/// `records` write them down one for one, the users filed from the records
/// hold the same ids as the store, each with the same user.
pub proof fn lemma_records_file_back(
    entries: Seq<(u128, User)>,
    users: Map<u128, User>,
    records: Seq<Record>,
)
    requires
        filed_by_id(users),
        forall|i: int|
            0 <= i < entries.len() ==> users.contains_key((#[trigger] entries[i]).0) && users[entries[i].0]
                == entries[i].1,
        forall|id: u128| #[trigger]
            users.contains_key(id) ==> exists|i: int|
                0 <= i < entries.len() && (#[trigger] entries[i]).0 == id,
        record_views(records) == records_of(entries),
    ensures
        forall|id: u128| #[trigger] filed(records).contains_key(id) <==> users.contains_key(id),
        forall|id: u128| #[trigger]
            users.contains_key(id) ==> same_user(filed(records)[id], users[id]),
{
    let written = record_views(records);
    let listed = records_of(entries);
    assert(records.len() == written.len() == listed.len() == entries.len());
    assert forall|i: int| 0 <= i < records.len() implies record_view(#[trigger] records[i])
        == record_of(entries[i]) by {
        assert(written[i] == record_view(records[i]));
        assert(listed[i] == record_of(entries[i]));
    }
    lemma_filed(records);
    assert forall|id: u128| #[trigger] filed(records).contains_key(id) implies users.contains_key(
        id,
    ) && same_user(filed(records)[id], users[id]) by {
        let i = choose|i: int|
            0 <= i < records.len() && records[i].1 == id && filed(records)[id] == user_of(
                #[trigger] records[i],
            );
        assert(record_view(records[i]) == record_of(entries[i]));
        assert(users.contains_key(entries[i].0));
    }
    assert forall|id: u128| #[trigger] users.contains_key(id) implies filed(records).contains_key(
        id,
    ) by {
        let i = choose|i: int| 0 <= i < entries.len() && (#[trigger] entries[i]).0 == id;
        assert(record_view(records[i]) == record_of(entries[i]));
        assert(filed(records).contains_key(records[i].1));
    }
}

} // verus!
