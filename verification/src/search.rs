//! Finding users by a part of their name or by their short code.

use crate::account_handler::AccountHandler;
use crate::code::decode;
use crate::code::decoded;
use crate::code::encode;
use crate::code::encoded;
use crate::login::login_outcome;
use crate::text::contains_text;
use crate::text::lowercase;
use crate::text::occurs_in;
use crate::user::first_named;
use crate::user::LoginInformation;
use crate::user::LoginResult;
use crate::user::User;
use vstd::prelude::*;
use vstd::std_specs::hash::*;
use vstd::std_specs::iter::IteratorSpec;

verus! {

broadcast use vstd::std_specs::hash::group_hash_axioms;

/// At most this many users are found by name in one search.
pub const SEARCH_LIMIT: usize = 50;

/// One user in the answer to a search.
#[derive(Debug, Clone)]
pub struct SearchHit {
    pub id: u128,
    pub code: String,
    pub username: String,
}

/// A hit as plain values: the id, the code and the username.
pub type HitView = (u128, Seq<char>, Seq<char>);

impl View for SearchHit {
    type V = HitView;

    open spec fn view(&self) -> HitView {
        (self.id, self.code@, self.username@)
    }
}

/// The hits of a list as plain values.
pub open spec fn hit_views(hits: Seq<SearchHit>) -> Seq<HitView> {
    hits.map_values(|hit: SearchHit| hit@)
}

/// The hit that shows the user filed under `id`.
pub open spec fn hit_of(id: u128, user: User) -> HitView {
    (id, encoded(id), user.username@)
}

/// Whether a username answers a query: the query stands somewhere in the
/// name, both taken in lower case.
pub open spec fn name_matches(username: Seq<char>, query: Seq<char>) -> bool {
    occurs_in(lowercase(query), lowercase(username))
}

/// The first [`SEARCH_LIMIT`] of `hits`, or all of them if they are fewer.
pub open spec fn capped(hits: Seq<HitView>) -> Seq<HitView> {
    if hits.len() <= SEARCH_LIMIT {
        hits
    } else {
        hits.take(SEARCH_LIMIT as int)
    }
}

/// The entries whose usernames answer the query, in the order of the entries.
pub open spec fn name_hits(entries: Seq<(u128, User)>, query: Seq<char>) -> Seq<HitView> {
    entries.filter(|entry: (u128, User)| name_matches(entry.1.username@, query)).map_values(
        |entry: (u128, User)| hit_of(entry.0, entry.1),
    )
}

/// A user made ready for a search by name: the id, the username, and the
/// username in lower case, which is what the search reads.
#[derive(Debug, Clone)]
pub struct Candidate {
    pub id: u128,
    pub username: String,
    pub lowered: String,
}

/// The hit that shows a candidate.
pub open spec fn shown(candidate: Candidate) -> HitView {
    (candidate.id, encoded(candidate.id), candidate.username@)
}

/// The candidates in whose lower-case names `needle` stands, in their order,
/// each as a hit.
pub open spec fn found_among(candidates: Seq<Candidate>, needle: Seq<char>) -> Seq<HitView> {
    candidates.filter(|candidate: Candidate| occurs_in(needle, candidate.lowered@)).map_values(
        |candidate: Candidate| shown(candidate),
    )
}

/// The candidates are the entries made ready: one for each entry, in the
/// order of the entries, with its id, its username and the lower case of it.
pub open spec fn made_ready(candidates: Seq<Candidate>, entries: Seq<(u128, User)>) -> bool {
    &&& candidates.len() == entries.len()
    &&& forall|i: int|
        0 <= i < candidates.len() ==> {
            &&& (#[trigger] candidates[i]).id == entries[i].0
            &&& candidates[i].username@ == entries[i].1.username@
            &&& candidates[i].lowered@ == lowercase(entries[i].1.username@)
        }
}

/// The test that a hit shows another user than the one filed under `id`.
pub open spec fn other_than(id: u128) -> spec_fn(HitView) -> bool {
    |hit: HitView| hit.0 != id
}

/// `hits` with `first` moved or put to the front: `first`, then every hit for
/// another id, in the order of `hits`.
pub open spec fn led_by(first: HitView, hits: Seq<HitView>) -> Seq<HitView> {
    seq![first] + hits.filter(other_than(first.0))
}

/// The answer to a query over a store whose entries come in the order
/// `entries`: the users found by name, capped, and in front of them the user
/// whose code the query is, if it is the code of a user.
pub open spec fn search_result(
    entries: Seq<(u128, User)>,
    users: Map<u128, User>,
    query: Seq<char>,
) -> Seq<HitView> {
    let by_name = capped(name_hits(entries, query));
    match decoded(query) {
        Some(id) => if users.contains_key(id) {
            led_by(hit_of(id, users[id]), by_name)
        } else {
            by_name
        },
        None => by_name,
    }
}

/// Reading one more entry adds its hit to the hits by name if its username
/// answers the query, and nothing otherwise.
pub proof fn lemma_name_hits_push(entries: Seq<(u128, User)>, entry: (u128, User), query: Seq<char>)
    ensures
        name_hits(entries.push(entry), query) == if name_matches(entry.1.username@, query) {
            name_hits(entries, query).push(hit_of(entry.0, entry.1))
        } else {
            name_hits(entries, query)
        },
{
    let answers = |entry: (u128, User)| name_matches(entry.1.username@, query);
    let shown = |entry: (u128, User)| hit_of(entry.0, entry.1);
    entries.lemma_filter_push(entry, answers);
    if name_matches(entry.1.username@, query) {
        assert(entries.filter(answers).push(entry).map_values(shown) =~= entries.filter(
            answers,
        ).map_values(shown).push(hit_of(entry.0, entry.1)));
    }
}

/// Every hit by name shows an entry whose username answers the query.
pub proof fn lemma_name_hits_answer(entries: Seq<(u128, User)>, query: Seq<char>, at: int)
    requires
        0 <= at < name_hits(entries, query).len(),
    ensures
        exists|i: int|
            0 <= i < entries.len() && name_matches((#[trigger] entries[i]).1.username@, query)
                && name_hits(entries, query)[at] == hit_of(entries[i].0, entries[i].1),
{
    let answers = |entry: (u128, User)| name_matches(entry.1.username@, query);
    let kept = entries.filter(answers);
    entries.lemma_filter_pred(answers, at);
    assert(kept.contains(kept[at]));
    entries.lemma_filter_contains_rev(answers, kept[at]);
    let i = choose|i: int| 0 <= i < entries.len() && entries[i] == kept[at];
    assert(name_matches(entries[i].1.username@, query));
}

/// Where the query is the short code of a user, that user leads the answer,
/// whether or not the name answers the query, and stands nowhere else in it.
pub proof fn lemma_code_leads(entries: Seq<(u128, User)>, users: Map<u128, User>, query: Seq<char>)
    requires
        decoded(query) matches Some(id) && users.contains_key(id),
    ensures
        search_result(entries, users, query).len() >= 1,
        search_result(entries, users, query)[0] == hit_of(
            decoded(query)->0,
            users[decoded(query)->0],
        ),
        forall|at: int|
            1 <= at < search_result(entries, users, query).len() ==> (#[trigger] search_result(
                entries,
                users,
                query,
            )[at]).0 != decoded(query)->0,
{
    let id = decoded(query)->0;
    let by_name = capped(name_hits(entries, query));
    let others = by_name.filter(other_than(id));
    assert forall|at: int| 1 <= at < search_result(entries, users, query).len() implies (
    #[trigger] search_result(entries, users, query)[at]).0 != id by {
        by_name.lemma_filter_pred(other_than(id), at - 1);
    }
}

/// Nobody else is in the answer: each hit shows a user whose name answers the
/// query, but for a first hit that shows the user whose short code the query
/// is.
pub proof fn lemma_hits_answer(
    entries: Seq<(u128, User)>,
    users: Map<u128, User>,
    query: Seq<char>,
    at: int,
)
    requires
        0 <= at < search_result(entries, users, query).len(),
    ensures
        ({
            let hit = search_result(entries, users, query)[at];
            ||| at == 0 && decoded(query) == Some(hit.0) && users.contains_key(hit.0) && hit
                == hit_of(hit.0, users[hit.0])
            ||| exists|i: int|
                0 <= i < entries.len() && name_matches((#[trigger] entries[i]).1.username@, query)
                    && hit == hit_of(entries[i].0, entries[i].1)
        }),
{
    let found = name_hits(entries, query);
    let by_name = capped(found);
    let hit = search_result(entries, users, query)[at];
    let led = decoded(query) is Some && users.contains_key(decoded(query)->0);
    if !(led && at == 0) {
        if led {
            let others = by_name.filter(other_than(decoded(query)->0));
            assert(hit == others[at - 1]);
            assert(others.contains(hit));
            by_name.lemma_filter_contains_rev(other_than(decoded(query)->0), hit);
        } else {
            assert(by_name.contains(hit));
        }
        let k = choose|k: int| 0 <= k < by_name.len() && by_name[k] == hit;
        assert(found[k] == hit);
        lemma_name_hits_answer(entries, query, k);
    }
}

/// The entries are entries of the store: each id is in use, by the user that
/// the entry carries.
pub open spec fn lists_users(entries: Seq<(u128, User)>, users: Map<u128, User>) -> bool {
    forall|i: int|
        0 <= i < entries.len() ==> users.contains_key((#[trigger] entries[i]).0) && users[entries[i].0]
            == entries[i].1
}

/// Each hit shows a user of the store as the store holds them: under the id
/// of the hit, with the short code of that id and the username on file.
pub proof fn lemma_hits_are_users(
    entries: Seq<(u128, User)>,
    users: Map<u128, User>,
    query: Seq<char>,
    at: int,
)
    requires
        lists_users(entries, users),
        0 <= at < search_result(entries, users, query).len(),
    ensures
        ({
            let hit = search_result(entries, users, query)[at];
            users.contains_key(hit.0) && hit == hit_of(hit.0, users[hit.0])
        }),
{
    lemma_hits_answer(entries, users, query, at);
}

/// Where no more than [`SEARCH_LIMIT`] usernames answer the query, nobody is
/// left out: every user whose name answers it is in the answer.
pub proof fn lemma_all_found(
    entries: Seq<(u128, User)>,
    users: Map<u128, User>,
    query: Seq<char>,
    at: int,
)
    requires
        lists_users(entries, users),
        name_hits(entries, query).len() <= SEARCH_LIMIT,
        0 <= at < entries.len(),
        name_matches(entries[at].1.username@, query),
    ensures
        search_result(entries, users, query).contains(hit_of(entries[at].0, entries[at].1)),
{
    let answers = |entry: (u128, User)| name_matches(entry.1.username@, query);
    let kept = entries.filter(answers);
    let by_name = name_hits(entries, query);
    let hit = hit_of(entries[at].0, entries[at].1);
    let answer = search_result(entries, users, query);
    entries.lemma_filter_contains(answers, at);
    let k = choose|k: int| 0 <= k < kept.len() && kept[k] == entries[at];
    assert(by_name[k] == hit);
    if decoded(query) is Some && users.contains_key(decoded(query)->0) {
        let id = decoded(query)->0;
        if entries[at].0 == id {
            assert(answer[0] == hit);
        } else {
            let others = by_name.filter(other_than(id));
            by_name.lemma_filter_contains(other_than(id), k);
            let j = choose|j: int| 0 <= j < others.len() && others[j] == hit;
            assert(answer[j + 1] == hit);
        }
    } else {
        assert(answer[k] == hit);
    }
}

/// An answer has at most [`SEARCH_LIMIT`] hits by name, and one more where
/// the query is the short code of a user.
pub proof fn lemma_search_len(entries: Seq<(u128, User)>, users: Map<u128, User>, query: Seq<char>)
    ensures
        search_result(entries, users, query).len() <= SEARCH_LIMIT + 1,
        !(decoded(query) matches Some(id) && users.contains_key(id)) ==> search_result(
            entries,
            users,
            query,
        ).len() <= SEARCH_LIMIT,
{
    let by_name = capped(name_hits(entries, query));
    if decoded(query) is Some {
        by_name.lemma_filter_len(other_than(decoded(query)->0));
    }
}

/// Reading one more candidate adds its hit to those found if `needle` stands
/// in its lower-case name, and nothing otherwise.
pub proof fn lemma_found_among_push(candidates: Seq<Candidate>, candidate: Candidate, needle: Seq<char>)
    ensures
        found_among(candidates.push(candidate), needle) == if occurs_in(needle, candidate.lowered@) {
            found_among(candidates, needle).push(shown(candidate))
        } else {
            found_among(candidates, needle)
        },
{
    let holds = |candidate: Candidate| occurs_in(needle, candidate.lowered@);
    let show = |candidate: Candidate| shown(candidate);
    candidates.lemma_filter_push(candidate, holds);
    if occurs_in(needle, candidate.lowered@) {
        assert(candidates.filter(holds).push(candidate).map_values(show) =~= candidates.filter(
            holds,
        ).map_values(show).push(shown(candidate)));
    }
}

/// What is found among the entries made ready, with the query in lower case
/// for a needle, are the hits by name.
pub proof fn lemma_found_among_ready(
    candidates: Seq<Candidate>,
    entries: Seq<(u128, User)>,
    query: Seq<char>,
)
    requires
        made_ready(candidates, entries),
    ensures
        found_among(candidates, lowercase(query)) == name_hits(entries, query),
    decreases entries.len(),
{
    if entries.len() == 0 {
        assert(found_among(candidates, lowercase(query)) =~= name_hits(entries, query));
    } else {
        let front = entries.drop_last();
        let ready = candidates.drop_last();
        assert(made_ready(ready, front)) by {
            assert forall|i: int| 0 <= i < ready.len() implies {
                &&& (#[trigger] ready[i]).id == front[i].0
                &&& ready[i].username@ == front[i].1.username@
                &&& ready[i].lowered@ == lowercase(front[i].1.username@)
            } by {
                assert(ready[i] == candidates[i]);
            }
        }
        lemma_found_among_ready(ready, front, query);
        assert(candidates =~= ready.push(candidates.last()));
        assert(entries =~= front.push(entries.last()));
        assert(candidates.last() == candidates[candidates.len() - 1]);
        lemma_found_among_push(ready, candidates.last(), lowercase(query));
        lemma_name_hits_push(front, entries.last(), query);
    }
}

/// The candidates in whose lower-case names `needle` stands, in their order,
/// up to [`SEARCH_LIMIT`] of them. The texts are compared as they stand:
/// putting the needle in lower case, as the names are, is the caller's part.
pub fn find_by_name(candidates: &Vec<Candidate>, needle: &str) -> (hits: Vec<SearchHit>)
    ensures
        hit_views(hits@) == capped(found_among(candidates@, needle@)),
{
    let mut hits: Vec<SearchHit> = Vec::new();
    let mut at: usize = 0;
    while at < candidates.len() && hits.len() < SEARCH_LIMIT
        invariant
            at <= candidates.len(),
            hits.len() <= SEARCH_LIMIT,
            hit_views(hits@) == capped(found_among(candidates@.take(at as int), needle@)),
            hits.len() < SEARCH_LIMIT ==> hit_views(hits@) == found_among(
                candidates@.take(at as int),
                needle@,
            ),
        decreases candidates.len() - at,
    {
        proof {
            let seen = candidates@.take(at as int);
            assert(candidates@.take(at + 1) =~= seen.push(candidates@[at as int]));
            lemma_found_among_push(seen, candidates@[at as int], needle@);
        }
        if contains_text(candidates[at].lowered.as_str(), needle) {
            let ghost before = hits@;
            let hit = SearchHit {
                id: candidates[at].id,
                code: encode(candidates[at].id),
                username: candidates[at].username.clone(),
            };
            hits.push(hit);
            proof {
                assert(hit_views(hits@) =~= hit_views(before).push(hit@));
            }
        }
        at = at + 1;
    }
    proof {
        lemma_capped_grows(candidates@, needle@, at as int);
    }
    hits
}

/// Once [`SEARCH_LIMIT`] hits are found among the first `at` candidates, the
/// capped answer is settled: the rest of the candidates adds nothing to it.
pub proof fn lemma_capped_grows(candidates: Seq<Candidate>, needle: Seq<char>, at: int)
    requires
        0 <= at <= candidates.len(),
        at < candidates.len() ==> found_among(candidates.take(at), needle).len() >= SEARCH_LIMIT,
    ensures
        capped(found_among(candidates.take(at), needle)) == capped(found_among(candidates, needle)),
    decreases candidates.len() - at,
{
    if at < candidates.len() {
        let seen = candidates.take(at);
        let found = found_among(seen, needle);
        assert(candidates.take(at + 1) =~= seen.push(candidates[at]));
        lemma_found_among_push(seen, candidates[at], needle);
        let more = found_among(candidates.take(at + 1), needle);
        assert(capped(more) =~= capped(found));
        lemma_capped_grows(candidates, needle, at + 1);
    } else {
        assert(candidates.take(at) =~= candidates);
    }
}

/// The users found by name alone: those whose usernames answer the query, in
/// the order in which the store hands out its entries, up to
/// [`SEARCH_LIMIT`] of them. Every username and the query are put in lower
/// case, and [`find_by_name`] does the rest.
pub fn search_names(account_handler: &AccountHandler, query: &str) -> (hits: Vec<SearchHit>)
    ensures
        hit_views(hits@) == capped(
            name_hits(account_handler.users.iter().remaining().unref(), query@),
        ),
{
    let needle = query.to_lowercase();
    let mut candidates: Vec<Candidate> = Vec::new();
    let ghost order = account_handler.users.iter().remaining().unref();
    for (id, user) in walk: account_handler.users.iter()
        invariant
            walk.seq().unref() == order,
            made_ready(candidates@, order.take(walk.index())),
        ensures
            made_ready(candidates@, order.take(order.len() as int)),
    {
        let ghost before = candidates@;
        let candidate = Candidate {
            id: *id,
            username: user.username.clone(),
            lowered: user.username.to_lowercase(),
        };
        candidates.push(candidate);
        proof {
            let seen = order.take(walk.index());
            let longer = order.take(walk.index() + 1);
            assert(longer =~= seen.push((*id, *user)));
            assert forall|i: int| 0 <= i < candidates.len() implies {
                &&& (#[trigger] candidates@[i]).id == longer[i].0
                &&& candidates@[i].username@ == longer[i].1.username@
                &&& candidates@[i].lowered@ == lowercase(longer[i].1.username@)
            } by {
                if i < before.len() {
                    assert(candidates@[i] == before[i]);
                    assert(longer[i] == seen[i]);
                }
            }
        }
    }
    proof {
        assert(order.take(order.len() as int) =~= order);
        lemma_found_among_ready(candidates@, order, query@);
    }
    find_by_name(&candidates, needle.as_str())
}

/// Moves or puts `first` to the front of `hits`: the answer starts with
/// `first`, and the hits for other ids follow in their order.
pub fn lead_with(first: SearchHit, hits: &Vec<SearchHit>) -> (led: Vec<SearchHit>)
    ensures
        hit_views(led@) == led_by(first@, hit_views(hits@)),
{
    let ghost others = other_than(first.id);
    let id = first.id;
    let mut led: Vec<SearchHit> = Vec::new();
    led.push(first);
    proof {
        assert(hit_views(hits@).take(0).filter(others) =~= Seq::<HitView>::empty());
        assert(hit_views(led@) =~= seq![first@] + hit_views(hits@).take(0).filter(others));
    }
    let mut at: usize = 0;
    while at < hits.len()
        invariant
            at <= hits.len(),
            others == other_than(first.id),
            id == first.id,
            hit_views(led@) == seq![first@] + hit_views(hits@).take(at as int).filter(others),
        decreases hits.len() - at,
    {
        let ghost before = led@;
        let ghost seen = hit_views(hits@).take(at as int);
        proof {
            assert(hit_views(hits@).take(at + 1) =~= seen.push(hits@[at as int]@));
            seen.lemma_filter_push(hits@[at as int]@, others);
        }
        if hits[at].id != id {
            let hit = SearchHit {
                id: hits[at].id,
                code: hits[at].code.clone(),
                username: hits[at].username.clone(),
            };
            led.push(hit);
            proof {
                assert(hit_views(led@) =~= hit_views(before).push(hit@));
                assert(hit_views(before).push(hit@) =~= seq![first@] + seen.filter(others).push(
                    hit@,
                ));
            }
        }
        at = at + 1;
    }
    proof {
        assert(hit_views(hits@).take(hits.len() as int) =~= hit_views(hits@));
    }
    led
}

/// Answers a query.
///
/// Every user whose username holds the query, case aside, is found, in the
/// order in which the store hands out its entries, up to [`SEARCH_LIMIT`]
/// users. If the query is also the short code of a user, that user leads the
/// answer: moved to the front if found by name as well, put in front of the
/// others, beyond the limit, if not.
pub fn search(account_handler: &AccountHandler, query: &str) -> (hits: Vec<SearchHit>)
    ensures
        hit_views(hits@) == search_result(
            account_handler.users.iter().remaining().unref(),
            account_handler@,
            query@,
        ),
        forall|at: int|
            0 <= at < hits.len() ==> account_handler@.contains_key((#[trigger] hits[at]).id)
                && hits[at]@ == hit_of(hits[at].id, account_handler@[hits[at].id]),
{
    let by_name = search_names(account_handler, query);
    let hits = match decode(query) {
        Some(id) => match account_handler.users.get(&id) {
            Some(user) => {
                let first = SearchHit { id, code: encode(id), username: user.username.clone() };
                lead_with(first, &by_name)
            },
            None => by_name,
        },
        None => by_name,
    };
    proof {
        let order = account_handler.users.iter().remaining();
        assert forall|i: int| 0 <= i < order.unref().len() implies account_handler@.contains_key(
            (#[trigger] order.unref()[i]).0,
        ) && account_handler@[order.unref()[i].0] == order.unref()[i].1 by {
            assert(account_handler@.contains_key(*order[i].0));
        }
        assert forall|at: int| 0 <= at < hits.len() implies account_handler@.contains_key(
            (#[trigger] hits[at]).id,
        ) && hits[at]@ == hit_of(hits[at].id, account_handler@[hits[at].id]) by {
            lemma_hits_are_users(order.unref(), account_handler@, query@, at);
            assert(hit_views(hits@)[at] == hits[at]@);
        }
    }
    hits
}

/// Answers a query for a user who logs in with `login`. Only after a login
/// that succeeds is the store searched, see [`search`]; any other outcome of
/// the login comes back in place of an answer.
pub fn search_as(account_handler: &AccountHandler, login: &LoginInformation, query: &str) -> (answer:
    Result<Vec<SearchHit>, LoginResult>)
    ensures
        ({
            let outcome = login_outcome(
                account_handler@,
                first_named(account_handler.users.iter().remaining().unref(), login.username@),
                login.password@,
            );
            match answer {
                Ok(hits) => outcome is Success && hit_views(hits@) == search_result(
                    account_handler.users.iter().remaining().unref(),
                    account_handler@,
                    query@,
                ),
                Err(refusal) => !(outcome is Success) && refusal == outcome,
            }
        }),
{
    match login.login(account_handler) {
        LoginResult::Success(_) => Ok(search(account_handler, query)),
        refusal => Err(refusal),
    }
}

/// The short code of the user who logs in with `login`, or the outcome of the
/// login where it does not succeed.
pub fn get_code(account_handler: &AccountHandler, login: &LoginInformation) -> (answer: Result<
    String,
    LoginResult,
>)
    ensures
        ({
            let outcome = login_outcome(
                account_handler@,
                first_named(account_handler.users.iter().remaining().unref(), login.username@),
                login.password@,
            );
            match answer {
                Ok(code) => outcome matches LoginResult::Success(id) && code@ == encoded(id),
                Err(refusal) => !(outcome is Success) && refusal == outcome,
            }
        }),
{
    match login.login(account_handler) {
        LoginResult::Success(id) => Ok(encode(id)),
        refusal => Err(refusal),
    }
}

} // verus!
