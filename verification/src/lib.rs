//! An account registry: users with unique names and numeric ids, the short
//! codes that stand for the ids, login and signup, and search by name or code.
//!
//! The store is [`account_handler::AccountHandler`]. [`user`] finds users and
//! picks ids, [`login`] checks and creates credentials, [`search`] answers
//! queries, and [`code`] writes ids as short codes and reads them back.
//! [`records`] and [`form`] turn the store and the login form into text and
//! back. What is taken on trust from outside the library stands in
//! [`random`], [`document`] and [`text`]; everything else is proved.

use vstd::prelude::*;

pub mod account_handler;
pub mod code;
pub mod document;
pub mod form;
pub mod login;
pub mod random;
pub mod records;
pub mod search;
pub mod text;
pub mod user;

verus! {

/// The text served at the root of the service.
pub open spec fn greeting() -> Seq<char> {
    "can you understand me?"@
}

/// Answers a request for the root with the fixed greeting.
pub fn index() -> (body: String)
    ensures
        body@ == greeting(),
{
    "can you understand me?".to_owned()
}

} // verus!
