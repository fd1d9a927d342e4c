//! The login form: credentials as they arrive, a JSON object in raw bytes.

use crate::document::Field;
use crate::document::FieldMap;
use crate::document::fields_in;
use crate::document::lists_fields;
use crate::document::parse_fields;
use crate::user::LoginInfoParseError;
use crate::user::LoginInformation;
use vstd::prelude::*;

verus! {

/// The text whose characters have the values of the bytes, one for one.
pub open spec fn byte_chars(bytes: Seq<u8>) -> Seq<char> {
    bytes.map_values(|byte: u8| byte as char)
}

/// The value of the first field called `name`.
pub open spec fn first_value(fields: Seq<Field>, name: Seq<char>) -> Option<Seq<char>>
    decreases fields.len(),
{
    if fields.len() == 0 {
        None
    } else if fields[0].0@ == name {
        Some(fields[0].1@)
    } else {
        first_value(fields.drop_first(), name)
    }
}

/// The value that a form read as `map` gives for `name`.
pub open spec fn value_in(map: FieldMap, name: Seq<char>) -> Option<Seq<char>> {
    if map.contains_key(name) {
        Some(map[name])
    } else {
        None
    }
}

/// The credentials that the two values make, if both are there: the username
/// and the password as plain values.
pub open spec fn credentials_of(
    username: Option<Seq<char>>,
    password: Option<Seq<char>>,
) -> Result<(Seq<char>, Seq<char>), LoginInfoParseError> {
    match (username, password) {
        (Some(username), Some(password)) => Ok((username, password)),
        _ => Err(LoginInfoParseError::ParsingError),
    }
}

/// The credentials in the bytes of a login form: a JSON object of strings
/// with a username and a password. Each byte is taken as one character.
pub open spec fn form_credentials(data: Seq<u8>) -> Result<
    (Seq<char>, Seq<char>),
    LoginInfoParseError,
> {
    if data.len() == 0 {
        Err(LoginInfoParseError::Empty)
    } else {
        match fields_in(byte_chars(data)) {
            Some(map) => credentials_of(value_in(map, "username"@), value_in(map, "password"@)),
            None => Err(LoginInfoParseError::ParsingError),
        }
    }
}

/// `parsed` is what `expected` asks for: the same credentials, text for
/// text, or the same error.
pub open spec fn reads_as(
    parsed: Result<LoginInformation, LoginInfoParseError>,
    expected: Result<(Seq<char>, Seq<char>), LoginInfoParseError>,
) -> bool {
    match parsed {
        Ok(info) => expected == Ok::<(Seq<char>, Seq<char>), LoginInfoParseError>(
            (info.username@, info.password@),
        ),
        Err(error) => expected == Err::<(Seq<char>, Seq<char>), LoginInfoParseError>(error),
    }
}

/// The value of the first field called `name`, if there is one.
fn field_value(fields: &Vec<Field>, name: &str) -> (value: Option<String>)
    ensures
        match value {
            Some(text) => first_value(fields@, name@) == Some(text@),
            None => first_value(fields@, name@) is None,
        },
{
    let wanted = name.to_owned();
    let mut at: usize = 0;
    while at < fields.len()
        invariant
            at <= fields.len(),
            wanted@ == name@,
            forall|i: int| 0 <= i < at ==> (#[trigger] fields@[i]).0@ != name@,
        decreases fields.len() - at,
    {
        if fields[at].0 == wanted {
            proof {
                lemma_first_value_at(fields@, name@, at as int);
            }
            return Some(fields[at].1.clone());
        }
        at = at + 1;
    }
    proof {
        lemma_first_value_at(fields@, name@, at as int);
    }
    None
}

impl LoginInformation {
    /// The credentials among the fields of a login form: the value of the
    /// field `username` and that of the field `password`. A form that lacks
    /// one of them gives `ParsingError`.
    pub fn from_fields(fields: &Vec<Field>) -> (parsed: Result<
        LoginInformation,
        LoginInfoParseError,
    >)
        ensures
            reads_as(
                parsed,
                credentials_of(
                    first_value(fields@, "username"@),
                    first_value(fields@, "password"@),
                ),
            ),
    {
        match field_value(fields, "username") {
            Some(username) => match field_value(fields, "password") {
                Some(password) => Ok(LoginInformation { username, password }),
                None => Err(LoginInfoParseError::ParsingError),
            },
            None => Err(LoginInfoParseError::ParsingError),
        }
    }

    /// Reads the credentials from the bytes of a login form.
    ///
    /// No bytes at all give `Empty`. Otherwise each byte is taken as one
    /// character, and the text must be a JSON object of strings with a
    /// username and a password: these are the credentials. Any other text
    /// gives `ParsingError`.
    pub fn from_data(data: &[u8]) -> (parsed: Result<LoginInformation, LoginInfoParseError>)
        ensures
            reads_as(parsed, form_credentials(data@)),
    {
        if data.len() == 0 {
            return Err(LoginInfoParseError::Empty);
        }
        let mut text = String::new();
        let mut at: usize = 0;
        while at < data.len()
            invariant
                at <= data.len(),
                text@ == byte_chars(data@.take(at as int)),
            decreases data.len() - at,
        {
            text.push(data[at] as char);
            proof {
                assert(byte_chars(data@.take(at + 1)) =~= byte_chars(data@.take(at as int)).push(
                    data@[at as int] as char,
                ));
            }
            at = at + 1;
        }
        proof {
            assert(data@.take(data.len() as int) =~= data@);
        }
        match parse_fields(text.as_str()) {
            Ok(fields) => {
                proof {
                    let map = fields_in(text@)->0;
                    lemma_first_value_listed(fields@, map, "username"@);
                    lemma_first_value_listed(fields@, map, "password"@);
                }
                LoginInformation::from_fields(&fields)
            },
            Err(_) => Err(LoginInfoParseError::ParsingError),
        }
    }
}

/// Where no field before position `at` is called `name`, the search for the
/// name is decided at `at`: by the field there if it is called `name`, by the
/// end of the fields if `at` is the end.
pub proof fn lemma_first_value_at(fields: Seq<Field>, name: Seq<char>, at: int)
    requires
        0 <= at <= fields.len(),
        forall|i: int| 0 <= i < at ==> (#[trigger] fields[i]).0@ != name,
    ensures
        at == fields.len() ==> first_value(fields, name) is None,
        at < fields.len() && fields[at].0@ == name ==> first_value(fields, name) == Some(
            fields[at].1@,
        ),
    decreases at,
{
    if at > 0 {
        let rest = fields.drop_first();
        assert(fields[0].0@ != name);
        assert forall|i: int| 0 <= i < at - 1 implies (#[trigger] rest[i]).0@ != name by {
            assert(rest[i] == fields[i + 1]);
        }
        lemma_first_value_at(rest, name, at - 1);
        if at < fields.len() {
            assert(rest[at - 1] == fields[at]);
        }
    }
}

/// In a list of the fields of a form, the first field of a name carries the
/// value that the form gives for the name.
pub proof fn lemma_first_value_listed(fields: Seq<Field>, map: FieldMap, name: Seq<char>)
    requires
        lists_fields(fields, map),
    ensures
        first_value(fields, name) == value_in(map, name),
{
    if exists|i: int| 0 <= i < fields.len() && (#[trigger] fields[i]).0@ == name {
        let i = choose|i: int| 0 <= i < fields.len() && (#[trigger] fields[i]).0@ == name;
        assert forall|j: int| 0 <= j < i implies (#[trigger] fields[j]).0@ != name by {}
        lemma_first_value_at(fields, name, i);
        assert(map.contains_key(fields[i].0@));
    } else {
        lemma_first_value_at(fields, name, fields.len() as int);
    }
}

} // verus!
