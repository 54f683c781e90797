use vstd::prelude::*;
use crate::digest::hex_digit;

verus! {

/// `c` is a lowercase hexadecimal digit.
pub open spec fn is_hex_lower(c: char) -> bool {
    exists|d: int| 0 <= d < 16 && hex_digit(d) == c
}

/// `s` is a random (version 4, RFC 4122 variant) UUID in its hyphenated
/// lowercase form: 36 characters, hyphens at 8, 13, 18 and 23, the version
/// digit `4` at 14, and one of `8`, `9`, `a`, `b` at 19.
pub open spec fn is_uuid_v4_text(s: Seq<char>) -> bool {
    &&& s.len() == 36
    &&& forall|i: int|
        0 <= i < 36 ==> if i == 8 || i == 13 || i == 18 || i == 23 {
            s[i] == '-'
        } else {
            is_hex_lower(#[trigger] s[i])
        }
    &&& s[14] == '4'
    &&& (s[19] == '8' || s[19] == '9' || s[19] == 'a' || s[19] == 'b')
}

/// `uuid::Uuid::new_v4`, written with `to_string`. The contract claims the
/// format that the crate's source gives a random UUID: the version and
/// variant bits are fixed and the text is hyphenated lowercase
/// hexadecimal. Which UUID comes out is chance and is left unsaid.
#[verifier::external_body]
fn new_session_id() -> (id: String)
    ensures
        is_uuid_v4_text(id@),
{
    uuid::Uuid::new_v4().to_string()
}

/// The session to use for a branch: the latest one recorded, or a new one.
pub enum SessionChoice {
    /// The branch already has this session.
    Existing(String),
    /// No session was recorded: this new one is to be recorded.
    Created(String),
}

impl SessionChoice {
    /// The identifier of the chosen session.
    pub fn id(&self) -> (id: &String)
        ensures
            id == match self {
                SessionChoice::Existing(s) => s,
                SessionChoice::Created(s) => s,
            },
    {
        match self {
            SessionChoice::Existing(s) => s,
            SessionChoice::Created(s) => s,
        }
    }

    /// Whether the session still has to be recorded.
    pub fn is_new(&self) -> (b: bool)
        ensures
            b == (self is Created),
    {
        match self {
            SessionChoice::Existing(_) => false,
            SessionChoice::Created(_) => true,
        }
    }
}

/// Reuses the latest session of the branch (`latest`) or makes a new one
/// with a fresh random identifier.
pub fn choose_session(latest: Option<String>) -> (c: SessionChoice)
    ensures
        match latest {
            Some(id) => c == SessionChoice::Existing(id),
            None => c matches SessionChoice::Created(id) && is_uuid_v4_text(id@),
        },
{
    match latest {
        Some(id) => SessionChoice::Existing(id),
        None => SessionChoice::Created(new_session_id()),
    }
}

/// The task of a session from its row: no row, or a row without a task,
/// gives no task.
pub fn active_task_from_row(row: Option<Option<String>>) -> (task: Option<String>)
    ensures
        task == match row {
            Some(t) => t,
            None => None,
        },
{
    match row {
        Some(t) => t,
        None => None,
    }
}

} // verus!
