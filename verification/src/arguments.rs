//! The boundary to `rusqlite` for the creation arguments of a table: each
//! argument is split into a key and a value by the host library's own
//! `vtab::parameter`. Its contract is taken on trust; nothing here is proved.
use vstd::prelude::*;
use rusqlite::Error;

verus! {

#[verifier::external_type_specification]
#[verifier::external_body]
pub struct ExError(Error);

/// What `rusqlite::vtab::parameter` makes of an argument: its key and its
/// value, or the message of its error where it rejects the argument.
pub uninterp spec fn lexed_parameter(argument: Seq<u8>) -> Result<
    (Seq<char>, Seq<char>),
    Seq<char>,
>;

/// Calls `rusqlite::vtab::parameter` and copies the key and the value that
/// it gives. The outcome is a function of the argument's bytes: the pair of
/// `lexed_parameter`, or an error whose `to_string` is its message.
#[verifier::external_body]
pub(crate) fn lex_parameter(argument: &Vec<u8>) -> (r: Result<(String, String), Error>)
    ensures
        match r {
            Ok((key, value)) => lexed_parameter(argument@) == Ok::<
                (Seq<char>, Seq<char>),
                Seq<char>,
            >((key@, value@)),
            Err(e) => lexed_parameter(argument@) matches Err(message) && forall|s: String|
                #[trigger] vstd::string::to_string_from_display_ensures::<Error>(&e, s) ==> s@
                    == message,
        },
{
    match rusqlite::vtab::parameter(argument.as_slice()) {
        Ok((key, value)) => Ok((key.to_owned(), value.into_owned())),
        Err(e) => Err(e),
    }
}

} // verus!
