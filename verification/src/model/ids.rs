//! Identifiers and errors of the graph library.

use higher_graphen_core::{CoreError, Id};
use vstd::prelude::*;

use crate::lines::trimmed;
use crate::model::store::valid_id;
use crate::text::debug_text;

verus! {

/// An error of the graph library.
#[verifier::external_type_specification]
#[verifier::external_body]
pub struct ExCoreError(CoreError);

/// What an error says.
pub uninterp spec fn error_message(e: CoreError) -> Seq<char>;

/// `CoreError`'s text.
#[verifier::external_body]
pub(crate) fn message_of(e: &CoreError) -> (r: String)
    ensures
        r@ == error_message(*e),
{
    e.to_string()
}

/// Why a text is no identifier.
pub open spec fn id_error(value: Seq<char>) -> Seq<char> {
    "invalid_id: invalid id "@ + debug_text(value) + ": "@ + if trimmed(value).len() == 0 {
        "identifier must not be empty after trimming"@
    } else {
        "identifier must not contain control characters"@
    }
}

/// `Id::new`: an identifier is a text that is not blank and holds no control
/// character, without the white space at its ends. The error says which of
/// the two is wrong.
#[verifier::external_body]
pub(crate) fn new_id(value: &str) -> (r: Result<String, String>)
    ensures
        r.is_ok() == valid_id(value@),
        match r {
            Ok(id) => id@ == trimmed(value@),
            Err(e) => e@ == id_error(value@),
        },
{
    match Id::new(value) {
        Ok(id) => Ok(id.into_string()),
        Err(e) => Err(e.to_string()),
    }
}

} // verus!
