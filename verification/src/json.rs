//! What is taken for granted of `serde_json`'s error type.

use vstd::prelude::*;

verus! {

/// `serde_json::Error`, of which only the position is ever asked.
#[verifier::external_type_specification]
#[verifier::external_body]
pub struct ExJsonError(serde_json::Error);

/// `serde_json::Error::line` gives the line at which an error was found.
/// Nothing is claimed of the number.
pub assume_specification[ serde_json::Error::line ](error: &serde_json::Error) -> (line: usize)
;

/// `serde_json::Error::column` gives the column at which an error was found.
/// Nothing is claimed of the number.
pub assume_specification[ serde_json::Error::column ](error: &serde_json::Error) -> (column: usize)
;

} // verus!
