//! The uniform envelope in which operations report to the user interface.
use vstd::prelude::*;
use crate::error::KanbanError;

verus! {

/// Whether an operation succeeded, its data when it did, and the error's
/// message when it did not.
#[derive(Debug)]
pub struct CommandResult<T> {
    pub success: bool,
    pub data: Option<T>,
    pub message: Option<String>,
}

impl<T> CommandResult<T> {
    /// The envelope of an operation's outcome.
    pub fn from_result(result: Result<T, KanbanError>) -> (r: CommandResult<T>)
        ensures
            match result {
                Ok(v) => r.success && r.data == Some(v) && r.message is None,
                Err(e) => !r.success && r.data is None && (r.message matches Some(m) && m@
                    == e.message@),
            },
    {
        match result {
            Ok(v) => CommandResult { success: true, data: Some(v), message: None },
            Err(e) => CommandResult { success: false, data: None, message: Some(e.message) },
        }
    }
}

} // verus!
