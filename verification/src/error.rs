//! Error kinds of the collection's operations.

use vstd::prelude::*;

verus! {

/// An error of a collection operation: an identifier out of range, or a
/// priority token that is none of `low`, `medium`, `high` (case-insensitive).
#[derive(Clone, Copy, Debug, PartialEq, Eq, Structural)]
pub enum TodoError {
    InvalidTaskId,
    InvalidPriority,
}

impl TodoError {
    /// A one-line user-facing message for this error.
    pub fn message(&self) -> (r: String)
        ensures
            *self is InvalidTaskId ==> r@ == "Invalid task ID"@,
            *self is InvalidPriority ==> r@
                == "Invalid priority level. Use 'low', 'medium', or 'high'"@,
    {
        match self {
            TodoError::InvalidTaskId => String::from_str("Invalid task ID"),
            TodoError::InvalidPriority => String::from_str(
                "Invalid priority level. Use 'low', 'medium', or 'high'",
            ),
        }
    }
}

} // verus!
