//! The error type shared by every operation: a message and the class of the
//! failure.

use vstd::prelude::*;

verus! {

/// Malformed input.
pub const EXIT_USAGE: i32 = 2;

/// A referenced habit or debt does not exist.
pub const EXIT_NOT_FOUND: i32 = 3;

/// A selector matches more than one habit.
pub const EXIT_AMBIGUOUS: i32 = 4;

/// The store is unreadable, corrupted or locked.
pub const EXIT_IO: i32 = 5;

/// An error: what went wrong, and the class of the failure.
#[derive(Debug)]
pub struct CliError {
    pub message: String,
    pub exit_code: i32,
}

impl CliError {
    /// Malformed input.
    pub fn usage(message: &str) -> (e: Self)
        ensures
            e.message@ == message@,
            e.exit_code == EXIT_USAGE,
    {
        CliError { message: message.to_owned(), exit_code: EXIT_USAGE }
    }

    /// A referenced habit or debt does not exist.
    pub fn not_found(message: &str) -> (e: Self)
        ensures
            e.message@ == message@,
            e.exit_code == EXIT_NOT_FOUND,
    {
        CliError { message: message.to_owned(), exit_code: EXIT_NOT_FOUND }
    }

    /// A selector matches more than one habit.
    pub fn ambiguous(message: &str) -> (e: Self)
        ensures
            e.message@ == message@,
            e.exit_code == EXIT_AMBIGUOUS,
    {
        CliError { message: message.to_owned(), exit_code: EXIT_AMBIGUOUS }
    }

    /// The store is unreadable, corrupted or locked.
    pub fn io(message: &str) -> (e: Self)
        ensures
            e.message@ == message@,
            e.exit_code == EXIT_IO,
    {
        CliError { message: message.to_owned(), exit_code: EXIT_IO }
    }

    /// The message, as the text shown to the user.
    pub fn to_string(&self) -> (s: String)
        ensures
            s@ == self.message@,
    {
        self.message.clone()
    }

    /// Whether this is a usage error with exactly the given message.
    pub open spec fn is_usage(&self, message: Seq<char>) -> bool {
        self.exit_code == EXIT_USAGE && self.message@ == message
    }

    /// Whether this is a not-found error with exactly the given message.
    pub open spec fn is_not_found(&self, message: Seq<char>) -> bool {
        self.exit_code == EXIT_NOT_FOUND && self.message@ == message
    }
}

impl Clone for CliError {
    fn clone(&self) -> (r: Self)
        ensures
            r == *self,
    {
        CliError { message: self.message.clone(), exit_code: self.exit_code }
    }
}

} // verus!
