//! The error that a command ends with: a message and the process exit code.
use vstd::prelude::*;

verus! {

pub struct CliError {
    pub message: String,
    pub code: i32,
}

impl CliError {
    pub fn new(message: &str, code: i32) -> (r: CliError)
        ensures
            r.message@ == message@,
            r.code == code,
    {
        CliError { message: message.to_owned(), code }
    }

    /// The text shown to the user: `Error! {message}`.
    pub fn to_string(&self) -> (r: String)
        ensures
            r@ == "Error! "@ + self.message@,
    {
        crate::text::concat("Error! ", self.message.as_str())
    }

    pub fn message(&self) -> (r: &str)
        ensures
            r@ == self.message@,
    {
        self.message.as_str()
    }
}

} // verus!
