//! An error report with a status code, as handed to callers over the wire.
use vstd::prelude::*;

verus! {

/// An error with a numeric code and a message.
#[derive(Debug)]
pub struct ErrorMessage {
    pub code: u16,
    pub message: String,
}

impl ErrorMessage {
    /// The message text.
    pub fn description(&self) -> (r: &str)
        ensures
            r@ == self.message@,
    {
        self.message.as_str()
    }
}

} // verus!
