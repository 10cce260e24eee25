use vstd::prelude::*;

verus! {

/// The single error type of the library: a fatal condition found while
/// assembling or running a program, carrying a human-readable message.
/// Every failure is deterministic, so no variant is ever retried.
#[derive(Debug)]
pub struct EmulatorError {
    message: String,
}

impl View for EmulatorError {
    type V = Seq<char>;

    closed spec fn view(&self) -> Seq<char> {
        self.message@
    }
}

impl EmulatorError {
    /// Wraps a message into an error value.
    pub fn new(message: &str) -> (res: Self)
        ensures
            res@ == message@,
    {
        Self { message: message.to_owned() }
    }

    /// The message the error was raised with.
    pub fn message(&self) -> (res: &str)
        ensures
            res@ == self@,
    {
        self.message.as_str()
    }
}

} // verus!
