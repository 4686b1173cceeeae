//! The library's error: a message for the person at the terminal.

use vstd::prelude::*;

verus! {

/// A failure, told by its message.
pub struct Error {
    pub message: String,
}

impl View for Error {
    type V = Seq<char>;

    open spec fn view(&self) -> Seq<char> {
        self.message@
    }
}

/// A result with its error taken by the message.
pub open spec fn told<T>(r: Result<T, Error>) -> Result<T, Seq<char>> {
    match r {
        Ok(v) => Ok(v),
        Err(e) => Err(e@),
    }
}

/// A result that hands out a text, taken by that text and its error's message.
pub open spec fn told_text(r: Result<String, Error>) -> Result<Seq<char>, Seq<char>> {
    match r {
        Ok(v) => Ok(v@),
        Err(e) => Err(e@),
    }
}

/// What was being done, followed by what went wrong with it.
pub open spec fn in_context(what: Seq<char>, cause: Seq<char>) -> Seq<char> {
    what + ": "@ + cause
}

impl Error {
    /// The error with the given message.
    pub fn new(message: String) -> (r: Error)
        ensures
            r@ == message@,
    {
        Error { message }
    }

    /// The error with a fixed message.
    pub fn saying(message: &str) -> (r: Error)
        ensures
            r@ == message@,
    {
        Error { message: message.to_owned() }
    }

    /// The same failure, with what was being done in front.
    pub fn context(self, what: &str) -> (r: Error)
        ensures
            r@ == in_context(what@, self@),
    {
        let mut m = what.to_owned();
        m.append(": ");
        m.append(self.message.as_str());
        Error { message: m }
    }
}

impl Clone for Error {
    fn clone(&self) -> (r: Self)
        ensures
            r@ == self@,
    {
        Error { message: self.message.clone() }
    }
}

} // verus!
