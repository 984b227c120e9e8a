//! The error type of the history server.

use vstd::prelude::*;

verus! {

/// The error of the history server: a description of what went wrong.
#[derive(Clone, Debug)]
pub struct QuakeError {
    description: String,
}

impl QuakeError {
    pub closed spec fn spec_description(&self) -> Seq<char> {
        self.description@
    }

    pub fn new(description: String) -> (e: QuakeError)
        ensures
            e.spec_description() == description@,
    {
        QuakeError { description }
    }

    pub fn description(&self) -> (d: &str)
        ensures
            d@ == self.spec_description(),
    {
        self.description.as_str()
    }

    /// The text the error shows: `"Quake error: "` and the description.
    pub fn message(&self) -> (m: String)
        ensures
            m@ == "Quake error: "@ + self.spec_description(),
    {
        let mut m = String::from_str("Quake error: ");
        m.append(self.description.as_str());
        m
    }

    /// The error for a failed read or write, given the text of the I/O error.
    pub fn from_io_error(error_text: &str) -> (e: QuakeError)
        ensures
            e.spec_description() == "IO error occurred! "@ + error_text@,
    {
        let mut d = String::from_str("IO error occurred! ");
        d.append(error_text);
        QuakeError { description: d }
    }

    /// The error for a failed request, an unreadable body or a body that is
    /// not UTF-8, given the error's text.
    pub fn from_client_error(error_text: &str) -> (e: QuakeError)
        ensures
            e.spec_description() == "Client error occurred! "@ + error_text@,
    {
        let mut d = String::from_str("Client error occurred! ");
        d.append(error_text);
        QuakeError { description: d }
    }
}

} // verus!
