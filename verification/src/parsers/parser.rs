//! The error a block parser reports: the offending line and a message.

use vstd::prelude::*;

verus! {

/// A parse failure, carrying the line it happened on.
#[derive(Debug)]
pub struct ParseError {
    pub line: String,
    pub message: String,
}

impl ParseError {
    pub fn new(line: String, message: String) -> (r: Self)
        ensures
            r.line@ == line@,
            r.message@ == message@,
    {
        ParseError { line, message }
    }

    /// The failure rendered as one line.
    pub fn describe(&self) -> (r: String)
        ensures
            r@ == "Parse error in line '"@ + self.line@ + "': "@ + self.message@,
    {
        let mut m = String::new();
        m.append("Parse error in line '");
        m.append(self.line.as_str());
        m.append("': ");
        m.append(self.message.as_str());
        m
    }
}

} // verus!
