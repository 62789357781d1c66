//! Line-tagged diagnostics.
use vstd::prelude::*;
use vstd::string::StringExecFns;
use crate::text::{decimal, decimal_string};

verus! {

/// A diagnostic as plain values: its line and the characters of its message.
pub struct ErrView {
    pub line: nat,
    pub message: Seq<char>,
}

/// A lexical or syntax error, tagged with its 1-based source line.
#[derive(Debug)]
pub struct LoxErr {
    pub line: usize,
    pub message: String,
}

impl View for LoxErr {
    type V = ErrView;

    open spec fn view(&self) -> ErrView {
        ErrView { line: self.line as nat, message: self.message@ }
    }
}

/// The rendering of a diagnostic: `[Line {line}] Error: {message}`.
pub open spec fn display_text(line: usize, message: Seq<char>) -> Seq<char> {
    "[Line "@ + decimal(line as nat) + "] Error: "@ + message
}

impl LoxErr {
    pub fn new(line: usize, message: String) -> (r: LoxErr)
        ensures
            r.line == line,
            r.message == message,
    {
        LoxErr { line, message }
    }

    /// The diagnostic as one line of text.
    pub fn display_message(&self) -> (r: String)
        ensures
            r@ == display_text(self.line, self.message@),
    {
        let mut r = String::from_str("[Line ");
        let n = decimal_string(self.line);
        r.append(n.as_str());
        r.append("] Error: ");
        r.append(self.message.as_str());
        r
    }
}

} // verus!
