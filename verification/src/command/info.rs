//! The sample `info` command: its wire form is the four-byte ASCII string
//! `info`, and its response is a raw passthrough of the block's output text.

use vstd::prelude::*;
use crate::command::TmuxCommand;

verus! {

/// The `info` command.
pub struct Cmd;

/// The receiver for an `info` command's output: a single text field holding
/// the block's raw output.
pub struct Response {
    pub content: String,
}

/// Builds a fresh `info` command.
pub fn new() -> (r: Box<Cmd>)
    ensures
        r.wire_spec() == "info"@,
{
    Box::new(Cmd {})
}

impl TmuxCommand for Cmd {
    type Out = Response;

    open spec fn wire_spec(&self) -> Seq<char> {
        "info"@
    }

    fn wire_format(&self) -> (r: &'static str) {
        "info"
    }

    fn build_response(&self) -> (r: Response) {
        Response::new()
    }
}

impl crate::command::Response for Response {
    open spec fn blank(&self) -> bool {
        self.content@ == Seq::<char>::empty()
    }

    open spec fn filled_with(&self, text: Seq<char>) -> bool {
        self.content@ == text
    }

    fn consume(&mut self, text: &String) {
        self.content = text.clone();
    }
}

impl Response {
    /// Builds an empty receiver.
    pub fn new() -> (r: Response)
        ensures
            r.content@ == Seq::<char>::empty(),
    {
        Response { content: String::new() }
    }

    /// The consumed output text.
    pub fn text(&self) -> (r: &String)
        ensures
            r@ == self.content@,
    {
        &self.content
    }
}

} // verus!
