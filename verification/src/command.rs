//! The command/response contract: the capability set every concrete command
//! satisfies, decoupling the dispatch and parsing machinery from specific
//! protocol operations. No I/O happens in this layer.

use vstd::prelude::*;

pub mod info;

verus! {

/// A mutable receiver for one command's decoded output block.
///
/// A response is created empty by the writer at dispatch time, populated
/// exactly once by the reader, then handed to the caller; it is never reused.
pub trait Response: Sized {
    /// True of a freshly built receiver that has not consumed any text.
    spec fn blank(&self) -> bool;

    /// True when the receiver has been populated from the given block text.
    spec fn filled_with(&self, text: Seq<char>) -> bool;

    /// Replaces the receiver's state with what the decoded block text says.
    fn consume(&mut self, text: &String)
        ensures
            final(self).filled_with(text@),
    ;
}

/// A command that can be submitted over the control channel.
///
/// A command exposes a fixed wire form (one line of the control grammar,
/// without the newline framing, which the transmitter appends) and a factory
/// for the empty response shell appropriate to that command.
pub trait TmuxCommand: Sized {
    /// The response shape this command's output block populates.
    type Out: Response;

    /// The characters of the fixed wire form.
    spec fn wire_spec(&self) -> Seq<char>;

    /// The fixed, self-delimiting wire form of the command, newline-free.
    fn wire_format(&self) -> (r: &'static str)
        ensures
            r@ == self.wire_spec(),
    ;

    /// Builds the empty receiver for this command's eventual output; called
    /// once per submission and never shared across submissions.
    fn build_response(&self) -> (r: Self::Out)
        ensures
            r.blank(),
    ;
}

} // verus!
