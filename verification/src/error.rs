//! Error types shared by the library.
use vstd::prelude::*;

verus! {

/// An error that stems from a fault inside a component, with a message that describes it.
#[derive(Debug, Clone, PartialEq, Eq)]
pub struct InternalError {
    message: String,
}

impl View for InternalError {
    type V = Seq<char>;

    /// The message.
    closed spec fn view(&self) -> Seq<char> {
        self.message@
    }
}

impl InternalError {
    /// An internal error carrying `message`.
    pub fn with_message(message: String) -> (e: InternalError)
        ensures
            e@ == message@,
    {
        InternalError { message }
    }

    /// The message this error was made with.
    pub fn message(&self) -> (m: &str)
        ensures
            m@ == self@,
    {
        self.message.as_str()
    }
}

/// An error that names an argument whose value was refused, and why.
#[derive(Debug, Clone, PartialEq, Eq)]
pub struct InvalidArgumentError {
    argument: String,
    message: String,
}

impl InvalidArgumentError {
    /// The name of the refused argument.
    pub closed spec fn argument_view(&self) -> Seq<char> {
        self.argument@
    }

    /// The explanation.
    pub closed spec fn message_view(&self) -> Seq<char> {
        self.message@
    }

    /// An error for `argument`, explained by `message`.
    pub fn new(argument: String, message: String) -> (e: InvalidArgumentError)
        ensures
            e.argument_view() == argument@,
            e.message_view() == message@,
    {
        InvalidArgumentError { argument, message }
    }
}

} // verus!
