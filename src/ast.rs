use vstd::prelude::*;

verus! {

/// A syntax node together with the byte offset where it starts in the
/// program text.
#[derive(Clone, Debug, PartialEq)]
pub struct Meta<T> {
    pub inside: T,
    pub byte_offset: usize,
}

impl<T> Meta<T> {
    pub fn new(inside: T, byte_offset: usize) -> (r: Meta<T>)
        ensures
            r.inside == inside,
            r.byte_offset == byte_offset,
    {
        Meta { inside, byte_offset }
    }
}

/// Arithmetic operators of the scripting language.
#[derive(Clone, Copy, Debug, PartialEq, Eq, Structural)]
pub enum Operator {
    Multiply,
    Divide,
    Add,
    Subtract,
    Mod,
    Negate,
}

/// An error raised while running a program, with its message.
#[derive(Clone, Debug)]
pub struct RuntimeError {
    msg: String,
}

impl RuntimeError {
    pub fn new(msg: String) -> (r: RuntimeError)
        ensures
            r.message_view() == msg@,
    {
        RuntimeError { msg }
    }

    pub closed spec fn message_view(&self) -> Seq<char> {
        self.msg@
    }

    /// The message, as a program's user sees it.
    pub fn message(&self) -> (r: &str)
        ensures
            r@ == self.message_view(),
    {
        self.msg.as_str()
    }
}

} // verus!
