//! The destination that a type reference is written to.

use vstd::prelude::*;
use vstd::string::StringExecFns;

verus! {

/// Why a write did not go through. A formatter over a `String` always has
/// room, so no function of this crate returns one.
#[derive(Debug)]
pub struct WriteError {}

/// Appends text to a `String` borrowed from the caller.
pub struct Formatter<'a> {
    /// The borrowed string.
    pub dst: &'a mut String,
}

impl<'a> Formatter<'a> {
    /// The text in the borrowed string so far.
    pub open spec fn text(&self) -> Seq<char> {
        self.dst@
    }

    /// A formatter that appends to `dst`, after what `dst` already holds.
    pub fn new(dst: &'a mut String) -> (fmt: Self)
        ensures
            fmt.text() == old(dst)@,
            *final(dst) == *final(fmt.dst),
    {
        Formatter { dst }
    }

    /// Appends `s`.
    pub fn write_str(&mut self, s: &str) -> (done: Result<(), WriteError>)
        ensures
            done is Ok,
            final(self).text() == old(self).text() + s@,
            *final(final(self).dst) == *final(old(self).dst),
    {
        self.dst.append(s);
        Ok(())
    }
}

} // verus!
