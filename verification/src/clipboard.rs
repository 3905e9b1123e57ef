//! A clipboard stub for platforms without a system clipboard: it accepts
//! every write and always reads back empty.  Guest code can use it
//! unconditionally; platforms with a real clipboard wire one in outside
//! the engine core.

use vstd::prelude::*;

verus! {

/// A clipboard handle.
pub struct Clipboard {}

/// Why a clipboard operation failed.
#[derive(Clone, Copy, PartialEq, Eq, Structural, Debug)]
pub enum Error {
    /// The clipboard contents were not available in the requested format.
    /// This could either be due to the clipboard being empty or the
    /// clipboard contents having an incompatible format to the requested
    /// one.
    ContentNotAvailable,
}

impl Error {
    /// A human-readable description of the failure.
    pub fn message(&self) -> (r: &'static str)
        ensures
            r@ == "The clipboard contents were not available in the requested format or the clipboard is empty."@,
    {
        "The clipboard contents were not available in the requested format or the clipboard is empty."
    }
}

impl Clipboard {
    /// Creates an instance of the clipboard.  This stub always succeeds;
    /// on desktop environments without clipboard support an error could
    /// be returned and the call retried.
    pub fn new() -> (r: Result<Self, Error>)
        ensures
            r is Ok,
    {
        Ok(Clipboard {})
    }

    /// Puts text on the clipboard.  The stub accepts and discards it.
    pub fn set_text(&mut self, text: &str) -> (r: Result<(), Error>)
        ensures
            r is Ok,
    {
        let _ = text;
        Ok(())
    }

    /// Reads the clipboard's text.  The stub always reads back empty.
    pub fn get_text(&mut self) -> (r: Result<String, Error>)
        ensures
            r matches Ok(s) && s@ == Seq::<char>::empty(),
    {
        Ok(String::new())
    }
}

} // verus!
