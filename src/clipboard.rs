//! Access the clipboard.
use vstd::prelude::*;

verus! {

/// A buffer for short-term storage and transfer within and between applications.
pub trait Clipboard {
    /// Reads the current content of the clipboard as text.
    fn read(&self) -> Option<String>;

    /// Writes the given text contents to the clipboard.
    fn write(&mut self, contents: String);

    /// Reads the current content of the primary clipboard as text.
    fn read_primary(&self) -> Option<String> {
        None
    }

    /// Writes the given text contents to the primary clipboard.
    fn write_primary(&mut self, contents: String) {
    }
}

/// A clipboard that holds nothing and ignores writes.
#[derive(Debug, Clone, Copy)]
pub struct Null;

impl Clipboard for Null {
    fn read(&self) -> Option<String> {
        None
    }

    fn write(&mut self, contents: String) {
    }
}

/// A clipboard action for the shell to perform.
///
/// `F` turns what was read into a message.
pub enum Action<F> {
    /// Read the clipboard and produce a message with the result.
    Read(F),
    /// Write the given contents to the clipboard.
    Write(String),
    /// Read the primary clipboard and produce a message with the result.
    ReadPrimary(F),
    /// Write the given contents to the primary clipboard.
    WritePrimary(String),
}

/// Read the current contents of the clipboard, turning them into a message with `f`.
pub fn read<F: Fn(Option<String>) -> M, M>(f: F) -> (r: Action<F>)
    ensures
        r == Action::Read(f),
{
    Action::Read(f)
}

/// Write the given contents to the clipboard.
pub fn write<F>(contents: String) -> (r: Action<F>)
    ensures
        r == Action::<F>::Write(contents),
{
    Action::Write(contents)
}

} // verus!
