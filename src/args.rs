use vstd::prelude::*;

verus! {

/// A request to the tool: one command and its arguments.
#[derive(Debug, Clone)]
pub struct Args {
    pub cmd: Commands,
}

/// The four operations of the tool, each on one file.
#[derive(Debug, Clone)]
pub enum Commands {
    /// Hides `message` in a new chunk of type `chunk` appended to the file.
    Encode { filepath: String, chunk: String, message: String },
    /// Reads the message in the first chunk of type `chunk`.
    Decode { filepath: String, chunk: String },
    /// Removes the first chunk of type `chunk`.
    Remove { filepath: String, chunk: String },
    /// Lists every chunk of the file.
    Print { filepath: String },
}

} // verus!
