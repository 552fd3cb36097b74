use vstd::prelude::*;

verus! {

/// The command line: one subcommand.
pub struct Cli {
    pub command: Commands,
}

/// What the command line asks for; paths are given as text.
pub enum Commands {
    /// Store a message in a chunk of a PNG file.
    Encode { path: String, chunk_type: String, message: String, output_file: Option<String> },
    /// Read the message from a chunk of a PNG file.
    Decode { path: String, chunk_type: String },
    /// Remove a chunk from a PNG file.
    Remove { path: String, chunk_type: String },
    /// List the chunks of a PNG file.
    Print { path: String },
}

} // verus!
