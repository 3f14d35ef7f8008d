//! What the operator asks for: one of four commands, each on a file.
//!
//! Paths are held as strings. Whoever parses the command line turns its
//! paths into strings, and the strings of an `Outcome` back into paths.

use vstd::prelude::*;
use crate::chunk_type::ChunkType;
use crate::text::{debug_quoted, debug_string};

verus! {

/// The command line: at most one command.
#[derive(Debug)]
pub struct Args {
    pub command: Option<Cmd>,
}

/// A command.
#[derive(Debug)]
pub enum Cmd {
    /// Hide a message in a file, in a chunk of the given type.
    Encode { file: String, chunk_type: ChunkType, message: String, output: Option<String> },
    /// Show the message that a file holds in its first chunk of the given type.
    Decode { file: String, chunk_type: ChunkType },
    /// Take the first chunk of the given type out of a file.
    Remove { file: String, chunk_type: ChunkType },
    /// List the chunks of a file.
    Print { file: String },
}

/// The `{:?}` form of an optional path: `None`, or `Some(..)` around the
/// quoted path.
pub open spec fn debug_optional(path: Option<String>) -> Seq<char> {
    match path {
        Some(p) => "Some("@ + debug_quoted(p@) + ")"@,
        None => "None"@,
    }
}

impl Cmd {
    /// The command in short: its name, and for `encode` the output path in
    /// its `{:?}` form and the type code.
    pub open spec fn text(&self) -> Seq<char> {
        match self {
            Cmd::Encode { file, chunk_type, message, output } => "encode "@ + debug_optional(
                *output,
            ) + " "@ + chunk_type.text(),
            Cmd::Decode { file, chunk_type } => "decode"@,
            Cmd::Remove { file, chunk_type } => "remove"@,
            Cmd::Print { file } => "print"@,
        }
    }

    /// The path of the file that the command reads.
    pub open spec fn spec_file(&self) -> String {
        match self {
            Cmd::Encode { file, chunk_type, message, output } => *file,
            Cmd::Decode { file, chunk_type } => *file,
            Cmd::Remove { file, chunk_type } => *file,
            Cmd::Print { file } => *file,
        }
    }

    /// The path of the file that the command reads.
    pub fn file(&self) -> (r: &String)
        ensures
            *r == self.spec_file(),
    {
        match self {
            Cmd::Encode { file, .. } => file,
            Cmd::Decode { file, .. } => file,
            Cmd::Remove { file, .. } => file,
            Cmd::Print { file } => file,
        }
    }

    /// The command in short.
    pub fn to_string(&self) -> (s: String)
        ensures
            s@ == self.text(),
    {
        let mut s = String::new();
        match self {
            Cmd::Encode { output, chunk_type, .. } => {
                s.append("encode ");
                match output {
                    Some(path) => {
                        s.append("Some(");
                        s.append(debug_string(path.as_str()).as_str());
                        s.append(")");
                    },
                    None => {
                        s.append("None");
                    },
                }
                s.append(" ");
                s.append(chunk_type.to_string().as_str());
            },
            Cmd::Decode { .. } => {
                s.append("decode");
            },
            Cmd::Remove { .. } => {
                s.append("remove");
            },
            Cmd::Print { .. } => {
                s.append("print");
            },
        }
        s
    }
}

} // verus!
