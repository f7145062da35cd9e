//! Retrieval core of a retrieval-augmented question answering service:
//! text chunking, knowledge-base schema and lifecycle planning, and a
//! hybrid retrieval engine with score filtering and context expansion.

pub mod azure;
pub mod chat;
pub mod config;
pub mod constants;
pub mod ingest;
pub mod jsontext;
pub mod numfmt;
pub mod retrieval;
pub mod schema;
pub mod seqtools;
pub mod strtools;
pub mod text_splitter;
pub mod tools;
pub mod types;

use vstd::prelude::*;

verus! {

/// The error taxonomy of the retrieval core.
#[derive(Clone, Copy, Debug, PartialEq, Eq, Structural)]
pub enum RagError {
    /// Invalid chunk size / overlap combination; fatal at call time.
    Configuration,
    /// Store unreachable or pool exhausted; surfaced, never retried here.
    Connection,
    /// Embedding collaborator failure or dimension mismatch.
    Embedding,
    /// A chunk reduced to nothing after ASCII filtering and trimming.
    EmptyContent,
    /// An operation against an unknown knowledge-base name.
    NotFound,
}

impl RagError {
    /// A short human-readable label for the error.
    pub fn message(&self) -> (r: &'static str)
        ensures
            r@ == self.spec_message(),
    {
        proof {
            reveal_strlit("configuration error");
            reveal_strlit("connection error");
            reveal_strlit("embedding error");
            reveal_strlit("empty content");
            reveal_strlit("not found");
        }
        match self {
            RagError::Configuration => "configuration error",
            RagError::Connection => "connection error",
            RagError::Embedding => "embedding error",
            RagError::EmptyContent => "empty content",
            RagError::NotFound => "not found",
        }
    }

    pub open spec fn spec_message(&self) -> Seq<char> {
        match self {
            RagError::Configuration => "configuration error"@,
            RagError::Connection => "connection error"@,
            RagError::Embedding => "embedding error"@,
            RagError::EmptyContent => "empty content"@,
            RagError::NotFound => "not found"@,
        }
    }
}

} // verus!
