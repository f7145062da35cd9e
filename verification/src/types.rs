//! The data model of the retrieval core: metadata, embedding vectors,
//! stored chunk rows and raw-content rows.

use vstd::prelude::*;

use crate::constants::EMBEDDING_DIMENSION;
use crate::RagError;

verus! {

/// Structured metadata carried with every document and copied onto each of
/// its chunks: where it came from and when it was uploaded. These two
/// fields are all the service ever writes; a deployment that needs more
/// would extend the type.
pub struct Metadata {
    pub source: String,
    pub upload_time: String,
}

impl Metadata {
    pub fn new(source: String, upload_time: String) -> (r: Metadata)
        ensures
            r.source == source,
            r.upload_time == upload_time,
    {
        Metadata { source, upload_time }
    }

    /// An equal copy.
    pub fn duplicate(&self) -> (r: Metadata)
        ensures
            r == *self,
    {
        let r = Metadata { source: self.source.clone(), upload_time: self.upload_time.clone() };
        r
    }
}

/// A fixed-dimension embedding vector. The core never interprets the
/// components; it only guarantees their number, so each component is carried
/// as its raw bit pattern.
pub struct Embedding {
    bits: Vec<u32>,
}

impl View for Embedding {
    type V = Seq<u32>;

    closed spec fn view(&self) -> Seq<u32> {
        self.bits@
    }
}

impl Embedding {
    /// The deployment-wide dimension invariant.
    pub open spec fn wf(&self) -> bool {
        self@.len() == EMBEDDING_DIMENSION
    }

    /// Wraps raw vector components; a wrong dimension is the embedding
    /// error, and the only way this constructor fails.
    pub fn new(bits: Vec<u32>) -> (r: Result<Embedding, RagError>)
        ensures
            match r {
                Ok(e) => e@ == bits@ && e.wf(),
                Err(e) => e == RagError::Embedding && bits@.len() != EMBEDDING_DIMENSION,
            },
    {
        if bits.len() == EMBEDDING_DIMENSION {
            Ok(Embedding { bits })
        } else {
            Err(RagError::Embedding)
        }
    }

    pub fn dimension(&self) -> (r: usize)
        ensures
            r == self@.len(),
    {
        self.bits.len()
    }

    pub fn components(&self) -> (r: &Vec<u32>)
        ensures
            r@ == self@,
    {
        &self.bits
    }

    /// A copy with the same components.
    pub fn duplicate(&self) -> (r: Embedding)
        ensures
            r@ == self@,
    {
        let mut out: Vec<u32> = Vec::new();
        let mut i: usize = 0;
        while i < self.bits.len()
            invariant
                0 <= i <= self.bits.len(),
                out@ == self.bits@.subrange(0, i as int),
            decreases self.bits.len() - i,
        {
            out.push(self.bits[i]);
            proof {
                assert(out@ =~= self.bits@.subrange(0, i + 1));
            }
            i = i + 1;
        }
        proof {
            assert(out@ =~= self.bits@);
        }
        Embedding { bits: out }
    }
}

/// One stored chunk row: the unit of embedding and retrieval. `score` is a
/// similarity or fusion score in millionths, higher is better.
pub struct EmbeddingVectorValue {
    pub id: i64,
    pub content_id: String,
    pub content_chunk: String,
    pub chunk_number: i32,
    pub embedding: Embedding,
    pub metadata: Metadata,
    pub created_at: i64,
    pub score: i64,
}

/// Whether two rows carry the same values, component for component.
pub open spec fn row_eq(a: EmbeddingVectorValue, b: EmbeddingVectorValue) -> bool {
    &&& a.id == b.id
    &&& a.content_id == b.content_id
    &&& a.content_chunk == b.content_chunk
    &&& a.chunk_number == b.chunk_number
    &&& a.embedding@ == b.embedding@
    &&& a.metadata == b.metadata
    &&& a.created_at == b.created_at
    &&& a.score == b.score
}

impl EmbeddingVectorValue {
    /// A copy with the same values.
    pub fn duplicate(&self) -> (r: EmbeddingVectorValue)
        ensures
            row_eq(r, *self),
    {
        EmbeddingVectorValue {
            id: self.id,
            content_id: self.content_id.clone(),
            content_chunk: self.content_chunk.clone(),
            chunk_number: self.chunk_number,
            embedding: self.embedding.duplicate(),
            metadata: self.metadata.duplicate(),
            created_at: self.created_at,
            score: self.score,
        }
    }
}

/// One stored raw-content row: the document as uploaded.
pub struct RowContent {
    pub id: i32,
    pub title: String,
    pub text: String,
    pub created_at: i64,
}

/// The upload form the transport layer hands over: a knowledge-base name
/// and the files saved for ingestion.
pub struct UploadForm {
    pub table_name: String,
    pub files: Vec<String>,
}

/// The request body of the create- and delete-table routes.
pub struct TableCreate {
    pub table_name: String,
}

/// The kinds of uploaded files the service ingests.
#[derive(Clone, Copy, Debug, PartialEq, Eq, Structural)]
pub enum FileType {
    PDF,
    Text,
}

/// Decides a file's type from its name, as the upload route does.
pub fn classify_file(file_name: &str) -> (r: Option<FileType>)
    ensures
        match r {
            Some(FileType::Text) => crate::strtools::spec_ends_with(file_name@, "txt"@),
            Some(FileType::PDF) => !crate::strtools::spec_ends_with(file_name@, "txt"@)
                && crate::strtools::spec_ends_with(file_name@, "pdf"@),
            None => !crate::strtools::spec_ends_with(file_name@, "txt"@)
                && !crate::strtools::spec_ends_with(file_name@, "pdf"@),
        },
{
    if crate::strtools::ends_with(file_name, "txt") {
        Some(FileType::Text)
    } else if crate::strtools::ends_with(file_name, "pdf") {
        Some(FileType::PDF)
    } else {
        None
    }
}

} // verus!
