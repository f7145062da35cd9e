use rag_core::ingest::{ascii_filter, clean_chunk, fresh_content_id, stage_chunks, stage_document};
use rag_core::types::{classify_file, Embedding, FileType};
use rag_core::RagError;

#[test]
fn test_fresh_content_id_shape() {
    let id = fresh_content_id();
    assert_eq!(id.len(), 32);
    assert!(id.chars().all(|c| c.is_ascii_hexdigit() && !c.is_ascii_uppercase()));
    // Hyphens of the underlying identifier are gone.
    assert!(!id.contains('-'));
}

#[test]
fn test_ascii_filter_drops_non_ascii() {
    assert_eq!(ascii_filter("héllo wörld"), "hllo wrld");
    assert_eq!(ascii_filter("plain"), "plain");
    assert_eq!(ascii_filter("日本語"), "");
}

#[test]
fn test_clean_chunk_empty_content_error() {
    // The single-row path aborts on a chunk that reduces to nothing after
    // ASCII filtering and trimming.
    assert_eq!(clean_chunk("日本語"), Err(RagError::EmptyContent));
    assert_eq!(clean_chunk("  "), Err(RagError::EmptyContent));
    assert_eq!(clean_chunk(" é 	"), Err(RagError::EmptyContent));
    assert_eq!(clean_chunk("keep me"), Ok("keep me".to_string()));
    assert_eq!(clean_chunk("  keep é me "), Ok("keep  me".to_string()));
    assert_eq!(RagError::EmptyContent.message(), "empty content");
}

#[test]
fn test_chunk_numbering_density() {
    // Two raw chunks vanish after ASCII filtering; the survivors still get
    // chunk numbers 0..N-1 with no gaps.
    let raw = vec![
        "first".to_string(),
        "日本語".to_string(),
        "second".to_string(),
        "   ".to_string(),
        "third é accent".to_string(),
    ];
    let staged = stage_chunks(&raw);
    assert_eq!(staged.len(), 3);
    let numbers: Vec<i32> = staged.iter().map(|c| c.chunk_number).collect();
    assert_eq!(numbers, vec![0, 1, 2]);
    let texts: Vec<&str> = staged.iter().map(|c| c.content_chunk.as_str()).collect();
    assert_eq!(texts, vec!["first", "second", "third  accent"]);
}

#[test]
fn test_stage_document_ids_and_numbers() {
    let text = "A short document. It fits in a single chunk.";
    let (content_id, staged) = stage_document(text);
    assert_eq!(content_id.len(), 32);
    assert_eq!(staged.len(), 1);
    assert_eq!(staged[0].chunk_number, 0);
    assert_eq!(staged[0].content_chunk, text);
}

#[test]
fn test_embedding_dimension_checked() {
    assert!(Embedding::new(vec![1u32; 1024]).is_ok());
    assert!(matches!(Embedding::new(vec![1u32; 1536]), Err(RagError::Embedding)));
    assert!(matches!(Embedding::new(Vec::new()), Err(RagError::Embedding)));
    let e = Embedding::new(vec![7u32; 1024]).unwrap();
    assert_eq!(e.dimension(), 1024);
    assert_eq!(e.components()[0], 7);
    assert_eq!(RagError::Embedding.message(), "embedding error");
}

#[test]
fn test_classify_file_by_suffix() {
    assert_eq!(classify_file("notes.txt"), Some(FileType::Text));
    assert_eq!(classify_file("paper.pdf"), Some(FileType::PDF));
    assert_eq!(classify_file("image.png"), None);
    assert_eq!(classify_file(""), None);
}
