use rag_core::retrieval::{
    adjacency_window, expand_hit, filter_by_min_score, fuse_candidates, keyword_query_expression,
    rrf_score_micros, sort_rows_desc, stitch_chunks, SearchMode,
};
use rag_core::types::{Embedding, EmbeddingVectorValue, Metadata};

fn row(id: i64, chunk_number: i32, text: &str, score: i64) -> EmbeddingVectorValue {
    EmbeddingVectorValue {
        id,
        content_id: "c0ffee".to_string(),
        content_chunk: text.to_string(),
        chunk_number,
        embedding: Embedding::new(vec![0u32; 1024]).unwrap(),
        metadata: Metadata::new("doc.txt".to_string(), "2024-05-01".to_string()),
        created_at: 0,
        score,
    }
}

#[test]
fn test_rrf_term_values() {
    // 1/(rank+50) carried in millionths.
    assert_eq!(rrf_score_micros(1), 1_000_000 / 51);
    assert_eq!(rrf_score_micros(2), 1_000_000 / 52);
    assert_eq!(rrf_score_micros(10), 1_000_000 / 60);
}

#[test]
fn test_hybrid_fusion_scores_and_dedup() {
    // Chunk 7 appears in both lists: rank 1 semantically, rank 2 by
    // keyword. Its fused score is the sum of both terms; single-list
    // candidates score only their own term; no id appears twice.
    let semantic = vec![row(7, 0, "seven", 0), row(8, 1, "eight", 0)];
    let keyword = vec![row(9, 2, "nine", 0), row(7, 0, "seven", 0)];
    let fused = fuse_candidates(semantic, keyword, 10);

    assert_eq!(fused.len(), 3);
    let score_of = |id: i64| fused.iter().find(|r| r.id == id).unwrap().score;
    assert_eq!(score_of(7), 1_000_000 / 51 + 1_000_000 / 52);
    assert_eq!(score_of(8), 1_000_000 / 52);
    assert_eq!(score_of(9), 1_000_000 / 51);
    // Best fused score first, ids unique.
    assert_eq!(fused[0].id, 7);
    let mut ids: Vec<i64> = fused.iter().map(|r| r.id).collect();
    ids.sort();
    ids.dedup();
    assert_eq!(ids.len(), 3);
}

#[test]
fn test_hybrid_fusion_deterministic() {
    let make = || {
        (
            vec![row(1, 0, "a", 0), row(2, 1, "b", 0)],
            vec![row(2, 1, "b", 0), row(3, 2, "c", 0)],
        )
    };
    let (s1, k1) = make();
    let (s2, k2) = make();
    let first: Vec<(i64, i64)> = fuse_candidates(s1, k1, 5).iter().map(|r| (r.id, r.score)).collect();
    let second: Vec<(i64, i64)> = fuse_candidates(s2, k2, 5).iter().map(|r| (r.id, r.score)).collect();
    assert_eq!(first, second);
}

#[test]
fn test_hybrid_fusion_cap() {
    let semantic = vec![row(1, 0, "a", 0), row(2, 1, "b", 0), row(3, 2, "c", 0)];
    let keyword = vec![row(4, 3, "d", 0)];
    let fused = fuse_candidates(semantic, keyword, 2);
    assert_eq!(fused.len(), 2);
    assert_eq!(fused[0].id, 1);
    assert_eq!(fused[1].id, 4);
}

#[test]
fn test_score_filtering_threshold() {
    // min_score = 0.9 in millionths: nothing under the threshold comes
    // back, and results arrive best first.
    let rows = vec![
        row(1, 0, "low", 450_000),
        row(2, 1, "high", 930_000),
        row(3, 2, "edge", 900_000),
        row(4, 3, "top", 990_000),
    ];
    let kept = filter_by_min_score(rows, 900_000, 10);
    let ids: Vec<i64> = kept.iter().map(|r| r.id).collect();
    assert_eq!(ids, vec![4, 2, 3]);
    for r in &kept {
        assert!(r.score >= 900_000);
    }
}

#[test]
fn test_score_filtering_cap_keeps_best() {
    let rows = vec![
        row(1, 0, "a", 930_000),
        row(2, 1, "b", 980_000),
        row(3, 2, "c", 950_000),
    ];
    let kept = filter_by_min_score(rows, 900_000, 2);
    let ids: Vec<i64> = kept.iter().map(|r| r.id).collect();
    assert_eq!(ids, vec![2, 3]);
}

#[test]
fn test_sort_rows_is_descending_permutation() {
    let rows = vec![row(1, 0, "a", 5), row(2, 1, "b", 9), row(3, 2, "c", 7)];
    let sorted = sort_rows_desc(rows);
    let scores: Vec<i64> = sorted.iter().map(|r| r.score).collect();
    assert_eq!(scores, vec![9, 7, 5]);
}

#[test]
fn test_adjacency_window_clamps_lower_edge() {
    // upper=100 around chunk 2 must not ask for negative chunk numbers.
    let (lo, hi) = adjacency_window(2, 100, 3);
    assert_eq!((lo, hi), (0, 5));
    let (lo, hi) = adjacency_window(10, 2, 4);
    assert_eq!((lo, hi), (8, 14));
    let (lo, hi) = adjacency_window(0, 100, 0);
    assert_eq!((lo, hi), (0, 0));
}

#[test]
fn test_keyword_query_expression() {
    assert_eq!(keyword_query_expression("boy and his dog"), "boy & and & his & dog");
    assert_eq!(keyword_query_expression("  spaced   out  "), "spaced & out");
    assert_eq!(keyword_query_expression("don't panic!"), "dont & panic");
    assert_eq!(keyword_query_expression("one"), "one");
    assert_eq!(keyword_query_expression(""), "");
    assert_eq!(keyword_query_expression("&|!() :*"), "");
    assert_eq!(keyword_query_expression("Rank42 query"), "Rank42 & query");
}

#[test]
fn test_stitch_and_expand() {
    let hit = row(5, 3, "the hit chunk", 910_000);
    let related = vec![
        row(4, 2, "before", 0),
        row(5, 3, "the hit chunk", 0),
        row(6, 4, "after", 0),
    ];
    assert_eq!(stitch_chunks(&related), "before the hit chunk after ");

    let passage = expand_hit(&hit, &related);
    assert_eq!(passage.content, "the hit chunk");
    assert_eq!(passage.stitched_content, "before the hit chunk after ");
    assert_eq!(passage.score, 910_000);
    assert_eq!(passage.chunk_number, 3);
    assert_eq!(passage.content_id, "c0ffee");
    assert_eq!(passage.metadata.source, "doc.txt");
    // The hit's embedding travels with the passage.
    assert_eq!(passage.embedding.components(), hit.embedding.components());
}

#[test]
fn test_search_modes_are_distinct() {
    assert_ne!(SearchMode::Semantic, SearchMode::Keyword);
    assert_ne!(SearchMode::Keyword, SearchMode::Hybrid);
    assert_ne!(SearchMode::Semantic, SearchMode::Hybrid);
}
