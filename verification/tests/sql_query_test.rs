use rag_core::constants::{
    bulk_insert_into_vector_table_sql, create_full_text_search_index, create_raw_content_table_sql,
    create_rrf_score_function_sql, create_search_base_sql, create_vector_search_index,
    create_vector_table_sql, get_adj_chunk_sql, get_delete_from_search_table_sql,
    get_drop_table_sql, get_search_tables_sql, get_similar_result_query,
    hybrid_saerch_from_table_sql, insert_into_search_table_sql, insert_into_vector_table_sql,
    insert_raw_content_sql, keyword_search_from_table_sql, semantic_search_from_table_sql,
    CREATE_VECTOR_SQL, EMBEDDING_DIMENSION, HYBRID_SEARCH_RATIO, MAX_POOL_CONNECTION,
    SEARCH_TABLES,
};

const TABLE_NAME: &'static str = "test_table";

#[test]
fn test_create_search_base_sql() {
    assert_eq!(
        create_search_base_sql(),
        format!("CREATE TABLE IF NOT EXISTS {SEARCH_TABLES} (id bigserial PRIMARY KEY, table_name TEXT UNIQUE)")
    )
}

#[test]
fn test_get_adj_chunk_sql() {
    assert_eq!(get_adj_chunk_sql(TABLE_NAME), "SELECT * FROM test_table WHERE content_id = $1 AND chunk_number >= $2 AND chunk_number <= $3 ORDER BY chunk_number ASC")
}

#[test]
fn test_create_vector_table_sql() {
    assert_eq!(
        create_vector_table_sql(TABLE_NAME),
        "CREATE TABLE IF NOT EXISTS test_table (id bigserial PRIMARY KEY, content_id TEXT, content_chunk TEXT, chunk_number int, embedding vector(1024), metadata JSON, created_at timestamp)"
    )
}

#[test]
fn test_create_raw_content_table_sql() {
    assert_eq!(
        create_raw_content_table_sql(TABLE_NAME),
        "CREATE TABLE IF NOT EXISTS test_table_content (id bigserial PRIMARY KEY, content_id TEXT, title TEXT, text TEXT, metadata JSON)"
    )
}

#[test]
fn test_insert_into_search_table_sql() {
    assert_eq!(
        insert_into_search_table_sql(),
        format!("INSERT INTO {SEARCH_TABLES} (table_name) VALUES ($1)")
    )
}

#[test]
fn test_bulk_insert_into_vector_table_sql() {
    assert_eq!(
        bulk_insert_into_vector_table_sql(TABLE_NAME).replace("\n", "").replace("   ", "").trim(),
        format!("
                INSERT INTO {TABLE_NAME}(content_id, content_chunk, chunk_number, embedding, metadata, created_at) 
                SELECT * FROM UNNEST($1::text[], $2::text[], $3::int4[], $4::vector[], $5::jsonb[], $6::timestamp[])
            ").replace("\n", "").replace("   ", "").trim()
    )
}

#[test]
fn test_insert_raw_content_sql() {
    assert_eq!(insert_raw_content_sql(TABLE_NAME), "INSERT INTO test_table_content (content_id, title, text, metadata) VALUES ($1, $2, $3, $4::jsonb)")
}

#[test]
fn test_get_similar_result_query() {
    assert_eq!(
        get_similar_result_query(TABLE_NAME, 10, 500000),
        "SELECT *, (1.0-(embedding <=> $1::vector)) as score FROM test_table WHERE (1.0-(embedding <=> $1::vector)) >=0.5 ORDER BY score DESC LIMIT 10"
    )
}

#[test]
fn test_get_search_tables_sql() {
    assert_eq!(
        get_search_tables_sql(),
        format!("SELECT table_name FROM {SEARCH_TABLES}")
    )
}

#[test]
fn test_get_drop_table_sql() {
    assert_eq!(
        get_drop_table_sql(TABLE_NAME.to_string()),
        format!("DROP TABLE IF EXISTS {TABLE_NAME}")
    )
}

#[test]
fn test_get_drop_search_tables_sql() {
    assert_eq!(
        get_delete_from_search_table_sql(TABLE_NAME),
        format!("DELETE FROM {SEARCH_TABLES} WHERE table_name = '{TABLE_NAME}'")
    )
}

#[test]
fn test_keyword_search_sql() {
    assert_eq!(
        keyword_search_from_table_sql(TABLE_NAME, 7),
        "SELECT *, ts_rank_cd(to_tsvector('english', content_chunk), to_tsquery('english', $1)) as score FROM test_table WHERE to_tsvector('english', content_chunk) @@ to_tsquery('english', $1) ORDER BY score DESC LIMIT 7"
    )
}

#[test]
fn test_semantic_search_sql() {
    assert_eq!(
        semantic_search_from_table_sql(TABLE_NAME, 4, 250000),
        "SELECT *, CAST((1.0 - (embedding <=> $1::vector)) AS float4) AS score FROM test_table WHERE\n    CAST((1.0-(embedding <=> $1::vector)) AS float4) >= 0.25 ORDER BY score DESC LIMIT 4"
    )
}

#[test]
fn test_hybrid_search_sql_pools() {
    let sql = hybrid_saerch_from_table_sql(TABLE_NAME, 3);
    // Each candidate pool is limit times the fusion ratio; the final cap is
    // the limit itself.
    assert_eq!(HYBRID_SEARCH_RATIO, 5);
    assert_eq!(sql.matches("LIMIT 15").count(), 2);
    assert!(sql.trim_end().ends_with("LIMIT 3"));
    assert_eq!(sql.matches("rrf_score").count(), 1);
    assert_eq!(sql.matches("UNION ALL").count(), 1);
    assert!(sql.contains("ROW_NUMBER() OVER (PARTITION BY id ORDER BY score DESC)"));
    assert!(sql.contains("WHERE row_num = 1"));
}

#[test]
fn test_rrf_function_sql_constant() {
    let sql = create_rrf_score_function_sql();
    assert!(sql.contains("rrf_k int DEFAULT 50"));
    assert!(sql.contains("SELECT COALESCE(1.0/($1 + $2), 0.0);"));
}

#[test]
fn test_index_creation_sql() {
    assert_eq!(
        create_full_text_search_index(TABLE_NAME, "content_chunk"),
        "CREATE INDEX IF NOT EXISTS test_table_content_chunk_idx ON test_table USING GIN (to_tsvector('english', content_chunk));"
    );
    assert_eq!(
        create_vector_search_index(TABLE_NAME, "embedding"),
        format!("CREATE INDEX IF NOT EXISTS {TABLE_NAME}_embedding_idx ON {TABLE_NAME} USING  hnsw((embedding::vector({EMBEDDING_DIMENSION})) vector_cosine_ops);")
    );
}

#[test]
fn test_store_constants() {
    assert_eq!(SEARCH_TABLES, "search_tables");
    assert_eq!(EMBEDDING_DIMENSION, 1024);
    assert_eq!(MAX_POOL_CONNECTION, 20);
    assert_eq!(CREATE_VECTOR_SQL, "CREATE EXTENSION IF NOT EXISTS vector");
}
