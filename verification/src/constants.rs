//! The SQL statements of the storage schema and of the three retrieval
//! modes. Table names are spliced into the statement text, so callers must
//! validate them first (see `schema::is_valid_table_name`); every builder's
//! contract pins the exact statement text down.

use vstd::prelude::*;

use crate::numfmt::{fmt_score_micros, fmt_usize, spec_digits, spec_score_text};

verus! {

/// The registry table that lists every knowledge base.
pub const SEARCH_TABLES: &'static str = "search_tables";

/// The fixed dimension of every stored embedding vector.
pub const EMBEDDING_DIMENSION: usize = 1024;

/// The bound on concurrent connections of the shared pool.
pub const MAX_POOL_CONNECTION: u32 = 20;

/// Enables the vector-similarity extension of the store.
pub const CREATE_VECTOR_SQL: &'static str = "CREATE EXTENSION IF NOT EXISTS vector";

/// How many times `limit` each hybrid candidate pool may hold.
pub const HYBRID_SEARCH_RATIO: usize = 5;

/// Creates the knowledge-base registry table.
pub fn create_search_base_sql() -> (r: String)
    ensures
        r@
            == "CREATE TABLE IF NOT EXISTS search_tables (id bigserial PRIMARY KEY, table_name TEXT UNIQUE)"@,
{
    let query = String::from_str(
        "CREATE TABLE IF NOT EXISTS search_tables (id bigserial PRIMARY KEY, table_name TEXT UNIQUE)",
    );
    return query;
}

/// Defines the reciprocal-rank-fusion scoring function with its smoothing
/// constant of 50.
pub fn create_rrf_score_function_sql() -> (r: String)
    ensures
        r@
            == "\n        CREATE OR REPLACE FUNCTION rrf_score(rank bigint, rrf_k int DEFAULT 50)\n        RETURNS numeric\n        LANGUAGE SQL\n        IMMUTABLE PARALLEL SAFE\n        AS $$\n            SELECT COALESCE(1.0/($1 + $2), 0.0);\n        $$;\n        "@,
{
    String::from_str(
        "\n        CREATE OR REPLACE FUNCTION rrf_score(rank bigint, rrf_k int DEFAULT 50)\n        RETURNS numeric\n        LANGUAGE SQL\n        IMMUTABLE PARALLEL SAFE\n        AS $$\n            SELECT COALESCE(1.0/($1 + $2), 0.0);\n        $$;\n        ",
    )
}

/// Creates the full-text index over a column of a knowledge base's table.
pub fn create_full_text_search_index(table_name: &str, column_name: &str) -> (r: String)
    ensures
        r@ == "CREATE INDEX IF NOT EXISTS "@ + table_name@ + "_"@ + column_name@ + "_idx ON "@
            + table_name@ + " USING GIN (to_tsvector('english', "@ + column_name@ + "));"@,
{
    String::from_str("CREATE INDEX IF NOT EXISTS ").concat(table_name).concat("_").concat(
        column_name,
    ).concat("_idx ON ").concat(table_name).concat(" USING GIN (to_tsvector('english', ")
        .concat(column_name).concat("));")
}

/// Creates the approximate-nearest-neighbour index over the embedding column.
pub fn create_vector_search_index(table_name: &str, vector_column_name: &str) -> (r: String)
    ensures
        r@ == "CREATE INDEX IF NOT EXISTS "@ + table_name@ + "_"@ + vector_column_name@
            + "_idx ON "@ + table_name@ + " USING  hnsw(("@ + vector_column_name@
            + "::vector(1024)) vector_cosine_ops);"@,
{
    String::from_str("CREATE INDEX IF NOT EXISTS ").concat(table_name).concat("_").concat(
        vector_column_name,
    ).concat("_idx ON ").concat(table_name).concat(" USING  hnsw((").concat(vector_column_name)
        .concat("::vector(1024)) vector_cosine_ops);")
}

/// Fetches the chunks adjacent to a hit, ordered by chunk number.
pub fn get_adj_chunk_sql(table_name: &str) -> (r: String)
    ensures
        r@ == "SELECT * FROM "@ + table_name@
            + " WHERE content_id = $1 AND chunk_number >= $2 AND chunk_number <= $3 ORDER BY chunk_number ASC"@,
{
    String::from_str("SELECT * FROM ").concat(table_name).concat(
        " WHERE content_id = $1 AND chunk_number >= $2 AND chunk_number <= $3 ORDER BY chunk_number ASC",
    )
}

/// Creates a knowledge base's chunk/vector table.
pub fn create_vector_table_sql(table_name: &str) -> (r: String)
    ensures
        r@ == "CREATE TABLE IF NOT EXISTS "@ + table_name@
            + " (id bigserial PRIMARY KEY, content_id TEXT, content_chunk TEXT, chunk_number int, embedding vector(1024), metadata JSON, created_at timestamp)"@,
{
    String::from_str("CREATE TABLE IF NOT EXISTS ").concat(table_name).concat(
        " (id bigserial PRIMARY KEY, content_id TEXT, content_chunk TEXT, chunk_number int, embedding vector(1024), metadata JSON, created_at timestamp)",
    )
}

/// Creates a knowledge base's raw-content table.
pub fn create_raw_content_table_sql(table_name: &str) -> (r: String)
    ensures
        r@ == "CREATE TABLE IF NOT EXISTS "@ + table_name@
            + "_content (id bigserial PRIMARY KEY, content_id TEXT, title TEXT, text TEXT, metadata JSON)"@,
{
    String::from_str("CREATE TABLE IF NOT EXISTS ").concat(table_name).concat(
        "_content (id bigserial PRIMARY KEY, content_id TEXT, title TEXT, text TEXT, metadata JSON)",
    )
}

/// Registers a knowledge base in the registry table.
pub fn insert_into_search_table_sql() -> (r: String)
    ensures
        r@ == "INSERT INTO search_tables (table_name) VALUES ($1)"@,
{
    String::from_str("INSERT INTO search_tables (table_name) VALUES ($1)")
}

/// Inserts one chunk row.
pub fn insert_into_vector_table_sql(table_name: &str) -> (r: String)
    ensures
        r@ == "INSERT INTO "@ + table_name@
            + " (content_id, content_chunk, chunk_number, embedding, metadata, created_at) VALUES ($1, $2, $3, $4, $5::jsonb, $6)"@,
{
    String::from_str("INSERT INTO ").concat(table_name).concat(
        " (content_id, content_chunk, chunk_number, embedding, metadata, created_at) VALUES ($1, $2, $3, $4, $5::jsonb, $6)",
    )
}

/// Inserts a whole document's chunk rows in one array-based statement.
pub fn bulk_insert_into_vector_table_sql(table_name: &str) -> (r: String)
    ensures
        r@ == "\n        INSERT INTO "@ + table_name@
            + "(content_id, content_chunk, chunk_number, embedding, metadata, created_at)\n        SELECT * FROM UNNEST($1::text[], $2::text[], $3::int4[], $4::vector[], $5::jsonb[], $6::timestamp[])\n    "@,
{
    String::from_str("\n        INSERT INTO ").concat(table_name).concat(
        "(content_id, content_chunk, chunk_number, embedding, metadata, created_at)\n        SELECT * FROM UNNEST($1::text[], $2::text[], $3::int4[], $4::vector[], $5::jsonb[], $6::timestamp[])\n    ",
    )
}

/// Inserts a document's raw-content row.
pub fn insert_raw_content_sql(table_name: &str) -> (r: String)
    ensures
        r@ == "INSERT INTO "@ + table_name@
            + "_content (content_id, title, text, metadata) VALUES ($1, $2, $3, $4::jsonb)"@,
{
    String::from_str("INSERT INTO ").concat(table_name).concat(
        "_content (content_id, title, text, metadata) VALUES ($1, $2, $3, $4::jsonb)",
    )
}

/// The semantic search over the `embedding` column: cosine similarity,
/// thresholded at `minimum_score` (given in millionths), best first.
pub fn get_similar_result_query(table_name: &str, limit: usize, minimum_score: i64) -> (r: String)
    requires
        minimum_score > i64::MIN,
    ensures
        r@ == "SELECT *, (1.0-(embedding <=> $1::vector)) as score FROM "@ + table_name@
            + " WHERE (1.0-(embedding <=> $1::vector)) >="@ + spec_score_text(minimum_score as int)
            + " ORDER BY score DESC LIMIT "@ + spec_digits(limit as nat),
{
    let score = fmt_score_micros(minimum_score);
    let lim = fmt_usize(limit);
    String::from_str("SELECT *, (1.0-(embedding <=> $1::vector)) as score FROM ").concat(
        table_name,
    ).concat(" WHERE (1.0-(embedding <=> $1::vector)) >=").concat(score.as_str()).concat(
        " ORDER BY score DESC LIMIT ",
    ).concat(lim.as_str())
}

/// Lists the registered knowledge bases.
pub fn get_search_tables_sql() -> (r: String)
    ensures
        r@ == "SELECT table_name FROM search_tables"@,
{
    String::from_str("SELECT table_name FROM search_tables")
}

/// Drops a table if it exists.
pub fn get_drop_table_sql(table_name: String) -> (r: String)
    ensures
        r@ == "DROP TABLE IF EXISTS "@ + table_name@,
{
    String::from_str("DROP TABLE IF EXISTS ").concat(table_name.as_str())
}

/// Removes a knowledge base's registry row.
pub fn get_delete_from_search_table_sql(table_name: &str) -> (r: String)
    ensures
        r@ == "DELETE FROM search_tables WHERE table_name = '"@ + table_name@ + "'"@,
{
    String::from_str("DELETE FROM search_tables WHERE table_name = '").concat(table_name).concat(
        "'",
    )
}

/// The keyword search: full-text relevance ranking, best first, no
/// minimum-score filter. The one bound parameter is the search expression
/// built by `retrieval::keyword_query_expression`.
pub fn keyword_search_from_table_sql(table_name: &str, max_similar_res: usize) -> (r: String)
    ensures
        r@
            == "SELECT *, ts_rank_cd(to_tsvector('english', content_chunk), to_tsquery('english', $1)) as score FROM "@
            + table_name@
            + " WHERE to_tsvector('english', content_chunk) @@ to_tsquery('english', $1) ORDER BY score DESC LIMIT "@
            + spec_digits(max_similar_res as nat),
{
    let lim = fmt_usize(max_similar_res);
    String::from_str(
        "SELECT *, ts_rank_cd(to_tsvector('english', content_chunk), to_tsquery('english', $1)) as score FROM ",
    ).concat(table_name).concat(
        " WHERE to_tsvector('english', content_chunk) @@ to_tsquery('english', $1) ORDER BY score DESC LIMIT ",
    ).concat(lim.as_str())
}

/// The semantic search over the `embedding` column, thresholded at
/// `minimum_score` (given in millionths), best first.
pub fn semantic_search_from_table_sql(
    table_name: &str,
    max_similar_res: usize,
    minimum_score: i64,
) -> (r: String)
    requires
        minimum_score > i64::MIN,
    ensures
        r@
            == "SELECT *, CAST((1.0 - (embedding <=> $1::vector)) AS float4) AS score FROM "@
            + table_name@
            + " WHERE\n    CAST((1.0-(embedding <=> $1::vector)) AS float4) >= "@
            + spec_score_text(minimum_score as int) + " ORDER BY score DESC LIMIT "@
            + spec_digits(max_similar_res as nat),
{
    let score = fmt_score_micros(minimum_score);
    let lim = fmt_usize(max_similar_res);
    String::from_str(
        "SELECT *, CAST((1.0 - (embedding <=> $1::vector)) AS float4) AS score FROM ",
    ).concat(table_name).concat(
        " WHERE\n    CAST((1.0-(embedding <=> $1::vector)) AS float4) >= ",
    ).concat(score.as_str()).concat(" ORDER BY score DESC LIMIT ").concat(lim.as_str())
}

/// The hybrid search: semantic and keyword candidate pools of
/// `max_similar_res * HYBRID_SEARCH_RATIO` rows each, fused in the store by
/// summed reciprocal-rank scores, deduplicated by row id, best first.
pub fn hybrid_saerch_from_table_sql(table_name: &str, max_similar_res: usize) -> (r: String)
    requires
        max_similar_res * 5 <= usize::MAX,
    ensures
        r@ == "\n    WITH scored_results AS (\n        SELECT "@ + table_name@
            + ".*, CAST(sum(rrf_score("@ + table_name@ + ".rank)) OVER (PARTITION BY "@
            + table_name@
            + ".id) AS float4) AS score\n        FROM (\n            (\n                SELECT *, rank() OVER (ORDER BY $1 <=> embedding) AS rank FROM "@
            + table_name@ + "\n                ORDER BY $1 <=> embedding LIMIT "@
            + spec_digits((max_similar_res * 5) as nat)
            + "\n            )\n            UNION ALL\n            (\n                SELECT *, rank() OVER (ORDER BY ts_rank_cd(to_tsvector(content_chunk), plainto_tsquery($2)) DESC) AS rank\n                FROM "@
            + table_name@
            + "\n                WHERE\n                    plainto_tsquery('english', $2) @@ to_tsvector('english', content_chunk)\n                ORDER BY rank\n                LIMIT "@
            + spec_digits((max_similar_res * 5) as nat) + "\n            )\n        ) "@
            + table_name@
            + "\n    ),\n    ranked_results AS (\n        SELECT *, ROW_NUMBER() OVER (PARTITION BY id ORDER BY score DESC) as row_num\n        FROM scored_results    \n    )\n    SELECT *\n    FROM ranked_results\n    WHERE row_num = 1\n    ORDER BY score DESC\n    LIMIT "@
            + spec_digits(max_similar_res as nat) + "\n    "@,
{
    let max_hybrid_res = max_similar_res * HYBRID_SEARCH_RATIO;
    let pool = fmt_usize(max_hybrid_res);
    let lim = fmt_usize(max_similar_res);
    String::from_str("\n    WITH scored_results AS (\n        SELECT ").concat(table_name).concat(
        ".*, CAST(sum(rrf_score(",
    ).concat(table_name).concat(".rank)) OVER (PARTITION BY ").concat(table_name).concat(
        ".id) AS float4) AS score\n        FROM (\n            (\n                SELECT *, rank() OVER (ORDER BY $1 <=> embedding) AS rank FROM ",
    ).concat(table_name).concat("\n                ORDER BY $1 <=> embedding LIMIT ")
        .concat(pool.as_str()).concat(
        "\n            )\n            UNION ALL\n            (\n                SELECT *, rank() OVER (ORDER BY ts_rank_cd(to_tsvector(content_chunk), plainto_tsquery($2)) DESC) AS rank\n                FROM ",
    ).concat(table_name).concat(
        "\n                WHERE\n                    plainto_tsquery('english', $2) @@ to_tsvector('english', content_chunk)\n                ORDER BY rank\n                LIMIT ",
    ).concat(pool.as_str()).concat("\n            )\n        ) ").concat(table_name).concat(
        "\n    ),\n    ranked_results AS (\n        SELECT *, ROW_NUMBER() OVER (PARTITION BY id ORDER BY score DESC) as row_num\n        FROM scored_results    \n    )\n    SELECT *\n    FROM ranked_results\n    WHERE row_num = 1\n    ORDER BY score DESC\n    LIMIT ",
    ).concat(lim.as_str()).concat("\n    ")
}

} // verus!
