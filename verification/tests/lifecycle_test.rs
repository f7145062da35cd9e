use rag_core::schema::{
    create_table_plan, delete_table_plan, is_valid_table_name, KnowledgeBaseRegistry,
};
use rag_core::RagError;

#[test]
fn test_create_idempotent_lifecycle() {
    // Creating "kb1" twice succeeds both times and the registry lists it
    // exactly once; deleting twice is just as harmless.
    let mut registry = KnowledgeBaseRegistry::new();
    assert!(registry.register("kb1".to_string()));
    assert!(!registry.register("kb1".to_string()));
    let listed = registry.list();
    assert_eq!(listed, vec!["kb1".to_string()]);
    assert_eq!(listed.iter().filter(|n| n.as_str() == "kb1").count(), 1);

    registry.unregister("kb1");
    assert_eq!(registry.list(), Vec::<String>::new());
    registry.unregister("kb1");
    assert_eq!(registry.list(), Vec::<String>::new());
}

#[test]
fn test_registry_keeps_insertion_order() {
    let mut registry = KnowledgeBaseRegistry::new();
    registry.register("alpha".to_string());
    registry.register("beta".to_string());
    registry.register("alpha".to_string());
    registry.register("gamma".to_string());
    assert_eq!(
        registry.list(),
        vec!["alpha".to_string(), "beta".to_string(), "gamma".to_string()]
    );
    registry.unregister("beta");
    assert_eq!(registry.list(), vec!["alpha".to_string(), "gamma".to_string()]);
}

#[test]
fn test_unknown_knowledge_base_is_not_found() {
    let mut registry = KnowledgeBaseRegistry::new();
    registry.register("known".to_string());
    assert!(registry.ensure_registered("known").is_ok());
    assert_eq!(registry.ensure_registered("missing"), Err(RagError::NotFound));
    assert_eq!(RagError::NotFound.message(), "not found");
}

#[test]
fn test_table_name_allow_list() {
    assert!(is_valid_table_name("kb1"));
    assert!(is_valid_table_name("my_search_base_2"));
    assert!(!is_valid_table_name(""));
    assert!(!is_valid_table_name("1kb"));
    assert!(!is_valid_table_name("Robert'); DROP TABLE students;--"));
    assert!(!is_valid_table_name("name with spaces"));
    assert!(!is_valid_table_name("UPPER"));
    // 56 characters is one too many.
    let long = "a".repeat(56);
    assert!(!is_valid_table_name(&long));
    let fits = "a".repeat(55);
    assert!(is_valid_table_name(&fits));
}

#[test]
fn test_create_plan_statement_order() {
    let plan = create_table_plan("kb1");
    assert_eq!(plan.len(), 3);
    assert!(plan[0].starts_with("CREATE TABLE IF NOT EXISTS kb1 ("));
    assert!(plan[1].starts_with("CREATE TABLE IF NOT EXISTS kb1_content ("));
    assert_eq!(plan[2], "INSERT INTO search_tables (table_name) VALUES ($1)");
}

#[test]
fn test_delete_plan_statement_order() {
    let plan = delete_table_plan("kb1");
    assert_eq!(
        plan,
        vec![
            "DROP TABLE IF EXISTS kb1".to_string(),
            "DROP TABLE IF EXISTS kb1_content".to_string(),
            "DELETE FROM search_tables WHERE table_name = 'kb1'".to_string(),
        ]
    );
}
