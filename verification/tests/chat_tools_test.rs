use rag_core::azure::{AzureAI, AzureEmbedding};
use rag_core::chat::{MessageType, ModelQuery};
use rag_core::config::AppConfig;
use rag_core::jsontext::{context_json, escape_json, json_string, metadata_json};
use rag_core::numfmt::{fmt_score_micros, fmt_usize};
use rag_core::tools::{Functions, OpenAITools, Parameters, Properties, Property};
use rag_core::types::{Embedding, EmbeddingVectorValue, Metadata};
use rag_core::RagError;

fn reference(text: &str) -> EmbeddingVectorValue {
    EmbeddingVectorValue {
        id: 1,
        content_id: "beef".to_string(),
        content_chunk: text.to_string(),
        chunk_number: 0,
        embedding: Embedding::new(vec![0u32; 1024]).unwrap(),
        metadata: Metadata::new("story.txt".to_string(), "2024-05-01".to_string()),
        created_at: 0,
        score: 950_000,
    }
}

#[test]
fn test_decimal_rendering() {
    assert_eq!(fmt_usize(0), "0");
    assert_eq!(fmt_usize(10), "10");
    assert_eq!(fmt_usize(90210), "90210");
    assert_eq!(fmt_score_micros(500_000), "0.5");
    assert_eq!(fmt_score_micros(900_000), "0.9");
    assert_eq!(fmt_score_micros(123_456), "0.123456");
    assert_eq!(fmt_score_micros(0), "0");
    assert_eq!(fmt_score_micros(1_000_000), "1");
    assert_eq!(fmt_score_micros(2_250_000), "2.25");
    assert_eq!(fmt_score_micros(-250_000), "-0.25");
}

#[test]
fn test_json_escaping() {
    assert_eq!(escape_json("plain"), "plain");
    assert_eq!(escape_json("say \"hi\"\n"), "say \\\"hi\\\"\\n");
    assert_eq!(escape_json("back\\slash\ttab"), "back\\\\slash\\ttab");
    assert_eq!(escape_json("\u{1}"), "\\u0001");
    assert_eq!(json_string("a\"b"), "\"a\\\"b\"");
}

#[test]
fn test_metadata_and_context_json() {
    let m = Metadata::new("story.txt".to_string(), "2024-05-01".to_string());
    assert_eq!(
        metadata_json(&m),
        "{\"source\":\"story.txt\",\"upload_time\":\"2024-05-01\"}"
    );

    let rows = vec![reference("chunk one"), reference("chunk \"two\"")];
    let rendered = context_json(&rows);
    assert_eq!(
        rendered,
        "[{\"content\":\"chunk one\",\"metadata\":{\"source\":\"story.txt\",\"upload_time\":\"2024-05-01\"}},{\"content\":\"chunk \\\"two\\\"\",\"metadata\":{\"source\":\"story.txt\",\"upload_time\":\"2024-05-01\"}}]"
    );
    // It parses as JSON, with both entries intact.
    let value: serde_json::Value = serde_json::from_str(&rendered).unwrap();
    assert_eq!(value.as_array().unwrap().len(), 2);
    assert_eq!(value[1]["content"], serde_json::Value::String("chunk \"two\"".to_string()));
    assert_eq!(context_json(&Vec::new()), "[]");
}

#[test]
fn test_chat_history_and_local_prompt() {
    let mut query = ModelQuery::new();
    let refs = vec![reference("a boy and his dog")];
    query.add_user_message("who is the boy?", "session-1", &refs);
    query.add_assistant_message("session-1", "He is the hero.".to_string());

    let prompt = query.build_local("session-1");
    let expected_context = context_json(&refs);
    let expected = format!(
        "<|im_start|>system\nYou're a friendly and helpful AI Assistant. Be Concise and don't repeat yourself<|im_end|>\n<|im_start|>user\nquestion: \"who is the boy?\"\nreferences: \"{expected_context}\"\n<|im_end|>\n<|im_start|>assistant\nHe is the hero.<|im_end|>\n"
    );
    assert_eq!(prompt, expected);

    // An unknown session renders as an empty prompt.
    assert_eq!(query.build_local("other"), "");

    // A reply to an unknown session opens a bare session.
    let mut fresh = ModelQuery::new();
    fresh.add_assistant_message("s2", "orphan reply".to_string());
    assert_eq!(fresh.build_local("s2"), "<|im_start|>assistant\norphan reply<|im_end|>\n");
}

#[test]
fn test_message_type_labels() {
    assert_eq!(MessageType::System.label(), "system");
    assert_eq!(MessageType::User.label(), "user");
    assert_eq!(MessageType::Assistant.label(), "assistant");
}

#[test]
fn test_tool_builder_collects_required() {
    let tool = OpenAITools::default().with_type("function").with_function(
        Functions::default()
            .with_name("test_function_name")
            .with_description("test_function_description")
            .with_parameters(
                Parameters::default().with_param_type("test_param_type").with_properties(
                    Properties::default()
                        .add_property(
                            Property::new("test_param_name", "string", "test_param_description")
                                .with_required(true),
                        )
                        .add_property(
                            Property::new("optional_param", "string", "optional")
                                .with_enum_values(vec!["a", "b"]),
                        ),
                ),
            ),
    );
    assert_eq!(tool.tool_type, "function");
    assert_eq!(tool.function.name, "test_function_name");
    assert_eq!(tool.function.description, "test_function_description");
    assert_eq!(tool.function.parameters.param_type, "test_param_type");
    assert_eq!(tool.function.parameters.required, vec!["test_param_name"]);
    assert_eq!(tool.function.parameters.properties.props.len(), 2);
    assert_eq!(tool.function.parameters.properties.props[1].enum_values, vec!["a", "b"]);
}

fn create_openai_test_tool() -> OpenAITools<'static> {
    OpenAITools::default().with_type("function").with_function(
        Functions::default()
            .with_name("test_function_name")
            .with_description("test_function_description")
            .with_parameters(
                Parameters::default()
                    .with_param_type("test_param_type")
                    .with_properties(
                        Properties::default().add_property(
                            Property::new(
                                "test_param_name",
                                "string",
                                "test_param_description",
                            )
                            .with_required(true),
                        ),
                    ),
            ),
    )
}

#[test]
fn test_tool_create() {
    let test_tool = create_openai_test_tool().build();

    let built: serde_json::Value = serde_json::from_str(&test_tool).unwrap();
    let expected: serde_json::Value = serde_json::from_str(
        "{
            \"type\": \"function\",
            \"function\": {
                \"name\": \"test_function_name\",
                \"description\": \"test_function_description\",
                \"parameters\": {
                    \"type\": \"test_param_type\",
                    \"properties\": {
                        \"test_param_name\": {
                            \"type\": \"string\",
                            \"description\": \"test_param_description\"
                        }
                    },
                    \"required\": [\"test_param_name\"]
                }
            }
        }",
    )
    .unwrap();
    assert_eq!(built, expected);
}

#[test]
fn test_app_config_defaults() {
    let config = AppConfig::default();
    assert_eq!(config.app_config.maximum_upload_size, 100);
    assert_eq!(config.app_config.embedding_model, "local");
    assert_eq!(config.app_config.inferencing_model, "local");
    assert_eq!(config.web_config.ip_address, "127.0.0.1");
    assert_eq!(config.web_config.port, 8000);
    assert_eq!(config.azure_config_llm_inferencing.resource_name, "openai");
    assert_eq!(config.local_embedding_config.embedding_model, "BAAI_V1.5L");
    assert_eq!(config.local_embedding_config.dimension, 1024);
}

#[test]
fn test_azure_builders() {
    let embedding = AzureEmbedding::default()
        .with_resource_name("testing")
        .with_api_version("2024-02-01")
        .with_deployment_id("testembedding")
        .with_embedding_model("text-embedding-ada-002");
    assert_eq!(embedding.resource_name, "testing");
    assert_eq!(embedding.api_version, "2024-02-01");
    assert_eq!(embedding.deployment_id, "testembedding");
    assert_eq!(embedding.embed_model, "text-embedding-ada-002");

    let chat = AzureAI::new("testing", "2024-02-01", "gpt-4o", "gpt-4o-mini", 2048);
    assert_eq!(chat.resource_name, "testing");
    assert_eq!(chat.inf_model, "gpt-4o-mini");
    assert_eq!(chat.max_token, 2048);
}

#[test]
fn test_error_messages() {
    assert_eq!(RagError::Connection.message(), "connection error");
    assert_eq!(RagError::Configuration.message(), "configuration error");
}
