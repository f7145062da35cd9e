//! Application configuration values. Reading and writing the configuration
//! file is the surrounding application's job; the defaults live here.

use vstd::prelude::*;

verus! {

/// The whole configuration: which embedding and inferencing backends to
/// use, where to listen, and the model endpoints.
pub struct AppConfig {
    pub app_config: AppSettings,
    pub web_config: WebSettings,
    pub azure_config_llm_inferencing: AzureConfigLLMInferencing,
    pub azure_config_slm_inferencing: AzureConfigSLMInferencing,
    pub local_embedding_config: LocalEmbeddingConfig,
}

pub struct AppSettings {
    pub maximum_upload_size: u32,
    pub embedding_model: String,
    pub inferencing_model: String,
}

pub struct WebSettings {
    pub ip_address: String,
    pub port: u16,
}

pub struct AzureConfigLLMInferencing {
    pub resource_name: String,
    pub api_version: String,
    pub deployment_id: String,
    pub inferencing_model: String,
}

pub struct AzureConfigSLMInferencing {
    pub resource_name: String,
    pub api_version: String,
    pub deployment_id: String,
    pub inferencing_model: String,
}

pub struct AzureEmbeddingConfig {
    pub resource_name: String,
    pub api_version: String,
    pub deployment_id: String,
    pub embedding_model: String,
    pub dimension: Option<u32>,
}

pub struct LocalEmbeddingConfig {
    pub embedding_model: String,
    pub dimension: usize,
}

impl AppConfig {
    /// The configuration used when no configuration file exists: local
    /// models, loopback address, the deployment's embedding dimension.
    pub fn default() -> (r: Self)
        ensures
            r.app_config.maximum_upload_size == 100,
            r.app_config.embedding_model@ == "local"@,
            r.app_config.inferencing_model@ == "local"@,
            r.web_config.ip_address@ == "127.0.0.1"@,
            r.web_config.port == 8000,
            r.azure_config_llm_inferencing.resource_name@ == "openai"@,
            r.azure_config_llm_inferencing.api_version@ == "2022-12-01"@,
            r.azure_config_llm_inferencing.deployment_id@ == "text-embedding-ada-002"@,
            r.azure_config_llm_inferencing.inferencing_model@ == "text-embedding-ada-002"@,
            r.azure_config_slm_inferencing.resource_name@ == "openai"@,
            r.azure_config_slm_inferencing.api_version@ == "2022-12-01"@,
            r.azure_config_slm_inferencing.deployment_id@ == "text-search-ada-doc-001"@,
            r.azure_config_slm_inferencing.inferencing_model@ == "text-search-ada-doc-001"@,
            r.local_embedding_config.embedding_model@ == "BAAI_V1.5L"@,
            r.local_embedding_config.dimension == 1024,
    {
        Self {
            app_config: AppSettings {
                maximum_upload_size: 100,
                embedding_model: String::from_str("local"),
                inferencing_model: String::from_str("local"),
            },
            web_config: WebSettings { ip_address: String::from_str("127.0.0.1"), port: 8000 },
            azure_config_llm_inferencing: AzureConfigLLMInferencing {
                resource_name: String::from_str("openai"),
                api_version: String::from_str("2022-12-01"),
                deployment_id: String::from_str("text-embedding-ada-002"),
                inferencing_model: String::from_str("text-embedding-ada-002"),
            },
            azure_config_slm_inferencing: AzureConfigSLMInferencing {
                resource_name: String::from_str("openai"),
                api_version: String::from_str("2022-12-01"),
                deployment_id: String::from_str("text-search-ada-doc-001"),
                inferencing_model: String::from_str("text-search-ada-doc-001"),
            },
            local_embedding_config: LocalEmbeddingConfig {
                embedding_model: String::from_str("BAAI_V1.5L"),
                dimension: 1024,
            },
        }
    }
}

} // verus!
