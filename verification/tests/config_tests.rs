//! Tests of the model configuration, provider names, decoding, and the
//! service-level decisions.

use lumos::config::{Config, Model, ModelConfig, ProviderName};
use lumos::decode::{decode_event, DecodedEvent};
use lumos::define::{user_message, Message};
use lumos::service::{check_upstream_status, status_is_success, GatewayError, GLMModelService};

fn sample_config() -> Config {
    Config::new(vec![
        Model {
            model_name: String::from("deepseek-chat"),
            provider: ProviderName::DeepSeek,
            api_key: String::from("test-key-deepseek"),
            url: String::from("https://api.deepseek.com/chat/completions"),
        },
        Model {
            model_name: String::from("glm-4-plus"),
            provider: ProviderName::Zhipu,
            api_key: String::from("test-key-zhipu"),
            url: String::from("https://open.bigmodel.cn/api/paas/v4/chat/completions"),
        },
    ])
}

#[test]
fn get_model_finds_configured_models() {
    let config = sample_config();
    let model = config.get_model("deepseek-chat").unwrap();
    assert_eq!(model.provider, ProviderName::DeepSeek);
    assert!(config.get_model("non-existent-model").is_none());
    assert_eq!(config.models().len(), 2);
}

#[test]
fn contains_model_matches_lookup() {
    let config = sample_config();
    assert!(config.contains_model("deepseek-chat"));
    assert!(config.contains_model("glm-4-plus"));
    assert!(!config.contains_model("qwen25-72b-instuct"));
    assert!(!config.contains_model(""));
}

#[test]
fn provider_names_parse_case_insensitively() {
    assert_eq!(ProviderName::from_str("zhipu").unwrap(), ProviderName::Zhipu);
    assert_eq!(ProviderName::from_str("ZHIPU").unwrap(), ProviderName::Zhipu);
    assert_eq!(ProviderName::from_str("DeepSeek").unwrap(), ProviderName::DeepSeek);
    assert_eq!(ProviderName::from_str("xinference").unwrap(), ProviderName::Xinference);
    assert_eq!(
        ProviderName::from_str("openrouter").unwrap_err(),
        GatewayError::InvalidProviderName
    );
    assert_eq!(ProviderName::Zhipu.name_str(), "zhipu");
    assert_eq!(ProviderName::DeepSeek.name_str(), "deepseek");
}

#[test]
fn upstream_status_decision() {
    assert!(status_is_success(200));
    assert!(status_is_success(299));
    assert!(!status_is_success(199));
    assert!(!status_is_success(300));
    assert!(check_upstream_status(204).is_ok());
    // an HTTP 401 aborts before any NDJSON line: the caller gets one error
    assert_eq!(
        check_upstream_status(401).unwrap_err(),
        GatewayError::UpstreamRejected(401)
    );
    assert_eq!(
        check_upstream_status(500).unwrap_err(),
        GatewayError::UpstreamRejected(500)
    );
}

#[test]
fn error_messages() {
    assert_eq!(
        GatewayError::UpstreamRejected(401).message(),
        "upstream request failed: status 401"
    );
    assert_eq!(GatewayError::ModelNotFound.message(), "model not found in config");
    assert_eq!(GatewayError::InvalidProviderName.message(), "invalid provider name");
    assert_eq!(
        GatewayError::ModelMismatch.message(),
        "model name does not match the served model"
    );
}

#[test]
fn user_message_wraps_a_prompt() {
    let m = user_message(String::from("What is the capital of China?"));
    assert_eq!(m.role, "user");
    assert_eq!(m.content, "What is the capital of China?");
    assert!(m.images.is_none());
    assert!(m.tool_calls.is_none());
}

#[test]
fn message_default_is_empty() {
    let m = Message::default();
    assert_eq!(m.role, "");
    assert_eq!(m.content, "");
    assert!(m.images.is_none());
    assert!(m.tool_calls.is_none());
}

#[test]
fn model_config_carries_optional_fields() {
    let mc = ModelConfig {
        provider: Some(String::from("deepseek")),
        url: None,
        api_key: Some(String::from("test-key")),
    };
    assert_eq!(mc.provider.as_deref(), Some("deepseek"));
    assert!(mc.url.is_none());
}

#[test]
fn glm_service_holds_its_key() {
    let _svc = GLMModelService::new(String::from("test-key"));
}

#[test]
fn decode_event_classifies_lines() {
    assert!(matches!(decode_event("data: [DONE]"), DecodedEvent::Terminal));
    assert!(matches!(decode_event("  data: [DONE]  "), DecodedEvent::Terminal));
    match decode_event("data: {\"choices\":[{\"delta\":{\"content\":\"Bei\"}}]}") {
        DecodedEvent::ContentDelta(s) => assert_eq!(s, "Bei"),
        _ => panic!("expected a content delta"),
    }
    assert!(matches!(
        decode_event("data: {\"choices\":[{\"delta\":{\"content\":\"\"}}]}"),
        DecodedEvent::Ignorable
    ));
    assert!(matches!(decode_event("data: not json"), DecodedEvent::Ignorable));
    assert!(matches!(decode_event(": keep-alive"), DecodedEvent::Ignorable));
    assert!(matches!(decode_event("event: ping"), DecodedEvent::Ignorable));
}
