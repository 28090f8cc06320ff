//! Tests of the outbound request body and the model-listing bodies.

use lumos::define::Message;
use lumos::model::{list_models, parse_model_name, ping_body, tags_body};
use lumos::service::chat_request_body;

fn msg(role: &str, content: &str) -> Message {
    Message {
        role: String::from(role),
        content: String::from(content),
        images: None,
        tool_calls: None,
    }
}

#[test]
fn chat_request_body_exact_text() {
    let messages = vec![msg("user", "Where is the capital of China?")];
    let body = chat_request_body("deepseek-chat", &messages);
    assert_eq!(
        body,
        "{\"model\":\"deepseek-chat\",\"messages\":[{\"role\":\"user\",\"content\":\"Where is the capital of China?\"}],\"stream\":true}"
    );
}

#[test]
fn chat_request_body_joins_messages_and_parses() {
    let messages = vec![
        msg("system", "be brief"),
        msg("user", "who is the boss of SpaceX?"),
        msg("assistant", "Elon Musk"),
    ];
    let body = chat_request_body("glm-4-plus", &messages);
    let parsed: serde_json::Value = serde_json::from_str(&body).unwrap();
    assert_eq!(parsed["model"].as_str().unwrap(), "glm-4-plus");
    assert_eq!(parsed["stream"], serde_json::Value::Bool(true));
    let arr = parsed["messages"].as_array().unwrap();
    assert_eq!(arr.len(), 3);
    assert_eq!(arr[1]["content"].as_str().unwrap(), "who is the boss of SpaceX?");
}

#[test]
fn chat_request_body_escapes_content() {
    let messages = vec![msg("user", "say \"hi\"\nplease")];
    let body = chat_request_body("m", &messages);
    let parsed: serde_json::Value = serde_json::from_str(&body).unwrap();
    assert_eq!(
        parsed["messages"][0]["content"].as_str().unwrap(),
        "say \"hi\"\nplease"
    );
}

#[test]
fn chat_request_body_empty_messages() {
    let body = chat_request_body("m", &Vec::new());
    assert_eq!(body, "{\"model\":\"m\",\"messages\":[],\"stream\":true}");
}

#[test]
fn tags_body_exact_text() {
    let body = tags_body("deepseek:chat", "2024-01-02T03:04:05+00:00", "sha256:00ff");
    assert_eq!(
        body,
        "{\"models\":[{\"name\":\"deepseek:chat\",\"modified_at\":\"2024-01-02T03:04:05+00:00\",\"size\":3825819519,\"digest\":\"sha256:00ff\",\"details\":{\"format\":\"gguf\",\"family\":\"llama\",\"families\":null,\"parameter_size\":\"7B\",\"quantization_level\":\"Q4_0\"}}]}"
    );
}

#[test]
fn list_models_builds_a_listing_for_the_wire_name() {
    let body = list_models("deepseek-chat");
    let parsed: serde_json::Value = serde_json::from_str(&body).unwrap();
    let entry = &parsed["models"].as_array().unwrap()[0];
    assert_eq!(entry["name"].as_str().unwrap(), "deepseek:chat");
    let digest = entry["digest"].as_str().unwrap();
    assert!(digest.starts_with("sha256:"));
    assert_eq!(digest.len(), "sha256:".len() + 64);
    assert!(digest["sha256:".len()..].chars().all(|c| c.is_ascii_hexdigit()));
    assert_eq!(entry["details"]["format"].as_str().unwrap(), "gguf");
}

#[test]
fn parse_model_name_is_identity() {
    assert_eq!(parse_model_name("deepseek-chat"), "deepseek-chat");
}

#[test]
fn ping_body_names_the_model() {
    assert_eq!(ping_body("glm-4-plus"), "{\"model_name\":\"glm-4-plus\"}");
}
