//! Exact-output tests of the response encoder and the JSON escaping.

use lumos::encode::{json_quote, OutboundRecord, ResponseShape};

fn record(shape: ResponseShape, done: bool, content: &str) -> OutboundRecord {
    OutboundRecord {
        model: String::from("glm-4-plus"),
        created_at: String::from("2024-01-02T03:04:05+00:00"),
        shape,
        done,
        content: String::from(content),
    }
}

#[test]
fn chat_delta_record_exact_text() {
    let line = record(ResponseShape::Chat, false, "Bei").render();
    assert_eq!(
        line,
        "{\"model\":\"glm-4-plus\",\"created_at\":\"2024-01-02T03:04:05+00:00\",\"message\":{\"role\":\"assistant\",\"content\":\"Bei\",\"images\":null},\"done\":false}\n"
    );
}

#[test]
fn generate_delta_record_exact_text() {
    let line = record(ResponseShape::Generate, false, "Bei").render();
    assert_eq!(
        line,
        "{\"model\":\"glm-4-plus\",\"created_at\":\"2024-01-02T03:04:05+00:00\",\"response\":\"Bei\",\"done\":false}\n"
    );
}

#[test]
fn generate_done_record_exact_text() {
    let line = record(ResponseShape::Generate, true, "").render();
    assert_eq!(
        line,
        "{\"model\":\"glm-4-plus\",\"created_at\":\"2024-01-02T03:04:05+00:00\",\"response\":\"\",\"done\":true,\"context\":[1,2,3],\"total_duration\":122112,\"load_duration\":123112,\"prompt_eval_count\":26,\"prompt_eval_duration\":130079000,\"eval_count\":259,\"eval_duration\":2433122}\n"
    );
}

#[test]
fn chat_done_record_carries_empty_message() {
    let line = record(ResponseShape::Chat, true, "").render();
    assert!(line.contains("\"message\":{\"role\":\"assistant\",\"content\":\"\",\"images\":null}"));
    assert!(line.contains("\"done\":true"));
    assert!(line.contains("\"eval_duration\":2433122"));
    let parsed: serde_json::Value = serde_json::from_str(line.trim_end()).unwrap();
    assert_eq!(parsed["message"]["content"].as_str().unwrap(), "");
}

#[test]
fn json_quote_plain_text() {
    assert_eq!(json_quote("hello"), "\"hello\"");
    assert_eq!(json_quote(""), "\"\"");
}

#[test]
fn json_quote_escapes() {
    assert_eq!(json_quote("a\"b"), "\"a\\\"b\"");
    assert_eq!(json_quote("a\\b"), "\"a\\\\b\"");
    assert_eq!(json_quote("a\nb"), "\"a\\nb\"");
    assert_eq!(json_quote("a\rb"), "\"a\\rb\"");
    assert_eq!(json_quote("a\tb"), "\"a\\tb\"");
    assert_eq!(json_quote("a\u{8}b"), "\"a\\bb\"");
    assert_eq!(json_quote("a\u{c}b"), "\"a\\fb\"");
    assert_eq!(json_quote("a\u{1f}b"), "\"a\\u001fb\"");
    assert_eq!(json_quote("a\u{0}b"), "\"a\\u0000b\"");
}

#[test]
fn json_quote_keeps_unicode() {
    assert_eq!(json_quote("北京"), "\"北京\"");
}

#[test]
fn json_quote_agrees_with_serde_json() {
    for s in ["hello", "a\"b\\c", "line\nbreak", "tab\there", "北京 café", "\u{1}\u{1f}"] {
        let expected = serde_json::to_string(s).unwrap();
        assert_eq!(json_quote(s), expected);
    }
}

#[test]
fn content_with_quotes_still_renders_one_line() {
    let line = record(ResponseShape::Generate, false, "say \"hi\"\nplease").render();
    assert_eq!(line.matches('\n').count(), 1);
    let parsed: serde_json::Value = serde_json::from_str(line.trim_end()).unwrap();
    assert_eq!(parsed["response"].as_str().unwrap(), "say \"hi\"\nplease");
}
