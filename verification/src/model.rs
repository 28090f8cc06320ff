//! The model-listing surface: the static JSON body of the local
//! model-listing route and the ping body. The text is built by verified
//! code; only the timestamp and the random digest come from outside.

use vstd::prelude::*;
use vstd::string::*;

use crate::encode::{json_quote, json_quoted};
use crate::orchestrate::now_rfc3339;
use crate::text::{hex_of, parse, replace_first, to_hex};

verus! {

/// The kinds of upstream endpoint the gateway can front.
#[derive(PartialEq, Eq, Structural, Clone, Copy, Debug)]
pub enum LLMProvider {
    OpenAI,
    DeepSeek,
}

/// The model name, unchanged; the listing shows names as they are served.
pub fn parse_model_name(model_name: &str) -> (r: &str)
    ensures
        r@ == model_name@,
{
    model_name
}

/// The JSON body of the model-listing route for one model: its wire-form
/// name, a modification timestamp, a digest, and fixed descriptive details.
pub open spec fn tags_json(name: Seq<char>, modified_at: Seq<char>, digest: Seq<char>)
    -> Seq<char> {
    "{\"models\":[{\"name\":"@ + json_quoted(name) + ",\"modified_at\":"@ + json_quoted(
        modified_at,
    ) + ",\"size\":3825819519,\"digest\":"@ + json_quoted(digest)
        + ",\"details\":{\"format\":\"gguf\",\"family\":\"llama\",\"families\":null,\"parameter_size\":\"7B\",\"quantization_level\":\"Q4_0\"}}]}"@
}

/// Builds the model-listing body from its three variable parts.
pub fn tags_body(name: &str, modified_at: &str, digest: &str) -> (r: String)
    ensures
        r@ == tags_json(name@, modified_at@, digest@),
{
    let mut r = String::from_str("{\"models\":[{\"name\":");
    let q_name = json_quote(name);
    r.append(q_name.as_str());
    r.append(",\"modified_at\":");
    let q_modified = json_quote(modified_at);
    r.append(q_modified.as_str());
    r.append(",\"size\":3825819519,\"digest\":");
    let q_digest = json_quote(digest);
    r.append(q_digest.as_str());
    r.append(
        ",\"details\":{\"format\":\"gguf\",\"family\":\"llama\",\"families\":null,\"parameter_size\":\"7B\",\"quantization_level\":\"Q4_0\"}}]}",
    );
    assert(r@ =~= tags_json(name@, modified_at@, digest@));
    r
}

/// Relies on rand::thread_rng and Rng::gen for 32 random bytes; only the
/// length is assumed, nothing about the values.
#[verifier::external_body]
fn random_digest_bytes() -> (r: Vec<u8>)
    ensures
        r@.len() == 32,
{
    let bytes: [u8; 32] = rand::Rng::gen(&mut rand::thread_rng());
    bytes.to_vec()
}

/// The model-listing body for the served model: its name in wire form, the
/// current time, and a fresh synthetic sha256-style digest of 64 random hex
/// digits.
pub fn list_models(model_name: &str) -> (r: String)
    ensures
        exists|modified_at: Seq<char>, bytes: Seq<u8>|
            bytes.len() == 32 && r@ == #[trigger] tags_json(
                replace_first(model_name@, '-', ':'),
                modified_at,
                "sha256:"@ + hex_of(bytes),
            ),
{
    let name = parse(model_name);
    let modified_at = now_rfc3339();
    let bytes = random_digest_bytes();
    let mut digest = String::from_str("sha256:");
    let hex = to_hex(bytes.as_slice());
    digest.append(hex.as_str());
    let r = tags_body(name.as_str(), modified_at.as_str(), digest.as_str());
    proof {
        assert(digest@ == "sha256:"@ + hex_of(bytes@));
        assert(bytes@.len() == 32 && r@ == tags_json(
            replace_first(model_name@, '-', ':'),
            modified_at@,
            "sha256:"@ + hex_of(bytes@),
        ));
    }
    r
}

/// The body of the ping route: the served model's name.
pub fn ping_body(model_name: &str) -> (r: String)
    ensures
        r@ == "{\"model_name\":"@ + json_quoted(model_name@) + "}"@,
{
    let mut r = String::from_str("{\"model_name\":");
    let q_name = json_quote(model_name);
    r.append(q_name.as_str());
    r.append("}");
    assert(r@ =~= "{\"model_name\":"@ + json_quoted(model_name@) + "}"@);
    r
}

} // verus!
