//! Service-level decisions and data: the gateway's error taxonomy, the
//! accept/reject decision on the upstream HTTP status, and the exact JSON
//! body of the outbound chat-completion call. The HTTP transport itself
//! lives outside the library; it hands in plain values.

use vstd::prelude::*;
use vstd::string::*;

use crate::define::Message;
use crate::encode::json_quoted;
use crate::encode::json_quote;
use crate::text::{decimal_of, decimal_string};

verus! {

/// Everything that can go wrong before or instead of streaming. Errors
/// during streaming cannot retract already-sent lines; they only end the
/// stream early and are not represented here.
#[derive(PartialEq, Eq, Structural, Clone, Copy, Debug)]
pub enum GatewayError {
    /// The upstream answered with a non-success HTTP status; surfaced once,
    /// before any NDJSON line is written, and never retried.
    UpstreamRejected(u16),
    /// The requested model is not in the configuration.
    ModelNotFound,
    /// The configuration names an unknown provider.
    InvalidProviderName,
    /// The requested model is not the one this gateway serves.
    ModelMismatch,
}

/// The diagnostic text of each error.
pub open spec fn error_text(e: GatewayError) -> Seq<char> {
    match e {
        GatewayError::UpstreamRejected(status) => "upstream request failed: status "@ + decimal_of(
            status as int,
        ),
        GatewayError::ModelNotFound => "model not found in config"@,
        GatewayError::InvalidProviderName => "invalid provider name"@,
        GatewayError::ModelMismatch => "model name does not match the served model"@,
    }
}

impl GatewayError {
    /// The diagnostic text, as executable code.
    pub fn message(&self) -> (r: String)
        ensures
            r@ == error_text(*self),
    {
        match self {
            GatewayError::UpstreamRejected(status) => {
                let mut r = String::from_str("upstream request failed: status ");
                let digits = decimal_string(*status);
                r.append(digits.as_str());
                r
            },
            GatewayError::ModelNotFound => String::from_str("model not found in config"),
            GatewayError::InvalidProviderName => String::from_str("invalid provider name"),
            GatewayError::ModelMismatch => String::from_str(
                "model name does not match the served model",
            ),
        }
    }
}

/// True when an upstream HTTP status allows the response body to be
/// streamed.
pub fn status_is_success(status: u16) -> (ok: bool)
    ensures
        ok == (200 <= status && status < 300),
{
    200 <= status && status < 300
}

/// The dispatch decision on the upstream status: a non-success status
/// aborts before any stream is constructed, carrying the status; success
/// lets streaming begin. If and only if the status is in the success range
/// is the result `Ok`.
pub fn check_upstream_status(status: u16) -> (r: Result<(), GatewayError>)
    ensures
        r is Ok <==> (200 <= status && status < 300),
        r is Err ==> r == Err::<(), GatewayError>(GatewayError::UpstreamRejected(status)),
{
    if status_is_success(status) {
        Ok(())
    } else {
        Err(GatewayError::UpstreamRejected(status))
    }
}

/// The JSON object for one outbound message.
pub open spec fn message_json(role: Seq<char>, content: Seq<char>) -> Seq<char> {
    "{\"role\":"@ + json_quoted(role) + ",\"content\":"@ + json_quoted(content) + "}"@
}

/// The comma-separated JSON objects of a message list.
pub open spec fn messages_json(msgs: Seq<(Seq<char>, Seq<char>)>) -> Seq<char>
    decreases msgs.len(),
{
    if msgs.len() == 0 {
        Seq::empty()
    } else if msgs.len() == 1 {
        message_json(msgs[0].0, msgs[0].1)
    } else {
        message_json(msgs[0].0, msgs[0].1) + ","@ + messages_json(msgs.skip(1))
    }
}

/// The full JSON body of the outbound chat-completion call: the model, the
/// conversation, and streaming switched on.
pub open spec fn request_body_json(model: Seq<char>, msgs: Seq<(Seq<char>, Seq<char>)>)
    -> Seq<char> {
    "{\"model\":"@ + json_quoted(model) + ",\"messages\":["@ + messages_json(msgs)
        + "],\"stream\":true}"@
}

/// The role and content of each message, in order.
pub open spec fn message_views(msgs: Seq<Message>) -> Seq<(Seq<char>, Seq<char>)> {
    msgs.map_values(|m: Message| (m.role@, m.content@))
}

/// Appending one message appends its object, comma-separated after the
/// first.
proof fn lemma_messages_json_snoc(msgs: Seq<(Seq<char>, Seq<char>)>, m: (Seq<char>, Seq<char>))
    ensures
        messages_json(msgs.push(m)) == if msgs.len() == 0 {
            message_json(m.0, m.1)
        } else {
            messages_json(msgs) + ","@ + message_json(m.0, m.1)
        },
    decreases msgs.len(),
{
    if msgs.len() == 0 {
        assert(msgs.push(m).len() == 1);
        assert(msgs.push(m)[0] == m);
    } else {
        assert(msgs.push(m)[0] == msgs[0]);
        assert(msgs.push(m).skip(1) =~= msgs.skip(1).push(m));
        lemma_messages_json_snoc(msgs.skip(1), m);
        if msgs.len() == 1 {
            assert(msgs.skip(1).len() == 0);
            assert(messages_json(msgs.push(m)) == message_json(msgs[0].0, msgs[0].1) + ","@
                + message_json(m.0, m.1));
        } else {
            assert(message_json(msgs[0].0, msgs[0].1) + ","@ + (messages_json(msgs.skip(1)) + ","@
                + message_json(m.0, m.1)) =~= (message_json(msgs[0].0, msgs[0].1) + ","@
                + messages_json(msgs.skip(1))) + ","@ + message_json(m.0, m.1));
        }
    }
}

/// Builds the one outbound message object, as executable code.
fn message_object(role: &str, content: &str) -> (r: String)
    ensures
        r@ == message_json(role@, content@),
{
    let mut r = String::from_str("{\"role\":");
    let q_role = json_quote(role);
    r.append(q_role.as_str());
    r.append(",\"content\":");
    let q_content = json_quote(content);
    r.append(q_content.as_str());
    r.append("}");
    assert(r@ =~= message_json(role@, content@));
    r
}

/// Builds the exact JSON body the gateway sends upstream.
pub fn chat_request_body(model: &str, messages: &Vec<Message>) -> (r: String)
    ensures
        r@ == request_body_json(model@, message_views(messages@)),
{
    let ghost views = message_views(messages@);
    let mut joined = String::new();
    let n = messages.len();
    let mut i: usize = 0;
    assert(views.take(0) =~= Seq::<(Seq<char>, Seq<char>)>::empty());
    while i < n
        invariant
            n == messages@.len(),
            i <= n,
            views == message_views(messages@),
            joined@ == messages_json(views.take(i as int)),
        decreases n - i,
    {
        proof {
            assert(views[i as int] == (messages@[i as int].role@, messages@[i as int].content@));
            assert(views.take(i + 1) =~= views.take(i as int).push(views[i as int]));
            lemma_messages_json_snoc(views.take(i as int), views[i as int]);
        }
        if i > 0 {
            joined.append(",");
            proof {
                reveal_strlit(",");
                assert(","@ =~= seq![',']);
            }
        }
        let obj = message_object(messages[i].role.as_str(), messages[i].content.as_str());
        joined.append(obj.as_str());
        i = i + 1;
        assert(joined@ =~= messages_json(views.take(i as int)));
    }
    assert(views.take(n as int) =~= views);
    let mut r = String::from_str("{\"model\":");
    let q_model = json_quote(model);
    r.append(q_model.as_str());
    r.append(",\"messages\":[");
    r.append(joined.as_str());
    r.append("],\"stream\":true}");
    assert(r@ =~= request_body_json(model@, views));
    r
}

/// The service stub for the Zhipu GLM provider: it holds the credential the
/// outbound call needs.
pub struct GLMModelService {
    api_key: String,
}

impl GLMModelService {
    /// The held credential.
    pub closed spec fn api_key_view(&self) -> Seq<char> {
        self.api_key@
    }

    /// A service around the given credential.
    pub fn new(api_key: String) -> (s: GLMModelService)
        ensures
            s.api_key_view() == api_key@,
    {
        GLMModelService { api_key }
    }
}

} // verus!
