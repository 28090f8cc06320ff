//! The conversation data types threaded through the gateway: messages and
//! the tool-call records they may carry. The content strings are opaque to
//! the gateway; they are passed through unchanged.

use vstd::prelude::*;
use vstd::string::*;

verus! {

/// One function invocation requested by a model.
#[derive(Debug, Clone)]
pub struct FunctionCall {
    pub name: String,
    pub arguments: String,
}

/// One tool call attached to a message.
#[derive(Debug, Clone)]
pub struct ToolCall {
    pub id: String,
    pub function: FunctionCall,
    pub type_: Option<String>,
}

/// One chat message of the inbound Ollama-shaped API.
#[derive(Debug, Clone)]
pub struct Message {
    pub role: String,
    pub content: String,
    pub images: Option<Vec<String>>,
    pub tool_calls: Option<Vec<ToolCall>>,
}

impl Default for Message {
    /// An empty message: no role, no content, no attachments.
    fn default() -> (m: Message)
        ensures
            m.role@ == Seq::<char>::empty(),
            m.content@ == Seq::<char>::empty(),
            m.images is None,
            m.tool_calls is None,
    {
        Message { role: String::new(), content: String::new(), images: None, tool_calls: None }
    }
}

/// One chat message of the outbound OpenAI-shaped call; the same data as
/// `Message`.
#[derive(Debug, Clone)]
pub struct ChatMessage {
    pub role: String,
    pub content: String,
    pub images: Option<Vec<String>>,
    pub tool_calls: Option<Vec<ToolCall>>,
}

impl Default for ChatMessage {
    /// An empty message: no role, no content, no attachments.
    fn default() -> (m: ChatMessage)
        ensures
            m.role@ == Seq::<char>::empty(),
            m.content@ == Seq::<char>::empty(),
            m.images is None,
            m.tool_calls is None,
    {
        ChatMessage { role: String::new(), content: String::new(), images: None, tool_calls: None }
    }
}

/// The single synthetic user message a generate-shape request is rewritten
/// to before it is forwarded upstream.
pub fn user_message(prompt: String) -> (m: Message)
    ensures
        m.role@ == "user"@,
        m.content@ == prompt@,
        m.images is None,
        m.tool_calls is None,
{
    Message {
        role: String::from_str("user"),
        content: prompt,
        images: None,
        tool_calls: None,
    }
}

} // verus!
