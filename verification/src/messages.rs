//! Request and response value objects of the Ollama-compatible surface.

use vstd::prelude::*;

verus! {

/// An inbound generate request.
#[derive(Clone)]
pub struct GenerationRequest {
    pub model: String,
    pub prompt: String,
    pub system: Option<String>,
    pub context: Option<Vec<u32>>,
    pub stream: bool,
    pub format: Option<String>,
}

/// One turn of a chat conversation; the role is "system", "user" or
/// "assistant".
#[derive(Clone)]
pub struct ChatMessage {
    pub role: String,
    pub content: String,
}

/// An inbound chat request.
#[derive(Clone)]
pub struct ChatRequest {
    pub model: String,
    pub messages: Vec<ChatMessage>,
    pub stream: bool,
}

/// The shaped outcome of a generate call.
#[derive(Clone)]
pub struct GenerationResponse {
    pub model: String,
    pub created_at: String,
    pub response: String,
    pub done: bool,
    pub context: Option<Vec<u32>>,
    pub total_duration: Option<u64>,
    pub load_duration: Option<u64>,
    pub prompt_eval_count: Option<u32>,
    pub prompt_eval_duration: Option<u64>,
    pub eval_count: Option<u32>,
    pub eval_duration: Option<u64>,
}

/// The shaped outcome of a chat call: a single assistant message.
#[derive(Clone)]
pub struct ChatResponse {
    pub model: String,
    pub created_at: String,
    pub message: ChatMessage,
    pub done: bool,
    pub total_duration: Option<u64>,
    pub load_duration: Option<u64>,
    pub prompt_eval_count: Option<u32>,
    pub prompt_eval_duration: Option<u64>,
    pub eval_count: Option<u32>,
    pub eval_duration: Option<u64>,
}

} // verus!
