//! Model lifecycle and inference orchestration for a local model-serving
//! daemon: a catalog of models known on disk, an in-memory table of loaded
//! model instances, the autoregressive token-generation loop with its
//! stopping rules, chat-prompt templating, and the shaping of generate/chat
//! responses for an Ollama-compatible API surface.

pub mod backend;
pub mod config;
pub mod engine;
pub mod errors;
pub mod manager;
pub mod messages;
pub mod orchestrator;
pub mod template;
pub mod tokenizer;

use vstd::prelude::*;

verus! {

} // verus!
