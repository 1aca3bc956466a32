use rust_ollama::config::InferenceConfig;
use rust_ollama::engine::BackendHandle;
use rust_ollama::errors::ApiErrorKind;
use rust_ollama::errors::EngineError;
use rust_ollama::manager::ModelFamily;
use rust_ollama::manager::ModelManager;
use rust_ollama::manager::ModelRecord;
use rust_ollama::messages::ChatMessage;
use rust_ollama::messages::ChatRequest;
use rust_ollama::messages::GenerationRequest;
use rust_ollama::messages::GenerationResponse;
use rust_ollama::orchestrator::split_chunks;
use rust_ollama::orchestrator::stream_generation_records;
use rust_ollama::orchestrator::validate_chat_request;
use rust_ollama::orchestrator::validate_generation_request;

fn record(id: &str, name: &str, size: u64) -> ModelRecord {
    ModelRecord {
        identifier: id.to_string(),
        name: name.to_string(),
        family: ModelFamily::Llama,
        weight_path: format!("/models/{}.gguf", id),
        tokenizer_path: format!("/models/{}.json", id),
        size_bytes: size,
        created_at_unix: 1_700_000_000,
    }
}

fn valid_config() -> InferenceConfig {
    InferenceConfig {
        temperature_milli: 800,
        top_p_milli: 900,
        top_k: 40,
        max_tokens: 8,
        repeat_penalty_milli: 1000,
        seed: None,
    }
}

#[test]
fn stats_three_records_one_running() {
    let mut manager = ModelManager::new();
    let gib: u64 = 1024 * 1024 * 1024;
    assert!(manager.register_model(record("a", "Alpha", 3 * gib)));
    assert!(manager.register_model(record("b", "Beta", 3 * gib)));
    assert!(manager.register_model(record("c", "Gamma", 3 * gib)));
    assert!(manager.engine.load_model(
        "a",
        BackendHandle::Scripted { script: vec![104] },
        valid_config()
    ));
    let stats = manager.get_model_stats();
    assert_eq!(stats.total_models, 3);
    assert_eq!(stats.running_models, 1);
    assert_eq!(stats.total_size_bytes, 9 * gib);
}

#[test]
fn stats_empty_manager() {
    let manager = ModelManager::new();
    let stats = manager.get_model_stats();
    assert_eq!(stats.total_models, 0);
    assert_eq!(stats.running_models, 0);
    assert_eq!(stats.total_size_bytes, 0);
}

#[test]
fn search_is_case_insensitive_in_order() {
    let mut manager = ModelManager::new();
    assert!(manager.register_model(record("1", "Llama Seven", 1)));
    assert!(manager.register_model(record("2", "Mistral", 1)));
    assert!(manager.register_model(record("3", "llama-large", 1)));
    let hits = manager.search_local_models("LLAMA");
    assert_eq!(hits.len(), 2);
    assert_eq!(hits[0].identifier, "1");
    assert_eq!(hits[1].identifier, "3");
}

#[test]
fn search_empty_query_returns_all() {
    let mut manager = ModelManager::new();
    assert!(manager.register_model(record("1", "Alpha", 1)));
    assert!(manager.register_model(record("2", "Beta", 1)));
    assert_eq!(manager.search_local_models("").len(), 2);
    assert_eq!(manager.search_local_models("zzz").len(), 0);
}

#[test]
fn register_is_upsert() {
    let mut manager = ModelManager::new();
    assert!(manager.register_model(record("a", "Old Name", 1)));
    assert!(!manager.register_model(record("a", "New Name", 2)));
    let all = manager.list_local_models();
    assert_eq!(all.len(), 1);
    assert_eq!(all[0].name, "New Name");
    assert_eq!(all[0].size_bytes, 2);
}

#[test]
fn initialize_adds_only_new_identifiers() {
    let mut manager = ModelManager::new();
    assert!(manager.register_model(record("a", "Alpha", 1)));
    let discovered = vec![
        record("a", "Alpha Again", 9),
        record("b", "Beta", 2),
        record("c", "Gamma", 3),
        record("b", "Beta Again", 9),
    ];
    let added = manager.initialize(discovered);
    assert_eq!(added, 2);
    let all = manager.list_local_models();
    assert_eq!(all.len(), 3);
    assert_eq!(all[0].name, "Alpha");
    assert_eq!(all[1].name, "Beta");
    assert_eq!(all[2].name, "Gamma");
    // discovery never loads anything
    assert_eq!(manager.engine.list_loaded_models().len(), 0);
}

#[test]
fn get_model_by_identifier() {
    let mut manager = ModelManager::new();
    assert!(manager.register_model(record("a", "Alpha", 1)));
    assert_eq!(manager.get_model("a").unwrap().name, "Alpha");
    assert!(manager.get_model("b").is_none());
}

#[test]
fn api_error_mapping_per_variant() {
    let cases = [
        (EngineError::ModelNotFound, ApiErrorKind::NotFound, "model not found"),
        (EngineError::LoadFailure, ApiErrorKind::InferenceFailure, "model could not be loaded"),
        (
            EngineError::EncodingFailure,
            ApiErrorKind::InferenceFailure,
            "prompt could not be encoded",
        ),
        (
            EngineError::DecodingFailure,
            ApiErrorKind::InferenceFailure,
            "output could not be decoded",
        ),
        (EngineError::InferenceBackendFailure, ApiErrorKind::InferenceFailure, "inference failed"),
        (
            EngineError::RegistryFailure,
            ApiErrorKind::InferenceFailure,
            "model registry unavailable",
        ),
        (EngineError::ConcurrencyTimeout, ApiErrorKind::Busy, "model busy"),
    ];
    for (err, kind, message) in cases {
        let api = err.to_api_error();
        assert_eq!(api.kind, kind);
        assert_eq!(api.message, message);
    }
}

#[test]
fn validation_requires_model_and_messages() {
    let mut request = GenerationRequest {
        model: String::new(),
        prompt: "p".to_string(),
        system: None,
        context: None,
        stream: false,
        format: None,
    };
    let err = validate_generation_request(&request).unwrap_err();
    assert_eq!(err.kind, ApiErrorKind::BadRequest);
    assert_eq!(err.message, "model identifier required");
    request.model = "m".to_string();
    assert!(validate_generation_request(&request).is_ok());

    let mut chat = ChatRequest { model: "m".to_string(), messages: vec![], stream: false };
    let err = validate_chat_request(&chat).unwrap_err();
    assert_eq!(err.kind, ApiErrorKind::BadRequest);
    assert_eq!(err.message, "at least one message required");
    chat.messages.push(ChatMessage { role: "user".to_string(), content: "hi".to_string() });
    assert!(validate_chat_request(&chat).is_ok());
}

#[test]
fn split_chunks_covers_text() {
    let pieces = split_chunks("abcdefg", 3);
    assert_eq!(pieces, vec!["abc", "def", "g"]);
    assert_eq!(split_chunks("", 3).len(), 0);
}

#[test]
fn stream_records_chunk_then_finish() {
    let response = GenerationResponse {
        model: "m".to_string(),
        created_at: "now".to_string(),
        response: "hello".to_string(),
        done: true,
        context: None,
        total_duration: Some(100),
        load_duration: None,
        prompt_eval_count: Some(2),
        prompt_eval_duration: Some(10),
        eval_count: Some(5),
        eval_duration: Some(90),
    };
    let records = stream_generation_records(response, 2);
    assert_eq!(records.len(), 4);
    let text: String = records.iter().map(|r| r.response.as_str()).collect();
    assert_eq!(text, "hello");
    for partial in &records[..3] {
        assert!(!partial.done);
        assert!(partial.eval_count.is_none());
    }
    let last = records.last().unwrap();
    assert!(last.done);
    assert_eq!(last.response, "");
    assert_eq!(last.eval_count, Some(5));
    assert_eq!(last.total_duration, Some(100));
}
