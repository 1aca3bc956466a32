use rust_ollama::config::InferenceConfig;
use rust_ollama::engine::BackendHandle;
use rust_ollama::engine::ModelInstance;
use rust_ollama::engine::InferenceEngine;
use rust_ollama::errors::EngineError;
use rust_ollama::messages::ChatMessage;
use rust_ollama::messages::ChatRequest;
use rust_ollama::messages::GenerationRequest;
use rust_ollama::template::render_chat_prompt;
use rust_ollama::tokenizer::trim_text;
use rust_ollama::tokenizer::CharTokenizer;
use rust_ollama::tokenizer::CHAR_BOS;
use rust_ollama::tokenizer::CHAR_EOS;

fn test_config(max_tokens: usize) -> InferenceConfig {
    InferenceConfig {
        temperature_milli: 800,
        top_p_milli: 900,
        top_k: 40,
        max_tokens,
        repeat_penalty_milli: 1100,
        seed: Some(7),
    }
}

fn gen_request(model: &str, prompt: &str) -> GenerationRequest {
    GenerationRequest {
        model: model.to_string(),
        prompt: prompt.to_string(),
        system: None,
        context: None,
        stream: false,
        format: None,
    }
}

fn ids(text: &str) -> Vec<u32> {
    text.chars().map(|c| c as u32).collect()
}

#[test]
fn default_config_values() {
    let c = InferenceConfig::default();
    assert_eq!(c.temperature_milli, 800);
    assert_eq!(c.top_p_milli, 900);
    assert_eq!(c.top_k, 40);
    assert_eq!(c.max_tokens, 512);
    assert_eq!(c.repeat_penalty_milli, 1100);
    assert!(c.seed.is_none());
}

#[test]
fn round_trip_decode_encode() {
    let tok = CharTokenizer {};
    let text = "hello world";
    let encoded = tok.encode(text);
    assert_eq!(encoded, ids("hello world"));
    let decoded = tok.decode(&encoded);
    assert_eq!(decoded, text);
}

#[test]
fn round_trip_unicode() {
    let tok = CharTokenizer {};
    let text = "caf\u{e9} \u{2713}";
    let decoded = tok.decode(&tok.encode(text));
    assert_eq!(decoded, text);
}

#[test]
fn encode_empty_is_empty() {
    let tok = CharTokenizer {};
    assert_eq!(tok.encode("").len(), 0);
    assert_eq!(tok.decode(&Vec::new()), "");
}

#[test]
fn decode_skips_special_tokens() {
    let tok = CharTokenizer {};
    let decoded = tok.decode(&vec![CHAR_BOS, 'h' as u32, 'i' as u32, CHAR_EOS]);
    assert_eq!(decoded, "hi");
}

#[test]
fn trim_removes_blanks_at_both_ends() {
    assert_eq!(trim_text("  hi \n"), "hi");
    assert_eq!(trim_text("\t \r\n"), "");
    assert_eq!(trim_text("a"), "a");
    assert_eq!(trim_text("a  b"), "a  b");
}

#[test]
fn chat_template_single_user() {
    let messages = vec![ChatMessage { role: "user".to_string(), content: "Hi".to_string() }];
    let prompt = render_chat_prompt(&messages, None);
    assert_eq!(prompt, "<s>[INST] Hi [/INST]");
    assert!(prompt.starts_with("<s>[INST] "));
    assert!(prompt.ends_with("[/INST]"));
}

#[test]
fn chat_template_with_system() {
    let messages = vec![ChatMessage { role: "user".to_string(), content: "Hi".to_string() }];
    let system = "Be terse".to_string();
    let prompt = render_chat_prompt(&messages, Some(&system));
    assert!(prompt.starts_with("<s>[INST] <<SYS>>Be terse<</SYS>>"));
    assert!(prompt.ends_with("[/INST]"));
}

#[test]
fn chat_template_alternating_turns() {
    let messages = vec![
        ChatMessage { role: "user".to_string(), content: "a".to_string() },
        ChatMessage { role: "assistant".to_string(), content: "b".to_string() },
        ChatMessage { role: "user".to_string(), content: "c".to_string() },
    ];
    let prompt = render_chat_prompt(&messages, None);
    assert_eq!(prompt, "<s>[INST] a b </s> </s><s>[INST] c [/INST]");
}

#[test]
fn sampling_stops_at_max_tokens() {
    let mut engine = InferenceEngine::new();
    let script = ids("vwxyzabc");
    assert!(engine.load_model("m", BackendHandle::Scripted { script }, test_config(5)));
    let resp = engine.generate(&gen_request("m", "q")).unwrap();
    assert_eq!(resp.eval_count, Some(5));
    assert!(resp.done);
    assert_eq!(resp.response, "vwxyz");
}

#[test]
fn sampling_stops_at_eos() {
    let mut engine = InferenceEngine::new();
    let mut script = ids("hi");
    script.push(CHAR_EOS);
    script.extend(ids("junk"));
    assert!(engine.load_model("m", BackendHandle::Scripted { script }, test_config(5)));
    let resp = engine.generate(&gen_request("m", "q")).unwrap();
    assert_eq!(resp.eval_count, Some(3));
    assert!(resp.done);
    assert_eq!(resp.response, "hi");
}

#[test]
fn script_exhaustion_returns_partial() {
    let mut engine = InferenceEngine::new();
    let script = ids("h");
    assert!(engine.load_model("m", BackendHandle::Scripted { script }, test_config(5)));
    let resp = engine.generate(&gen_request("m", "q")).unwrap();
    assert!(!resp.done);
    assert_eq!(resp.eval_count, Some(1));
    assert_eq!(resp.response, "h");
}

#[test]
fn generate_missing_model_not_found() {
    let mut engine = InferenceEngine::new();
    match engine.generate(&gen_request("absent", "q")) {
        Ok(_) => panic!("generation against a missing model must fail"),
        Err(err) => assert_eq!(err, EngineError::ModelNotFound),
    }
}

#[test]
fn empty_prompt_yields_empty_output() {
    let mut engine = InferenceEngine::new();
    assert!(engine.load_model("m", BackendHandle::Scripted { script: ids("xyz") }, test_config(5)));
    let resp = engine.generate(&gen_request("m", "")).unwrap();
    assert_eq!(resp.response, "");
    assert!(resp.done);
    assert_eq!(resp.eval_count, Some(0));
    assert_eq!(resp.prompt_eval_count, Some(0));
}

#[test]
fn context_holds_history_and_output() {
    let mut engine = InferenceEngine::new();
    let mut script = ids("h");
    script.push(CHAR_EOS);
    assert!(engine.load_model("m", BackendHandle::Scripted { script }, test_config(5)));
    let resp = engine.generate(&gen_request("m", "hi")).unwrap();
    let expected = vec![CHAR_BOS, 'h' as u32, 'i' as u32, 'h' as u32, CHAR_EOS];
    assert_eq!(resp.context, Some(expected));
    assert_eq!(resp.prompt_eval_count, Some(3));
}

#[test]
fn system_text_joins_prompt() {
    let mut engine = InferenceEngine::new();
    assert!(engine.load_model("m", BackendHandle::Scripted { script: ids("ok") }, test_config(2)));
    let mut request = gen_request("m", "p");
    request.system = Some("s".to_string());
    let resp = engine.generate(&request).unwrap();
    // prompt "s\n\np" has four characters, plus the leading sequence token
    assert_eq!(resp.prompt_eval_count, Some(5));
}

#[test]
fn unload_twice_true_then_false() {
    let mut engine = InferenceEngine::new();
    assert!(engine.load_model("m", BackendHandle::Scripted { script: ids("x") }, test_config(1)));
    assert!(engine.unload_model("m"));
    assert!(!engine.unload_model("m"));
    assert!(!engine.unload_model("never-loaded"));
}

#[test]
fn duplicate_load_collapses() {
    let mut engine = InferenceEngine::new();
    assert!(engine.load_model("m", BackendHandle::Scripted { script: ids("a") }, test_config(1)));
    assert!(!engine.load_model("m", BackendHandle::Scripted { script: ids("b") }, test_config(1)));
    assert_eq!(engine.list_loaded_models().len(), 1);
    assert!(engine.is_loaded_model("m"));
}

#[test]
fn list_keeps_load_order() {
    let mut engine = InferenceEngine::new();
    for id in ["alpha", "beta", "gamma"] {
        assert!(engine.load_model(
            id,
            BackendHandle::Scripted { script: ids("x") },
            test_config(1)
        ));
    }
    assert_eq!(engine.list_loaded_models(), vec!["alpha", "beta", "gamma"]);
    assert!(engine.unload_model("beta"));
    assert_eq!(engine.list_loaded_models(), vec!["alpha", "gamma"]);
}

#[test]
fn session_identifier_has_uuid_shape() {
    let mut engine = InferenceEngine::new();
    assert!(engine.load_model("m", BackendHandle::Scripted { script: ids("x") }, test_config(1)));
    let session = engine.session_of("m").unwrap();
    assert_eq!(session.len(), 36);
    assert!(engine.session_of("other").is_none());
}

#[test]
fn chat_returns_assistant_message() {
    let mut engine = InferenceEngine::new();
    let mut script = ids("Hello there");
    script.push(CHAR_EOS);
    assert!(engine.load_model("m", BackendHandle::Scripted { script }, test_config(64)));
    let request = ChatRequest {
        model: "m".to_string(),
        messages: vec![
            ChatMessage { role: "system".to_string(), content: "Be terse".to_string() },
            ChatMessage { role: "user".to_string(), content: "Hi".to_string() },
        ],
        stream: false,
    };
    let resp = engine.chat(&request).unwrap();
    assert_eq!(resp.message.role, "assistant");
    assert_eq!(resp.message.content, "Hello there");
    assert!(resp.done);
}

#[test]
fn chat_missing_model_not_found() {
    let mut engine = InferenceEngine::new();
    let request = ChatRequest {
        model: "nope".to_string(),
        messages: vec![ChatMessage { role: "user".to_string(), content: "Hi".to_string() }],
        stream: false,
    };
    match engine.chat(&request) {
        Ok(_) => panic!("chat against a missing model must fail"),
        Err(err) => assert_eq!(err, EngineError::ModelNotFound),
    }
}

fn scripted_instance(script: Vec<u32>, max_tokens: usize) -> ModelInstance {
    ModelInstance {
        model_id: "m".to_string(),
        backend: BackendHandle::Scripted { script },
        config: test_config(max_tokens),
        session_id: "s".to_string(),
        last_used_nanos: 0,
    }
}

#[test]
fn incremental_pull_follows_script() {
    let mut script = ids("ab");
    script.push(CHAR_EOS);
    let mut inst = scripted_instance(script, 5);
    let mut history = inst.begin_generation("hi").unwrap();
    assert_eq!(history, vec![CHAR_BOS, 'h' as u32, 'i' as u32]);
    assert_eq!(inst.eos_token(), CHAR_EOS);
    let mut generated = Vec::new();
    loop {
        if generated.len() >= inst.config.max_tokens {
            break;
        }
        let t = inst.next_token(&mut history, generated.len()).unwrap();
        generated.push(t);
        if t == inst.eos_token() {
            break;
        }
    }
    assert_eq!(generated, vec!['a' as u32, 'b' as u32, CHAR_EOS]);
    assert_eq!(
        history,
        vec![CHAR_BOS, 'h' as u32, 'i' as u32, 'a' as u32, 'b' as u32, CHAR_EOS]
    );
    assert_eq!(inst.decode_text(&generated, true).unwrap(), "ab");
}

#[test]
fn incremental_pull_reports_exhausted_script() {
    let mut inst = scripted_instance(ids("a"), 5);
    let mut history = inst.begin_generation("q").unwrap();
    assert_eq!(inst.next_token(&mut history, 0).unwrap(), 'a' as u32);
    match inst.next_token(&mut history, 1) {
        Ok(_) => panic!("an exhausted script must fail the pull"),
        Err(e) => assert_eq!(e, EngineError::InferenceBackendFailure),
    }
}

#[test]
fn incremental_empty_prompt_has_empty_history() {
    let inst = scripted_instance(ids("a"), 5);
    let history = inst.begin_generation("").unwrap();
    assert!(history.is_empty());
}

#[test]
fn decode_text_trims_only_when_asked() {
    let inst = scripted_instance(Vec::new(), 1);
    let tokens = ids(" a ");
    assert_eq!(inst.decode_text(&tokens, false).unwrap(), " a ");
    assert_eq!(inst.decode_text(&tokens, true).unwrap(), "a");
}

#[test]
fn take_and_restore_instance() {
    let mut engine = InferenceEngine::new();
    assert!(engine.load_model("m", BackendHandle::Scripted { script: ids("x") }, test_config(1)));
    assert!(engine.take_instance("absent").is_none());
    let inst = engine.take_instance("m").unwrap();
    assert_eq!(inst.model_id, "m");
    assert!(!engine.is_loaded_model("m"));
    assert!(engine.restore_instance(inst).is_none());
    assert!(engine.is_loaded_model("m"));
    let duplicate = scripted_instance(ids("y"), 1);
    let returned = engine.restore_instance(duplicate);
    assert!(returned.is_some());
    assert_eq!(engine.list_loaded_models(), vec!["m"]);
}

#[test]
fn durations_split_into_estimates() {
    let mut engine = InferenceEngine::new();
    assert!(engine.load_model("m", BackendHandle::Scripted { script: ids("ok") }, test_config(2)));
    let resp = engine.generate(&gen_request("m", "q")).unwrap();
    let total = resp.total_duration.expect("wall clock is always reported");
    assert!(resp.load_duration.is_none());
    assert_eq!(resp.prompt_eval_duration, Some(total / 10));
    assert_eq!(resp.eval_duration, Some(total - total / 10));
    assert_eq!(
        resp.prompt_eval_duration.unwrap() + resp.eval_duration.unwrap(),
        total
    );
}
