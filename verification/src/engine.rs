//! The model instance table and the token-generation loop.
//!
//! The table maps each model identifier to at most one loaded instance. An
//! instance carries either a concrete backend (weights, tokenizer and
//! sampler handles of the consumed inference capability) or a scripted
//! backend: a pre-recorded token sequence with the reference tokenizer,
//! whose generation behaviour is stated exactly and proved. A generation
//! call takes its instance out of the table for its whole run and puts it
//! back, so no two generations can ever interleave on one instance.

use crate::backend::clear_kv_cache;
use crate::backend::duration_nanos;
use crate::backend::elapsed_since;
use crate::backend::fresh_session_id;
use crate::backend::instant_now;
use crate::backend::model_forward;
use crate::backend::now_rfc3339;
use crate::backend::penalize_repeats;
use crate::backend::sample_token;
use crate::backend::tensor_of_tokens;
use crate::backend::tensor_squeeze_front;
use crate::backend::tensor_unsqueeze_front;
use crate::backend::tok_decode_text;
use crate::backend::tok_encode_ids;
use crate::backend::tok_token_to_id;
use crate::config::InferenceConfig;
use crate::errors::EngineError;
use crate::messages::ChatMessage;
use crate::messages::ChatRequest;
use crate::messages::ChatResponse;
use crate::messages::GenerationRequest;
use crate::messages::GenerationResponse;
use crate::template::render_chat_prompt;
use crate::template::render_spec;
use crate::tokenizer::decode_ids;
use crate::tokenizer::encode_chars;
use crate::tokenizer::is_trimmed;
use crate::tokenizer::str_eq;
use crate::tokenizer::trim_spec;
use crate::tokenizer::trim_text;
use crate::tokenizer::CharTokenizer;
use crate::tokenizer::CHAR_BOS;
use crate::tokenizer::CHAR_EOS;
use vstd::prelude::*;
use vstd::string::StringExecFns;

verus! {

/// The loaded resources a generation call runs against.
pub enum BackendHandle {
    /// Handles of the concrete inference capability, materialized by the
    /// shell that read the weight and tokenizer files.
    Candle {
        weights: candle_transformers::models::quantized_llama::ModelWeights,
        tokenizer: tokenizers::Tokenizer,
        sampler: candle_transformers::generation::LogitsProcessor,
        device: candle_core::Device,
        /// The repeat penalty as a scalar tensor, materialized by the
        /// shell from the configuration.
        penalty: candle_core::Tensor,
    },
    /// A stub backend whose sampler plays back a fixed token sequence
    /// against the reference tokenizer.
    Scripted { script: Vec<u32> },
}

/// An in-memory, loaded model ready for inference.
pub struct ModelInstance {
    pub model_id: String,
    pub backend: BackendHandle,
    pub config: InferenceConfig,
    pub session_id: String,
    pub last_used_nanos: u64,
}

/// What one generation run produced, before response shaping.
pub struct GenOutcome {
    pub text: String,
    pub done: bool,
    pub context: Vec<u32>,
    pub prompt_tokens: usize,
    pub generated_tokens: usize,
}

/// The token sequence with a leading beginning-of-sequence token, added
/// unless it is already there.
pub open spec fn with_bos(ids: Seq<u32>, bos: u32) -> Seq<u32> {
    if ids.len() > 0 && ids[0] == bos {
        ids
    } else {
        seq![bos] + ids
    }
}

/// How many tokens a playback of `script` emits under an output budget:
/// tokens are emitted in order until the end token has been emitted or the
/// budget is exhausted, whichever comes first; a script that runs out first
/// stops the loop early.
pub open spec fn gen_count(script: Seq<u32>, eos: u32, budget: nat) -> nat
    decreases budget,
{
    if budget == 0 || script.len() == 0 {
        0
    } else if script[0] == eos {
        1
    } else {
        (1 + gen_count(script.drop_first(), eos, (budget - 1) as nat)) as nat
    }
}

/// The tokens a playback of `script` emits.
pub open spec fn scripted_tokens(script: Seq<u32>, eos: u32, budget: nat) -> Seq<u32> {
    script.take(gen_count(script, eos, budget) as int)
}

/// Whether a playback completes: it does unless the script runs out before
/// the end token and before the budget.
pub open spec fn scripted_done(script: Seq<u32>, eos: u32, budget: nat) -> bool {
    let n = gen_count(script, eos, budget);
    n == budget || (n > 0 && script[n - 1] == eos)
}

/// The text a scripted generation returns for a prompt: the emitted tokens
/// decoded by the reference tokenizer and trimmed; an empty encoding yields
/// empty text at once.
pub open spec fn scripted_text(prompt: Seq<char>, script: Seq<u32>, budget: nat) -> Seq<char> {
    if encode_chars(prompt).len() == 0 {
        Seq::empty()
    } else {
        trim_spec(decode_ids(scripted_tokens(script, CHAR_EOS, budget)))
    }
}

/// Emitting a prefix free of the end token only shifts the playback window.
proof fn lemma_gen_count_prefix(script: Seq<u32>, eos: u32, budget: nat, i: int)
    requires
        0 <= i <= budget,
        i <= script.len(),
        forall|k: int| 0 <= k < i ==> script[k] != eos,
    ensures
        gen_count(script, eos, budget) == i + gen_count(script.skip(i), eos, (budget - i) as nat),
    decreases i,
{
    if i == 0 {
        assert(script.skip(0) =~= script);
    } else {
        lemma_gen_count_prefix(script.drop_first(), eos, (budget - 1) as nat, i - 1);
        assert(script.drop_first().skip(i - 1) =~= script.skip(i));
    }
}

/// With `max_tokens` as the budget and a script that never carries the end
/// token, exactly `max_tokens` tokens come out; with the first end token at
/// index `k` of the script, exactly `k + 1` tokens come out and the
/// playback completes.
pub proof fn lemma_sampling_terminates(script: Seq<u32>, eos: u32, budget: nat)
    ensures
        (forall|k: int| 0 <= k < script.len() ==> script[k] != eos) && script.len() >= budget
            ==> gen_count(script, eos, budget) == budget && scripted_done(script, eos, budget),
        forall|k: int|
            0 <= k < script.len() && k < budget && script[k] == eos && (forall|j: int|
                0 <= j < k ==> script[j] != eos) ==> gen_count(script, eos, budget) == k + 1
                && scripted_done(script, eos, budget),
{
    if (forall|k: int| 0 <= k < script.len() ==> script[k] != eos) && script.len() >= budget {
        lemma_gen_count_prefix(script, eos, budget, budget as int);
    }
    assert forall|k: int|
        0 <= k < script.len() && k < budget && script[k] == eos && (forall|j: int|
            0 <= j < k ==> script[j] != eos) implies gen_count(script, eos, budget) == k + 1
        && scripted_done(script, eos, budget) by {
        lemma_gen_count_prefix(script, eos, budget, k);
        assert(script.skip(k)[0] == eos);
        assert(gen_count(script.skip(k), eos, (budget - k) as nat) == 1);
    }
}

/// Add the beginning-of-sequence token unless it already leads.
fn prepend_bos(ids: Vec<u32>, bos: u32) -> (r: Vec<u32>)
    ensures
        r@ == with_bos(ids@, bos),
{
    let ghost orig = ids@;
    let mut ids = ids;
    if ids.len() == 0 || ids[0] != bos {
        ids.insert(0, bos);
        proof {
            assert(ids@ =~= seq![bos] + orig);
        }
    }
    ids
}

/// How many tokens playback emits and whether it completes.
fn scripted_run_len(script: &Vec<u32>, max_tokens: usize) -> (r: (usize, bool))
    ensures
        r.0 as nat == gen_count(script@, CHAR_EOS, max_tokens as nat),
        r.1 == scripted_done(script@, CHAR_EOS, max_tokens as nat),
        r.0 <= max_tokens,
        r.0 <= script@.len(),
{
    let n = script.len();
    let mut i: usize = 0;
    while i < max_tokens
        invariant
            i <= max_tokens,
            i <= n,
            n == script@.len(),
            forall|k: int| 0 <= k < i ==> script@[k] != CHAR_EOS,
        decreases max_tokens - i,
    {
        if i >= n {
            proof {
                lemma_gen_count_prefix(script@, CHAR_EOS, max_tokens as nat, i as int);
                assert(script@.skip(i as int).len() == 0);
            }
            return (i, false);
        }
        if script[i] == CHAR_EOS {
            proof {
                lemma_gen_count_prefix(script@, CHAR_EOS, max_tokens as nat, i as int);
                assert(script@.skip(i as int)[0] == CHAR_EOS);
            }
            return (i + 1, true);
        }
        i = i + 1;
    }
    proof {
        lemma_gen_count_prefix(script@, CHAR_EOS, max_tokens as nat, i as int);
    }
    (i, true)
}

/// Copy the emitted prefix of the script into the history and the output.
fn play_script(script: &Vec<u32>, n: usize, history: &mut Vec<u32>) -> (r: Vec<u32>)
    requires
        n <= script@.len(),
    ensures
        r@ == script@.take(n as int),
        final(history)@ == old(history)@ + r@,
{
    let mut out: Vec<u32> = Vec::new();
    let mut j: usize = 0;
    while j < n
        invariant
            j <= n,
            n <= script@.len(),
            out@ == script@.take(j as int),
            history@ == old(history)@ + out@,
        decreases n - j,
    {
        let t = script[j];
        history.push(t);
        out.push(t);
        j = j + 1;
        proof {
            assert(out@ =~= script@.take(j as int));
        }
    }
    out
}

/// Generation against the scripted backend: stated exactly and proved.
fn generate_scripted(script: &Vec<u32>, prompt: &str, config: &InferenceConfig) -> (r: GenOutcome)
    requires
        config.valid(),
    ensures
        r.text@ == scripted_text(prompt@, script@, config.max_tokens as nat),
        encode_chars(prompt@).len() == 0 ==> r.done && r.context@ == Seq::<u32>::empty()
            && r.prompt_tokens == 0 && r.generated_tokens == 0,
        encode_chars(prompt@).len() > 0 ==> {
            let emitted = scripted_tokens(script@, CHAR_EOS, config.max_tokens as nat);
            &&& r.done == scripted_done(script@, CHAR_EOS, config.max_tokens as nat)
            &&& r.context@ == with_bos(encode_chars(prompt@), CHAR_BOS) + emitted
            &&& r.prompt_tokens == with_bos(encode_chars(prompt@), CHAR_BOS).len()
            &&& r.generated_tokens == emitted.len()
        },
{
    let tok = CharTokenizer {  };
    let encoded = tok.encode(prompt);
    if encoded.len() == 0 {
        return GenOutcome {
            text: String::new(),
            done: true,
            context: Vec::new(),
            prompt_tokens: 0,
            generated_tokens: 0,
        };
    }
    let mut history = prepend_bos(encoded, CHAR_BOS);
    let prompt_tokens = history.len();
    let (n, done) = scripted_run_len(script, config.max_tokens);
    let generated = play_script(script, n, &mut history);
    let raw = tok.decode(&generated);
    let text = trim_text(raw.as_str());
    let generated_tokens = generated.len();
    GenOutcome { text, done, context: history, prompt_tokens, generated_tokens }
}

/// One concrete sampling step: feed the input tokens at the given
/// position, down-weight the logits of the tokens emitted so far by the
/// repeat penalty, and draw the next token. The consumed sampler applies
/// temperature, top-k and top-p internally, so the penalty acts on the raw
/// logits before the whole chain rather than after nucleus filtering.
fn candle_sample_once(
    weights: &mut candle_transformers::models::quantized_llama::ModelWeights,
    sampler: &mut candle_transformers::generation::LogitsProcessor,
    device: &candle_core::Device,
    penalty: &candle_core::Tensor,
    input: &Vec<u32>,
    pos: usize,
    emitted: &Vec<u32>,
) -> (r: Option<u32>) {
    match tensor_of_tokens(input, device) {
        Ok(t0) => match tensor_unsqueeze_front(&t0) {
            Ok(t1) => match model_forward(weights, &t1, pos) {
                Ok(t2) => match tensor_squeeze_front(&t2) {
                    Ok(t3) => match penalize_repeats(&t3, penalty, emitted) {
                        Ok(t4) => match sample_token(sampler, &t4) {
                            Ok(t) => Some(t),
                            Err(_) => None,
                        },
                        Err(_) => None,
                    },
                    Err(_) => None,
                },
                Err(_) => None,
            },
            Err(_) => None,
        },
        Err(_) => None,
    }
}

/// Generation against the concrete backend. The logits and the sampled
/// tokens are opaque, so the contract states what holds of every outcome:
/// the output budget is respected, the text is trimmed, and the returned
/// context is the prompt history plus the emitted tokens. A failing forward
/// pass or sampler stops the loop and the tokens emitted so far are
/// returned with `done` false.
fn generate_candle(
    weights: &mut candle_transformers::models::quantized_llama::ModelWeights,
    tokenizer: &tokenizers::Tokenizer,
    sampler: &mut candle_transformers::generation::LogitsProcessor,
    device: &candle_core::Device,
    penalty: &candle_core::Tensor,
    prompt: &str,
    config: &InferenceConfig,
) -> (r: Result<GenOutcome, EngineError>)
    requires
        config.valid(),
    ensures
        r matches Ok(o) ==> o.generated_tokens <= config.max_tokens && is_trimmed(o.text@)
            && o.context@.len() == o.prompt_tokens + o.generated_tokens,
        r matches Err(e) ==> e == EngineError::EncodingFailure || e
            == EngineError::DecodingFailure,
{
    let encoded = match tok_encode_ids(tokenizer, prompt) {
        Ok(v) => v,
        Err(_) => {
            return Err(EngineError::EncodingFailure);
        },
    };
    if encoded.len() == 0 {
        return Ok(
            GenOutcome {
                text: String::new(),
                done: true,
                context: Vec::new(),
                prompt_tokens: 0,
                generated_tokens: 0,
            },
        );
    }
    let bos = match tok_token_to_id(tokenizer, "<s>") {
        Some(b) => b,
        None => 1,
    };
    let eos = match tok_token_to_id(tokenizer, "<|endoftext|>") {
        Some(e) => e,
        None => 2,
    };
    let mut history = prepend_bos(encoded, bos);
    let prompt_tokens = history.len();
    clear_kv_cache(weights);
    let mut generated: Vec<u32> = Vec::new();
    let mut done = true;
    let mut stop = false;
    let mut i: usize = 0;
    let ghost base = history@;
    while i < config.max_tokens && !stop
        invariant
            i <= config.max_tokens,
            generated@.len() <= i,
            history@ == base + generated@,
            history@.len() >= 1,
        decreases config.max_tokens - i, (if stop {
            0int
        } else {
            1int
        }),
    {
        let mut input: Vec<u32> = Vec::new();
        let pos: usize;
        if i == 0 {
            let mut j: usize = 0;
            let hn = history.len();
            while j < hn
                invariant
                    j <= hn,
                    hn == history@.len(),
                decreases hn - j,
            {
                input.push(history[j]);
                j = j + 1;
            }
            pos = 0;
        } else {
            input.push(history[history.len() - 1]);
            pos = history.len() - 1;
        }
        let sampled: Option<u32> = candle_sample_once(
            weights,
            sampler,
            device,
            penalty,
            &input,
            pos,
            &generated,
        );
        match sampled {
            Some(t) => {
                history.push(t);
                generated.push(t);
                i = i + 1;
                if t == eos {
                    stop = true;
                }
            },
            None => {
                done = false;
                stop = true;
            },
        }
    }
    let raw = match tok_decode_text(tokenizer, &generated) {
        Ok(s) => s,
        Err(_) => {
            return Err(EngineError::DecodingFailure);
        },
    };
    let text = trim_text(raw.as_str());
    proof {
        crate::tokenizer::lemma_trim_spec_trimmed(raw@);
    }
    let generated_tokens = generated.len();
    Ok(GenOutcome { text, done, context: history, prompt_tokens, generated_tokens })
}

impl ModelInstance {
    /// Run one generation against this instance's backend. The identifier,
    /// session, configuration and backend kind are untouched; a scripted
    /// backend is returned exactly as it was and its outcome is stated
    /// exactly.
    pub fn generate(&mut self, prompt: &str, config: &InferenceConfig) -> (r: Result<
        GenOutcome,
        EngineError,
    >)
        requires
            config.valid(),
        ensures
            final(self).model_id == old(self).model_id,
            final(self).session_id == old(self).session_id,
            final(self).config == old(self).config,
            final(self).last_used_nanos == old(self).last_used_nanos,
            old(self).backend is Scripted ==> final(self).backend == old(self).backend,
            old(self).backend is Candle ==> final(self).backend is Candle,
            old(self).backend matches BackendHandle::Scripted { script } ==> r matches Ok(o) && {
                &&& o.text@ == scripted_text(prompt@, script@, config.max_tokens as nat)
                &&& (encode_chars(prompt@).len() > 0 ==> o.done == scripted_done(
                    script@,
                    CHAR_EOS,
                    config.max_tokens as nat,
                ) && o.generated_tokens == scripted_tokens(
                    script@,
                    CHAR_EOS,
                    config.max_tokens as nat,
                ).len() && o.prompt_tokens == with_bos(encode_chars(prompt@), CHAR_BOS).len()
                    && o.context@ == with_bos(encode_chars(prompt@), CHAR_BOS) + scripted_tokens(
                    script@,
                    CHAR_EOS,
                    config.max_tokens as nat,
                ))
                &&& (encode_chars(prompt@).len() == 0 ==> o.done && o.generated_tokens == 0
                    && o.prompt_tokens == 0)
            },
            old(self).backend is Candle ==> {
                &&& (r matches Ok(o) ==> o.generated_tokens <= config.max_tokens && is_trimmed(
                    o.text@,
                ))
                &&& (r matches Err(e) ==> e == EngineError::EncodingFailure || e
                    == EngineError::DecodingFailure)
            },
    {
        let mut taken = BackendHandle::Scripted { script: Vec::new() };
        core::mem::swap(&mut taken, &mut self.backend);
        match taken {
            BackendHandle::Scripted { script } => {
                let outcome = generate_scripted(&script, prompt, config);
                self.backend = BackendHandle::Scripted { script };
                Ok(outcome)
            },
            BackendHandle::Candle { mut weights, tokenizer, mut sampler, device, penalty } => {
                let r = generate_candle(
                    &mut weights,
                    &tokenizer,
                    &mut sampler,
                    &device,
                    &penalty,
                    prompt,
                    config,
                );
                self.backend = BackendHandle::Candle { weights, tokenizer, sampler, device, penalty };
                r
            },
        }
    }

    /// Open the incremental production mode: encode the prompt and start
    /// the token history with the leading sequence token. An empty history
    /// means an empty prompt, with nothing to generate.
    pub fn begin_generation(&self, prompt: &str) -> (r: Result<Vec<u32>, EngineError>)
        ensures
            self.backend is Scripted ==> (r matches Ok(h) && h@ == (if encode_chars(
                prompt@,
            ).len() == 0 {
                Seq::<u32>::empty()
            } else {
                with_bos(encode_chars(prompt@), CHAR_BOS)
            })),
            self.backend is Candle ==> (r matches Err(e) ==> e == EngineError::EncodingFailure),
    {
        match &self.backend {
            BackendHandle::Scripted { .. } => {
                let tok = CharTokenizer {  };
                let encoded = tok.encode(prompt);
                if encoded.len() == 0 {
                    Ok(encoded)
                } else {
                    Ok(prepend_bos(encoded, CHAR_BOS))
                }
            },
            BackendHandle::Candle { tokenizer, .. } => {
                match tok_encode_ids(tokenizer, prompt) {
                    Ok(encoded) => {
                        if encoded.len() == 0 {
                            return Ok(encoded);
                        }
                        let bos = match tok_token_to_id(tokenizer, "<s>") {
                            Some(b) => b,
                            None => 1,
                        };
                        Ok(prepend_bos(encoded, bos))
                    },
                    Err(_) => Err(EngineError::EncodingFailure),
                }
            },
        }
    }

    /// One pull of the incremental production mode: sample the next token
    /// and append it to the history. `emitted` is how many tokens this run
    /// has produced so far; the caller stops pulling at the end token, at
    /// the output budget, or at a deadline of its own, and the tokens
    /// pulled so far still decode to a partial result.
    pub fn next_token(&mut self, history: &mut Vec<u32>, emitted: usize) -> (r: Result<
        u32,
        EngineError,
    >)
        requires
            1 <= old(history)@.len(),
            emitted <= old(history)@.len(),
        ensures
            final(self).model_id == old(self).model_id,
            final(self).session_id == old(self).session_id,
            final(self).config == old(self).config,
            final(self).last_used_nanos == old(self).last_used_nanos,
            old(self).backend is Scripted ==> final(self).backend == old(self).backend,
            old(self).backend is Candle ==> final(self).backend is Candle,
            old(self).backend matches BackendHandle::Scripted { script } ==> (if emitted
                < script@.len() {
                r == Ok::<u32, EngineError>(script@[emitted as int])
                    && final(history)@ == old(history)@.push(script@[emitted as int])
            } else {
                r == Err::<u32, EngineError>(EngineError::InferenceBackendFailure)
                    && final(history)@ == old(history)@
            }),
            old(self).backend is Candle ==> {
                &&& (r matches Ok(t) ==> final(history)@ == old(history)@.push(t))
                &&& (r matches Err(e) ==> e == EngineError::InferenceBackendFailure
                    && final(history)@ == old(history)@)
            },
    {
        let mut taken = BackendHandle::Scripted { script: Vec::new() };
        core::mem::swap(&mut taken, &mut self.backend);
        match taken {
            BackendHandle::Scripted { script } => {
                let result = if emitted < script.len() {
                    let t = script[emitted];
                    history.push(t);
                    Ok(t)
                } else {
                    Err(EngineError::InferenceBackendFailure)
                };
                self.backend = BackendHandle::Scripted { script };
                result
            },
            BackendHandle::Candle { mut weights, tokenizer, mut sampler, device, penalty } => {
                let mut input: Vec<u32> = Vec::new();
                let pos: usize;
                let hn = history.len();
                if emitted == 0 {
                    clear_kv_cache(&mut weights);
                    let mut j: usize = 0;
                    while j < hn
                        invariant
                            j <= hn,
                            hn == history@.len(),
                            history@ == old(history)@,
                        decreases hn - j,
                    {
                        input.push(history[j]);
                        j = j + 1;
                    }
                    pos = 0;
                } else {
                    input.push(history[hn - 1]);
                    pos = hn - 1;
                }
                let mut emitted_ctx: Vec<u32> = Vec::new();
                let mut k: usize = hn - emitted;
                while k < hn
                    invariant
                        k <= hn,
                        hn == history@.len(),
                        history@ == old(history)@,
                    decreases hn - k,
                {
                    emitted_ctx.push(history[k]);
                    k = k + 1;
                }
                let sampled = candle_sample_once(
                    &mut weights,
                    &mut sampler,
                    &device,
                    &penalty,
                    &input,
                    pos,
                    &emitted_ctx,
                );
                let result = match sampled {
                    Some(t) => {
                        history.push(t);
                        Ok(t)
                    },
                    None => Err(EngineError::InferenceBackendFailure),
                };
                self.backend = BackendHandle::Candle {
                    weights,
                    tokenizer,
                    sampler,
                    device,
                    penalty,
                };
                result
            },
        }
    }

    /// The end-of-sequence token a pulling caller stops at.
    pub fn eos_token(&self) -> (r: u32)
        ensures
            self.backend is Scripted ==> r == CHAR_EOS,
    {
        match &self.backend {
            BackendHandle::Scripted { .. } => CHAR_EOS,
            BackendHandle::Candle { tokenizer, .. } => {
                match tok_token_to_id(tokenizer, "<|endoftext|>") {
                    Some(e) => e,
                    None => 2,
                }
            },
        }
    }

    /// Decode emitted tokens to text, trimmed at both ends when asked.
    pub fn decode_text(&self, tokens: &Vec<u32>, trim_ends: bool) -> (r: Result<
        String,
        EngineError,
    >)
        ensures
            self.backend is Scripted ==> (r matches Ok(s) && s@ == (if trim_ends {
                trim_spec(decode_ids(tokens@))
            } else {
                decode_ids(tokens@)
            })),
            self.backend is Candle ==> {
                &&& (r matches Ok(s) ==> (trim_ends ==> is_trimmed(s@)))
                &&& (r matches Err(e) ==> e == EngineError::DecodingFailure)
            },
    {
        match &self.backend {
            BackendHandle::Scripted { .. } => {
                let tok = CharTokenizer {  };
                let raw = tok.decode(tokens);
                if trim_ends {
                    Ok(trim_text(raw.as_str()))
                } else {
                    Ok(raw)
                }
            },
            BackendHandle::Candle { tokenizer, .. } => {
                match tok_decode_text(tokenizer, tokens) {
                    Ok(raw) => {
                        if trim_ends {
                            proof {
                                crate::tokenizer::lemma_trim_spec_trimmed(raw@);
                            }
                            Ok(trim_text(raw.as_str()))
                        } else {
                            Ok(raw)
                        }
                    },
                    Err(_) => Err(EngineError::DecodingFailure),
                }
            },
        }
    }
}

/// Whether some identifier of the list equals `id`.
pub open spec fn contains_id(ids: Seq<Seq<char>>, id: Seq<char>) -> bool {
    exists|i: int| 0 <= i < ids.len() && ids[i] == id
}

/// The list with the first occurrence of `id` removed.
pub open spec fn remove_id(ids: Seq<Seq<char>>, id: Seq<char>) -> Seq<Seq<char>>
    decreases ids.len(),
{
    if ids.len() == 0 {
        Seq::empty()
    } else if ids[0] == id {
        ids.drop_first()
    } else {
        seq![ids[0]] + remove_id(ids.drop_first(), id)
    }
}

/// No identifier occurs twice.
pub open spec fn unique_ids(ids: Seq<Seq<char>>) -> bool {
    forall|i: int, j: int| 0 <= i < j < ids.len() ==> ids[i] != ids[j]
}

proof fn lemma_remove_id_absent(ids: Seq<Seq<char>>, id: Seq<char>)
    requires
        forall|k: int| 0 <= k < ids.len() ==> ids[k] != id,
    ensures
        remove_id(ids, id) == ids,
    decreases ids.len(),
{
    if ids.len() > 0 {
        lemma_remove_id_absent(ids.drop_first(), id);
        assert(seq![ids[0]] + ids.drop_first() =~= ids);
    }
}

proof fn lemma_remove_id_at(ids: Seq<Seq<char>>, id: Seq<char>, i: int)
    requires
        0 <= i < ids.len(),
        ids[i] == id,
        forall|k: int| 0 <= k < i ==> ids[k] != id,
    ensures
        remove_id(ids, id) == ids.remove(i),
    decreases i,
{
    if i == 0 {
        assert(ids.remove(0) =~= ids.drop_first());
    } else {
        lemma_remove_id_at(ids.drop_first(), id, i - 1);
        assert(seq![ids[0]] + ids.drop_first().remove(i - 1) =~= ids.remove(i));
    }
}

proof fn lemma_remove_id_elements(ids: Seq<Seq<char>>, id: Seq<char>)
    ensures
        forall|k: int|
            0 <= k < remove_id(ids, id).len() ==> contains_id(ids, remove_id(ids, id)[k]),
    decreases ids.len(),
{
    if ids.len() > 0 {
        if ids[0] == id {
            assert forall|k: int| 0 <= k < remove_id(ids, id).len() implies contains_id(
                ids,
                remove_id(ids, id)[k],
            ) by {
                assert(remove_id(ids, id)[k] == ids[k + 1]);
            }
        } else {
            lemma_remove_id_elements(ids.drop_first(), id);
            let rest = remove_id(ids.drop_first(), id);
            assert forall|k: int| 0 <= k < remove_id(ids, id).len() implies contains_id(
                ids,
                remove_id(ids, id)[k],
            ) by {
                if k == 0 {
                    assert(remove_id(ids, id)[0] == ids[0]);
                } else {
                    assert(remove_id(ids, id)[k] == rest[k - 1]);
                    assert(contains_id(ids.drop_first(), rest[k - 1]));
                    let j = choose|j: int|
                        0 <= j < ids.drop_first().len() && ids.drop_first()[j] == rest[k - 1];
                    assert(ids[j + 1] == rest[k - 1]);
                }
            }
        }
    }
}

/// Unloading is idempotent: a first unload of a loaded identifier removes
/// its one instance, so a second unload of the same identifier finds
/// nothing, removes nothing, and (by the contract of `unload_model`, whose
/// result is `contains_id` of the prior state) returns false after a first
/// call that returned true.
pub proof fn lemma_unload_idempotent(ids: Seq<Seq<char>>, id: Seq<char>)
    requires
        unique_ids(ids),
    ensures
        !contains_id(remove_id(ids, id), id),
        remove_id(remove_id(ids, id), id) == remove_id(ids, id),
        unique_ids(remove_id(ids, id)),
    decreases ids.len(),
{
    if ids.len() > 0 {
        if ids[0] == id {
            assert forall|k: int| 0 <= k < ids.drop_first().len() implies ids.drop_first()[k]
                != id by {
                assert(ids.drop_first()[k] == ids[k + 1]);
            }
            lemma_remove_id_absent(ids.drop_first(), id);
        } else {
            lemma_unload_idempotent(ids.drop_first(), id);
            lemma_remove_id_elements(ids.drop_first(), id);
            let rest = remove_id(ids.drop_first(), id);
            let whole = seq![ids[0]] + rest;
            assert forall|k: int| 0 <= k < whole.len() implies whole[k] != id by {
                if k > 0 {
                    assert(whole[k] == rest[k - 1]);
                }
            }
            lemma_remove_id_absent(whole, id);
            assert forall|a: int, b: int| 0 <= a < b < whole.len() implies whole[a] != whole[b] by {
                if a == 0 {
                    assert(whole[b] == rest[b - 1]);
                    assert(contains_id(ids.drop_first(), rest[b - 1]));
                    let j = choose|j: int|
                        0 <= j < ids.drop_first().len() && ids.drop_first()[j] == rest[b - 1];
                    assert(ids[j + 1] == rest[b - 1]);
                    assert(ids[0] != ids[j + 1]);
                } else {
                    assert(whole[a] == rest[a - 1]);
                    assert(whole[b] == rest[b - 1]);
                }
            }
        }
    }
}

/// The prompt a generate request runs: the optional system text, a blank
/// line, then the prompt.
pub open spec fn compose_prompt_spec(system: Option<Seq<char>>, prompt: Seq<char>) -> Seq<char> {
    match system {
        Some(s) => s + "\n\n"@ + prompt,
        None => prompt,
    }
}

pub fn compose_prompt(system: &Option<String>, prompt: &String) -> (r: String)
    ensures
        r@ == compose_prompt_spec(
            match system {
                Some(s) => Some(s@),
                None => None,
            },
            prompt@,
        ),
{
    match system {
        Some(s) => {
            let mut out = s.clone();
            out.append("\n\n");
            out.append(prompt.as_str());
            out
        },
        None => prompt.clone(),
    }
}

/// A count clamped into 32 bits for the usage counters.
pub open spec fn clamp_u32_spec(n: nat) -> u32 {
    if n > 0xFFFF_FFFF {
        0xFFFF_FFFF as u32
    } else {
        n as u32
    }
}

fn clamp_u32(n: usize) -> (r: u32)
    ensures
        r == clamp_u32_spec(n as nat),
{
    if n > 0xFFFF_FFFF {
        0xFFFF_FFFF
    } else {
        n as u32
    }
}

/// What a generation call leaves of the table besides its own run: every
/// instance of another identifier is untouched, and the target keeps its
/// identifier, session and configuration; a scripted backend comes back
/// unchanged and a concrete one stays concrete.
pub open spec fn instance_frame(pre: InferenceEngine, post: InferenceEngine, id: Seq<char>) -> bool {
    let i = pre.index_of(id);
    &&& post.instances_seq().len() == pre.instances_seq().len()
    &&& (forall|j: int|
        0 <= j < pre.instances_seq().len() && j != i ==> #[trigger] post.instances_seq()[j]
            == pre.instances_seq()[j])
    &&& post.instance_of(id).model_id == pre.instance_of(id).model_id
    &&& post.instance_of(id).session_id == pre.instance_of(id).session_id
    &&& post.instance_of(id).config == pre.instance_of(id).config
    &&& (pre.instance_of(id).backend is Scripted ==> post.instance_of(id).backend == pre.instance_of(
        id,
    ).backend)
    &&& (pre.instance_of(id).backend is Candle ==> post.instance_of(id).backend is Candle)
}

/// The instance table and entry points of the serving layer: at most one
/// loaded instance per identifier, loads collapse onto the existing
/// instance, and a generation takes its instance out of the table for the
/// whole run.
pub struct InferenceEngine {
    instances: Vec<ModelInstance>,
    started: std::time::Instant,
}

impl InferenceEngine {
    /// The identifiers of the loaded instances, in load order.
    pub closed spec fn ids(&self) -> Seq<Seq<char>> {
        Seq::new(self.instances@.len(), |i: int| self.instances@[i].model_id@)
    }

    /// The loaded instances, in load order.
    pub closed spec fn instances_seq(&self) -> Seq<ModelInstance> {
        self.instances@
    }

    /// At most one instance per identifier, each with a valid
    /// configuration.
    pub open spec fn wf(&self) -> bool {
        &&& unique_ids(self.ids())
        &&& forall|i: int|
            0 <= i < self.instances_seq().len() ==> self.instances_seq()[i].config.valid()
    }

    /// Whether an instance with this identifier is loaded.
    pub open spec fn is_loaded(&self, id: Seq<char>) -> bool {
        contains_id(self.ids(), id)
    }

    /// The position of the instance with this identifier.
    pub closed spec fn index_of(&self, id: Seq<char>) -> int {
        choose|i: int| 0 <= i < self.ids().len() && self.ids()[i] == id
    }

    /// The loaded instance with this identifier.
    pub open spec fn instance_of(&self, id: Seq<char>) -> ModelInstance {
        self.instances_seq()[self.index_of(id)]
    }

    proof fn lemma_index_of_at(&self, i: int, id: Seq<char>)
        requires
            self.wf(),
            0 <= i < self.ids().len(),
            self.ids()[i] == id,
        ensures
            self.index_of(id) == i,
            self.is_loaded(id),
    {
        let j = self.index_of(id);
        assert(0 <= j < self.ids().len() && self.ids()[j] == id);
    }

    /// An empty table.
    pub fn new() -> (r: Self)
        ensures
            r.wf(),
            r.ids() == Seq::<Seq<char>>::empty(),
            r.instances_seq() == Seq::<ModelInstance>::empty(),
    {
        let r = InferenceEngine { instances: Vec::new(), started: instant_now() };
        proof {
            assert(r.ids() =~= Seq::<Seq<char>>::empty());
        }
        r
    }

    fn find_model(&self, model_id: &str) -> (r: Option<usize>)
        ensures
            r matches Some(i) ==> i < self.ids().len() && self.ids()[i as int] == model_id@,
            r is None ==> !self.is_loaded(model_id@),
    {
        let n = self.instances.len();
        let mut i: usize = 0;
        while i < n
            invariant
                i <= n,
                n == self.instances@.len(),
                forall|k: int| 0 <= k < i ==> self.ids()[k] != model_id@,
            decreases n - i,
        {
            if str_eq(self.instances[i].model_id.as_str(), model_id) {
                return Some(i);
            }
            i = i + 1;
        }
        None
    }

    /// Whether an instance with this identifier is currently loaded.
    pub fn is_loaded_model(&self, model_id: &str) -> (r: bool)
        ensures
            r == self.is_loaded(model_id@),
    {
        match self.find_model(model_id) {
            Some(_) => true,
            None => false,
        }
    }

    /// How many instances are loaded.
    pub fn loaded_count(&self) -> (r: usize)
        ensures
            r == self.ids().len(),
    {
        self.instances.len()
    }

    /// Insert a loaded instance for this identifier unless one is already
    /// there: duplicate loads collapse onto the existing instance, so at
    /// most one load ever takes effect per identifier. Returns whether the
    /// handle was inserted.
    pub fn load_model(&mut self, model_id: &str, backend: BackendHandle, config: InferenceConfig)
        -> (r: bool)
        requires
            old(self).wf(),
            config.valid(),
        ensures
            final(self).wf(),
            r == !old(self).is_loaded(model_id@),
            !r ==> *final(self) == *old(self),
            r ==> final(self).ids() == old(self).ids().push(model_id@),
            r ==> {
                let inst = final(self).instance_of(model_id@);
                &&& final(self).instances_seq() == old(self).instances_seq().push(inst)
                &&& inst.model_id@ == model_id@
                &&& inst.backend == backend
                &&& inst.config == config
                &&& inst.session_id@.len() == 36
            },
    {
        match self.find_model(model_id) {
            Some(i) => {
                proof {
                    self.lemma_index_of_at(i as int, model_id@);
                }
                false
            },
            None => {
                let inst = ModelInstance {
                    model_id: String::from_str(model_id),
                    backend,
                    config,
                    session_id: fresh_session_id(),
                    last_used_nanos: duration_nanos(&elapsed_since(&self.started)),
                };
                self.instances.push(inst);
                proof {
                    assert(self.ids() =~= old(self).ids().push(model_id@));
                    assert forall|i: int, j: int| 0 <= i < j < self.ids().len() implies self.ids()[i]
                        != self.ids()[j] by {
                        if j < self.ids().len() - 1 {
                            assert(old(self).ids()[i] != old(self).ids()[j]);
                        }
                    }
                    self.lemma_index_of_at(self.ids().len() - 1, model_id@);
                }
                true
            },
        }
    }

    /// Remove and release the instance with this identifier if one is
    /// loaded; report whether anything was removed. Never fails for a
    /// missing identifier.
    pub fn unload_model(&mut self, model_id: &str) -> (r: bool)
        requires
            old(self).wf(),
        ensures
            final(self).wf(),
            r == old(self).is_loaded(model_id@),
            final(self).ids() == remove_id(old(self).ids(), model_id@),
            !final(self).is_loaded(model_id@),
            !r ==> *final(self) == *old(self),
            r ==> final(self).instances_seq() == old(self).instances_seq().remove(
                old(self).index_of(model_id@),
            ),
    {
        match self.find_model(model_id) {
            None => {
                proof {
                    lemma_remove_id_absent(self.ids(), model_id@);
                }
                false
            },
            Some(i) => {
                proof {
                    self.lemma_index_of_at(i as int, model_id@);
                }
                let _ = self.instances.remove(i);
                proof {
                    assert(self.ids() =~= old(self).ids().remove(i as int));
                    lemma_remove_id_at(old(self).ids(), model_id@, i as int);
                    lemma_unload_idempotent(old(self).ids(), model_id@);
                    assert(remove_id(old(self).ids(), model_id@) == old(self).ids().remove(
                        i as int,
                    ));
                    assert forall|a: int, b: int|
                        0 <= a < b < self.ids().len() implies self.ids()[a] != self.ids()[b] by {
                        let oa = if a < i {
                            a
                        } else {
                            a + 1
                        };
                        let ob = if b < i {
                            b
                        } else {
                            b + 1
                        };
                        assert(self.ids()[a] == old(self).ids()[oa]);
                        assert(self.ids()[b] == old(self).ids()[ob]);
                    }
                    assert forall|j: int|
                        0 <= j < self.instances_seq().len() implies self.instances_seq()[j].config.valid() by {
                        let oj = if j < i {
                            j
                        } else {
                            j + 1
                        };
                        assert(self.instances_seq()[j] == old(self).instances_seq()[oj]);
                    }
                }
                true
            },
        }
    }

    /// Run a generate request: resolve the instance, compose the prompt
    /// from the optional system text, run the generation loop with the
    /// instance held exclusively, and shape the response. A missing model
    /// is reported as `ModelNotFound` and nothing else is; for an instance
    /// with a scripted backend the whole response is stated exactly.
    pub fn generate(&mut self, request: &GenerationRequest) -> (r: Result<
        GenerationResponse,
        EngineError,
    >)
        requires
            old(self).wf(),
        ensures
            final(self).wf(),
            final(self).ids() == old(self).ids(),
            (r == Err::<GenerationResponse, EngineError>(EngineError::ModelNotFound)) == !old(
                self,
            ).is_loaded(request.model@),
            !old(self).is_loaded(request.model@) ==> *final(self) == *old(self),
            old(self).is_loaded(request.model@) ==> {
                let inst = old(self).instance_of(request.model@);
                let prompt = compose_prompt_spec(
                    match request.system {
                        Some(s) => Some(s@),
                        None => None,
                    },
                    request.prompt@,
                );
                &&& (inst.backend matches BackendHandle::Scripted { script } ==> r matches Ok(resp)
                    && {
                    let budget = inst.config.max_tokens as nat;
                    &&& resp.model@ == request.model@
                    &&& resp.response@ == scripted_text(prompt, script@, budget)
                    &&& resp.done == (encode_chars(prompt).len() == 0 || scripted_done(
                        script@,
                        CHAR_EOS,
                        budget,
                    ))
                    &&& (encode_chars(prompt).len() > 0 ==> resp.eval_count == Some(
                        clamp_u32_spec(scripted_tokens(script@, CHAR_EOS, budget).len() as nat),
                    ) && (resp.context matches Some(ctx) && ctx@ == with_bos(
                        encode_chars(prompt),
                        CHAR_BOS,
                    ) + scripted_tokens(script@, CHAR_EOS, budget)))
                    &&& resp.load_duration is None
                })
                &&& (inst.backend is Candle ==> {
                    &&& (r matches Ok(resp) ==> resp.model@ == request.model@ && is_trimmed(
                        resp.response@,
                    ))
                    &&& (r matches Err(e) ==> e == EngineError::EncodingFailure || e
                        == EngineError::DecodingFailure)
                })
            },
            old(self).is_loaded(request.model@) ==> instance_frame(
                *old(self),
                *final(self),
                request.model@,
            ),
            r matches Ok(resp) ==> resp.load_duration is None && (resp.total_duration matches Some(
                t,
            ) && resp.prompt_eval_duration == Some((t / 10) as u64) && resp.eval_duration == Some(
                (t - t / 10) as u64,
            )),
    {
        let call_start = instant_now();
        let idx = match self.find_model(&request.model) {
            Some(i) => i,
            None => {
                return Err(EngineError::ModelNotFound);
            },
        };
        proof {
            self.lemma_index_of_at(idx as int, request.model@);
        }
        let mut inst = self.instances.remove(idx);
        let ghost removed = old(self).instances_seq().remove(idx as int);
        let cfg = inst.config;
        let prompt = compose_prompt(&request.system, &request.prompt);
        let outcome_r = inst.generate(prompt.as_str(), &cfg);
        inst.last_used_nanos = duration_nanos(&elapsed_since(&self.started));
        self.instances.insert(idx, inst);
        proof {
            assert(self.ids() =~= old(self).ids());
            assert forall|j: int|
                0 <= j < self.instances_seq().len() implies self.instances_seq()[j].config.valid() by {
                if j != idx {
                    assert(self.instances_seq()[j] == removed.insert(idx as int, inst)[j]);
                }
            }
            assert forall|j: int|
                0 <= j < old(self).instances_seq().len() && j != idx implies self.instances_seq()[j]
                    == old(self).instances_seq()[j] by {
                assert(self.instances_seq()[j] == removed.insert(idx as int, inst)[j]);
            }
            self.lemma_index_of_at(idx as int, request.model@);
            assert(self.instances_seq()[idx as int] == inst);
        }
        let outcome = match outcome_r {
            Ok(o) => o,
            Err(e) => {
                return Err(e);
            },
        };
        let total = duration_nanos(&elapsed_since(&call_start));
        let created_at = now_rfc3339();
        Ok(build_generation_response(&request.model, created_at, outcome, total))
    }

    /// Run a chat request: the first system turn becomes the preamble, the
    /// user and assistant turns are rendered through the fixed template,
    /// and the reply comes back as a single assistant message.
    pub fn chat(&mut self, request: &ChatRequest) -> (r: Result<ChatResponse, EngineError>)
        requires
            old(self).wf(),
        ensures
            final(self).wf(),
            final(self).ids() == old(self).ids(),
            (r == Err::<ChatResponse, EngineError>(EngineError::ModelNotFound)) == !old(
                self,
            ).is_loaded(request.model@),
            !old(self).is_loaded(request.model@) ==> *final(self) == *old(self),
            old(self).is_loaded(request.model@) ==> {
                let inst = old(self).instance_of(request.model@);
                let prompt = render_spec(
                    dialog_turns(request.messages@),
                    first_system(request.messages@),
                );
                &&& (inst.backend matches BackendHandle::Scripted { script } ==> r matches Ok(resp)
                    && {
                    let budget = inst.config.max_tokens as nat;
                    &&& resp.model@ == request.model@
                    &&& resp.message.role@ == "assistant"@
                    &&& resp.message.content@ == scripted_text(prompt, script@, budget)
                    &&& resp.done == (encode_chars(prompt).len() == 0 || scripted_done(
                        script@,
                        CHAR_EOS,
                        budget,
                    ))
                })
                &&& (inst.backend is Candle ==> {
                    &&& (r matches Ok(resp) ==> resp.model@ == request.model@ && is_trimmed(
                        resp.message.content@,
                    ) && resp.message.role@ == "assistant"@)
                    &&& (r matches Err(e) ==> e == EngineError::EncodingFailure || e
                        == EngineError::DecodingFailure)
                })
            },
            old(self).is_loaded(request.model@) ==> instance_frame(
                *old(self),
                *final(self),
                request.model@,
            ),
            r matches Ok(resp) ==> resp.load_duration is None && (resp.total_duration matches Some(
                t,
            ) && resp.prompt_eval_duration == Some((t / 10) as u64) && resp.eval_duration == Some(
                (t - t / 10) as u64,
            )),
            old(self).is_loaded(request.model@) ==> {
                let inst = old(self).instance_of(request.model@);
                let prompt = render_spec(
                    dialog_turns(request.messages@),
                    first_system(request.messages@),
                );
                let budget = inst.config.max_tokens as nat;
                inst.backend matches BackendHandle::Scripted { script } ==> r matches Ok(resp) && {
                    &&& (encode_chars(prompt).len() > 0 ==> resp.eval_count == Some(
                        clamp_u32_spec(scripted_tokens(script@, CHAR_EOS, budget).len() as nat),
                    ) && resp.prompt_eval_count == Some(
                        clamp_u32_spec(with_bos(encode_chars(prompt), CHAR_BOS).len() as nat),
                    ))
                    &&& (encode_chars(prompt).len() == 0 ==> resp.eval_count == Some(0u32)
                        && resp.prompt_eval_count == Some(0u32))
                }
            },
    {
        let call_start = instant_now();
        let idx = match self.find_model(&request.model) {
            Some(i) => i,
            None => {
                return Err(EngineError::ModelNotFound);
            },
        };
        proof {
            self.lemma_index_of_at(idx as int, request.model@);
        }
        let system = extract_first_system(&request.messages);
        let dialog = extract_dialog_turns(&request.messages);
        let prompt = render_chat_prompt(&dialog, system.as_ref());
        let mut inst = self.instances.remove(idx);
        let ghost removed = old(self).instances_seq().remove(idx as int);
        let cfg = inst.config;
        let outcome_r = inst.generate(prompt.as_str(), &cfg);
        inst.last_used_nanos = duration_nanos(&elapsed_since(&self.started));
        self.instances.insert(idx, inst);
        proof {
            assert(self.ids() =~= old(self).ids());
            assert forall|j: int|
                0 <= j < self.instances_seq().len() implies self.instances_seq()[j].config.valid() by {
                if j != idx {
                    assert(self.instances_seq()[j] == removed.insert(idx as int, inst)[j]);
                }
            }
            assert forall|j: int|
                0 <= j < old(self).instances_seq().len() && j != idx implies self.instances_seq()[j]
                    == old(self).instances_seq()[j] by {
                assert(self.instances_seq()[j] == removed.insert(idx as int, inst)[j]);
            }
            self.lemma_index_of_at(idx as int, request.model@);
            assert(self.instances_seq()[idx as int] == inst);
        }
        let outcome = match outcome_r {
            Ok(o) => o,
            Err(e) => {
                return Err(e);
            },
        };
        let total = duration_nanos(&elapsed_since(&call_start));
        let created_at = now_rfc3339();
        Ok(build_chat_response(&request.model, created_at, outcome, total))
    }

    /// The session identifier of the loaded instance, if any: an opaque
    /// token distinguishing successive load epochs of one identifier.
    pub fn session_of(&self, model_id: &str) -> (r: Option<String>)
        requires
            self.wf(),
        ensures
            r is Some <==> self.is_loaded(model_id@),
            r matches Some(s) ==> s@ == self.instance_of(model_id@).session_id@,
    {
        match self.find_model(model_id) {
            Some(i) => {
                proof {
                    self.lemma_index_of_at(i as int, model_id@);
                }
                Some(self.instances[i].session_id.clone())
            },
            None => None,
        }
    }

    /// Take the loaded instance out of the table for an exclusive run
    /// elsewhere: until it is restored the identifier is absent, so the
    /// holder is the one generation in flight for that model while the
    /// table stays free for other identifiers.
    pub fn take_instance(&mut self, model_id: &str) -> (r: Option<ModelInstance>)
        requires
            old(self).wf(),
        ensures
            final(self).wf(),
            r is Some <==> old(self).is_loaded(model_id@),
            r is None ==> *final(self) == *old(self),
            r matches Some(inst) ==> inst == old(self).instance_of(model_id@)
                && inst.config.valid() && final(self).instances_seq() == old(
                self,
            ).instances_seq().remove(old(self).index_of(model_id@)) && final(self).ids()
                == remove_id(old(self).ids(), model_id@),
    {
        match self.find_model(model_id) {
            None => None,
            Some(i) => {
                proof {
                    self.lemma_index_of_at(i as int, model_id@);
                }
                let inst = self.instances.remove(i);
                proof {
                    assert(self.ids() =~= old(self).ids().remove(i as int));
                    lemma_remove_id_at(old(self).ids(), model_id@, i as int);
                    assert forall|a: int, b: int|
                        0 <= a < b < self.ids().len() implies self.ids()[a] != self.ids()[b] by {
                        let oa = if a < i {
                            a
                        } else {
                            a + 1
                        };
                        let ob = if b < i {
                            b
                        } else {
                            b + 1
                        };
                        assert(self.ids()[a] == old(self).ids()[oa]);
                        assert(self.ids()[b] == old(self).ids()[ob]);
                    }
                    assert forall|j: int|
                        0 <= j < self.instances_seq().len() implies self.instances_seq()[j].config.valid() by {
                        let oj = if j < i {
                            j
                        } else {
                            j + 1
                        };
                        assert(self.instances_seq()[j] == old(self).instances_seq()[oj]);
                    }
                }
                Some(inst)
            },
        }
    }

    /// Put a taken instance back. If another instance for the identifier
    /// appeared meanwhile the table is left alone and the instance comes
    /// back to the caller.
    pub fn restore_instance(&mut self, inst: ModelInstance) -> (r: Option<ModelInstance>)
        requires
            old(self).wf(),
            inst.config.valid(),
        ensures
            final(self).wf(),
            r is None <==> !old(self).is_loaded(inst.model_id@),
            r is None ==> final(self).instances_seq() == old(self).instances_seq().push(inst)
                && final(self).ids() == old(self).ids().push(inst.model_id@),
            r matches Some(back) ==> back == inst && *final(self) == *old(self),
    {
        match self.find_model(inst.model_id.as_str()) {
            Some(i) => {
                proof {
                    self.lemma_index_of_at(i as int, inst.model_id@);
                }
                Some(inst)
            },
            None => {
                self.instances.push(inst);
                proof {
                    assert(self.ids() =~= old(self).ids().push(inst.model_id@));
                    assert forall|a: int, b: int|
                        0 <= a < b < self.ids().len() implies self.ids()[a] != self.ids()[b] by {
                        if b < self.ids().len() - 1 {
                            assert(old(self).ids()[a] != old(self).ids()[b]);
                        }
                    }
                }
                None
            },
        }
    }

    /// The identifiers of the loaded instances, in load order.
    pub fn list_loaded_models(&self) -> (r: Vec<String>)
        ensures
            r@.len() == self.ids().len(),
            forall|i: int| 0 <= i < r@.len() ==> r@[i]@ == self.ids()[i],
    {
        let n = self.instances.len();
        let mut out: Vec<String> = Vec::new();
        let mut i: usize = 0;
        while i < n
            invariant
                i <= n,
                n == self.instances@.len(),
                out@.len() == i,
                forall|k: int| 0 <= k < i ==> out@[k]@ == self.ids()[k],
            decreases n - i,
        {
            out.push(self.instances[i].model_id.clone());
            i = i + 1;
        }
        out
    }
}

/// The content of the first turn whose role is "system", if any.
pub open spec fn first_system(ms: Seq<ChatMessage>) -> Option<Seq<char>>
    decreases ms.len(),
{
    if ms.len() == 0 {
        None
    } else if ms[0].role@ == "system"@ {
        Some(ms[0].content@)
    } else {
        first_system(ms.drop_first())
    }
}

/// The user and assistant turns, in order.
pub open spec fn dialog_turns(ms: Seq<ChatMessage>) -> Seq<ChatMessage>
    decreases ms.len(),
{
    if ms.len() == 0 {
        Seq::empty()
    } else {
        let rest = dialog_turns(ms.drop_first());
        if ms[0].role@ == "user"@ || ms[0].role@ == "assistant"@ {
            seq![ms[0]] + rest
        } else {
            rest
        }
    }
}

proof fn lemma_first_system_skip(ms: Seq<ChatMessage>, i: int)
    requires
        0 <= i <= ms.len(),
        forall|k: int| 0 <= k < i ==> ms[k].role@ != "system"@,
    ensures
        first_system(ms) == first_system(ms.skip(i)),
    decreases i,
{
    if i == 0 {
        assert(ms.skip(0) =~= ms);
    } else {
        lemma_first_system_skip(ms.drop_first(), i - 1);
        assert(ms.drop_first().skip(i - 1) =~= ms.skip(i));
    }
}

proof fn lemma_dialog_take_step(ms: Seq<ChatMessage>, i: int)
    requires
        0 < i <= ms.len(),
    ensures
        dialog_turns(ms.take(i)) == dialog_turns(ms.take(i - 1)) + (if ms[i - 1].role@ == "user"@
            || ms[i - 1].role@ == "assistant"@ {
            seq![ms[i - 1]]
        } else {
            Seq::<ChatMessage>::empty()
        }),
    decreases i,
{
    let tail = if ms[i - 1].role@ == "user"@ || ms[i - 1].role@ == "assistant"@ {
        seq![ms[i - 1]]
    } else {
        Seq::<ChatMessage>::empty()
    };
    if i == 1 {
        assert(ms.take(1).drop_first() =~= Seq::<ChatMessage>::empty());
        assert(ms.take(0) =~= Seq::<ChatMessage>::empty());
        assert(dialog_turns(ms.take(1)) =~= dialog_turns(ms.take(0)) + tail);
    } else {
        lemma_dialog_take_step(ms.drop_first(), i - 1);
        assert(ms.take(i).drop_first() =~= ms.drop_first().take(i - 1));
        assert(ms.take(i - 1).drop_first() =~= ms.drop_first().take(i - 2));
        assert(dialog_turns(ms.take(i)) =~= dialog_turns(ms.take(i - 1)) + tail);
    }
}

/// The content of the first system turn, if any.
pub fn extract_first_system(messages: &Vec<ChatMessage>) -> (r: Option<String>)
    ensures
        match r {
            Some(s) => first_system(messages@) == Some(s@),
            None => first_system(messages@) is None,
        },
{
    let role_system = String::from_str("system");
    let n = messages.len();
    let mut i: usize = 0;
    while i < n
        invariant
            i <= n,
            n == messages@.len(),
            role_system@ == "system"@,
            forall|k: int| 0 <= k < i ==> messages@[k].role@ != "system"@,
        decreases n - i,
    {
        if messages[i].role == role_system {
            let content = messages[i].content.clone();
            proof {
                lemma_first_system_skip(messages@, i as int);
                assert(messages@.skip(i as int)[0] == messages@[i as int]);
            }
            return Some(content);
        }
        i = i + 1;
    }
    proof {
        lemma_first_system_skip(messages@, n as int);
        assert(messages@.skip(n as int) =~= Seq::<ChatMessage>::empty());
    }
    None
}

/// The user and assistant turns, in order.
pub fn extract_dialog_turns(messages: &Vec<ChatMessage>) -> (r: Vec<ChatMessage>)
    ensures
        r@ == dialog_turns(messages@),
{
    let role_user = String::from_str("user");
    let role_assistant = String::from_str("assistant");
    let n = messages.len();
    let mut out: Vec<ChatMessage> = Vec::new();
    let mut i: usize = 0;
    while i < n
        invariant
            i <= n,
            n == messages@.len(),
            role_user@ == "user"@,
            role_assistant@ == "assistant"@,
            out@ == dialog_turns(messages@.take(i as int)),
        decreases n - i,
    {
        let m = &messages[i];
        if m.role == role_user || m.role == role_assistant {
            let copied = ChatMessage { role: m.role.clone(), content: m.content.clone() };
            proof {
                assert(copied == messages@[i as int]);
            }
            out.push(copied);
        }
        i = i + 1;
        proof {
            lemma_dialog_take_step(messages@, i as int);
            assert(out@ =~= dialog_turns(messages@.take(i as int)));
        }
    }
    proof {
        assert(messages@.take(n as int) =~= messages@);
    }
    out
}

/// Shape a generate outcome into the public response record. The duration
/// split is a documented engineering estimate, not a measurement: a tenth
/// of the wall clock is reported as prompt evaluation and the rest as
/// generation.
pub fn build_generation_response(
    model: &String,
    created_at: String,
    outcome: GenOutcome,
    total_nanos: u64,
) -> (r: GenerationResponse)
    ensures
        r.model == model,
        r.created_at == created_at,
        r.response == outcome.text,
        r.done == outcome.done,
        r.context matches Some(c) && c == outcome.context,
        r.total_duration == Some(total_nanos),
        r.load_duration is None,
        r.prompt_eval_count == Some(clamp_u32_spec(outcome.prompt_tokens as nat)),
        r.prompt_eval_duration == Some(total_nanos / 10),
        r.eval_count == Some(clamp_u32_spec(outcome.generated_tokens as nat)),
        r.eval_duration == Some((total_nanos - total_nanos / 10) as u64),
{
    let tenth = total_nanos / 10;
    GenerationResponse {
        model: model.clone(),
        created_at,
        response: outcome.text,
        done: outcome.done,
        context: Some(outcome.context),
        total_duration: Some(total_nanos),
        load_duration: None,
        prompt_eval_count: Some(clamp_u32(outcome.prompt_tokens)),
        prompt_eval_duration: Some(tenth),
        eval_count: Some(clamp_u32(outcome.generated_tokens)),
        eval_duration: Some(total_nanos - tenth),
    }
}

/// Shape a chat outcome into the public response record: a single
/// assistant message, with the same estimated duration split.
pub fn build_chat_response(model: &String, created_at: String, outcome: GenOutcome, total_nanos: u64)
    -> (r: ChatResponse)
    ensures
        r.model == model,
        r.created_at == created_at,
        r.message.role@ == "assistant"@,
        r.message.content == outcome.text,
        r.done == outcome.done,
        r.total_duration == Some(total_nanos),
        r.load_duration is None,
        r.prompt_eval_count == Some(clamp_u32_spec(outcome.prompt_tokens as nat)),
        r.prompt_eval_duration == Some(total_nanos / 10),
        r.eval_count == Some(clamp_u32_spec(outcome.generated_tokens as nat)),
        r.eval_duration == Some((total_nanos - total_nanos / 10) as u64),
{
    let tenth = total_nanos / 10;
    ChatResponse {
        model: model.clone(),
        created_at,
        message: ChatMessage { role: String::from_str("assistant"), content: outcome.text },
        done: outcome.done,
        total_duration: Some(total_nanos),
        load_duration: None,
        prompt_eval_count: Some(clamp_u32(outcome.prompt_tokens)),
        prompt_eval_duration: Some(tenth),
        eval_count: Some(clamp_u32(outcome.generated_tokens)),
        eval_duration: Some(total_nanos - tenth),
    }
}

} // verus!
