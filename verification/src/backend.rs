//! Trusted boundary to the concrete inference backend and tokenizer.
//!
//! The tensor math, the probabilistic sampling chain and the subword
//! tokenization are consumed capabilities: each call into them stands
//! behind one declaration here whose contract Verus believes. Nothing is
//! claimed of logits or sampled tokens beyond their types: the verified
//! generation loop states what holds of its output whatever these calls
//! return.

use vstd::prelude::*;

verus! {

#[verifier::external_type_specification]
#[verifier::external_body]
pub struct ExDevice(candle_core::Device);

#[verifier::external_type_specification]
#[verifier::external_body]
pub struct ExTensor(candle_core::Tensor);

#[verifier::external_type_specification]
#[verifier::external_body]
pub struct ExCandleError(candle_core::Error);

#[verifier::external_type_specification]
#[verifier::external_body]
pub struct ExModelWeights(candle_transformers::models::quantized_llama::ModelWeights);

#[verifier::external_type_specification]
#[verifier::external_body]
pub struct ExLogitsProcessor(candle_transformers::generation::LogitsProcessor);

#[verifier::external_type_specification]
#[verifier::external_body]
pub struct ExTokenizer(tokenizers::Tokenizer);

/// Relies on Tokenizer::encode of the tokenizers crate: the token ids of
/// the text under the loaded vocabulary. Which ids come back depends on the
/// tokenizer value, so nothing is claimed of them.
#[verifier::external_body]
pub(crate) fn tok_encode_ids(t: &tokenizers::Tokenizer, text: &str) -> (r: Result<Vec<u32>, ()>) {
    match t.encode(text, true) {
        Ok(enc) => Ok(enc.get_ids().to_vec()),
        Err(_) => Err(()),
    }
}

/// Relies on Tokenizer::decode of the tokenizers crate: the text of the
/// token ids under the loaded vocabulary, skipping special tokens.
#[verifier::external_body]
pub(crate) fn tok_decode_text(t: &tokenizers::Tokenizer, ids: &Vec<u32>) -> (r: Result<
    String,
    (),
>) {
    match t.decode(ids.as_slice(), true) {
        Ok(s) => Ok(s),
        Err(_) => Err(()),
    }
}

/// Relies on Tokenizer::token_to_id of the tokenizers crate: the id of the
/// given token text, if the vocabulary holds it.
#[verifier::external_body]
pub(crate) fn tok_token_to_id(t: &tokenizers::Tokenizer, token: &str) -> (r: Option<u32>) {
    t.token_to_id(token)
}

/// Relies on Tensor::new of candle: a rank-one tensor holding the ids.
#[verifier::external_body]
pub(crate) fn tensor_of_tokens(ids: &Vec<u32>, device: &candle_core::Device) -> (r: Result<
    candle_core::Tensor,
    candle_core::Error,
>) {
    candle_core::Tensor::new(ids.as_slice(), device)
}

/// Relies on Tensor::unsqueeze of candle: the same data with a leading
/// batch dimension added.
#[verifier::external_body]
pub(crate) fn tensor_unsqueeze_front(t: &candle_core::Tensor) -> (r: Result<
    candle_core::Tensor,
    candle_core::Error,
>) {
    t.unsqueeze(0)
}

/// Relies on Tensor::squeeze of candle: the same data with the leading
/// batch dimension removed when that dimension has size one; a tensor whose
/// leading dimension is larger comes back unchanged.
#[verifier::external_body]
pub(crate) fn tensor_squeeze_front(t: &candle_core::Tensor) -> (r: Result<
    candle_core::Tensor,
    candle_core::Error,
>) {
    t.squeeze(0)
}

/// Relies on ModelWeights::forward of candle: the logits over the next
/// token after the given input, at the given position of the running
/// sequence. The values depend on the loaded weights; nothing is claimed of
/// them. Every caller feeds at least one token: candle's forward assumes a
/// non-empty input.
#[verifier::external_body]
pub(crate) fn model_forward(
    w: &mut candle_transformers::models::quantized_llama::ModelWeights,
    x: &candle_core::Tensor,
    index_pos: usize,
) -> (r: Result<candle_core::Tensor, candle_core::Error>) {
    w.forward(x, index_pos)
}

/// Relies on ModelWeights::clear_kv_cache of candle: drops cached attention
/// state so a fresh sequence can be fed from position zero.
#[verifier::external_body]
pub(crate) fn clear_kv_cache(w: &mut candle_transformers::models::quantized_llama::ModelWeights) {
    w.clear_kv_cache()
}

/// Relies on apply_repeat_penalty of candle: the logits of the given
/// context tokens divided by the penalty. The penalty travels as a scalar
/// tensor that the shell built from the configured value, read back here
/// with Tensor::to_scalar; nothing is claimed of the resulting logits.
#[verifier::external_body]
pub(crate) fn penalize_repeats(
    logits: &candle_core::Tensor,
    penalty: &candle_core::Tensor,
    context: &Vec<u32>,
) -> (r: Result<candle_core::Tensor, candle_core::Error>) {
    let p = penalty.to_scalar()?;
    candle_transformers::utils::apply_repeat_penalty(logits, p, context.as_slice())
}

/// Relies on LogitsProcessor::sample of candle: one token drawn from the
/// logits after the configured temperature, top-k and top-p chain. The draw
/// may be probabilistic, so nothing is claimed of the value.
#[verifier::external_body]
pub(crate) fn sample_token(
    p: &mut candle_transformers::generation::LogitsProcessor,
    logits: &candle_core::Tensor,
) -> (r: Result<u32, candle_core::Error>) {
    p.sample(logits)
}

/// Relies on Uuid::new_v4 of the uuid crate: a fresh random identifier,
/// printed in the hyphenated form of 36 characters.
#[verifier::external_body]
pub(crate) fn fresh_session_id() -> (r: String)
    ensures
        r@.len() == 36,
{
    uuid::Uuid::new_v4().to_string()
}

/// Relies on Utc::now of chrono: the current time, formatted per RFC 3339.
/// The value depends on the clock, so nothing is claimed of it.
#[verifier::external_body]
pub(crate) fn now_rfc3339() -> (r: String) {
    chrono::Utc::now().to_rfc3339()
}

#[verifier::external_type_specification]
#[verifier::external_body]
pub struct ExInstant(std::time::Instant);

/// Relies on Instant::now of std: a reading of the monotonic clock.
#[verifier::external_body]
pub(crate) fn instant_now() -> (r: std::time::Instant) {
    std::time::Instant::now()
}

/// Relies on Instant::elapsed of std: the time since the reading was taken.
#[verifier::external_body]
pub(crate) fn elapsed_since(start: &std::time::Instant) -> (r: std::time::Duration) {
    start.elapsed()
}

/// Relies on Duration::as_nanos of std: the duration in nanoseconds,
/// truncated to 64 bits.
#[verifier::external_body]
pub(crate) fn duration_nanos(d: &std::time::Duration) -> (r: u64) {
    d.as_nanos() as u64
}

} // verus!
