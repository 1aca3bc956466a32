//! Sampling parameters for a generation call.
//!
//! Fractional parameters (temperature, nucleus threshold, repeat penalty)
//! are held in thousandths, so that their bounds can be stated and checked
//! exactly; the shell that drives a concrete backend converts them to the
//! backend's own scale.

use vstd::prelude::*;

verus! {

/// Sampling parameters attached to a model instance or a single call.
///
/// `temperature_milli`, `top_p_milli` and `repeat_penalty_milli` are the
/// usual temperature, nucleus threshold and repeat penalty, each scaled by
/// 1000. A missing `seed` means entropy-seeded, non-deterministic sampling.
#[derive(Clone, Copy)]
pub struct InferenceConfig {
    pub temperature_milli: u32,
    pub top_p_milli: u32,
    pub top_k: usize,
    pub max_tokens: usize,
    pub repeat_penalty_milli: u32,
    pub seed: Option<u64>,
}

impl InferenceConfig {
    /// Temperature positive, nucleus threshold in (0, 1], positive top-k,
    /// positive output budget, repeat penalty at least 1.
    pub open spec fn valid(self) -> bool {
        &&& self.temperature_milli > 0
        &&& 0 < self.top_p_milli <= 1000
        &&& self.top_k > 0
        &&& self.max_tokens > 0
        &&& self.repeat_penalty_milli >= 1000
    }
}

impl Default for InferenceConfig {
    /// Temperature 0.8, top-p 0.9, top-k 40, 512 output tokens, repeat
    /// penalty 1.1, entropy-seeded sampling.
    fn default() -> (r: Self)
        ensures
            r.temperature_milli == 800,
            r.top_p_milli == 900,
            r.top_k == 40,
            r.max_tokens == 512,
            r.repeat_penalty_milli == 1100,
            r.seed is None,
            r.valid(),
    {
        InferenceConfig {
            temperature_milli: 800,
            top_p_milli: 900,
            top_k: 40,
            max_tokens: 512,
            repeat_penalty_milli: 1100,
            seed: None,
        }
    }
}

} // verus!
