//! How tokens are sampled.

use vstd::prelude::*;

use crate::float_bits::F32;

verus! {

/// A language that the output is held to.
#[derive(Debug, Clone)]
pub enum Grammar {
    /// A grammar in GBNF.
    Gbnf { source: String },
    /// A JSON Schema.
    JsonSchema { schema: serde_json::Value },
    /// A regular expression.
    Regex { pattern: String },
}

/// How tokens are sampled.
#[derive(Debug, Clone)]
pub struct SamplingParams {
    pub temperature: F32,
    pub top_p: F32,
    pub top_k: u32,
    pub repetition_penalty: F32,
    pub seed: Option<u64>,
    pub grammar: Option<Grammar>,
}

/// The bits of `0.7`.
pub const DEFAULT_TEMPERATURE_BITS: u32 = 0x3f33_3333;

/// The bits of `0.95`.
pub const DEFAULT_TOP_P_BITS: u32 = 0x3f73_3333;

/// The bits of `1`.
pub const ONE_BITS: u32 = 0x3f80_0000;

/// The bits of `0`.
pub const ZERO_BITS: u32 = 0;

impl Default for SamplingParams {
    fn default() -> (r: Self)
        ensures
            r.temperature.bits == DEFAULT_TEMPERATURE_BITS,
            r.top_p.bits == DEFAULT_TOP_P_BITS,
            r.top_k == 64,
            r.repetition_penalty.bits == ONE_BITS,
            r.seed is None,
            r.grammar is None,
    {
        SamplingParams {
            temperature: F32 { bits: DEFAULT_TEMPERATURE_BITS },
            top_p: F32 { bits: DEFAULT_TOP_P_BITS },
            top_k: 64,
            repetition_penalty: F32 { bits: ONE_BITS },
            seed: None,
            grammar: None,
        }
    }
}

impl SamplingParams {
    /// Always the likeliest token.
    pub fn greedy() -> (r: Self)
        ensures
            r.temperature.bits == ZERO_BITS,
            r.top_p.bits == ONE_BITS,
            r.top_k == 0,
            r.repetition_penalty.bits == ONE_BITS,
            r.seed is None,
            r.grammar is None,
    {
        SamplingParams {
            temperature: F32 { bits: ZERO_BITS },
            top_p: F32 { bits: ONE_BITS },
            top_k: 0,
            repetition_penalty: F32 { bits: ONE_BITS },
            seed: None,
            grammar: None,
        }
    }
}

} // verus!
