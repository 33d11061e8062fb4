//! A generation session: a prompt, how to sample, and what streams back.

use vstd::prelude::*;

use crate::sampler::SamplingParams;

verus! {

/// What a session is asked for.
#[derive(Debug, Clone)]
pub struct SessionRequest {
    pub model_id: String,
    pub prompt_tokens: Vec<u32>,
    pub max_new_tokens: u32,
    pub stop_token_ids: Vec<u32>,
    pub sampling: SamplingParams,
}

/// A piece of what a session generates.
#[derive(Debug, Clone)]
pub struct SessionChunk {
    pub token_id: u32,
    pub text: String,
    pub done: bool,
    pub finish_reason: Option<String>,
}

} // verus!
