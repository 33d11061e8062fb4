//! A local runtime for language models: the parts that decide and compute.
//!
//! - The catalog, the search for models on disk and the download of new ones:
//!   [`registry`], [`pull`], [`models_list`].
//! - Configurations, checkpoints and the models built from them: [`config`],
//!   [`shards`], [`inspect`], [`tensors`], [`weights`], [`model`], with one module
//!   for each architecture: [`qwen3`], [`gemma`], [`granite`]; and the names of the
//!   weights in a checkpoint: [`naming`].
//! - Forward passes, as lists of steps for an array library: [`graph`],
//!   [`attention`], [`blocks`], [`masks`], [`cache`], [`kernels`],
//!   [`qwen3_forward`], [`gemma_forward`], [`granite_forward`].
//! - What these steps compute, in real numbers: [`meaning`], [`qwen3_meaning`],
//!   [`gemma_meaning`], [`granite_meaning`], [`model_meaning`].
//! - Prompts, decoding and speculative decoding: [`chat_template`],
//!   [`tokenizer`], [`tokenizer_json`], [`tokenizer_regex`], [`sampler`],
//!   [`session`], [`decoding`], [`speculative`], [`flush`], [`engine`], [`state`],
//!   [`memory`].
//! - The HTTP interface: [`openai`], [`structured`], [`extract`].
//! - What all of them use: [`error`], [`float_bits`], [`json`], [`order`],
//!   [`text`].
//!
//! Arrays are a type parameter: no number of a tensor is read here.

use vstd::prelude::*;

pub mod attention;
pub mod blocks;
pub mod cache;
pub mod chat_template;
pub mod config;
pub mod decoding;
pub mod engine;
pub mod error;
pub mod extract;
pub mod float_bits;
pub mod flush;
pub mod gemma;
pub mod gemma_forward;
pub mod gemma_meaning;
pub mod granite;
pub mod granite_forward;
pub mod granite_meaning;
pub mod graph;
pub mod inspect;
pub mod json;
pub mod kernels;
pub mod masks;
pub mod meaning;
pub mod memory;
pub mod model;
pub mod model_meaning;
pub mod models_list;
pub mod naming;
pub mod openai;
pub mod order;
pub mod pull;
pub mod qwen3;
pub mod qwen3_forward;
pub mod qwen3_meaning;
pub mod registry;
pub mod sampler;
pub mod session;
pub mod shards;
pub mod speculative;
pub mod state;
pub mod structured;
pub mod tensors;
pub mod text;
pub mod tokenizer;
pub mod tokenizer_json;
pub mod tokenizer_regex;
pub mod weights;

verus! {

} // verus!
