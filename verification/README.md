# base-mlx

A local runtime for language models on Apple hardware, with an HTTP interface in
the style of OpenAI's. It runs quantized Qwen3, Gemma 4 and Granite checkpoints by
way of the MLX array library.

- `src/` is the library, verified with Verus: everything that decides or computes.
  It finds and downloads models, reads configurations, builds models from the
  tensors of a checkpoint, plans forward passes step by step, decodes (also
  speculatively, with a draft model) and words the replies of the server. Arrays
  are a type parameter; the library never looks inside one.
- `tests/` runs the library.
- `app/` is the program around it: the command line, files, downloads, the server,
  and the calls into MLX that carry out the planned steps.

A description of a tokenizer is refused where the `tokenizers` crate could panic on
what it asks for, or where it gives a key twice: `src/tokenizer_json.rs` says which
parts are run, and `src/tokenizer_regex.rs` which regular expressions. The crate is
built with its `fancy-regex` backend, which ends a search that takes too long. Tokens
that a decoder could panic on are an error when they are decoded.

What the library takes on trust stands in `src/json.rs`, `src/tokenizer.rs`,
`src/inspect.rs`, `src/weights.rs` and `src/models_list.rs`: calls into
`serde_json`, `tokenizers`, `safetensors` and `std`, each with the contract that is
believed of it.
