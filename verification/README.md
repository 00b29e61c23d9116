# nn_rust_verified

The host-side core of a CUDA inference stack for Ministral and Qwen3.5 text models,
written in Verus: the functions under `src/` are verified against their contracts. The
few whose value the clock decides (starting a timer, reading how long it has run) carry
no `ensures`, since nothing can be promised of that value.

## Layout

- `src/` — the verified library.
  - Model files: `onnx` (ONNX protobuf graphs and initializers), `safetensors` and
    `safetensors_file` (headers, shard indexes, tensor name aliases, byte ranges),
    `weights` (tensor lookup across a checkpoint and the Qwen3.5 weight layout),
    `json`, `text_config`, `model` (configuration values, layer kinds, runtime checks),
    `export` and `rowwise_scaled` (int8 export archives), `dtypes`.
  - Tokenizers: `tekken` (Tekken JSON vocabularies), `qwen_tokenizer` (byte-level BPE),
    with `byte_level`, `byte_table`, `pretokenize`; the laws that decoding gives back
    what encoding read are in `tekken`, `qwen_roundtrip` and `skip_special`.
  - Profiling: `profiling`, `trace` (span trees and self time), `accredited` (timelines
    whose segments account for all of the time), `profile_json`.
  - Kernel launch plans: `qwen_ops`; the checks before a layer runs on the device:
    `smoke` and `layer_checks`.
- `tests/` — tests of the library on concrete values.
- `app/` — what the library leaves to its callers: reading files, the floating-point
  configuration and profiling values, and the file-system side of archive checks.

Verus proves the library against its contracts; the contracts of the few calls into
`std` and `serde_json` are stated beside those calls and are trusted.
