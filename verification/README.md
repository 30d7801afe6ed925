# Whetstone

A low-bit inference engine for language models of the Qwen2 layer topology. The
library is written in Verus: what the engine decides and computes on the host is
stated in contracts and proved.

## What is proved

- **Text to tokens and back.** Byte-level BPE with added tokens; text survives a
  round trip, and streaming emits exactly what decoding in one go gives.
- **The `.wstone` container and safetensors checkpoints.** What is written is
  read back as it was; ranges lie in the file; names come sorted; a changed byte
  is found.
- **Packing.** int4 in groups of 128, and in groups of 32 with hierarchical
  scales: every level comes back from its word.
- **Decoding.** Greedy generation and n-gram speculation show the same tokens,
  whatever is drafted and wherever a caller stops them. Feeding a prompt in
  passes leaves the same state as feeding it token by token.
- **Kernels.** Each function that checks shapes for a kernel is exact: it accepts
  a shape if and only if its rules hold, and otherwise names the rule that does
  not. The launches stand in `app/` and are not verified.

Quantization fits, sampling from a distribution and everything on the device are
floating point or CUDA, and stand in `app/`. A model goes to the device whole:
there is no `--vram` budget, since nothing here leaves a block in host memory.

## Layout

- `src/`: the library. `tokenizer`, `pretokenize`, `bpe`, `specials`, `utf8` and
  `roundtrip` for text; `format`, `writer`, `stored`, `safetensors`, `checkpoint`,
  `names` and `checksum` for files; `quant` and `hier` for packing; `model` and
  `weights` for loading; `engine`, `generate`, `speculate` and `exactness` for
  decoding; `kernels` for shape rules; `cli` for what the commands decide.
- `app/`: the `whetstone` program.
- `tests/`: the library on concrete values.
