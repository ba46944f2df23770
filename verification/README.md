# video_lab

Distillation of a browser-sized video student from a teacher cache. `src/` is a
Verus library: the rules of the cache format, the course of a training run, the
geometry of patches, the packing of quantized weights and what surrounds them,
each with a contract and proved. `app/` is the program around it: the tensor
network, files, the command line and the browser binding. Numbers that the
library carries or compares are bit patterns in it; floating-point arithmetic
happens in `app/`, which hands it to the library as functions on patterns where
the library computes with it.

| module | what it holds |
| --- | --- |
| `contract` | the spec of a student, the manifest of a cache |
| `archive` | safetensors archives as plain tensors |
| `shard` | a shard decoded to host buffers; the required tensors |
| `cache` | the check of a cache, the bounded set of shards in memory |
| `synth` | synthetic caches |
| `train` | the chunks of a training run |
| `alignment` | which layer is held against which relation |
| `attention` | blocks of query rows |
| `geometry`, `latent` | patches, halving and doubling of latents |
| `quant` | quantized bundles |
| `sampling`, `browser` | sampling, scoring, generating a frame |
| `precision` | backends and float formats |
| `ieee`, `bytes`, `text`, `rng` | bit patterns, little-endian integers, decimal text, the generator |

What is taken on trust is in `archive` (reading and writing an archive with the
`safetensors` crate); each such function says what it claims. A path in the
settings of a chunk is opaque to the proofs.
