# keccak_jolt

Keccak-f[1600] and the SHAKE128 and SHAKE256 sponges, verified with Verus.

- `src/permutation.rs` states the five steps of a round lane by lane, and proves that
  `keccak_f1600` computes 24 rounds in place.
- `src/inverse.rs` gives the inverse of each step and proves that the permutation is one.
- `src/keccak.rs` hands the permutation to a caller's function.
- `src/sponge.rs` says what SHAKE is: padding, absorbing by blocks, an output without end.
- `src/shake.rs` is the sponge itself. A `ShakeState` takes any number of inputs, then gives any
  number of outputs; its view is the message absorbed and the count of bytes read.
- `src/laws.rs` holds the laws of the sponge: inputs and outputs may be split at will, a shorter
  output starts a longer one, no two messages have the same padding,
  and two that are shorter than a block are closed to different states.
- `app/` holds what stands outside the proofs: the permutation as a function pointer, with the
  Jolt instruction behind it on RISC-V, and output as a type-level sized array. The sponge
  itself runs the verified permutation on every target.
