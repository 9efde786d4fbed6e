# audiopc

The playback core of a streaming audio player, written and verified in Verus.

- `src/` is the library. It holds the queue between the decode thread and the
  audio callback, the effect chains, the resampler, the decode loop's decisions,
  device selection, seeking in HTTP streams, track metadata, the visualiser and
  the engine's control operations. Every function states what it returns or
  changes. `src/laws.rs`, `src/continuity.rs` (the resampler over a stream of
  packets) and `src/spectrum_laws.rs` (the visualiser over its steps) relate the
  functions to each other.
- `app/` is the player around it: audio device, threads, files, network, the
  floating-point arithmetic and the C surface.
- `tests/` runs the library.

Samples and rates are held as the bit patterns of IEEE 754 numbers
(`src/ieee.rs`). Their order, clamping and conversion from integers are verified;
other arithmetic comes from the embedding program through the traits in
`src/math.rs`, `src/processor.rs` and `src/effects.rs`. The functions are verified
for any such arithmetic. Some laws hold of an arithmetic only if it does not round
where they need it exact, gives the same for the same numbers, or stays within
ranges; they name this as a premise (`exact`, `repeatable`, `tells_time`,
`keeps_within`). That the arithmetic in `app/` meets these premises is not proved.
