# alice_audio

Audio-processing building blocks whose index, state and integer logic is
proved correct against its contracts.

- `src/ring_buffer.rs` — the fixed-size ring buffer behind every delay line;
  its view is the stored history, oldest first, and reads are proved to give
  back what earlier pushes wrote.
- `src/bit_reverse.rs` — the bit-reversal reordering that starts the in-place
  radix-2 FFT, proved to be the bit-reversed permutation and its own inverse.
- `src/envelope.rs` — which ADSR segment a sample falls in and how far into
  its ramp.
- `src/noise.rs` — the 64-bit linear congruential generator behind white
  noise; its 32-bit words map to samples uniform on `[-1, 1)`.

`app/` holds the floating-point signal processing (complex numbers and the
FFT, FIR/IIR filters, effects, mixer, resampler, waveforms, utilities and the
ADSR levels), built on the verified parts above.
