//! Audio-processing building blocks whose index, state and integer logic is
//! verified: the ring buffer behind every delay line, the bit-reversal
//! permutation of the radix-2 FFT, the segment logic of the ADSR envelope and
//! the integer generator behind white noise.

pub mod ring_buffer;
pub mod bit_reverse;
pub mod noise;
pub mod envelope;
