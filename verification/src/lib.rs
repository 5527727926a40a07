//! Bit-level routines written twice, once as a plain reference and once as a
//! branch-free, lane-parallel version, with proofs that the two agree.

pub mod decode_base64;
pub mod pop_count;
