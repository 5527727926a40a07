//! Decoding base64 text back into bytes.

pub mod alphabet;
pub mod decode_base64_reference;
pub mod decode_base64_simd;
pub mod equivalence;
pub mod groups;
pub mod lanes;

pub use decode_base64_reference::decode_base64_reference;
pub use decode_base64_simd::decode_base64_simd;
