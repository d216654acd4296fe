//! Reader for a section-indexed binary container holding zero-knowledge
//! proving-key material: a directory builder over the container bytes, a
//! scoped section cursor, and a decoder for the fixed-layout header section.

pub mod bigint;
pub mod bin_utils;
pub mod bytes;
pub mod zkey_utils;
