pub mod codec;
pub mod encryption;
pub mod laws;
pub mod primitives;
