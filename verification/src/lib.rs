pub mod bindings;
pub mod crypto;
pub mod error;
pub mod interchange;
pub mod record;

pub use bindings::ffi::{decrypt, encrypt, free_ffi_result, ByteArray, FFIResult};
pub use error::PolyCryptError;
