//! A byte <-> hexadecimal-ASCII codec.
//!
//! Bytes are rendered as lowercase hex text, two digits per byte; hex text in
//! either case is read back into bytes, and anything else is rejected. The
//! work is done chunk by chunk, widest chunk first, over a destination that
//! may be initialized or uninitialized memory.
//!
//! Every function is verified against the mathematical model in [`model`]:
//! what `encode` writes is `hex_encode` of its input, and what `decode`
//! returns is `hex_decode` of its input, whichever family of chunk kernels
//! did the work and however the remainder was finished. What holds of the
//! model for every input is proved in [`laws`].

pub mod buf;
pub mod classify;
pub mod decode;
pub mod encode;
pub mod error;
pub mod family;
pub mod laws;
pub mod model;
pub mod remainder;
pub mod serde;
pub mod tail;
pub mod text;

pub use buf::Buf;
pub use decode::{decode, decode_to_buf, decode_to_buf_with, decode_to_slice};
pub use encode::{encode, encode_to_buf, encode_to_buf_with};
pub use error::{Error, ErrorKind};
pub use family::Family;
pub use remainder::{decode_remainder_lut_bench, decode_remainder_simd_bench};
