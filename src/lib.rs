//! A decoder for RESP2, the line-oriented wire format of Redis, from text into a
//! typed value tree. Every grammar rule is stated as a spec function in
//! [`grammar`], the decoder in [`decoder`] is proved to follow them, and
//! [`laws`] proves properties of the whole.
pub mod value;
pub mod grammar;
pub mod decoder;
pub mod laws;

pub use decoder::Resp2Codec;
pub use value::{DecodeError, Resp2SimpleError, Resp2Type};
