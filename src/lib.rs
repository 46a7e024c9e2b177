//! Decoding of RTP packet headers (RFC 1889 / RFC 3550) from network-order
//! byte buffers, with the decoders proved against a byte-level model.

pub mod bytes;
pub mod error;
pub mod header;
pub mod layout;

pub use error::RtpError;
pub use header::{CSRCIdentifiers, Header, HeaderExtension, HeaderInfo};
