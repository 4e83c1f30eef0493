//! Local resource delivery: natural-order image listings, request path
//! decoding, byte-range planning for partial content, and indexed access to
//! the entries of a zip archive.

pub mod archive;
pub mod base64;
pub mod decimal;
pub mod extension;
pub mod listing;
pub mod range;
pub mod request;
pub mod resolve;
