//! Verification middleware for HTTP request body integrity.
//!
//! An incoming request may carry a `Digest` header asserting one or more
//! content hashes of its body (`algorithm=base64value` pairs). This library
//! parses that header, recomputes the supported hashes over the buffered
//! body bytes, and decides whether the request may continue down the
//! pipeline or must be rejected.

pub mod b64;
pub mod buffer;
pub mod codec;
pub mod gate;
pub mod util;
pub mod verify;

pub use crate::gate::{VerifyDigest, VerifyDigestError, VerifyDigestLayer};
