//! TLS ClientHello fingerprinting (JA3 and JA4) and synthetic HTTP responses
//! for a reverse proxy.

pub mod client_hello;
pub mod content_laws;
pub mod digest;
pub mod encoding;
pub mod error;
pub mod extensions;
pub mod fingerprint;
pub mod fingerprint_laws;
pub mod grease;
pub mod hello_laws;
pub mod http_calls;
pub mod ja_laws;
pub mod reading_laws;
pub mod redirect_laws;
pub mod synthetic_response;
pub mod text;
pub mod text_laws;
pub mod window;
pub mod wire;
