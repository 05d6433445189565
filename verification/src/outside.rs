//! The calls into other crates, each with what is relied on about it.

pub mod dns;
pub mod pki;
pub mod tls;
pub mod url;
