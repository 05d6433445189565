//! The decisions of a transparent proxy that routes TLS connections by their server name.

pub mod addr;
pub mod addr_laws;
pub mod arp;
pub mod certificate;
pub mod connect;
pub mod dns;
pub mod dns_laws;
pub mod hello;
pub mod outside;
pub mod proxy_header;
pub mod relay;
pub mod resolver;
pub mod route;
pub mod rule_laws;
pub mod rule_table;
pub mod session;
pub mod text;
