//! The decisions of a small HTTP gateway: virtual hosts, prefix proxying,
//! static files, redirection to HTTPS and certificate selection.
//!
//! Reading files, accepting connections and relaying bytes belong to the
//! program around this library; everything that is decided or computed on the
//! way is here, with its contract.

pub mod config;
pub mod config_laws;
pub mod gateway;
pub mod gateway_laws;
pub mod header_laws;
pub mod headers;
pub mod proxy;
pub mod proxy_laws;
pub mod reading_laws;
pub mod respond;
pub mod sni;
pub mod state_laws;
pub mod static_files;
pub mod static_laws;
pub mod text;
pub mod text_laws;
pub mod tls;
pub mod tls_laws;
pub mod uri;
pub mod view_laws;
pub mod xml;
