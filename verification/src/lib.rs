//! httpmate core: the logic of an HTTP debugging proxy.
//!
//! - `uri`, `headers`, `passthrough`, `proxy`, `chain`, `intercept`, `tee`,
//!   `upstream`: what the proxy engine decides and records.
//! - `certs`, `ca`: the certificate authority for TLS interception.
//! - `store`, `query`, `history`, `retention`, `rounds`, `encode`: the session store.
//! - `macos`, `networksetup`: platform integration.
//! - `controller`, `config`, `events`, `pump`: the surface for shells.
//! - `text`: text handling.
pub mod ca;
pub mod certs;
pub mod chain;
pub mod config;
pub mod controller;
pub mod encode;
pub mod events;
pub mod headers;
pub mod history;
pub mod intercept;
pub mod macos;
pub mod networksetup;
pub mod passthrough;
pub mod proxy;
pub mod pump;
pub mod query;
pub mod retention;
pub mod rounds;
pub mod store;
pub mod tee;
pub mod text;
pub mod upstream;
pub mod uri;
