//! A TLS-terminating layer-4 reverse proxy core.
//!
//! The crate holds the request-path logic of the proxy: the configuration
//! model, the dynamic backend set with its snapshot-publication rules, the
//! load-balancing selectors, the TLS session-outcome classification, the
//! per-connection plan, and a byte-exact relay model for the bidirectional
//! copy. The network shell (listeners, handshakes, timers) lives outside the
//! library and feeds it plain values.

pub mod addr;
pub mod backend;
pub mod config;
pub mod errors;
pub mod hash;
pub mod parse;
pub mod pipeline;
pub mod registry;
pub mod relay;
pub mod session;
pub mod selector;
