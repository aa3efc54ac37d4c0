//! Core of a per-tenant message relay: an opaque tenant-key codec, content
//! policy (block-list filter and verification-code extraction), an access
//! token cache with expiry-aware refresh, and the dispatch state machine that
//! fans a message out to the configured notification channels.

pub mod cache;
pub mod clients;
pub mod codec;
pub mod dispatch;
pub mod models;
pub mod policy;
pub mod text;
