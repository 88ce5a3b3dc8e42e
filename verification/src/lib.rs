//! A two-party turn-resolution game session store.
//!
//! A designated host and opponent each submit one move; a pure resolution
//! engine decides the outcome. The registry owns a singleton session plus a
//! last-write-wins store of session records keyed by the `(host, opponent)`
//! participant pair, ordered by the raw bytes of the identifiers so that
//! lookups by either participant are well defined.

pub mod addr;
pub mod contract;
pub mod error;
pub mod msg;
pub mod resolve;
pub mod state;
