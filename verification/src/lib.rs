//! Delivery service for a group end-to-end-encrypted messaging protocol.
//!
//! The service stores and relays opaque protocol artifacts (key packages,
//! proposals, commits, welcome messages) among group members. It enforces the
//! delivery-layer bookkeeping rules: epoch monotonicity, one-time key-package
//! consumption, membership-scoped visibility, and soft-deleted history.

pub mod clock;
pub mod entities;
pub mod errors;
pub mod ids;
pub mod laws;
pub mod mls;
pub mod seqs;
pub mod service;
pub mod store;

pub use errors::DbError;
pub use errors::ServiceError;
