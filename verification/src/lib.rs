//! Diagnostics bridge between a compiler front end and a line-oriented editor protocol.
//!
//! The front end reports failures by byte offset; the editor wants lines and columns.
//! This crate holds the mapping between the two, the rules that decide which
//! diagnostics a document revision gets, and the per-document bookkeeping that keeps
//! what the editor shows in step with the latest text.

pub mod diagnostic;
pub mod pipeline;
pub mod position;
pub mod session;
