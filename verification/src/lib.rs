//! Incremental archiver for articles hosted on Forem-style platforms.
//!
//! The crate is organised around a synchronization engine that lists remote
//! articles page by page, filters them by publish date and draft status,
//! skips articles that an earlier run already pulled, fetches and persists
//! the rest one at a time, and records each success in a durable state
//! document.  The engine, its state model and the state document codec are
//! verified; network and file I/O live behind small capability traits that
//! callers implement.

pub mod adapter;
pub mod article;
pub mod config;
pub mod date;
pub mod devto;
pub mod digits;
pub mod engine;
pub mod error;
pub mod forem;
pub mod laws;
pub mod platform;
pub mod state;
pub mod statedoc;
pub mod text;
pub mod writer;
