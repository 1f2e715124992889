//! Core engine of a desktop manager for binary-patched game ROMs.
//!
//! The heart of the crate is the live play-tracking engine: a byte-level
//! codec for the opcode-based device-bridge protocol, a pure game-state
//! analyzer that turns raw console memory samples into an activity signal,
//! and the supervising tracking service, modelled as an explicit state
//! machine whose per-tick decisions and state updates are verified.

pub mod analyzer;
pub mod bytestr;
pub mod catalog;
pub mod completions;
pub mod config;
pub mod library;
pub mod patching;
pub mod protocol;
pub mod rom;
pub mod service;
pub mod store;
