//! Verified core of a process-memory search and pointer-chain discovery
//! engine.
//!
//! The crate holds the data model and the algorithms: query values and their
//! matching rules, the masked-byte pattern language, per-page read-status
//! bitmaps, the chunked buffer matchers, the two-tier result store, the
//! fixed-layout progress buffer, the spill container, and the two-phase
//! reverse pointer-chain scanner.  Kernel reads, the language-crossing layer and file I/O
//! are left to the surrounding application, which hands buffers and plain
//! values in and out.

pub mod values;
pub mod pattern;
pub mod bitmap;
pub mod matcher;
pub mod pattern_search;
pub mod fuzzy;
pub mod store;
pub mod status;
pub mod engine;
pub mod group;
pub mod fmt;
pub mod mapqueue;
pub mod ptypes;
pub mod gateway;
pub mod pscan;
pub mod chains;
pub mod pmanager;
