//! Daily work-span derivation and a resilient, token-aware sync client.
//!
//! The library aggregates raw boot/shutdown sessions into one span per
//! calendar day, filters the spans that still need publishing, and models
//! the retrying, re-authenticating publisher as an explicit state machine.
//! All calendar arithmetic, formatting, aggregation, filtering, and the
//! publish/refresh decision logic is verified; the surrounding process
//! (file and network I/O) lives outside the library and drives it with
//! plain values.

pub mod api;
pub mod calendar;
pub mod config;
pub mod orchestrate;
pub mod refresh;
pub mod sessions;
pub mod text;
pub mod usage;

pub use calendar::Date;
pub use calendar::Timestamp;
