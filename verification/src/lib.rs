//! Host-side core of a lane-parallel proof-of-work search: a double-buffered
//! dispatch state machine, a bounded table of distinguished candidates, and
//! the pacing of the feedback loop that tunes the search.
//!
//! The library decides and computes; it does not talk to the device, the
//! network or the terminal. Floating-point telemetry enters it as bit
//! patterns, which it orders and bounds exactly.

pub mod adaptive;
pub mod admission;
pub mod binary32;
pub mod binary64;
pub mod block;
pub mod coinbase;
pub mod constants;
pub mod dispatcher;
pub mod dp_table;
pub mod hexcode;
pub mod metrics;
pub mod mitm;
pub mod ranking;
pub mod rpc;
pub mod sha_helpers;
pub mod telemetry;
pub mod template;
pub mod transaction;
pub mod words;
