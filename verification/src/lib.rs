//! Remote session orchestration: authenticate against a server with
//! exactly one credential variant, provision a fresh millisecond-stamped
//! remote workspace, mirror the ignore-filtered local tree into it, and
//! drive a non-blocking dual-stream loop that forwards the remote
//! command's output and reports its exit status.
//!
//! The decisions of every stage live here, verified; the live transport,
//! the filesystem walk and the terminal live in the thin shell around the
//! library.
pub mod auth;
pub mod decimal;
pub mod errors;
pub mod execute;
pub mod mirror;
pub mod orchestrate;
pub mod provision;
pub mod timestamp;
