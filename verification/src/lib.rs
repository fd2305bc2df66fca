//! A pseudo-terminal command-capture harness, verified.
//!
//! The library reconstructs line-oriented text from a raw terminal byte
//! stream, detects command boundaries by prompt reappearance, and drives a
//! strictly sequential run/shutdown protocol. The pieces that touch the
//! operating system (the pty itself, threads, channels) live outside the
//! library and feed it plain bytes; everything that decides or computes is
//! here, with contracts.

pub mod boundary;
pub mod control;
pub mod harness;
pub mod laws;
pub mod terminal;
