//! Real-time speech denoising around a frame-based inference engine.
//!
//! Callers bring audio in chunks of any length; the engine takes frames of a
//! fixed size. This crate is what reconciles the two: a frame assembler, an
//! immediate processor that runs the engine on the caller's thread, and the
//! hand-off through which a deferred processor passes work to a worker thread
//! and learns when that worker falls behind. Samples are of any `Copy` type.
//!
//! Threads, locks and the engine itself are left to the program that uses the
//! crate; everything here is plain data with stated behaviour.

pub mod assembler;
pub mod blocks;
pub mod boundary;
pub mod dtln_processor;
pub mod engine;
pub mod error;
pub mod framing;
pub mod handoff;
pub mod session;
pub mod trace;
