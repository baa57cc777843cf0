//! A process-tree syscall tracer library for Linux/x86_64.
//!
//! The library holds the verified core of a ptrace-style tracer: the
//! syscall-semantics engine that classifies each syscall-stop into
//! filesystem effects (opened / read / written paths), the per-process
//! file-descriptor table with fork inheritance, path resolution against a
//! process working directory, and parsing of per-process argv and
//! environment blocks.
//!
//! `model` states every state change as a mathematical step function;
//! `state` is the executable state, each mutation specified as equality
//! with a step; `engine` decodes registers and applies decoded events;
//! `laws` proves the invariants of the state machine; `paths` and
//! `parse` are the byte-level helpers; `trace` is the event loop over
//! trusted wrappers around the host's debugger primitives.

pub mod model;
pub mod state;
pub mod engine;
pub mod laws;
pub mod paths;
pub mod parse;
pub mod trace;
