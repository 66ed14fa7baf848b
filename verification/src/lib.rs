//! Host-triage artifact collection for Windows volumes.
//!
//! The crate holds the decisions of a raw NTFS file reader and of the triage
//! orchestrator around it: which clusters of a volume back which bytes of a
//! file, how artifact path templates are resolved and expanded, and how each
//! collected file is named inside the archive. Every function is stated over
//! plain values; the caller performs the operating-system calls and hands
//! their results in.

pub mod error;
pub mod text;
pub mod triage;
pub mod artifacts;
pub mod helpers;
pub mod pattern;
pub mod raw_file;
pub mod read_laws;
pub mod sys_vars;
