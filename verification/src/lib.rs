//! Primitives for a node and resource orchestration tool: slugs, reserved
//! label keys, namespaced names, content fingerprints of resources, and the
//! steps of a critical section under a file lock.

pub mod canonical;
pub mod command;
pub mod convert;
pub mod decimal;
pub mod fingerprint;
pub mod framing;
pub mod hash;
pub mod image;
pub mod labels;
pub mod lock;
pub mod names;
pub mod report;
pub mod slug;
pub mod text;
