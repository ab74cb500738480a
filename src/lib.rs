//! Routing core of a distributed LLM inference cluster: a prefix index of the KV cache blocks
//! that each worker holds, a scheduler that weighs that overlap against each worker's load,
//! and the naming of the components, endpoints and subjects that carry the traffic.
//!
//! The message transports (their in-process and IPC socket addresses included), the action
//! registry of the HTTP front end and the formatting of chat responses belong to the serving
//! layer around this crate and are not part of it.

pub mod component;
pub mod hash;
pub mod indexer;
pub mod kv_events;
pub mod metrics;
pub mod names;
pub mod preprocessor;
pub mod protocols;
pub mod publisher;
pub mod router;
pub mod scheduler;
pub mod scoring;
