//! Coordination library for a resumable crawler of community experiences.
//!
//! The heart of the pipeline is a bidirectional mapping between dense integer
//! experience ids and public share codes, a persisted progress cursor that
//! advances only on confirmed success, an idempotent record store, a cached
//! authentication session, and the two message queues that connect the
//! coordinator with its harvester workers.

pub mod coordinator;
pub mod experience_code;
pub mod health;
pub mod numbers;
pub mod queue;
pub mod record;
pub mod session;
pub mod store;
pub mod text;
pub mod tls;
pub mod worker;
