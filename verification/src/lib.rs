//! Verified core of a push-driven mail synchronization engine.
//!
//! The library holds the logic of the engine: credential expiry checks,
//! the account store, the message cache store keyed by `(uid, generation)`,
//! the MIME body extraction pipeline, and the decision functions of the
//! watch listener / sync coordinator pair (debounce, backoff, lifecycle).
//! Network and disk I/O live outside, in the surrounding application, which
//! hands this crate plain values and takes plain values back.

pub mod account;
pub mod body;
pub mod session;
pub mod store;
pub mod text;
pub mod watch;
