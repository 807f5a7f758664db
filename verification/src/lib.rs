//! Fan-out of typed events to filtered subscribers: the decisions that a
//! single connection takes, each with a contract that Verus proves.
//!
//! The hub that distributes events and the transport that carries them are the
//! caller's. This crate reads a connection's query ([`query`]), holds the
//! discriminants it asked for ([`filter`]), decides what the connection does
//! with each event it is handed and when it is over ([`session`], [`event`]),
//! and states what holds of every run of a connection ([`trace`]).

pub mod event;
pub mod filter;
pub mod query;
pub mod session;
pub mod trace;

pub use event::{deliver, discriminant, Outgoing, SerializableWithDiscriminant};
pub use filter::FilterSet;
pub use query::{parse_query, Query, QueryParams};
pub use session::{Decision, HubSignal, Session, SessionState, MAX_CONSECUTIVE_FAILURES};
