//! A bounded, duplicate-free membership registry for a deterministic
//! state-transition runtime.
//!
//! The registry keeps an ordered set of member identities, capped at a fixed
//! capacity chosen when the registry is created. [`store::MembershipStore`]
//! is the data structure itself; [`controller::MembershipController`] is the
//! operation layer that gates every mutation behind an authorization policy
//! and reports each successful change as an event. [`laws`] states and proves
//! the registry's global guarantees: the capacity bound, uniqueness of
//! members, and the idempotence of failed operations.

pub mod controller;
pub mod laws;
pub mod store;
pub mod types;
