//! A verified core for tenant-scoped, rule-driven group membership.
//!
//! Administrators of a tenant configure named rules; each rule may be bound to
//! a target group and may carry a custom condition over identity tags. The
//! library compiles a tenant's active rules into a verification set (subject
//! to resource limits), caches the compile result per tenant, evaluates the
//! set against a verified identity, computes the membership delta to apply,
//! and rate-limits repeated updates for the same identity with a cooldown.
//!
//! External collaborators (the membership platform that applies a delta, the
//! identity provider that resolves attributes and display names, and a clock)
//! hand the library plain values and take plain values back; everything the
//! library itself does is specified and verified.
#![verifier::loop_isolation(false)]

pub mod alist;
pub mod cache;
pub mod groups;
pub mod laws;
pub mod limits;
pub mod manager;
pub mod rules;
pub mod store;
pub mod text;
