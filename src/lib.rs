//! Authorization and membership core of a multi-tenant workspace platform.
//!
//! Users, workspaces and the grants that bind an identity (a registered user or a
//! bare email) to a workspace live in a [`store::DBContext`]. Every compound
//! operation either completes in full or leaves the tables untouched.
//!
//! - `model`: the records and enums that callers see.
//! - `tables`: the mathematical model of a store, its invariant, and the laws.
//! - `store`: the store and its operations, each specified over that model.
pub mod model;
pub mod store;
pub mod tables;
