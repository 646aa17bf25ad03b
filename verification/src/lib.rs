//! A local-first, password-derived encrypted identity store paired with an
//! append-only verb ledger that records typed facts about an identity
//! inside semantic contexts.
//!
//! The crypto primitive ([`crypto`]) derives keys from passwords and seals
//! the signing key with authenticated encryption; the context deriver
//! ([`me`]) collapses raw key material into a stable, non-reversible
//! context id; the verb ledger ([`store`]) appends and queries typed facts
//! through the filter engine ([`query`]), identically for every
//! persistence engine behind the [`store::MeStore`] interface.

pub mod crypto;
pub mod encoding;
pub mod errors;
pub mod have;
pub mod json;
pub mod manager;
pub mod me;
pub mod model;
pub mod owns;
pub mod query;
pub mod store;
pub mod subjects;
pub mod text;
pub mod validate;
pub mod verbs;

pub use errors::MeError;
pub use me::Me;
pub use model::{Action, Entry, GetFilter, Verb};
pub use store::{MemStore, MeStore};
pub use validate::{validate_password, validate_username};
