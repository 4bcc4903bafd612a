//! An organizational budget-control ledger.
//!
//! An authority creates an organization with a total budget, partitions it
//! across named departments, and schedules payments that are later executed
//! against a department's allocation, with a notification recorded for each
//! executed payment.
//!
//! Caller identities and entity keys are plain integers: an organization is
//! keyed by its authority's identity, a department by its organization and
//! name, a payment by its department and a caller-chosen identifier, and a
//! notification by its triggering payment.
//!
//! The ledger is modelled twice: once as executable data ([`ledger::Ledger`])
//! and once as a mathematical state ([`model::LedgerView`]) with one spec
//! transition per operation. Every operation's contract says that it behaves
//! exactly as its transition, and the lemmas in [`laws`] state the global
//! properties of the transition system: the well-formedness invariants are
//! preserved, budget use only grows, a payment's status moves one way, and
//! reading a notification is idempotent.

pub mod entities;
pub mod errors;
pub mod laws;
pub mod ledger;
pub mod model;
pub mod text;
