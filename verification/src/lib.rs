//! Consistency of lifespan facts about deceased people.
//!
//! Given facts of the form "a died before b was born" and "a's and b's
//! lives overlapped", decide whether the facts are internally consistent
//! and, if so, propose integer birth and death dates that satisfy them all.

pub mod dates;
pub mod graph;
pub mod model;

pub use dates::proposed_dates;
pub use model::consistent;
pub use model::valid_assignment;
