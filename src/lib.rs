//! Removing every occurrence of one id from a sequence of ids, in several
//! allocation strategies that all return the same result, together with the
//! laws that this result obeys and a generator of random inputs.

pub mod filter;
pub mod laws;
pub mod generate;

pub use filter::{foo, idiomatic, idiomatic_with_reservation, in_place, without};
pub use generate::get_random_ids_vector;

