//! Verified core of a Delta-Lake backed RDF quad storage: the operations log and its net
//! changesets, object id claims and dictionaries, term encodings, and quad index layouts.

pub mod bytes;
pub mod changeset;
pub mod claim;
pub mod claimer;
pub mod decimal;
pub mod encoding;
pub mod hashing;
pub mod in_memory;
pub mod index;
pub mod log;
pub mod mapping;
pub mod partition;
pub mod planning;
pub mod quad_index;
pub mod term;
pub mod term_tuple;
pub mod transaction;
pub mod writer;
