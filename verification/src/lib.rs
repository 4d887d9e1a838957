//! Persistent (immutable, structurally shared) collections: a hash map, a
//! hash set and an ordered sequence. Every "mutating" operation returns a
//! new collection and leaves the receiver untouched; old versions stay
//! valid and share structure with the new ones.

pub mod errors;
pub mod iters;
pub mod key;
pub mod lemmas;
pub mod pmap;
pub mod pseq;
pub mod pset;
