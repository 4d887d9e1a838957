use vstd::prelude::*;

verus! {

/// A map/set key: a host value together with its hash code, captured once
/// at construction and never recomputed while the key is stored.
///
/// The host value itself is reduced to a plain integer identity; equality
/// between two keys is equality of both fields, so equal keys always carry
/// equal hashes and collapse to a single stored binding.
#[derive(Clone, Copy, PartialEq, Eq, Hash, Debug, Structural)]
pub struct Key {
    /// Hash code captured when the key was built.
    pub hash: i64,
    /// Identity of the underlying host value.
    pub value: i64,
}

impl Key {
    /// Builds a key from a host value and the hash code the host computed
    /// for it. The hash is cached here and never recomputed.
    pub fn new(hash: i64, value: i64) -> (r: Key)
        ensures
            r.hash == hash,
            r.value == value,
    {
        Key { hash, value }
    }

    /// Builds a key whose hash code is the value itself, the common case
    /// for small integers.
    pub fn from_value(value: i64) -> (r: Key)
        ensures
            r.hash == value,
            r.value == value,
    {
        Key { hash: value, value }
    }
}

} // verus!
