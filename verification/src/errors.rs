use vstd::prelude::*;
use crate::key::Key;

verus! {

/// The errors a collection operation can signal.
#[derive(Clone, Copy, PartialEq, Eq, Debug, Structural)]
pub enum PersistError {
    /// `remove` or indexed access named a key that is not present; carries
    /// that key.
    KeyNotFound(Key),
    /// The front of an empty sequence was asked for.
    IndexError,
}

} // verus!
