use vstd::prelude::*;
use crate::key::Key;

verus! {

/// A one-shot forward iterator over keys, built from a snapshot of a
/// collection's traversal order; later changes to the source never
/// affect it, and it cannot be restarted.
pub struct KeyIter {
    items: Vec<Key>,
    pos: usize,
}

impl View for KeyIter {
    type V = Seq<Key>;

    /// The elements not yet handed out, in order.
    closed spec fn view(&self) -> Seq<Key> {
        self.items@.skip(self.pos as int)
    }
}

impl KeyIter {
    /// The cursor never stands past the end of its snapshot.
    #[verifier::type_invariant]
    closed spec fn wf(self) -> bool {
        self.pos <= self.items@.len()
    }

    /// An iterator that will yield the listed keys in order.
    pub fn from_vec(items: Vec<Key>) -> (r: Self)
        ensures
            r@ == items@,
    {
        let r = KeyIter { items, pos: 0 };
        proof {
            assert(r.items@.skip(0) =~= r.items@);
        }
        r
    }

    /// How many keys are still to come.
    pub fn remaining(&self) -> (r: usize)
        ensures
            r == self@.len(),
    {
        proof {
            use_type_invariant(&*self);
        }
        self.items.len() - self.pos
    }

    /// The next key, or `None` once exhausted.
    pub fn next(&mut self) -> (r: Option<Key>)
        ensures
            old(self)@.len() == 0 ==> r == None::<Key> && final(self)@ == old(self)@,
            old(self)@.len() > 0 ==> r == Some(old(self)@[0]) && final(self)@ == old(
                self,
            )@.drop_first(),
    {
        proof {
            use_type_invariant(&*self);
        }
        if self.pos < self.items.len() {
            let k = self.items[self.pos];
            self.pos = self.pos + 1;
            proof {
                assert(self.items@.skip(self.pos as int) =~= old(self)@.drop_first());
            }
            Some(k)
        } else {
            None
        }
    }
}

/// A one-shot forward iterator over sequence elements, built from a
/// snapshot; later changes to the source never affect it, and it cannot
/// be restarted.
pub struct SeqIter {
    items: Vec<i64>,
    pos: usize,
}

impl View for SeqIter {
    type V = Seq<i64>;

    /// The elements not yet handed out, in order.
    closed spec fn view(&self) -> Seq<i64> {
        self.items@.skip(self.pos as int)
    }
}

impl SeqIter {
    /// The cursor never stands past the end of its snapshot.
    #[verifier::type_invariant]
    closed spec fn wf(self) -> bool {
        self.pos <= self.items@.len()
    }

    /// An iterator that will yield the listed elements in order.
    pub fn from_vec(items: Vec<i64>) -> (r: Self)
        ensures
            r@ == items@,
    {
        let r = SeqIter { items, pos: 0 };
        proof {
            assert(r.items@.skip(0) =~= r.items@);
        }
        r
    }

    /// How many elements are still to come.
    pub fn remaining(&self) -> (r: usize)
        ensures
            r == self@.len(),
    {
        proof {
            use_type_invariant(&*self);
        }
        self.items.len() - self.pos
    }

    /// The next element, or `None` once exhausted.
    pub fn next(&mut self) -> (r: Option<i64>)
        ensures
            old(self)@.len() == 0 ==> r == None::<i64> && final(self)@ == old(self)@,
            old(self)@.len() > 0 ==> r == Some(old(self)@[0]) && final(self)@ == old(
                self,
            )@.drop_first(),
    {
        proof {
            use_type_invariant(&*self);
        }
        if self.pos < self.items.len() {
            let e = self.items[self.pos];
            self.pos = self.pos + 1;
            proof {
                assert(self.items@.skip(self.pos as int) =~= old(self)@.drop_first());
            }
            Some(e)
        } else {
            None
        }
    }
}

} // verus!
