use vstd::prelude::*;
use crate::errors::PersistError;
use crate::lemmas::lemma_take_full;

verus! {

// ---------------------------------------------------------------------------
// Trusted view of im_rc's tree-backed vector.
// ---------------------------------------------------------------------------

/// im_rc's persistent vector, opaque to the verifier; verified code only
/// learns about a value of it through the wrappers below.
#[verifier::external_type_specification]
#[verifier::external_body]
#[verifier::reject_recursive_types(A)]
pub struct ExVector<A>(im_rc::Vector<A>);

/// The elements a vector holds, front to back, as a mathematical
/// sequence.
pub uninterp spec fn vector_model(v: im_rc::Vector<i64>) -> Seq<i64>;

/// The sequence with no elements at all.
pub open spec fn empty_elems() -> Seq<i64> {
    Seq::empty()
}

/// Relies on im_rc::Vector::new: the new vector holds no elements.
#[verifier::external_body]
fn v_new() -> (r: im_rc::Vector<i64>)
    ensures
        vector_model(r) == empty_elems(),
{
    im_rc::Vector::new()
}

/// Relies on im_rc::Vector::len: the number of elements.
#[verifier::external_body]
fn v_len(v: &im_rc::Vector<i64>) -> (r: usize)
    ensures
        r == vector_model(*v).len(),
{
    v.len()
}

/// Relies on im_rc::Vector::get: the element at an index, if any.
#[verifier::external_body]
fn v_get(v: &im_rc::Vector<i64>, i: usize) -> (r: Option<i64>)
    ensures
        r == if i < vector_model(*v).len() {
            Some(vector_model(*v)[i as int])
        } else {
            None::<i64>
        },
{
    v.get(i).copied()
}

/// Relies on im_rc::Vector::push_front: the element is prepended.
#[verifier::external_body]
fn v_push_front(v: &mut im_rc::Vector<i64>, e: i64)
    ensures
        vector_model(*final(v)) == seq![e] + vector_model(*old(v)),
{
    v.push_front(e)
}

/// Relies on im_rc::Vector::push_back: the element is appended.
#[verifier::external_body]
fn v_push_back(v: &mut im_rc::Vector<i64>, e: i64)
    ensures
        vector_model(*final(v)) == vector_model(*old(v)).push(e),
{
    v.push_back(e)
}

/// Relies on im_rc::Vector::pop_front: the front element is taken off a
/// non-empty vector; an empty one stays empty.
#[verifier::external_body]
fn v_pop_front(v: &mut im_rc::Vector<i64>) -> (r: Option<i64>)
    ensures
        vector_model(*old(v)).len() == 0 ==> r == None::<i64> && vector_model(*final(v))
            == vector_model(*old(v)),
        vector_model(*old(v)).len() > 0 ==> r == Some(vector_model(*old(v))[0]) && vector_model(
            *final(v),
        ) == vector_model(*old(v)).drop_first(),
{
    v.pop_front()
}

/// Relies on im_rc::Vector::clone: an equal vector sharing all
/// structure.
#[verifier::external_body]
fn v_clone(v: &im_rc::Vector<i64>) -> (r: im_rc::Vector<i64>)
    ensures
        vector_model(r) == vector_model(*v),
{
    v.clone()
}

// ---------------------------------------------------------------------------
// The verified persistent sequence.
// ---------------------------------------------------------------------------

/// A persistent ordered sequence with cheap front access. Every mutating
/// operation returns a new sequence and leaves the receiver unchanged;
/// old versions stay valid and share structure with new ones.
pub struct PersistentSequence {
    inner: im_rc::Vector<i64>,
}

impl View for PersistentSequence {
    type V = Seq<i64>;

    closed spec fn view(&self) -> Seq<i64> {
        vector_model(self.inner)
    }
}

impl PersistentSequence {
    /// The empty sequence.
    pub fn new() -> (r: Self)
        ensures
            r@ == Seq::<i64>::empty(),
    {
        PersistentSequence { inner: v_new() }
    }

    /// The sequence of the listed elements, in their order.
    pub fn from_elements(elems: &Vec<i64>) -> (r: Self)
        ensures
            r@ == elems@,
    {
        let mut inner = v_new();
        let mut i: usize = 0;
        proof {
            assert(vector_model(inner) =~= elems@.take(0));
        }
        while i < elems.len()
            invariant
                i <= elems.len(),
                vector_model(inner) == elems@.take(i as int),
            decreases elems.len() - i,
        {
            v_push_back(&mut inner, elems[i]);
            proof {
                assert(elems@.take(i as int).push(elems@[i as int]) =~= elems@.take(i + 1));
            }
            i = i + 1;
        }
        proof {
            lemma_take_full(elems@);
        }
        PersistentSequence { inner }
    }

    /// The number of elements.
    pub fn len(&self) -> (r: usize)
        ensures
            r == self@.len(),
    {
        v_len(&self.inner)
    }

    /// The element at an index, or `None` past the end; never fails.
    pub fn get(&self, i: usize) -> (r: Option<i64>)
        ensures
            r == if i < self@.len() {
                Some(self@[i as int])
            } else {
                None::<i64>
            },
    {
        v_get(&self.inner, i)
    }

    /// The front element, or `IndexError` when the sequence is empty.
    pub fn first(&self) -> (r: Result<i64, PersistError>)
        ensures
            self@.len() > 0 ==> r == Ok::<i64, PersistError>(self@[0]),
            self@.len() == 0 ==> r == Err::<i64, PersistError>(PersistError::IndexError),
    {
        match v_get(&self.inner, 0) {
            Some(x) => Ok(x),
            None => Err(PersistError::IndexError),
        }
    }

    /// The sequence without its front element; the empty sequence stays
    /// empty. The receiver is unchanged.
    pub fn rest(&self) -> (r: Self)
        ensures
            self@.len() == 0 ==> r@ == self@,
            self@.len() > 0 ==> r@ == self@.drop_first(),
    {
        let mut inner = v_clone(&self.inner);
        v_pop_front(&mut inner);
        PersistentSequence { inner }
    }

    /// A new sequence with the value prepended; the receiver is
    /// unchanged.
    pub fn push_front(&self, value: i64) -> (r: Self)
        ensures
            r@ == seq![value] + self@,
    {
        let mut inner = v_clone(&self.inner);
        v_push_front(&mut inner, value);
        PersistentSequence { inner }
    }

    /// A new sequence with the order of the elements inverted; the
    /// receiver is unchanged.
    pub fn reversed(&self) -> (r: Self)
        ensures
            r@ == self@.reverse(),
    {
        let elems = self.to_vec();
        let mut inner = v_new();
        let mut i: usize = 0;
        proof {
            assert(vector_model(inner) =~= elems@.take(0).reverse());
        }
        while i < elems.len()
            invariant
                i <= elems.len(),
                elems@ == self@,
                vector_model(inner) == elems@.take(i as int).reverse(),
            decreases elems.len() - i,
        {
            v_push_front(&mut inner, elems[i]);
            proof {
                assert(seq![elems@[i as int]] + elems@.take(i as int).reverse() =~= elems@.take(
                    i + 1,
                ).reverse());
            }
            i = i + 1;
        }
        proof {
            lemma_take_full(elems@);
        }
        PersistentSequence { inner }
    }

    /// Content equality: true exactly when the two sequences have the
    /// same length and equal elements in the same order.
    pub fn eq_seq(&self, other: &PersistentSequence) -> (r: bool)
        ensures
            r <==> self@ =~= other@,
    {
        let n1 = v_len(&self.inner);
        let n2 = v_len(&other.inner);
        if n1 != n2 {
            proof {
                if self@ =~= other@ {
                    assert(self@ == other@);
                }
            }
            return false;
        }
        let mut i: usize = 0;
        while i < n1
            invariant
                i <= n1,
                n1 == self@.len(),
                n1 == other@.len(),
                forall|j: int| 0 <= j < i ==> self@[j] == other@[j],
            decreases n1 - i,
        {
            let x = v_get(&self.inner, i).unwrap();
            let y = v_get(&other.inner, i).unwrap();
            if x != y {
                proof {
                    if self@ =~= other@ {
                        assert(self@[i as int] == other@[i as int]);
                    }
                }
                return false;
            }
            i = i + 1;
        }
        proof {
            assert(self@ =~= other@);
        }
        true
    }

    /// A one-shot iterator over the elements, front to back; later
    /// changes to the sequence never affect it.
    pub fn iter(&self) -> (r: crate::iters::SeqIter)
        ensures
            r@ == self@,
    {
        crate::iters::SeqIter::from_vec(self.to_vec())
    }

    /// Every element, front to back.
    pub fn to_vec(&self) -> (r: Vec<i64>)
        ensures
            r@ == self@,
    {
        let n = v_len(&self.inner);
        let mut out: Vec<i64> = Vec::new();
        let mut i: usize = 0;
        while i < n
            invariant
                i <= n,
                n == self@.len(),
                out@ == self@.take(i as int),
            decreases n - i,
        {
            let x = v_get(&self.inner, i).unwrap();
            out.push(x);
            proof {
                assert(self@.take(i as int).push(self@[i as int]) =~= self@.take(i + 1));
            }
            i = i + 1;
        }
        proof {
            lemma_take_full(self@);
        }
        out
    }
}

/// Putting a non-empty sequence's front back onto its rest gives the
/// sequence itself.
pub proof fn lemma_rest_push_front_first(s: Seq<i64>)
    requires
        s.len() > 0,
    ensures
        seq![s[0]] + s.drop_first() == s,
{
    assert(seq![s[0]] + s.drop_first() =~= s);
}

} // verus!
