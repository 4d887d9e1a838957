use vstd::prelude::*;
use crate::errors::PersistError;
use crate::key::Key;
use crate::lemmas::{lemma_no_dup_take_absent, lemma_take_full, lemma_take_to_set_step, lemma_take_zero_to_set};

verus! {

// ---------------------------------------------------------------------------
// Trusted view of im_rc's hash-array-mapped-trie set.
// ---------------------------------------------------------------------------

/// im_rc's persistent hash set, opaque to the verifier; verified code only
/// learns about a value of it through the wrappers below.
#[verifier::external_type_specification]
#[verifier::external_body]
#[verifier::reject_recursive_types(A)]
#[verifier::reject_recursive_types(S)]
pub struct ExHashSet<A, S>(im_rc::HashSet<A, S>);

/// The elements a trie set holds, as a mathematical set.
pub uninterp spec fn set_model(s: im_rc::HashSet<Key>) -> Set<Key>;

/// The set with no elements at all.
pub open spec fn empty_key_set() -> Set<Key> {
    Set::empty()
}

/// Relies on im_rc::HashSet::new: the new set holds no elements.
#[verifier::external_body]
fn hs_new() -> (r: im_rc::HashSet<Key>)
    ensures
        set_model(r) == empty_key_set(),
{
    im_rc::HashSet::new()
}

/// Relies on im_rc::HashSet::len: the number of elements.
#[verifier::external_body]
fn hs_len(s: &im_rc::HashSet<Key>) -> (r: usize)
    ensures
        r == set_model(*s).len(),
{
    s.len()
}

/// Relies on im_rc::HashSet::contains: membership of one element.
#[verifier::external_body]
fn hs_contains(s: &im_rc::HashSet<Key>, k: &Key) -> (r: bool)
    ensures
        r == set_model(*s).contains(*k),
{
    s.contains(k)
}

/// Relies on im_rc::HashSet::update: a new set with one element added,
/// sharing the rest; the receiver is untouched.
#[verifier::external_body]
fn hs_update(s: &im_rc::HashSet<Key>, k: Key) -> (r: im_rc::HashSet<Key>)
    ensures
        set_model(r) == set_model(*s).insert(k),
{
    s.update(k)
}

/// Relies on im_rc::HashSet::without: a new set with one element removed,
/// or an equal set when the element is absent.
#[verifier::external_body]
fn hs_without(s: &im_rc::HashSet<Key>, k: &Key) -> (r: im_rc::HashSet<Key>)
    ensures
        set_model(r) == set_model(*s).remove(*k),
{
    s.without(k)
}

/// Relies on im_rc::HashSet::clone: an equal set sharing all structure.
#[verifier::external_body]
fn hs_clone(s: &im_rc::HashSet<Key>) -> (r: im_rc::HashSet<Key>)
    ensures
        set_model(r) == set_model(*s),
{
    s.clone()
}

/// Relies on im_rc::HashSet::iter: every element is handed out exactly
/// once; the order is the trie's traversal order and is not specified.
#[verifier::external_body]
fn hs_elements(s: &im_rc::HashSet<Key>) -> (r: Vec<Key>)
    ensures
        r@.no_duplicates() && r@.to_set() == set_model(*s),
{
    s.iter().copied().collect()
}

// ---------------------------------------------------------------------------
// The verified persistent set.
// ---------------------------------------------------------------------------

/// The elements in exactly one of `a` and `b`.
pub open spec fn sym_diff(a: Set<Key>, b: Set<Key>) -> Set<Key> {
    a.difference(b).union(b.difference(a))
}

/// A persistent set of keys. Every mutating operation returns a new set
/// and leaves the receiver unchanged; old versions stay valid and share
/// structure with new ones.
pub struct PersistentSet {
    inner: im_rc::HashSet<Key>,
}

impl View for PersistentSet {
    type V = Set<Key>;

    closed spec fn view(&self) -> Set<Key> {
        set_model(self.inner)
    }
}

impl PersistentSet {
    /// A set always holds finitely many elements.
    #[verifier::type_invariant]
    closed spec fn wf(self) -> bool {
        self@.finite()
    }

    /// The empty set.
    pub fn new() -> (r: Self)
        ensures
            r@ == Set::<Key>::empty(),
    {
        PersistentSet { inner: hs_new() }
    }

    /// The set of the listed elements; duplicates collapse.
    pub fn from_elements(elems: &Vec<Key>) -> (r: Self)
        ensures
            r@ == elems@.to_set(),
    {
        let mut acc = hs_new();
        let mut i: usize = 0;
        proof {
            lemma_take_zero_to_set(elems@);
        }
        while i < elems.len()
            invariant
                i <= elems.len(),
                set_model(acc) == elems@.take(i as int).to_set(),
                set_model(acc).finite(),
            decreases elems.len() - i,
        {
            acc = hs_update(&acc, elems[i]);
            proof {
                lemma_take_to_set_step(elems@, i as int);
            }
            i = i + 1;
        }
        proof {
            lemma_take_full(elems@);
        }
        PersistentSet { inner: acc }
    }

    /// The number of elements in the set.
    pub fn len(&self) -> (r: usize)
        ensures
            r == self@.len(),
            self@.finite(),
    {
        proof {
            use_type_invariant(&*self);
        }
        hs_len(&self.inner)
    }

    /// Whether the element is present.
    pub fn contains(&self, k: &Key) -> (r: bool)
        ensures
            r == self@.contains(*k),
    {
        hs_contains(&self.inner, k)
    }

    /// A new set with the element added; the receiver is unchanged.
    pub fn insert(&self, k: Key) -> (r: Self)
        ensures
            r@ == self@.insert(k),
    {
        proof {
            use_type_invariant(&*self);
        }
        PersistentSet { inner: hs_update(&self.inner, k) }
    }

    /// A new set without the element; when it is absent, a set equal to
    /// the receiver. Never fails.
    pub fn discard(&self, k: &Key) -> (r: Self)
        ensures
            r@ == self@.remove(*k),
    {
        proof {
            use_type_invariant(&*self);
        }
        PersistentSet { inner: hs_without(&self.inner, k) }
    }

    /// A new set without the element, or `KeyNotFound` carrying it when
    /// it is absent.
    pub fn remove(&self, k: &Key) -> (r: Result<Self, PersistError>)
        ensures
            self@.contains(*k) ==> (r matches Ok(s) && s@ == self@.remove(*k)),
            !self@.contains(*k) ==> (r matches Err(e) && e == PersistError::KeyNotFound(*k)),
    {
        proof {
            use_type_invariant(&*self);
        }
        if hs_contains(&self.inner, k) {
            Ok(PersistentSet { inner: hs_without(&self.inner, k) })
        } else {
            Err(PersistError::KeyNotFound(*k))
        }
    }

    /// Every element exactly once, in the trie's traversal order.
    pub fn elements(&self) -> (r: Vec<Key>)
        ensures
            r@.no_duplicates(),
            r@.to_set() == self@,
    {
        hs_elements(&self.inner)
    }

    /// A one-shot iterator over the elements, each exactly once, in the
    /// trie's traversal order; later changes to the set never affect it.
    pub fn iter(&self) -> (r: crate::iters::KeyIter)
        ensures
            r@.no_duplicates(),
            r@.to_set() == self@,
    {
        crate::iters::KeyIter::from_vec(self.elements())
    }

    /// Whether every element of the receiver is in `other`.
    pub fn is_subset(&self, other: &PersistentSet) -> (r: bool)
        ensures
            r == self@.subset_of(other@),
    {
        let elems = hs_elements(&self.inner);
        let mut i: usize = 0;
        while i < elems.len()
            invariant
                i <= elems.len(),
                elems@.to_set() == self@,
                forall|j: int| 0 <= j < i ==> other@.contains(#[trigger] elems@[j]),
            decreases elems.len() - i,
        {
            if !hs_contains(&other.inner, &elems[i]) {
                proof {
                    assert(elems@.contains(elems@[i as int]));
                    assert(self@.contains(elems@[i as int]));
                }
                return false;
            }
            i = i + 1;
        }
        proof {
            assert forall|k: Key| self@.contains(k) implies other@.contains(k) by {
                assert(elems@.to_set().contains(k));
                let j = choose|j: int| 0 <= j < elems@.len() && (#[trigger] elems@[j]) == k;
            };
        }
        true
    }

    /// Content equality: true exactly when the two sets have the same
    /// size and the same elements, independent of insertion order or
    /// internal trie shape.
    pub fn eq_set(&self, other: &PersistentSet) -> (r: bool)
        ensures
            r <==> self@ =~= other@,
    {
        proof {
            use_type_invariant(&*self);
            use_type_invariant(&*other);
        }
        let n1 = hs_len(&self.inner);
        let n2 = hs_len(&other.inner);
        if n1 != n2 {
            proof {
                if self@ =~= other@ {
                    assert(self@ == other@);
                }
            }
            return false;
        }
        let sub = self.is_subset(other);
        proof {
            if sub {
                vstd::set_lib::lemma_subset_equality(self@, other@);
            }
            if self@ =~= other@ {
                assert(self@ == other@);
                assert(self@.subset_of(other@));
            }
        }
        sub
    }

    /// The strict-subset test: every element of the receiver is in
    /// `other` and the receiver is smaller.
    pub fn lt(&self, other: &PersistentSet) -> (r: bool)
        ensures
            r == (self@.subset_of(other@) && self@.len() < other@.len()),
    {
        proof {
            use_type_invariant(&*self);
            use_type_invariant(&*other);
        }
        let n1 = hs_len(&self.inner);
        let n2 = hs_len(&other.inner);
        if n1 >= n2 {
            return false;
        }
        self.is_subset(other)
    }

    /// The union: a set holding every element of both, iterating the
    /// smaller set into a copy of the larger.
    pub fn union(&self, other: &PersistentSet) -> (r: Self)
        ensures
            r@ == self@.union(other@),
    {
        proof {
            use_type_invariant(&*self);
            use_type_invariant(&*other);
        }
        let n1 = hs_len(&self.inner);
        let n2 = hs_len(&other.inner);
        let (base, small) = if n1 > n2 {
            (self, other)
        } else {
            (other, self)
        };
        let elems = hs_elements(&small.inner);
        let mut acc = hs_clone(&base.inner);
        let mut i: usize = 0;
        proof {
            lemma_take_zero_to_set(elems@);
            assert(set_model(acc) =~= base@.union(elems@.take(0).to_set()));
        }
        while i < elems.len()
            invariant
                i <= elems.len(),
                elems@.to_set() == small@,
                set_model(acc) == base@.union(elems@.take(i as int).to_set()),
                set_model(acc).finite(),
                base@.union(small@) =~= self@.union(other@),
            decreases elems.len() - i,
        {
            acc = hs_update(&acc, elems[i]);
            proof {
                lemma_take_to_set_step(elems@, i as int);
                assert(base@.union(elems@.take(i as int).to_set()).insert(elems@[i as int]) =~= base@
                    .union(elems@.take(i + 1).to_set()));
            }
            i = i + 1;
        }
        proof {
            lemma_take_full(elems@);
            assert(base@.union(small@) =~= self@.union(other@));
        }
        PersistentSet { inner: acc }
    }

    /// The intersection: the elements present in both, iterating the
    /// smaller set and keeping what the larger contains.
    pub fn intersection(&self, other: &PersistentSet) -> (r: Self)
        ensures
            r@ == self@.intersect(other@),
    {
        proof {
            use_type_invariant(&*self);
            use_type_invariant(&*other);
        }
        let n1 = hs_len(&self.inner);
        let n2 = hs_len(&other.inner);
        let (base, small) = if n1 > n2 {
            (self, other)
        } else {
            (other, self)
        };
        let elems = hs_elements(&small.inner);
        let mut acc = hs_new();
        let mut i: usize = 0;
        proof {
            lemma_take_zero_to_set(elems@);
            assert(set_model(acc) =~= elems@.take(0).to_set().intersect(base@));
        }
        while i < elems.len()
            invariant
                i <= elems.len(),
                elems@.to_set() == small@,
                set_model(acc) == elems@.take(i as int).to_set().intersect(base@),
                set_model(acc).finite(),
                small@.intersect(base@) =~= self@.intersect(other@),
            decreases elems.len() - i,
        {
            proof {
                lemma_take_to_set_step(elems@, i as int);
            }
            if hs_contains(&base.inner, &elems[i]) {
                acc = hs_update(&acc, elems[i]);
                proof {
                    assert(elems@.take(i as int).to_set().intersect(base@).insert(elems@[i as int])
                        =~= elems@.take(i + 1).to_set().intersect(base@));
                }
            } else {
                proof {
                    assert(elems@.take(i as int).to_set().intersect(base@) =~= elems@.take(
                        i + 1,
                    ).to_set().intersect(base@));
                }
            }
            i = i + 1;
        }
        proof {
            lemma_take_full(elems@);
            assert(small@.intersect(base@) =~= self@.intersect(other@));
        }
        PersistentSet { inner: acc }
    }

    /// The difference: a copy of the receiver with every element of
    /// `other` removed.
    pub fn difference(&self, other: &PersistentSet) -> (r: Self)
        ensures
            r@ == self@.difference(other@),
    {
        proof {
            use_type_invariant(&*self);
            use_type_invariant(&*other);
        }
        let elems = hs_elements(&other.inner);
        let mut acc = hs_clone(&self.inner);
        let mut i: usize = 0;
        proof {
            lemma_take_zero_to_set(elems@);
            assert(set_model(acc) =~= self@.difference(elems@.take(0).to_set()));
        }
        while i < elems.len()
            invariant
                i <= elems.len(),
                elems@.to_set() == other@,
                set_model(acc) == self@.difference(elems@.take(i as int).to_set()),
                set_model(acc).finite(),
            decreases elems.len() - i,
        {
            acc = hs_without(&acc, &elems[i]);
            proof {
                lemma_take_to_set_step(elems@, i as int);
                assert(self@.difference(elems@.take(i as int).to_set()).remove(elems@[i as int])
                    =~= self@.difference(elems@.take(i + 1).to_set()));
            }
            i = i + 1;
        }
        proof {
            lemma_take_full(elems@);
        }
        PersistentSet { inner: acc }
    }

    /// The symmetric difference: the elements in exactly one of the two
    /// sets, toggling each element of the smaller set in a copy of the
    /// larger.
    pub fn symmetric_difference(&self, other: &PersistentSet) -> (r: Self)
        ensures
            r@ == sym_diff(self@, other@),
    {
        proof {
            use_type_invariant(&*self);
            use_type_invariant(&*other);
        }
        let n1 = hs_len(&self.inner);
        let n2 = hs_len(&other.inner);
        let (base, small) = if n1 > n2 {
            (self, other)
        } else {
            (other, self)
        };
        let elems = hs_elements(&small.inner);
        let mut acc = hs_clone(&base.inner);
        let mut i: usize = 0;
        proof {
            lemma_take_zero_to_set(elems@);
            assert(set_model(acc) =~= sym_diff(base@, elems@.take(0).to_set()));
        }
        while i < elems.len()
            invariant
                i <= elems.len(),
                elems@.no_duplicates(),
                elems@.to_set() == small@,
                set_model(acc) == sym_diff(base@, elems@.take(i as int).to_set()),
                set_model(acc).finite(),
                sym_diff(base@, small@) =~= sym_diff(self@, other@),
            decreases elems.len() - i,
        {
            proof {
                lemma_take_to_set_step(elems@, i as int);
                lemma_no_dup_take_absent(elems@, i as int);
            }
            if hs_contains(&acc, &elems[i]) {
                acc = hs_without(&acc, &elems[i]);
                proof {
                    assert(sym_diff(base@, elems@.take(i as int).to_set()).remove(elems@[i as int])
                        =~= sym_diff(base@, elems@.take(i + 1).to_set()));
                }
            } else {
                acc = hs_update(&acc, elems[i]);
                proof {
                    assert(sym_diff(base@, elems@.take(i as int).to_set()).insert(elems@[i as int])
                        =~= sym_diff(base@, elems@.take(i + 1).to_set()));
                }
            }
            i = i + 1;
        }
        proof {
            lemma_take_full(elems@);
            assert(sym_diff(base@, small@) =~= sym_diff(self@, other@));
        }
        PersistentSet { inner: acc }
    }

    /// Folds the elements of every listed collection into a copy of the
    /// receiver.
    pub fn update(&self, iterables: &Vec<Vec<Key>>) -> (r: Self)
        ensures
            r@ == self@.union(union_of_all(iterables@)),
    {
        proof {
            use_type_invariant(&*self);
        }
        let mut acc = hs_clone(&self.inner);
        let mut i: usize = 0;
        proof {
            assert(set_model(acc) =~= self@.union(union_of_all(iterables@.take(0))));
        }
        while i < iterables.len()
            invariant
                i <= iterables.len(),
                set_model(acc) == self@.union(union_of_all(iterables@.take(i as int))),
                set_model(acc).finite(),
            decreases iterables.len() - i,
        {
            let elems = &iterables[i];
            let ghost prev = set_model(acc);
            let mut j: usize = 0;
            proof {
                lemma_take_zero_to_set(elems@);
                assert(prev =~= prev.union(elems@.take(0).to_set()));
            }
            while j < elems.len()
                invariant
                    j <= elems.len(),
                    set_model(acc) == prev.union(elems@.take(j as int).to_set()),
                    set_model(acc).finite(),
                decreases elems.len() - j,
            {
                acc = hs_update(&acc, elems[j]);
                proof {
                    lemma_take_to_set_step(elems@, j as int);
                    assert(prev.union(elems@.take(j as int).to_set()).insert(elems@[j as int]) =~=
                        prev.union(elems@.take(j + 1).to_set()));
                }
                j = j + 1;
            }
            proof {
                lemma_take_full(elems@);
                assert(iterables@.take(i + 1) =~= iterables@.take(i as int).push(
                    iterables@[i as int],
                ));
                lemma_union_of_all_push(iterables@.take(i as int), iterables@[i as int]);
                assert(self@.union(union_of_all(iterables@.take(i as int))).union(elems@.to_set())
                    =~= self@.union(union_of_all(iterables@.take(i + 1))));
            }
            i = i + 1;
        }
        proof {
            lemma_take_full(iterables@);
        }
        PersistentSet { inner: acc }
    }
}

/// The union of the elements of every listed collection.
pub open spec fn union_of_all(vs: Seq<Vec<Key>>) -> Set<Key>
    decreases vs.len(),
{
    if vs.len() == 0 {
        Set::empty()
    } else {
        union_of_all(vs.drop_first()).union(vs[0]@.to_set())
    }
}

/// Appending one collection to the list adds exactly its elements.
pub proof fn lemma_union_of_all_push(vs: Seq<Vec<Key>>, v: Vec<Key>)
    ensures
        union_of_all(vs.push(v)) == union_of_all(vs).union(v@.to_set()),
    decreases vs.len(),
{
    if vs.len() == 0 {
        assert(vs.push(v)[0] == v);
        assert(vs.push(v).drop_first() =~= vs);
        assert(union_of_all(vs.push(v)) == union_of_all(vs).union(v@.to_set()));
        assert(union_of_all(vs) == Set::<Key>::empty());
    } else {
        assert(vs.push(v)[0] == vs[0]);
        assert(vs.push(v).drop_first() =~= vs.drop_first().push(v));
        lemma_union_of_all_push(vs.drop_first(), v);
        assert(union_of_all(vs.push(v)) == union_of_all(vs.drop_first().push(v)).union(
            vs[0]@.to_set(),
        ));
        assert(union_of_all(vs.drop_first()).union(v@.to_set()).union(vs[0]@.to_set()) =~=
            union_of_all(vs.drop_first()).union(vs[0]@.to_set()).union(v@.to_set()));
    }
}

/// Union is commutative.
pub proof fn lemma_union_commutative(a: Set<Key>, b: Set<Key>)
    ensures
        a.union(b) == b.union(a),
{
    assert(a.union(b) =~= b.union(a));
}

/// Intersection is commutative.
pub proof fn lemma_intersection_commutative(a: Set<Key>, b: Set<Key>)
    ensures
        a.intersect(b) == b.intersect(a),
{
    assert(a.intersect(b) =~= b.intersect(a));
}

/// The difference holds no element of the subtracted set.
pub proof fn lemma_difference_disjoint(a: Set<Key>, b: Set<Key>)
    ensures
        forall|k: Key| b.contains(k) ==> !(#[trigger] a.difference(b).contains(k)),
{
}

/// The symmetric difference is the union of the two one-sided
/// differences.
pub proof fn lemma_sym_diff_decomposition(a: Set<Key>, b: Set<Key>)
    ensures
        sym_diff(a, b) == a.difference(b).union(b.difference(a)),
{
}

/// For finite sets, being a subset while smaller is exactly being a
/// strict subset.
pub proof fn lemma_strict_subset_iff(a: Set<Key>, b: Set<Key>)
    requires
        a.finite(),
        b.finite(),
    ensures
        (a.subset_of(b) && a.len() < b.len()) <==> (a.subset_of(b) && !(a =~= b)),
{
    if a.subset_of(b) {
        vstd::set_lib::lemma_len_subset(a, b);
        if a.len() == b.len() {
            vstd::set_lib::lemma_subset_equality(a, b);
        }
        if a =~= b {
            assert(a == b);
        }
    }
}

} // verus!
