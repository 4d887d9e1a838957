use vstd::prelude::*;

verus! {

/// Extending a prefix of `s` by one element adds exactly that element to
/// the set of the prefix's elements.
pub proof fn lemma_take_to_set_step<A>(s: Seq<A>, i: int)
    requires
        0 <= i < s.len(),
    ensures
        s.take(i + 1).to_set() == s.take(i).to_set().insert(s[i]),
{
    assert forall|x: A|
        #![trigger s.take(i + 1).to_set().contains(x)]
        s.take(i + 1).to_set().contains(x) <==> s.take(i).to_set().insert(s[i]).contains(x) by {
        if s.take(i + 1).to_set().contains(x) {
            let j = choose|j: int| 0 <= j < s.take(i + 1).len() && (#[trigger] s.take(i + 1)[j]) == x;
            if j < i {
                assert(s.take(i)[j] == x);
                assert(s.take(i).contains(x));
            }
        }
        if s.take(i).to_set().contains(x) {
            let j = choose|j: int| 0 <= j < s.take(i).len() && (#[trigger] s.take(i)[j]) == x;
            assert(s.take(i + 1)[j] == x);
            assert(s.take(i + 1).contains(x));
        }
        if x == s[i] {
            assert(s.take(i + 1)[i] == x);
            assert(s.take(i + 1).contains(x));
        }
    };
    assert(s.take(i + 1).to_set() =~= s.take(i).to_set().insert(s[i]));
}

/// The empty prefix of a sequence has no elements.
pub proof fn lemma_take_zero_to_set<A>(s: Seq<A>)
    ensures
        s.take(0).to_set() == Set::<A>::empty(),
{
    assert forall|x: A| !(#[trigger] s.take(0).to_set().contains(x)) by {
        if s.take(0).contains(x) {
            let j = choose|j: int| 0 <= j < s.take(0).len() && (#[trigger] s.take(0)[j]) == x;
        }
    };
    assert(s.take(0).to_set() =~= Set::empty());
}

/// In a sequence without duplicates, an element does not occur in the
/// prefix before its own position.
pub proof fn lemma_no_dup_take_absent<A>(s: Seq<A>, i: int)
    requires
        0 <= i < s.len(),
        s.no_duplicates(),
    ensures
        !s.take(i).to_set().contains(s[i]),
{
    if s.take(i).to_set().contains(s[i]) {
        let j = choose|j: int| 0 <= j < s.take(i).len() && (#[trigger] s.take(i)[j]) == s[i];
        assert(s[j] == s[i]);
    }
}

/// The whole of a sequence is its own prefix of full length.
pub proof fn lemma_take_full<A>(s: Seq<A>)
    ensures
        s.take(s.len() as int) == s,
{
    assert(s.take(s.len() as int) =~= s);
}

} // verus!
