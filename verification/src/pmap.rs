use vstd::prelude::*;
use crate::errors::PersistError;
use crate::key::Key;
use crate::lemmas::lemma_take_full;

verus! {

// ---------------------------------------------------------------------------
// Trusted view of im_rc's hash-array-mapped-trie map.
// ---------------------------------------------------------------------------

/// im_rc's persistent hash map, opaque to the verifier; verified code only
/// learns about a value of it through the wrappers below.
#[verifier::external_type_specification]
#[verifier::external_body]
#[verifier::reject_recursive_types(K)]
#[verifier::reject_recursive_types(V)]
#[verifier::reject_recursive_types(S)]
pub struct ExHashMap<K, V, S>(im_rc::HashMap<K, V, S>);

/// The bindings a trie map holds, as a mathematical map.
pub uninterp spec fn map_model(m: im_rc::HashMap<Key, i64>) -> Map<Key, i64>;

/// The key of every pair in `items`, in order.
pub open spec fn pair_keys(items: Seq<(Key, i64)>) -> Seq<Key> {
    items.map_values(|p: (Key, i64)| p.0)
}

/// `items` lists exactly the bindings of `m`, each key once.
pub open spec fn items_match(items: Seq<(Key, i64)>, m: Map<Key, i64>) -> bool {
    &&& pair_keys(items).no_duplicates()
    &&& pair_keys(items).to_set() == m.dom()
    &&& forall|i: int|
        0 <= i < items.len() ==> m.dom().contains((#[trigger] items[i]).0) && items[i].1 == m[
            items[i].0]
}

/// The map with no bindings at all.
pub open spec fn empty_map() -> Map<Key, i64> {
    Map::empty()
}

/// Relies on im_rc::HashMap::new: the new map holds no bindings.
#[verifier::external_body]
fn hm_new() -> (r: im_rc::HashMap<Key, i64>)
    ensures
        map_model(r) == empty_map(),
{
    im_rc::HashMap::new()
}

/// Relies on im_rc::HashMap::len: the number of bindings.
#[verifier::external_body]
fn hm_len(m: &im_rc::HashMap<Key, i64>) -> (r: usize)
    ensures
        r == map_model(*m).dom().len(),
{
    m.len()
}

/// Relies on im_rc::HashMap::get: the value bound to the key, if any.
#[verifier::external_body]
fn hm_get(m: &im_rc::HashMap<Key, i64>, k: &Key) -> (r: Option<i64>)
    ensures
        r == if map_model(*m).dom().contains(*k) {
            Some(map_model(*m)[*k])
        } else {
            None::<i64>
        },
{
    m.get(k).copied()
}

/// Relies on im_rc::HashMap::update: a new map with one binding added or
/// replaced, sharing the rest; the receiver is untouched.
#[verifier::external_body]
fn hm_update(m: &im_rc::HashMap<Key, i64>, k: Key, v: i64) -> (r: im_rc::HashMap<Key, i64>)
    ensures
        map_model(r) == map_model(*m).insert(k, v),
{
    m.update(k, v)
}

/// Relies on im_rc::HashMap::without: a new map with the binding for the
/// key removed, or an equal map when the key is absent.
#[verifier::external_body]
fn hm_without(m: &im_rc::HashMap<Key, i64>, k: &Key) -> (r: im_rc::HashMap<Key, i64>)
    ensures
        map_model(r) == map_model(*m).remove(*k),
{
    m.without(k)
}

/// Relies on im_rc::HashMap::clone: an equal map sharing all structure.
#[verifier::external_body]
fn hm_clone(m: &im_rc::HashMap<Key, i64>) -> (r: im_rc::HashMap<Key, i64>)
    ensures
        map_model(r) == map_model(*m),
{
    m.clone()
}

/// Relies on im_rc::HashMap::iter: every binding is handed out exactly
/// once; the order is the trie's traversal order and is not specified.
#[verifier::external_body]
fn hm_items(m: &im_rc::HashMap<Key, i64>) -> (r: Vec<(Key, i64)>)
    ensures
        items_match(r@, map_model(*m)),
{
    m.iter().map(|(k, v)| (*k, *v)).collect()
}

// ---------------------------------------------------------------------------
// The verified persistent map.
// ---------------------------------------------------------------------------

/// A persistent map from keys to values. Every mutating operation returns
/// a new map and leaves the receiver unchanged; old versions stay valid
/// and share structure with new ones.
pub struct PersistentMap {
    inner: im_rc::HashMap<Key, i64>,
}

impl View for PersistentMap {
    type V = Map<Key, i64>;

    closed spec fn view(&self) -> Map<Key, i64> {
        map_model(self.inner)
    }
}

impl PersistentMap {
    /// A map always holds finitely many bindings.
    #[verifier::type_invariant]
    closed spec fn wf(self) -> bool {
        self@.dom().finite()
    }

    /// The empty map.
    pub fn new() -> (r: Self)
        ensures
            r@ == Map::<Key, i64>::empty(),
    {
        PersistentMap { inner: hm_new() }
    }

    /// The number of keys in the map.
    pub fn len(&self) -> (r: usize)
        ensures
            r == self@.dom().len(),
            self@.dom().finite(),
    {
        proof {
            use_type_invariant(&*self);
        }
        hm_len(&self.inner)
    }

    /// Whether the key is present.
    pub fn contains_key(&self, k: &Key) -> (r: bool)
        ensures
            r == self@.dom().contains(*k),
    {
        hm_get(&self.inner, k).is_some()
    }

    /// The value bound to the key, or `None` when absent; never fails.
    pub fn get(&self, k: &Key) -> (r: Option<i64>)
        ensures
            r == if self@.dom().contains(*k) {
                Some(self@[*k])
            } else {
                None::<i64>
            },
    {
        hm_get(&self.inner, k)
    }

    /// Indexed access: the value bound to the key, or `KeyNotFound`
    /// carrying the key when it is absent.
    pub fn index(&self, k: &Key) -> (r: Result<i64, PersistError>)
        ensures
            self@.dom().contains(*k) ==> r == Ok::<i64, PersistError>(self@[*k]),
            !self@.dom().contains(*k) ==> r == Err::<i64, PersistError>(
                PersistError::KeyNotFound(*k),
            ),
    {
        match hm_get(&self.inner, k) {
            Some(v) => Ok(v),
            None => Err(PersistError::KeyNotFound(*k)),
        }
    }

    /// A new map with the key bound to the value; the receiver is
    /// unchanged. Replacing an existing key keeps the size; a new key
    /// grows it by one.
    pub fn insert(&self, k: Key, v: i64) -> (r: Self)
        ensures
            r@ == self@.insert(k, v),
    {
        proof {
            use_type_invariant(&*self);
        }
        PersistentMap { inner: hm_update(&self.inner, k, v) }
    }

    /// A new map without the key; when the key is absent, a map equal to
    /// the receiver. Never fails.
    pub fn discard(&self, k: &Key) -> (r: Self)
        ensures
            r@ == self@.remove(*k),
    {
        proof {
            use_type_invariant(&*self);
        }
        PersistentMap { inner: hm_without(&self.inner, k) }
    }

    /// A new map without the key, or `KeyNotFound` carrying the key when
    /// it is absent.
    pub fn remove(&self, k: &Key) -> (r: Result<Self, PersistError>)
        ensures
            self@.dom().contains(*k) ==> (r matches Ok(m) && m@ == self@.remove(*k)),
            !self@.dom().contains(*k) ==> (r matches Err(e) && e == PersistError::KeyNotFound(*k)),
    {
        proof {
            use_type_invariant(&*self);
        }
        match hm_get(&self.inner, k) {
            Some(_) => Ok(PersistentMap { inner: hm_without(&self.inner, k) }),
            None => Err(PersistError::KeyNotFound(*k)),
        }
    }

    /// Every binding as a key/value pair, each key exactly once, in the
    /// trie's traversal order.
    pub fn items(&self) -> (r: Vec<(Key, i64)>)
        ensures
            items_match(r@, self@),
    {
        hm_items(&self.inner)
    }

    /// Every key exactly once, in the trie's traversal order.
    pub fn keys(&self) -> (r: Vec<Key>)
        ensures
            r@.no_duplicates(),
            r@.to_set() == self@.dom(),
    {
        let items = hm_items(&self.inner);
        let ghost gkeys = pair_keys(items@);
        let mut out: Vec<Key> = Vec::new();
        let mut i: usize = 0;
        while i < items.len()
            invariant
                i <= items.len(),
                items_match(items@, self@),
                gkeys == pair_keys(items@),
                out@ == gkeys.take(i as int),
            decreases items.len() - i,
        {
            proof {
                assert(gkeys.take(i + 1) =~= gkeys.take(i as int).push(gkeys[i as int]));
            }
            out.push(items[i].0);
            i = i + 1;
        }
        proof {
            lemma_take_full(gkeys);
        }
        out
    }

    /// Every value, one per binding, in the trie's traversal order.
    pub fn values(&self) -> (r: Vec<i64>)
        ensures
            exists|items: Seq<(Key, i64)>|
                #![auto]
                items_match(items, self@) && values_match(r@, items),
    {
        let items = hm_items(&self.inner);
        let mut out: Vec<i64> = Vec::new();
        let mut i: usize = 0;
        while i < items.len()
            invariant
                i <= items.len(),
                items_match(items@, self@),
                out@.len() == i,
                forall|j: int| 0 <= j < i ==> out@[j] == items@[j].1,
            decreases items.len() - i,
        {
            out.push(items[i].1);
            i = i + 1;
        }
        proof {
            assert(items_match(items@, self@) && values_match(out@, items@));
        }
        out
    }

    /// Content equality: true exactly when the two maps have the same
    /// size and bind every key to the same value, independent of
    /// insertion order or internal trie shape.
    pub fn eq_map(&self, other: &PersistentMap) -> (r: bool)
        ensures
            r <==> self@ =~= other@,
    {
        proof {
            use_type_invariant(&*self);
            use_type_invariant(&*other);
        }
        let n1 = hm_len(&self.inner);
        let n2 = hm_len(&other.inner);
        if n1 != n2 {
            proof {
                if self@ =~= other@ {
                    assert(self@ == other@);
                }
            }
            return false;
        }
        let items = hm_items(&self.inner);
        let mut i: usize = 0;
        while i < items.len()
            invariant
                i <= items.len(),
                items_match(items@, self@),
                self@.dom().finite(),
                other@.dom().finite(),
                self@.dom().len() == other@.dom().len(),
                forall|j: int|
                    0 <= j < i ==> other@.dom().contains((#[trigger] items@[j]).0) && other@[
                        items@[j].0] == items@[j].1,
            decreases items.len() - i,
        {
            let (k, v) = items[i];
            match hm_get(&other.inner, &k) {
                Some(w) => {
                    if w != v {
                        proof {
                            assert(self@.dom().contains(k) && self@[k] == v);
                            if self@ =~= other@ {
                                assert(self@[k] == other@[k]);
                            }
                        }
                        return false;
                    }
                },
                None => {
                    proof {
                        assert(self@.dom().contains(k));
                        if self@ =~= other@ {
                            assert(other@.dom().contains(k));
                        }
                    }
                    return false;
                },
            }
            i = i + 1;
        }
        proof {
            assert forall|k: Key| self@.dom().contains(k) implies other@.dom().contains(k)
                && other@[k] == self@[k] by {
                assert(pair_keys(items@).to_set().contains(k));
                let j = choose|j: int|
                    0 <= j < pair_keys(items@).len() && pair_keys(items@)[j] == k;
                assert(items@[j].0 == k);
                assert(other@.dom().contains(items@[j].0) && other@[items@[j].0] == items@[j].1);
                assert(items@[j].1 == self@[items@[j].0]);
            };
            assert(self@.dom().subset_of(other@.dom()));
            vstd::set_lib::lemma_subset_equality(self@.dom(), other@.dom());
            assert(self@ =~= other@);
        }
        true
    }

    /// A new map holding every binding of `pairs` added to the receiver
    /// in order, a later pair for the same key winning over an earlier
    /// one and over the receiver's binding.
    pub fn update_pairs(&self, pairs: &Vec<(Key, i64)>) -> (r: Self)
        ensures
            r@ == insert_all(self@, pairs@),
    {
        proof {
            use_type_invariant(&*self);
        }
        let mut acc = hm_clone(&self.inner);
        let mut i: usize = 0;
        while i < pairs.len()
            invariant
                i <= pairs.len(),
                map_model(acc) == insert_all(self@, pairs@.take(i as int)),
                map_model(acc).dom().finite(),
            decreases pairs.len() - i,
        {
            let (k, v) = pairs[i];
            acc = hm_update(&acc, k, v);
            proof {
                assert(pairs@.take(i + 1) =~= pairs@.take(i as int).push(pairs@[i as int]));
                lemma_insert_all_push(self@, pairs@.take(i as int), pairs@[i as int]);
            }
            i = i + 1;
        }
        proof {
            lemma_take_full(pairs@);
        }
        PersistentMap { inner: acc }
    }

    /// The map built from a list of key/value pairs: every pair inserted
    /// in order into the empty map, a later pair for the same key winning
    /// over an earlier one.
    pub fn from_pairs(pairs: &Vec<(Key, i64)>) -> (r: Self)
        ensures
            r@ == insert_all(Map::empty(), pairs@),
    {
        PersistentMap::new().update_pairs(pairs)
    }

    /// A new map holding every binding of the receiver and of `other`;
    /// on a shared key, `other`'s value wins.
    pub fn update_with(&self, other: &PersistentMap) -> (r: Self)
        ensures
            r@ == self@.union_prefer_right(other@),
    {
        proof {
            use_type_invariant(&*self);
            use_type_invariant(&*other);
        }
        let items = hm_items(&other.inner);
        let mut acc = hm_clone(&self.inner);
        let mut i: usize = 0;
        while i < items.len()
            invariant
                i <= items.len(),
                items_match(items@, other@),
                map_model(acc) == insert_all(self@, items@.take(i as int)),
                map_model(acc).dom().finite(),
            decreases items.len() - i,
        {
            let (k, v) = items[i];
            acc = hm_update(&acc, k, v);
            proof {
                assert(items@.take(i + 1) =~= items@.take(i as int).push(items@[i as int]));
                lemma_insert_all_push(self@, items@.take(i as int), items@[i as int]);
            }
            i = i + 1;
        }
        proof {
            lemma_take_full(items@);
            lemma_insert_all_unique(self@, items@);
            assert forall|k: Key| #[trigger]
                self@.union_prefer_right(other@).dom().contains(k) implies map_model(
                acc,
            ).dom().contains(k) && map_model(acc)[k] == self@.union_prefer_right(other@)[k] by {
                if other@.dom().contains(k) {
                    assert(pair_keys(items@).to_set().contains(k));
                    let j = choose|j: int|
                        0 <= j < pair_keys(items@).len() && pair_keys(items@)[j] == k;
                    assert(items@[j].0 == k && items@[j].1 == other@[k]);
                } else {
                    assert(!pair_keys(items@).contains(k));
                    assert(!pair_keys(items@).to_set().contains(k));
                }
            };
            assert forall|k: Key| #[trigger] map_model(acc).dom().contains(k) implies self@
                .union_prefer_right(other@).dom().contains(k) by {
                if !pair_keys(items@).contains(k) {
                    assert(!pair_keys(items@).to_set().contains(k));
                } else {
                    assert(pair_keys(items@).to_set().contains(k));
                }
            };
            assert(map_model(acc) =~= self@.union_prefer_right(other@));
        }
        PersistentMap { inner: acc }
    }

    /// A one-shot iterator over the keys, each exactly once, in the
    /// trie's traversal order; later changes to the map never affect it.
    pub fn iter(&self) -> (r: crate::iters::KeyIter)
        ensures
            r@.no_duplicates(),
            r@.to_set() == self@.dom(),
    {
        crate::iters::KeyIter::from_vec(self.keys())
    }

    /// Folds every map of `others` into a copy of the receiver, left to
    /// right: a later map's keys win over an earlier one's and over the
    /// receiver's.
    pub fn update(&self, others: &Vec<PersistentMap>) -> (r: Self)
        ensures
            r@ == fold_update(self@, others@),
    {
        proof {
            use_type_invariant(&*self);
        }
        let mut acc = PersistentMap { inner: hm_clone(&self.inner) };
        let mut i: usize = 0;
        while i < others.len()
            invariant
                i <= others.len(),
                acc@ == fold_update(self@, others@.take(i as int)),
            decreases others.len() - i,
        {
            acc = acc.update_with(&others[i]);
            proof {
                assert(others@.take(i + 1) =~= others@.take(i as int).push(others@[i as int]));
                lemma_fold_update_push(self@, others@.take(i as int), others@[i as int]);
            }
            i = i + 1;
        }
        proof {
            lemma_take_full(others@);
        }
        acc
    }
}

/// `vals` lists the payload of each pair of `items`, in the same order.
pub open spec fn values_match(vals: Seq<i64>, items: Seq<(Key, i64)>) -> bool {
    vals.len() == items.len() && forall|i: int| 0 <= i < items.len() ==> vals[i] == (
    #[trigger] items[i]).1
}

/// Every pair of `pairs` inserted into `acc` in order; a later pair for
/// the same key wins.
pub open spec fn insert_all(acc: Map<Key, i64>, pairs: Seq<(Key, i64)>) -> Map<Key, i64>
    decreases pairs.len(),
{
    if pairs.len() == 0 {
        acc
    } else {
        insert_all(acc.insert(pairs[0].0, pairs[0].1), pairs.drop_first())
    }
}

/// Every map of `ms` folded into `acc` left to right; a later map's keys
/// win.
pub open spec fn fold_update(acc: Map<Key, i64>, ms: Seq<PersistentMap>) -> Map<Key, i64>
    decreases ms.len(),
{
    if ms.len() == 0 {
        acc
    } else {
        fold_update(acc.union_prefer_right(ms[0]@), ms.drop_first())
    }
}

/// Appending one pair to a batch insertion inserts it last.
pub proof fn lemma_insert_all_push(acc: Map<Key, i64>, pairs: Seq<(Key, i64)>, p: (Key, i64))
    ensures
        insert_all(acc, pairs.push(p)) == insert_all(acc, pairs).insert(p.0, p.1),
    decreases pairs.len(),
{
    if pairs.len() == 0 {
        assert(pairs.push(p)[0] == p);
        assert(pairs.push(p).drop_first() =~= pairs);
        assert(insert_all(acc, pairs.push(p)) == insert_all(acc.insert(p.0, p.1), pairs));
        assert(insert_all(acc.insert(p.0, p.1), pairs) == acc.insert(p.0, p.1));
        assert(insert_all(acc, pairs) == acc);
    } else {
        assert(pairs.push(p)[0] == pairs[0]);
        assert(pairs.push(p).drop_first() =~= pairs.drop_first().push(p));
        let acc1 = acc.insert(pairs[0].0, pairs[0].1);
        assert(insert_all(acc, pairs.push(p)) == insert_all(acc1, pairs.drop_first().push(p)));
        lemma_insert_all_push(acc1, pairs.drop_first(), p);
        assert(insert_all(acc, pairs) == insert_all(acc1, pairs.drop_first()));
    }
}

/// Appending one map to a fold folds it last.
pub proof fn lemma_fold_update_push(acc: Map<Key, i64>, ms: Seq<PersistentMap>, m: PersistentMap)
    ensures
        fold_update(acc, ms.push(m)) == fold_update(acc, ms).union_prefer_right(m@),
    decreases ms.len(),
{
    if ms.len() == 0 {
        assert(ms.push(m)[0] == m);
        assert(ms.push(m).drop_first() =~= ms);
        assert(fold_update(acc, ms.push(m)) == fold_update(acc.union_prefer_right(m@), ms));
        assert(fold_update(acc.union_prefer_right(m@), ms) == acc.union_prefer_right(m@));
        assert(fold_update(acc, ms) == acc);
    } else {
        assert(ms.push(m)[0] == ms[0]);
        assert(ms.push(m).drop_first() =~= ms.drop_first().push(m));
        let acc1 = acc.union_prefer_right(ms[0]@);
        assert(fold_update(acc, ms.push(m)) == fold_update(acc1, ms.drop_first().push(m)));
        lemma_fold_update_push(acc1, ms.drop_first(), m);
        assert(fold_update(acc, ms) == fold_update(acc1, ms.drop_first()));
    }
}

/// A batch insertion whose keys are distinct binds each inserted key to
/// its own payload and leaves every other key as it was.
pub proof fn lemma_insert_all_unique(acc: Map<Key, i64>, pairs: Seq<(Key, i64)>)
    requires
        pair_keys(pairs).no_duplicates(),
    ensures
        forall|j: int|
            0 <= j < pairs.len() ==> insert_all(acc, pairs).dom().contains(
                (#[trigger] pairs[j]).0,
            ) && insert_all(acc, pairs)[pairs[j].0] == pairs[j].1,
        forall|k: Key|
            #![trigger pair_keys(pairs).contains(k)]
            !pair_keys(pairs).contains(k) ==> (insert_all(acc, pairs).dom().contains(k)
                <==> acc.dom().contains(k)) && insert_all(acc, pairs)[k] == acc[k],
    decreases pairs.len(),
{
    if pairs.len() != 0 {
        let p0 = pairs[0];
        let rest = pairs.drop_first();
        assert(pair_keys(rest) =~= pair_keys(pairs).drop_first());
        assert(pair_keys(pairs)[0] == p0.0);
        assert(insert_all(acc, pairs) == insert_all(acc.insert(p0.0, p0.1), rest));
        lemma_insert_all_unique(acc.insert(p0.0, p0.1), rest);
        assert forall|j: int|
            0 <= j < pairs.len() implies insert_all(acc, pairs).dom().contains(
            (#[trigger] pairs[j]).0,
        ) && insert_all(acc, pairs)[pairs[j].0] == pairs[j].1 by {
            if j == 0 {
                assert(!pair_keys(rest).contains(p0.0)) by {
                    if pair_keys(rest).contains(p0.0) {
                        let i = choose|i: int|
                            0 <= i < pair_keys(rest).len() && pair_keys(rest)[i] == p0.0;
                        assert(pair_keys(pairs)[i + 1] == pair_keys(pairs)[0]);
                    }
                };
                assert(insert_all(acc.insert(p0.0, p0.1), rest).dom().contains(p0.0) <==> acc
                    .insert(p0.0, p0.1).dom().contains(p0.0));
                assert(insert_all(acc.insert(p0.0, p0.1), rest)[p0.0] == acc.insert(
                    p0.0,
                    p0.1,
                )[p0.0]);
            } else {
                assert(rest[j - 1] == pairs[j]);
                assert(insert_all(acc.insert(p0.0, p0.1), rest).dom().contains(rest[j - 1].0)
                    && insert_all(acc.insert(p0.0, p0.1), rest)[rest[j - 1].0] == rest[j - 1].1);
            }
        };
        assert forall|k: Key|
            #![trigger pair_keys(pairs).contains(k)]
            !pair_keys(pairs).contains(k) implies (insert_all(acc, pairs).dom().contains(k)
            <==> acc.dom().contains(k)) && insert_all(acc, pairs)[k] == acc[k] by {
            assert(pair_keys(pairs)[0] == p0.0);
            assert(!pair_keys(rest).contains(k)) by {
                if pair_keys(rest).contains(k) {
                    let i = choose|i: int|
                        0 <= i < pair_keys(rest).len() && pair_keys(rest)[i] == k;
                    assert(pair_keys(pairs)[i + 1] == k);
                }
            };
            assert(k != p0.0);
            assert(insert_all(acc.insert(p0.0, p0.1), rest).dom().contains(k) <==> acc.insert(
                p0.0,
                p0.1,
            ).dom().contains(k));
            assert(insert_all(acc.insert(p0.0, p0.1), rest)[k] == acc.insert(p0.0, p0.1)[k]);
            assert(acc.insert(p0.0, p0.1)[k] == acc[k]);
        };
    }
}

/// Two maps are equal exactly when they are the same size and the second
/// binds every key of the first to the first's value for it.
pub proof fn lemma_map_content_equality(a: Map<Key, i64>, b: Map<Key, i64>)
    requires
        a.dom().finite(),
        b.dom().finite(),
    ensures
        (a =~= b) <==> (a.dom().len() == b.dom().len() && forall|k: Key| #[trigger]
            a.dom().contains(k) ==> b.dom().contains(k) && a[k] == b[k]),
{
    if a.dom().len() == b.dom().len() && (forall|k: Key| #[trigger]
        a.dom().contains(k) ==> b.dom().contains(k) && a[k] == b[k]) {
        assert(a.dom().subset_of(b.dom()));
        vstd::set_lib::lemma_subset_equality(a.dom(), b.dom());
        assert(a =~= b);
    }
    if a =~= b {
        assert(a == b);
    }
}

/// Discarding a key that is not in the map leaves a map equal to it.
pub proof fn lemma_discard_absent(m: Map<Key, i64>, k: Key)
    requires
        !m.dom().contains(k),
    ensures
        m.remove(k) == m,
{
    assert(m.remove(k) =~= m);
}

} // verus!
