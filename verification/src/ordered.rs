//! An insertion-ordered map from names to values.
//!
//! The names live in an `indexmap::IndexSet<String>`, which hashes them and
//! keeps them in insertion order; the value of the name at position `i` is
//! the element `i` of a vector kept beside it.

use indexmap::IndexSet;
use vstd::prelude::*;

verus! {

/// `indexmap::IndexSet`, a hash set that keeps its items in the order in
/// which they were inserted. Nothing is claimed of what is inside it but
/// through `key_order`.
#[verifier::external_type_specification]
#[verifier::external_body]
#[verifier::reject_recursive_types(T)]
#[verifier::reject_recursive_types(S)]
pub struct ExIndexSet<T, S>(IndexSet<T, S>);

/// The names that an `IndexSet<String>` holds, in the order in which it
/// walks them.
pub uninterp spec fn key_order(s: IndexSet<String>) -> Seq<Seq<char>>;

/// `IndexSet::new`: the new set holds nothing.
#[verifier::external_body]
fn keys_new() -> (s: IndexSet<String>)
    ensures
        key_order(s) == Seq::<Seq<char>>::empty(),
{
    IndexSet::new()
}

/// `IndexSet::clone`: the copy holds the same names in the same order.
#[verifier::external_body]
fn keys_clone(s: &IndexSet<String>) -> (r: IndexSet<String>)
    ensures
        key_order(r) == key_order(*s),
{
    s.clone()
}

/// `IndexSet::get_index_of`: the position of `key`, or `None` when the set
/// does not hold it.
#[verifier::external_body]
fn keys_index_of(s: &IndexSet<String>, key: &str) -> (r: Option<usize>)
    ensures
        match r {
            Some(i) => i < key_order(*s).len() && key_order(*s)[i as int] == key@,
            None => !key_order(*s).contains(key@),
        },
{
    s.get_index_of(key)
}

/// `IndexSet::get_index`: the name at position `i`, or `None` when `i` is
/// not below the length.
#[verifier::external_body]
fn keys_at(s: &IndexSet<String>, i: usize) -> (r: Option<&String>)
    ensures
        match r {
            Some(k) => i < key_order(*s).len() && k@ == key_order(*s)[i as int],
            None => i >= key_order(*s).len(),
        },
{
    s.get_index(i)
}

/// `IndexSet::insert_full`: a name not yet held goes last and the call
/// returns its position and `true`; a name already held stays where it is,
/// the set is unchanged and the call returns that position and `false`.
#[verifier::external_body]
fn keys_insert(s: &mut IndexSet<String>, key: String) -> (r: (usize, bool))
    ensures
        r.1 == !key_order(*old(s)).contains(key@),
        r.1 ==> {
            &&& key_order(*final(s)) == key_order(*old(s)).push(key@)
            &&& r.0 == key_order(*old(s)).len()
        },
        !r.1 ==> {
            &&& key_order(*final(s)) == key_order(*old(s))
            &&& r.0 < key_order(*old(s)).len()
            &&& key_order(*old(s))[r.0 as int] == key@
        },
{
    s.insert_full(key)
}

/// `IndexSet::shift_remove_full`: a name that is held leaves, the names behind
/// it move up by one place in their order, and the call returns the position
/// it had; of a name not held the call returns `None` and changes nothing.
#[verifier::external_body]
fn keys_shift_remove(s: &mut IndexSet<String>, key: &str) -> (r: Option<usize>)
    ensures
        match r {
            Some(i) => {
                &&& i < key_order(*old(s)).len()
                &&& key_order(*old(s))[i as int] == key@
                &&& key_order(*final(s)) == key_order(*old(s)).remove(i as int)
            },
            None => {
                &&& !key_order(*old(s)).contains(key@)
                &&& key_order(*final(s)) == key_order(*old(s))
            },
        },
{
    s.shift_remove_full(key).map(|found| found.0)
}

/// Whether some entry of `m` has the name `k`.
pub open spec fn has_key<T>(m: Seq<(Seq<char>, T)>, k: Seq<char>) -> bool {
    exists|i: int| #![trigger m[i]] 0 <= i < m.len() && m[i].0 == k
}

/// A position at which `m` has the name `k`, where there is one.
pub open spec fn key_index<T>(m: Seq<(Seq<char>, T)>, k: Seq<char>) -> int {
    choose|i: int| #![trigger m[i]] 0 <= i < m.len() && m[i].0 == k
}

/// The value that `m` gives the name `k`.
pub open spec fn lookup<T>(m: Seq<(Seq<char>, T)>, k: Seq<char>) -> Option<T> {
    if has_key(m, k) {
        Some(m[key_index(m, k)].1)
    } else {
        None
    }
}

/// `m` with `k` set to `v`: in its old place where `m` had the name, last
/// where it had not.
pub open spec fn put<T>(m: Seq<(Seq<char>, T)>, k: Seq<char>, v: T) -> Seq<(Seq<char>, T)> {
    if has_key(m, k) {
        m.update(key_index(m, k), (k, v))
    } else {
        m.push((k, v))
    }
}

/// `m` without the name `k`; the other entries keep their order.
pub open spec fn del<T>(m: Seq<(Seq<char>, T)>, k: Seq<char>) -> Seq<(Seq<char>, T)> {
    if has_key(m, k) {
        m.remove(key_index(m, k))
    } else {
        m
    }
}

/// No name occurs twice in `m`.
pub open spec fn distinct_keys<T>(m: Seq<(Seq<char>, T)>) -> bool {
    forall|i: int, j: int| #![trigger m[i], m[j]] 0 <= i < j < m.len() ==> m[i].0 != m[j].0
}

/// The names of `m`, in order.
pub open spec fn key_seq<T>(m: Seq<(Seq<char>, T)>) -> Seq<Seq<char>> {
    Seq::new(m.len(), |i: int| m[i].0)
}

/// With distinct names, the position of a name is the one place that holds it.
pub proof fn lemma_key_index<T>(m: Seq<(Seq<char>, T)>, i: int)
    requires
        distinct_keys(m),
        0 <= i < m.len(),
    ensures
        has_key(m, m[i].0),
        key_index(m, m[i].0) == i,
        lookup(m, m[i].0) == Some(m[i].1),
{
    let j = key_index(m, m[i].0);
    assert(0 <= j < m.len() && m[j].0 == m[i].0);
    if j < i {
        assert(m[j].0 != m[i].0);
    } else if i < j {
        assert(m[i].0 != m[j].0);
    }
}

/// Setting a name keeps the names distinct, gives that name the new value
/// and leaves every other name as it was.
pub proof fn lemma_put<T>(m: Seq<(Seq<char>, T)>, k: Seq<char>, v: T)
    requires
        distinct_keys(m),
    ensures
        distinct_keys(put(m, k, v)),
        lookup(put(m, k, v), k) == Some(v),
        forall|k2: Seq<char>| k2 != k ==> #[trigger] lookup(put(m, k, v), k2) == lookup(m, k2),
        forall|k2: Seq<char>| #[trigger]
            has_key(put(m, k, v), k2) <==> (k2 == k || has_key(m, k2)),
        put(m, k, v).len() == m.len() + if has_key(m, k) {
            0int
        } else {
            1int
        },
{
    let p = put(m, k, v);
    let at = if has_key(m, k) {
        key_index(m, k)
    } else {
        m.len() as int
    };
    assert(0 <= at < p.len() && p[at] == (k, v));
    assert forall|i: int| 0 <= i < p.len() && i != at implies #[trigger] p[i] == m[i] && m[i].0
        != k by {
        if has_key(m, k) {
            lemma_key_index(m, at);
            if i < at {
                assert(m[i].0 != m[at].0);
            } else {
                assert(m[at].0 != m[i].0);
            }
        } else {
            if m[i].0 == k {
                assert(has_key(m, k));
            }
        }
    }
    assert(distinct_keys(p)) by {
        assert forall|i: int, j: int| 0 <= i < j < p.len() implies p[i].0 != p[j].0 by {
            if i != at && j != at {
                assert(m[i].0 != m[j].0);
            }
        }
    }
    lemma_key_index(p, at);
    assert forall|k2: Seq<char>| #[trigger]
        has_key(p, k2) <==> (k2 == k || has_key(m, k2)) by {
        if has_key(p, k2) {
            let i = key_index(p, k2);
            if i != at {
                assert(m[i].0 == k2);
            }
        }
        if has_key(m, k2) {
            let i = key_index(m, k2);
            assert(p[i].0 == k2);
        }
    }
    assert forall|k2: Seq<char>| k2 != k implies #[trigger] lookup(p, k2) == lookup(m, k2) by {
        if has_key(m, k2) {
            let i = key_index(m, k2);
            assert(i != at);
            assert(p[i] == m[i]);
            lemma_key_index(p, i);
            lemma_key_index(m, i);
        }
    }
}

/// Taking a name out keeps the names distinct, leaves that name without a
/// value and every other name as it was.
pub proof fn lemma_del<T>(m: Seq<(Seq<char>, T)>, k: Seq<char>)
    requires
        distinct_keys(m),
    ensures
        distinct_keys(del(m, k)),
        !has_key(del(m, k), k),
        lookup(del(m, k), k) == None::<T>,
        forall|k2: Seq<char>| k2 != k ==> #[trigger] lookup(del(m, k), k2) == lookup(m, k2),
        forall|k2: Seq<char>| #[trigger] has_key(del(m, k), k2) <==> (k2 != k && has_key(m, k2)),
        del(m, k).len() == m.len() - if has_key(m, k) {
            1int
        } else {
            0int
        },
{
    let d = del(m, k);
    if has_key(m, k) {
        let at = key_index(m, k);
        lemma_key_index(m, at);
        assert forall|i: int| 0 <= i < d.len() implies #[trigger] d[i] == m[if i < at {
            i
        } else {
            i + 1
        }] && d[i].0 != k by {
            let o = if i < at {
                i
            } else {
                i + 1
            };
            if o < at {
                assert(m[o].0 != m[at].0);
            } else {
                assert(m[at].0 != m[o].0);
            }
        }
        assert(distinct_keys(d)) by {
            assert forall|i: int, j: int| 0 <= i < j < d.len() implies d[i].0 != d[j].0 by {
                let oi = if i < at {
                    i
                } else {
                    i + 1
                };
                let oj = if j < at {
                    j
                } else {
                    j + 1
                };
                assert(m[oi].0 != m[oj].0);
            }
        }
        assert forall|k2: Seq<char>| #[trigger]
            has_key(d, k2) <==> (k2 != k && has_key(m, k2)) by {
            if has_key(d, k2) {
                let i = key_index(d, k2);
                let o = if i < at {
                    i
                } else {
                    i + 1
                };
                assert(m[o].0 == k2);
            }
            if k2 != k && has_key(m, k2) {
                let o = key_index(m, k2);
                let i = if o < at {
                    o
                } else {
                    o - 1
                };
                assert(d[i].0 == k2);
            }
        }
        assert forall|k2: Seq<char>| k2 != k implies #[trigger] lookup(d, k2) == lookup(m, k2) by {
            if has_key(m, k2) {
                let o = key_index(m, k2);
                let i = if o < at {
                    o
                } else {
                    o - 1
                };
                assert(d[i] == m[o]);
                lemma_key_index(d, i);
                lemma_key_index(m, o);
            }
        }
    } else {
        assert(d == m);
    }
}

/// The entries that pair each of `keys` with the value at its position.
pub open spec fn entries<T>(keys: Seq<Seq<char>>, vals: Seq<T>) -> Seq<(Seq<char>, T)> {
    Seq::new(keys.len(), |i: int| (keys[i], vals[i]))
}

/// Pairing names without repeats gives entries with distinct names, and a
/// name has a value exactly where it is among the names.
pub proof fn lemma_entries<T>(keys: Seq<Seq<char>>, vals: Seq<T>)
    requires
        keys.len() == vals.len(),
        keys.no_duplicates(),
    ensures
        distinct_keys(entries(keys, vals)),
        entries(keys, vals).len() == keys.len(),
        forall|k: Seq<char>| #[trigger] has_key(entries(keys, vals), k) <==> keys.contains(k),
        forall|i: int|
            0 <= i < keys.len() ==> #[trigger] key_index(entries(keys, vals), keys[i]) == i
                && lookup(entries(keys, vals), keys[i]) == Some(vals[i]),
{
    let m = entries(keys, vals);
    assert forall|k: Seq<char>| #[trigger] has_key(m, k) <==> keys.contains(k) by {
        if has_key(m, k) {
            let i = key_index(m, k);
            assert(keys[i] == k);
        }
        if keys.contains(k) {
            let i = choose|i: int| 0 <= i < keys.len() && keys[i] == k;
            assert(m[i].0 == k);
        }
    }
    assert forall|i: int| 0 <= i < keys.len() implies #[trigger] key_index(m, keys[i]) == i
        && lookup(m, keys[i]) == Some(vals[i]) by {
        assert(m[i] == (keys[i], vals[i]));
        lemma_key_index(m, i);
    }
}

/// A new name with its value at the end is `put` of a name not yet held.
pub proof fn lemma_entries_push<T>(keys: Seq<Seq<char>>, vals: Seq<T>, k: Seq<char>, v: T)
    requires
        keys.len() == vals.len(),
        keys.no_duplicates(),
        !keys.contains(k),
    ensures
        entries(keys.push(k), vals.push(v)) == put(entries(keys, vals), k, v),
        keys.push(k).no_duplicates(),
{
    lemma_entries(keys, vals);
    assert(entries(keys.push(k), vals.push(v)) =~= entries(keys, vals).push((k, v)));
}

/// A new value at the position of a name is `put` of that name.
pub proof fn lemma_entries_update<T>(keys: Seq<Seq<char>>, vals: Seq<T>, i: int, v: T)
    requires
        keys.len() == vals.len(),
        keys.no_duplicates(),
        0 <= i < keys.len(),
    ensures
        entries(keys, vals.update(i, v)) == put(entries(keys, vals), keys[i], v),
{
    lemma_entries(keys, vals);
    assert(keys.contains(keys[i]));
    assert(entries(keys, vals.update(i, v)) =~= entries(keys, vals).update(i, (keys[i], v)));
}

/// Taking a name and its value out of their position is `del` of that name.
pub proof fn lemma_entries_remove<T>(keys: Seq<Seq<char>>, vals: Seq<T>, i: int)
    requires
        keys.len() == vals.len(),
        keys.no_duplicates(),
        0 <= i < keys.len(),
    ensures
        entries(keys.remove(i), vals.remove(i)) == del(entries(keys, vals), keys[i]),
        keys.remove(i).no_duplicates(),
{
    lemma_entries(keys, vals);
    assert(keys.contains(keys[i]));
    assert(entries(keys.remove(i), vals.remove(i)) =~= entries(keys, vals).remove(i));
}

/// An insertion-ordered map from names to values of type `V`.
#[derive(Debug)]
pub struct OrderedMap<V> {
    keys: IndexSet<String>,
    values: Vec<V>,
}

impl<V> OrderedMap<V> {
    /// The names, in insertion order.
    pub closed spec fn spec_keys(&self) -> Seq<Seq<char>> {
        key_order(self.keys)
    }

    /// The values, each at the position of its name.
    pub closed spec fn spec_values(&self) -> Seq<V> {
        self.values@
    }

    /// Every name has one value, and no name occurs twice.
    pub open spec fn wf(&self) -> bool {
        &&& self.spec_keys().len() == self.spec_values().len()
        &&& self.spec_keys().no_duplicates()
    }
}

impl<V: Clone> Clone for OrderedMap<V> {
    /// A copy with the same names in the same order, and at each position a
    /// clone of the value there.
    fn clone(&self) -> (r: Self)
        ensures
            self.wf() ==> r.wf(),
            r.spec_keys() == self.spec_keys(),
            r.spec_values().len() == self.spec_values().len(),
            forall|i: int|
                #![all_triggers]
                0 <= i < self.spec_values().len() ==> cloned(
                    self.spec_values()[i],
                    r.spec_values()[i],
                ),
    {
        OrderedMap { keys: keys_clone(&self.keys), values: self.values.clone() }
    }
}

impl<V: View> View for OrderedMap<V> {
    type V = Seq<(Seq<char>, V::V)>;

    /// The entries, in insertion order, each value by its view.
    open spec fn view(&self) -> Self::V {
        entries(self.spec_keys(), self.spec_values().map_values(|v: V| v@))
    }
}

impl<V: View> OrderedMap<V> {
    /// An empty map.
    pub fn new() -> (m: Self)
        ensures
            m.wf(),
            m.spec_keys() == Seq::<Seq<char>>::empty(),
            m.spec_values() == Seq::<V>::empty(),
            m@ == Seq::<(Seq<char>, V::V)>::empty(),
    {
        let m = OrderedMap { keys: keys_new(), values: Vec::new() };
        assert(m@ =~= Seq::<(Seq<char>, V::V)>::empty());
        m
    }

    /// What the well-formed map gives its view: distinct names, one entry
    /// for each name, and at each position the name with its value's view.
    pub proof fn lemma_view(&self)
        requires
            self.wf(),
        ensures
            distinct_keys(self@),
            self@.len() == self.spec_keys().len(),
            forall|k: Seq<char>| #[trigger] has_key(self@, k) <==> self.spec_keys().contains(k),
            forall|i: int|
                0 <= i < self.spec_keys().len() ==> #[trigger] self@[i] == (
                    self.spec_keys()[i],
                    self.spec_values()[i]@,
                ) && key_index(self@, self.spec_keys()[i]) == i,
    {
        lemma_entries(self.spec_keys(), self.spec_values().map_values(|v: V| v@));
    }

    /// The number of entries.
    pub fn len(&self) -> (n: usize)
        requires
            self.wf(),
        ensures
            n == self.spec_keys().len(),
            n == self@.len(),
    {
        self.values.len()
    }

    /// Whether the map has no entry.
    pub fn is_empty(&self) -> (b: bool)
        requires
            self.wf(),
        ensures
            b == (self.spec_keys().len() == 0),
            b == (self@.len() == 0),
    {
        self.values.len() == 0
    }

    /// The position of `key`.
    pub fn index_of(&self, key: &str) -> (r: Option<usize>)
        requires
            self.wf(),
        ensures
            match r {
                Some(i) => i < self.spec_keys().len() && self.spec_keys()[i as int] == key@
                    && has_key(self@, key@) && key_index(self@, key@) == i,
                None => !self.spec_keys().contains(key@) && !has_key(self@, key@),
            },
    {
        let r = keys_index_of(&self.keys, key);
        proof {
            self.lemma_view();
            if let Some(i) = r {
                assert(self@[i as int].0 == key@);
            }
        }
        r
    }

    /// Whether the map has the name `key`.
    pub fn contains_key(&self, key: &str) -> (b: bool)
        requires
            self.wf(),
        ensures
            b == self.spec_keys().contains(key@),
            b == has_key(self@, key@),
    {
        proof {
            self.lemma_view();
        }
        keys_index_of(&self.keys, key).is_some()
    }

    /// The name at position `i`.
    pub fn key_at(&self, i: usize) -> (k: &String)
        requires
            self.wf(),
            i < self.spec_keys().len(),
        ensures
            k@ == self.spec_keys()[i as int],
            k@ == self@[i as int].0,
    {
        keys_at(&self.keys, i).unwrap()
    }

    /// The value at position `i`.
    pub fn value_at(&self, i: usize) -> (v: &V)
        requires
            self.wf(),
            i < self.spec_keys().len(),
        ensures
            *v == self.spec_values()[i as int],
            v@ == self@[i as int].1,
    {
        &self.values[i]
    }

    /// The value at position `i`, to be changed in place.
    pub fn value_at_mut(&mut self, i: usize) -> (v: &mut V)
        requires
            old(self).wf(),
            i < old(self).spec_keys().len(),
        ensures
            *v == old(self).spec_values()[i as int],
            final(self).spec_keys() == old(self).spec_keys(),
            final(self).spec_values() == old(self).spec_values().update(i as int, *final(v)),
    {
        &mut self.values[i]
    }

    /// The value of `key`.
    pub fn get(&self, key: &str) -> (r: Option<&V>)
        requires
            self.wf(),
        ensures
            match r {
                Some(v) => {
                    &&& has_key(self@, key@)
                    &&& lookup(self@, key@) == Some(v@)
                    &&& self.spec_values()[key_index(self@, key@)] == *v
                },
                None => !has_key(self@, key@),
            },
    {
        proof {
            self.lemma_view();
        }
        match keys_index_of(&self.keys, key) {
            Some(i) => Some(&self.values[i]),
            None => None,
        }
    }

    /// Sets `key` to `value`: a name already held keeps its place and the
    /// call returns the value it had; a new name goes last.
    pub fn insert(&mut self, key: String, value: V) -> (r: Option<V>)
        requires
            old(self).wf(),
        ensures
            final(self).wf(),
            final(self)@ == put(old(self)@, key@, value@),
            lookup(final(self)@, key@) == Some(value@),
            forall|k2: Seq<char>|
                k2 != key@ ==> #[trigger] lookup(final(self)@, k2) == lookup(old(self)@, k2),
            match r {
                Some(prev) => {
                    &&& lookup(old(self)@, key@) == Some(prev@)
                    &&& has_key(old(self)@, key@)
                    &&& final(self).spec_keys() == old(self).spec_keys()
                    &&& final(self).spec_values() == old(self).spec_values().update(
                        key_index(old(self)@, key@),
                        value,
                    )
                    &&& old(self).spec_values()[key_index(old(self)@, key@)] == prev
                },
                None => {
                    &&& !has_key(old(self)@, key@)
                    &&& final(self).spec_keys() == old(self).spec_keys().push(key@)
                    &&& final(self).spec_values() == old(self).spec_values().push(value)
                },
            },
    {
        let ghost ks = self.spec_keys();
        let ghost vs = self.spec_values().map_values(|v: V| v@);
        proof {
            self.lemma_view();
            lemma_put(self@, key@, value@);
        }
        let (i, fresh) = keys_insert(&mut self.keys, key);
        if fresh {
            self.values.push(value);
            proof {
                lemma_entries_push(ks, vs, key@, value@);
                assert(self.spec_values().map_values(|v: V| v@) =~= vs.push(value@));
            }
            None
        } else {
            let mut held = value;
            std::mem::swap(&mut self.values[i], &mut held);
            proof {
                lemma_entries_update(ks, vs, i as int, value@);
                assert(self.spec_values().map_values(|v: V| v@) =~= vs.update(i as int, value@));
            }
            Some(held)
        }
    }

    /// Takes `key` out: the entries behind it move up by one place. Returns
    /// the position and the value it had.
    pub fn shift_remove(&mut self, key: &str) -> (r: Option<(usize, V)>)
        requires
            old(self).wf(),
        ensures
            final(self).wf(),
            final(self)@ == del(old(self)@, key@),
            lookup(final(self)@, key@) is None,
            forall|k2: Seq<char>|
                k2 != key@ ==> #[trigger] lookup(final(self)@, k2) == lookup(old(self)@, k2),
            match r {
                Some((i, prev)) => {
                    &&& lookup(old(self)@, key@) == Some(prev@)
                    &&& has_key(old(self)@, key@)
                    &&& i == key_index(old(self)@, key@)
                    &&& i < old(self).spec_keys().len()
                    &&& old(self).spec_values()[i as int] == prev
                    &&& final(self).spec_keys() == old(self).spec_keys().remove(i as int)
                    &&& final(self).spec_values() == old(self).spec_values().remove(i as int)
                },
                None => {
                    &&& !has_key(old(self)@, key@)
                    &&& final(self).spec_keys() == old(self).spec_keys()
                    &&& final(self).spec_values() == old(self).spec_values()
                },
            },
    {
        let ghost ks = self.spec_keys();
        let ghost vs = self.spec_values().map_values(|v: V| v@);
        proof {
            self.lemma_view();
            lemma_del(self@, key@);
        }
        match keys_shift_remove(&mut self.keys, key) {
            Some(i) => {
                let prev = self.values.remove(i);
                proof {
                    lemma_entries_remove(ks, vs, i as int);
                    assert(self.spec_values().map_values(|v: V| v@) =~= vs.remove(i as int));
                }
                Some((i, prev))
            },
            None => None,
        }
    }
}

/// A value changed in place: the map stays well formed, and its view is
/// `put` of the name at that position with the new value.
pub proof fn lemma_value_changed<V: View>(before: OrderedMap<V>, after: OrderedMap<V>, i: int)
    requires
        before.wf(),
        0 <= i < before.spec_keys().len(),
        after.spec_keys() == before.spec_keys(),
        after.spec_values() == before.spec_values().update(i, after.spec_values()[i]),
    ensures
        after.wf(),
        after@ == put(before@, before.spec_keys()[i], after.spec_values()[i]@),
        after@.len() == before@.len(),
{
    let ks = before.spec_keys();
    let vs = before.spec_values().map_values(|v: V| v@);
    lemma_entries_update(ks, vs, i, after.spec_values()[i]@);
    assert(after.spec_values().map_values(|v: V| v@) =~= vs.update(i, after.spec_values()[i]@));
}

/// Taking out a name that was just set is taking it out of the map before.
pub proof fn lemma_del_put<T>(m: Seq<(Seq<char>, T)>, k: Seq<char>, v: T)
    requires
        distinct_keys(m),
    ensures
        del(put(m, k, v), k) == del(m, k),
{
    lemma_put(m, k, v);
    let p = put(m, k, v);
    if has_key(m, k) {
        let i = key_index(m, k);
        assert(p[i] == (k, v));
        lemma_key_index(p, i);
        assert(p.remove(i) =~= m.remove(i));
    } else {
        let i = m.len() as int;
        assert(p[i] == (k, v));
        lemma_key_index(p, i);
        assert(p.remove(i) =~= m);
    }
}

} // verus!
