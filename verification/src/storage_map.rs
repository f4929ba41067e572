//! A map from one kind of stored value to another.

use crate::traits::Parameter;
use vstd::prelude::*;

verus! {

/// The map that a list of entries stands for: a later entry overrides an earlier one.
pub open spec fn contents<A, B>(entries: Seq<(A, B)>) -> Map<A, B>
    decreases entries.len(),
{
    if entries.len() == 0 {
        Map::empty()
    } else {
        contents(entries.drop_last()).insert(entries.last().0, entries.last().1)
    }
}

proof fn lemma_contents_domain<A, B>(entries: Seq<(A, B)>, key: A)
    ensures
        contents(entries).contains_key(key) <==> exists|i: int|
            0 <= i < entries.len() && (#[trigger] entries[i]).0 == key,
    decreases entries.len(),
{
    if entries.len() > 0 {
        let front = entries.drop_last();
        lemma_contents_domain(front, key);
        if entries.last().0 == key {
            assert(entries[entries.len() - 1].0 == key);
        }
        if contents(front).contains_key(key) {
            let i = choose|i: int| 0 <= i < front.len() && (#[trigger] front[i]).0 == key;
            assert(entries[i].0 == key);
        }
        if exists|i: int| 0 <= i < entries.len() && (#[trigger] entries[i]).0 == key {
            let i = choose|i: int| 0 <= i < entries.len() && (#[trigger] entries[i]).0 == key;
            if i < front.len() {
                assert(front[i].0 == key);
            }
        }
    }
}

/// Dropping an entry changes nothing about the other keys, and for its own key uncovers what the
/// remaining entries say.
proof fn lemma_contents_without<A, B>(entries: Seq<(A, B)>, i: int)
    requires
        0 <= i < entries.len(),
    ensures
        ({
            let key = entries[i].0;
            let rest = contents(entries.remove(i));
            &&& rest.remove(key) == contents(entries).remove(key)
            &&& (exists|j: int| i < j < entries.len() && (#[trigger] entries[j]).0 == key)
                ==> rest.contains_key(key) && rest[key] == contents(entries)[key]
            &&& (forall|j: int| i < j < entries.len() ==> (#[trigger] entries[j]).0 != key)
                ==> contents(entries)[key] == entries[i].1
        }),
    decreases entries.len(),
{
    let key = entries[i].0;
    let front = entries.drop_last();
    if i == entries.len() - 1 {
        assert(entries.remove(i) =~= front);
        assert(contents(front).remove(key) =~= contents(entries).remove(key));
    } else {
        lemma_contents_without(front, i);
        assert(entries.remove(i).drop_last() =~= front.remove(i));
        assert(entries.remove(i).last() == entries.last());
        let rest = contents(entries.remove(i));
        let (k, v) = entries.last();
        let a = contents(front.remove(i));
        let b = contents(front);
        if k == key {
            assert(rest.remove(key) =~= a.remove(key));
            assert(contents(entries).remove(key) =~= b.remove(key));
        } else {
            assert(rest.remove(key) =~= a.remove(key).insert(k, v));
            assert(contents(entries).remove(key) =~= b.remove(key).insert(k, v));
        }
        if entries.last().0 != key {
            if exists|j: int| i < j < entries.len() && (#[trigger] entries[j]).0 == key {
                let j = choose|j: int| i < j < entries.len() && (#[trigger] entries[j]).0 == key;
                assert(front[j].0 == key);
            } else {
                assert forall|j: int| i < j < front.len() implies (#[trigger] front[j]).0
                    != key by {
                    assert(entries[j].0 != key);
                }
            }
        } else {
            assert(entries[entries.len() - 1].0 == key);
        }
    }
}

/// Stored values under stored keys.
pub struct StorageMap<K, V> {
    entries: Vec<(K, V)>,
}

/// What a list of entries says of the values.
spec fn entry_views<K: DeepView, V: DeepView>(entries: Seq<(K, V)>) -> Seq<
    (K::V, V::V),
> {
    Seq::new(entries.len(), |i: int| (entries[i].0.deep_view(), entries[i].1.deep_view()))
}

impl<K: DeepView, V: DeepView> View for StorageMap<K, V> {
    type V = Map<K::V, V::V>;

    closed spec fn view(&self) -> Map<K::V, V::V> {
        contents(entry_views(self.entries@))
    }
}

impl<K: Parameter, V: DeepView> StorageMap<K, V> {
    /// A map without entries.
    pub fn new() -> (map: Self)
        ensures
            map@ == Map::<<K as DeepView>::V, V::V>::empty(),
    {
        StorageMap { entries: Vec::new() }
    }

    /// Puts `value` under `key`, in place of what was there.
    pub fn insert(&mut self, key: K, value: V)
        ensures
            final(self)@ == old(self)@.insert(key.deep_view(), value.deep_view()),
    {
        let _former: Option<V> = self.take(&key);
        let ghost front = entry_views(self.entries@);
        let ghost last = (key.deep_view(), value.deep_view());
        self.entries.push((key, value));
        proof {
            let all = entry_views(self.entries@);
            assert(all =~= front.push(last));
            assert(all.drop_last() =~= front);
            assert(old(self)@.remove(last.0).insert(last.0, last.1) =~= old(self)@.insert(
                last.0,
                last.1,
            ));
        }
    }

    /// Removes what is under `key` and returns it.
    pub fn take(&mut self, key: &K) -> (value: Option<V>)
        ensures
            final(self)@ == old(self)@.remove(key.deep_view()),
            match value {
                Some(v) => {
                    &&& old(self)@.contains_key(key.deep_view())
                    &&& old(self)@[key.deep_view()] == v.deep_view()
                },
                None => !old(self)@.contains_key(key.deep_view()),
            },
    {
        let ghost k = key.deep_view();
        let mut found: Option<V> = None;
        let mut i: usize = 0;
        while i < self.entries.len()
            invariant
                k == key.deep_view(),
                i <= self.entries@.len(),
                forall|j: int|
                    0 <= j < i ==> (#[trigger] self.entries@[j]).0.deep_view() != k,
                self@.remove(k) == old(self)@.remove(k),
                self@.contains_key(k) ==> old(self)@.contains_key(k) && self@[k] == old(self)@[k],
                !self@.contains_key(k) ==> (match found {
                    Some(v) => old(self)@.contains_key(k) && old(self)@[k] == v.deep_view(),
                    None => !old(self)@.contains_key(k),
                }),
            decreases self.entries@.len() - i,
        {
            if self.entries[i].0.same(key) {
                let ghost before = self.entries@;
                let ghost views = entry_views(before);
                let (_, value) = self.entries.remove(i);
                found = Some(value);
                proof {
                    lemma_contents_without(views, i as int);
                    lemma_contents_domain(views, k);
                    assert(views[i as int].0 == k);
                    assert(entry_views(self.entries@) =~= views.remove(i as int));
                    lemma_contents_domain(views.remove(i as int), k);
                    if !self@.contains_key(k) {
                        assert forall|j: int| i < j < views.len() implies (#[trigger] views[j]).0
                            != k by {
                            assert(views.remove(i as int)[j - 1] == views[j]);
                        }
                    } else {
                        let j = choose|j: int|
                            0 <= j < views.remove(i as int).len() && (#[trigger] views.remove(
                                i as int,
                            )[j]).0 == k;
                        if j < i {
                            assert(before[j].0.deep_view() != k);
                        }
                        assert(views[j + 1].0 == k);
                    }
                }
            } else {
                i = i + 1;
            }
        }
        proof {
            let views = entry_views(self.entries@);
            lemma_contents_domain(views, k);
            assert(!self@.contains_key(k)) by {
                if self@.contains_key(k) {
                    let j = choose|j: int|
                        0 <= j < views.len() && (#[trigger] views[j]).0 == k;
                    assert(self.entries@[j].0.deep_view() != k);
                }
            }
            assert(self@ =~= self@.remove(k));
        }
        found
    }
}

} // verus!
