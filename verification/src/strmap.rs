//! A small insertion-ordered table with `String` keys and unique keys.  It
//! stands in for a hash map wherever the message model needs a
//! `mapping(text -> value)`: its view is a `Map<Seq<char>, _>`, inserting an
//! existing key overwrites its value, and lookups find the unique entry.

use vstd::prelude::*;

use crate::text::str_eq;
use vstd::pervasive::VecAdditionalExecFns;

verus! {

/// The last-entry-wins map denoted by an association list.
pub open spec fn assoc_map<T>(kvs: Seq<(Seq<char>, T)>) -> Map<Seq<char>, T>
    decreases kvs.len(),
{
    if kvs.len() == 0 {
        Map::empty()
    } else {
        assoc_map(kvs.drop_last()).insert(kvs.last().0, kvs.last().1)
    }
}

/// A key/value table with `String` keys, kept in insertion order with unique
/// keys, and viewed as a `Map` from key characters to value views.
#[derive(Debug)]
pub struct StrMap<V> {
    pub(crate) entries: Vec<(String, V)>,
}

impl<V: View> View for StrMap<V> {
    type V = Map<Seq<char>, V::V>;

    open spec fn view(&self) -> Map<Seq<char>, V::V> {
        assoc_map(self.kvs())
    }
}

proof fn lemma_assoc_map_index<T>(kvs: Seq<(Seq<char>, T)>, i: int)
    requires
        0 <= i < kvs.len(),
        forall|j: int| i < j < kvs.len() ==> kvs[j].0 != kvs[i].0,
    ensures
        assoc_map(kvs).contains_key(kvs[i].0),
        assoc_map(kvs)[kvs[i].0] == kvs[i].1,
    decreases kvs.len(),
{
    if i == kvs.len() - 1 {
    } else {
        assert(kvs.last().0 != kvs[i].0);
        lemma_assoc_map_index(kvs.drop_last(), i);
    }
}

proof fn lemma_assoc_map_absent<T>(kvs: Seq<(Seq<char>, T)>, key: Seq<char>)
    requires
        forall|j: int| 0 <= j < kvs.len() ==> kvs[j].0 != key,
    ensures
        !assoc_map(kvs).contains_key(key),
    decreases kvs.len(),
{
    if kvs.len() > 0 {
        lemma_assoc_map_absent(kvs.drop_last(), key);
    }
}

proof fn lemma_assoc_map_update<T>(kvs: Seq<(Seq<char>, T)>, i: int, v: T)
    requires
        0 <= i < kvs.len(),
        forall|j: int, k: int| 0 <= j < k < kvs.len() ==> kvs[j].0 != kvs[k].0,
    ensures
        assoc_map(kvs.update(i, (kvs[i].0, v))) == assoc_map(kvs).insert(kvs[i].0, v),
    decreases kvs.len(),
{
    let key = kvs[i].0;
    let upd = kvs.update(i, (key, v));
    if i == kvs.len() - 1 {
        assert(upd.drop_last() =~= kvs.drop_last());
        assert(assoc_map(upd) =~= assoc_map(kvs).insert(key, v));
    } else {
        assert(upd.drop_last() =~= kvs.drop_last().update(i, (key, v)));
        lemma_assoc_map_update(kvs.drop_last(), i, v);
        assert(kvs.last().0 != key);
        assert(upd.last() == kvs.last());
        assert(assoc_map(upd) =~= assoc_map(kvs).insert(key, v)) by {
            assert(assoc_map(upd) == assoc_map(kvs.drop_last()).insert(key, v).insert(
                kvs.last().0,
                kvs.last().1,
            ));
            assert(assoc_map(kvs).insert(key, v) == assoc_map(kvs.drop_last()).insert(
                kvs.last().0,
                kvs.last().1,
            ).insert(key, v));
        }
    }
}

impl<V: View> StrMap<V> {
    /// The entries in insertion order, as pairs of key and value views.
    pub closed spec fn kvs(&self) -> Seq<(Seq<char>, V::V)> {
        Seq::new(self.entries@.len(), |i: int| (self.entries@[i].0@, self.entries@[i].1@))
    }

    /// The stored values themselves, in insertion order.
    pub closed spec fn elems(&self) -> Seq<V> {
        Seq::new(self.entries@.len(), |i: int| self.entries@[i].1)
    }

    /// `kvs` and `elems` describe the same entries.
    pub proof fn lemma_entries(&self)
        ensures
            self.elems().len() == self.kvs().len(),
            forall|i: int|
                0 <= i < self.kvs().len() ==> (#[trigger] self.elems()[i])@ == self.kvs()[i].1,
    {
    }

    /// `kvs` reads the entry vector pairwise.
    pub(crate) proof fn lemma_kvs(&self)
        ensures
            self.kvs().len() == self.entries@.len(),
            forall|i: int|
                0 <= i < self.entries@.len() ==> #[trigger] self.kvs()[i] == (
                    self.entries@[i].0@,
                    self.entries@[i].1@,
                ),
    {
    }

    /// Every key occurs at most once.
    pub open spec fn wf(&self) -> bool {
        forall|i: int, j: int|
            0 <= i < j < self.kvs().len() ==> (#[trigger] self.kvs()[i]).0 != (
            #[trigger] self.kvs()[j]).0
    }

    /// An empty table.
    pub fn new() -> (r: StrMap<V>)
        ensures
            r.kvs() == Seq::<(Seq<char>, V::V)>::empty(),
            r.elems() == Seq::<V>::empty(),
            r@ == Map::<Seq<char>, V::V>::empty(),
            r.wf(),
    {
        let r = StrMap { entries: Vec::new() };
        proof {
            assert(r.kvs() =~= Seq::<(Seq<char>, V::V)>::empty());
            assert(r.elems() =~= Seq::<V>::empty());
        }
        r
    }

    /// The number of entries.
    pub fn len(&self) -> (n: usize)
        ensures
            n == self.kvs().len(),
    {
        self.entries.len()
    }

    /// The value stored under `key`, when there is one.
    pub fn get<'a>(&'a self, key: &str) -> (r: Option<&'a V>)
        requires
            self.wf(),
        ensures
            match r {
                Some(v) => self@.contains_key(key@) && v@ == self@[key@] && exists|i: int|
                    0 <= i < self.elems().len() && self.elems()[i] == *v,
                None => !self@.contains_key(key@),
            },
    {
        let n = self.entries.len();
        let mut i: usize = 0;
        while i < n
            invariant
                i <= n,
                n == self.kvs().len(),
                self.wf(),
                forall|j: int| 0 <= j < i ==> (#[trigger] self.kvs()[j]).0 != key@,
            decreases n - i,
        {
            let e = &self.entries[i];
            if str_eq(e.0.as_str(), key) {
                proof {
                    lemma_assoc_map_index(self.kvs(), i as int);
                    assert(self.elems()[i as int] == self.entries@[i as int].1);
                }
                return Some(&e.1);
            }
            i = i + 1;
        }
        proof {
            lemma_assoc_map_absent(self.kvs(), key@);
        }
        None
    }

    /// Stores `value` under `key`, replacing the entry already there when the
    /// key is present and appending a new entry otherwise.
    pub fn insert(&mut self, key: String, value: V)
        requires
            old(self).wf(),
        ensures
            final(self).wf(),
            final(self)@ == old(self)@.insert(key@, value@),
            final(self).kvs().len() >= 1,
            (exists|i: int|
                0 <= i < old(self).kvs().len() && (#[trigger] old(self).kvs()[i]).0 == key@
                    && final(self).kvs() == old(self).kvs().update(i, (key@, value@))
                    && final(self).elems() == old(self).elems().update(i, value)) || (
            (forall|i: int|
                0 <= i < old(self).kvs().len() ==> (#[trigger] old(self).kvs()[i]).0 != key@)
                && final(self).kvs() == old(self).kvs().push((key@, value@)) && final(self).elems()
                == old(self).elems().push(value)),
            forall|i: int|
                0 <= i < final(self).elems().len() ==> (#[trigger] final(self).elems()[i]) == value
                    || old(self).elems().contains(final(self).elems()[i]),
    {
        let n = self.entries.len();
        let mut i: usize = 0;
        while i < n
            invariant
                i <= n,
                n == self.kvs().len(),
                self == old(self),
                self.wf(),
                forall|j: int| 0 <= j < i ==> (#[trigger] self.kvs()[j]).0 != key@,
            decreases n - i,
        {
            let matches = str_eq(self.entries[i].0.as_str(), key.as_str());
            if matches {
                let ghost old_kvs = self.kvs();
                let ghost old_elems = self.elems();
                let ghost idx = i as int;
                self.entries.set(i, (key, value));
                proof {
                    assert(self.elems() =~= old_elems.update(idx, value));
                    assert(self.kvs() =~= old_kvs.update(idx, (old_kvs[idx].0, value@)));
                    assert(forall|j: int, k: int|
                        0 <= j < k < old_kvs.len() ==> old_kvs[j].0 != old_kvs[k].0);
                    lemma_assoc_map_update(old_kvs, idx, value@);
                    assert(old_kvs.update(idx, (key@, value@)) =~= self.kvs());
                    assert(forall|j: int|
                        0 <= j < self.kvs().len() ==> (#[trigger] self.kvs()[j]).0
                            == old_kvs[j].0);
                }
                return ;
            }
            i = i + 1;
        }
        let ghost old_kvs = self.kvs();
        let ghost old_elems = self.elems();
        self.entries.push((key, value));
        proof {
            assert(self.elems() =~= old_elems.push(value));
            assert(self.kvs() =~= old_kvs.push((key@, value@)));
            assert(self.kvs().drop_last() =~= old_kvs);
            assert(self@ =~= old(self)@.insert(key@, value@));
        }
    }
}

} // verus!
