//! A table of values by name: entries with distinct names, viewed as a
//! `Map` from the names' characters to the values.
use vstd::prelude::*;
use crate::text;

verus! {

/// Entries `(name, value)`, in insertion order.
pub struct Table<V> {
    entries: Vec<(String, V)>,
}

impl<V> Table<V> {
    /// Names are distinct.
    pub closed spec fn wf(&self) -> bool {
        forall|i: int, j: int|
            0 <= i < self.entries.len() && 0 <= j < self.entries.len() && i != j
                ==> self.entries@[i].0@ != self.entries@[j].0@
    }

    spec fn pos(&self, name: Seq<char>) -> int {
        choose|i: int| 0 <= i < self.entries.len() && self.entries@[i].0@ == name
    }

    spec fn has(&self, name: Seq<char>) -> bool {
        exists|i: int| 0 <= i < self.entries.len() && self.entries@[i].0@ == name
    }

    /// The names in insertion order.
    pub closed spec fn order(&self) -> Seq<Seq<char>> {
        Seq::new(self.entries@.len(), |i: int| self.entries@[i].0@)
    }

    /// The table as a map.
    pub closed spec fn map(&self) -> Map<Seq<char>, V> {
        Map::new(|x: Seq<char>| self.has(x), |x: Seq<char>| self.entries@[self.pos(x)].1)
    }

    proof fn lemma_pos(&self, name: Seq<char>, i: int)
        requires
            self.wf(),
            0 <= i < self.entries.len(),
            self.entries@[i].0@ == name,
        ensures
            self.has(name),
            self.pos(name) == i,
    {
        let p = self.pos(name);
        assert(0 <= p < self.entries.len() && self.entries@[p].0@ == name);
    }

    /// The empty table.
    pub fn new() -> (t: Table<V>)
        ensures
            t.wf(),
            t.map() == Map::<Seq<char>, V>::empty(),
    {
        let t = Table { entries: Vec::new() };
        assert(t.map() =~= Map::<Seq<char>, V>::empty());
        t
    }

    fn find(&self, name: &str) -> (r: Option<usize>)
        requires
            self.wf(),
        ensures
            match r {
                Some(i) => i < self.entries.len() && self.entries@[i as int].0@ == name@ && self.pos(
                    name@,
                ) == i && self.map().contains_key(name@),
                None => !self.map().contains_key(name@),
            },
    {
        let mut i: usize = 0;
        while i < self.entries.len()
            invariant
                0 <= i <= self.entries.len(),
                self.wf(),
                forall|j: int| 0 <= j < i ==> (#[trigger] self.entries@[j]).0@ != name@,
            decreases self.entries.len() - i,
        {
            if text::same_text(self.entries[i].0.as_str(), name) {
                proof {
                    self.lemma_pos(name@, i as int);
                }
                return Some(i);
            }
            i += 1;
        }
        None
    }

    /// Whether some entry is called `name`.
    pub fn contains(&self, name: &str) -> (b: bool)
        requires
            self.wf(),
        ensures
            b == self.map().contains_key(name@),
    {
        self.find(name).is_some()
    }

    /// The value held for `name`.
    pub fn get(&self, name: &str) -> (r: Option<&V>)
        requires
            self.wf(),
        ensures
            match r {
                Some(v) => self.map().contains_key(name@) && self.map()[name@] == *v,
                None => !self.map().contains_key(name@),
            },
    {
        match self.find(name) {
            Some(i) => Some(&self.entries[i].1),
            None => None,
        }
    }

    /// Sets the value of `name`.
    pub fn insert(&mut self, name: &str, value: V)
        requires
            old(self).wf(),
        ensures
            final(self).wf(),
            final(self).map() == old(self).map().insert(name@, value),
    {
        let ghost before = *self;
        let ghost v = value;
        match self.find(name) {
            Some(i) => {
                let key = self.entries[i].0.clone();
                self.entries.set(i, (key, value));
                proof {
                    let after = *self;
                    before.lemma_pos(name@, i as int);
                    assert forall|x: Seq<char>| #[trigger] after.has(x) == before.has(x) by {
                        if before.has(x) {
                            let k = before.pos(x);
                            assert(after.entries@[k].0@ == x);
                        }
                        if after.has(x) {
                            let k = after.pos(x);
                            assert(before.entries@[k].0@ == x);
                        }
                    }
                    assert forall|a: int, b: int|
                        0 <= a < after.entries.len() && 0 <= b < after.entries.len() && a != b implies after.entries@[a].0@
                        != after.entries@[b].0@ by {
                        assert(after.entries@[a].0@ == before.entries@[a].0@);
                        assert(after.entries@[b].0@ == before.entries@[b].0@);
                    }
                    assert forall|x: Seq<char>| after.has(x) implies #[trigger] after.map()[x] == (if x
                        == name@ {
                        v
                    } else {
                        before.map()[x]
                    }) by {
                        let k = before.pos(x);
                        before.lemma_pos(x, k);
                        assert(after.entries@[k].0@ == x);
                        after.lemma_pos(x, k);
                    }
                    assert(after.map() =~= before.map().insert(name@, v));
                }
            },
            None => {
                self.entries.push((name.to_string(), value));
                proof {
                    let after = *self;
                    let n = before.entries.len() as int;
                    assert forall|x: Seq<char>| #[trigger] after.has(x) == (before.has(x) || x == name@) by {
                        if before.has(x) {
                            let k = before.pos(x);
                            assert(after.entries@[k].0@ == x);
                        }
                        if x == name@ {
                            assert(after.entries@[n].0@ == x);
                        }
                        if after.has(x) && x != name@ {
                            let k = after.pos(x);
                            assert(before.entries@[k].0@ == x);
                        }
                    }
                    assert forall|x: Seq<char>| after.has(x) implies #[trigger] after.map()[x] == (if x
                        == name@ {
                        v
                    } else {
                        before.map()[x]
                    }) by {
                        let k = after.pos(x);
                        after.lemma_pos(x, k);
                        if x != name@ {
                            before.lemma_pos(x, k);
                        }
                    }
                    assert(after.map() =~= before.map().insert(name@, v));
                }
            },
        }
    }

    /// Forgets `name`.
    pub fn remove(&mut self, name: &str)
        requires
            old(self).wf(),
        ensures
            final(self).wf(),
            final(self).map() == old(self).map().remove(name@),
    {
        let _ = self.take(name);
    }

    /// Forgets `name` and hands back the value it had; the other entries
    /// keep their order.
    pub fn take(&mut self, name: &str) -> (r: Option<V>)
        requires
            old(self).wf(),
        ensures
            final(self).wf(),
            final(self).map() == old(self).map().remove(name@),
            final(self).order() == old(self).order().filter(other_than(name@)),
            match r {
                Some(v) => old(self).map().contains_key(name@) && old(self).map()[name@] == v,
                None => !old(self).map().contains_key(name@),
            },
    {
        let ghost before = *self;
        match self.take_entry(name) {
            Some((i, v)) => {
                proof {
                    before.lemma_order_distinct();
                    lemma_order_without(before.order(), name@, i as int);
                }
                Some(v)
            },
            None => {
                proof {
                    assert(self.map() =~= old(self).map().remove(name@));
                    let o = self.order();
                    assert forall|k: int| 0 <= k < o.len() implies o[k] != name@ by {
                        assert(self.entries@[k].0@ == o[k]);
                    }
                    lemma_filter_keeps_all(o, name@);
                }
                None
            },
        }
    }

    proof fn lemma_order_distinct(&self)
        requires
            self.wf(),
        ensures
            forall|a: int, b: int|
                0 <= a < self.order().len() && 0 <= b < self.order().len() && a != b
                    ==> self.order()[a] != self.order()[b],
    {
    }

    /// Takes out the entry `name`, handing back its position in the order
    /// and its value.
    pub fn take_entry(&mut self, name: &str) -> (r: Option<(usize, V)>)
        requires
            old(self).wf(),
        ensures
            final(self).wf(),
            match r {
                Some((i, v)) => {
                    &&& i < old(self).order().len()
                    &&& old(self).order()[i as int] == name@
                    &&& old(self).map().contains_key(name@)
                    &&& old(self).map()[name@] == v
                    &&& final(self).map() == old(self).map().remove(name@)
                    &&& final(self).order() == old(self).order().remove(i as int)
                },
                None => !old(self).map().contains_key(name@) && *final(self) == *old(self),
            },
    {
        if let Some(i) = self.find(name) {
            let ghost before = *self;
            let (_, v) = self.entries.remove(i);
            proof {
                let after = *self;
                assert forall|x: Seq<char>| #[trigger] after.has(x) == (before.has(x) && x != name@) by {
                    if before.has(x) && x != name@ {
                        let k = before.pos(x);
                        if k < i {
                            assert(after.entries@[k].0@ == x);
                        } else {
                            assert(k != i);
                            assert(after.entries@[k - 1].0@ == x);
                        }
                    }
                    if after.has(x) {
                        let k = after.pos(x);
                        if k < i {
                            assert(before.entries@[k].0@ == x);
                        } else {
                            assert(before.entries@[k + 1].0@ == x);
                        }
                    }
                }
                assert forall|x: Seq<char>| after.has(x) implies #[trigger] after.map()[x]
                    == before.map()[x] by {
                    let k = after.pos(x);
                    after.lemma_pos(x, k);
                    if k < i {
                        before.lemma_pos(x, k);
                    } else {
                        before.lemma_pos(x, k + 1);
                    }
                }
                assert(after.map() =~= before.map().remove(name@));
                before.lemma_pos(name@, i as int);
                assert(after.order() =~= before.order().remove(i as int));
            }
            Some((i, v))
        } else {
            None
        }
    }

    /// Puts the entry `name` back at position `i` of the order.
    pub fn put_entry(&mut self, i: usize, name: &str, value: V)
        requires
            old(self).wf(),
            !old(self).map().contains_key(name@),
            i <= old(self).order().len(),
        ensures
            final(self).wf(),
            final(self).map() == old(self).map().insert(name@, value),
            final(self).order() == old(self).order().insert(i as int, name@),
    {
        let ghost before = *self;
        let ghost v = value;
        self.entries.insert(i, (name.to_string(), value));
        proof {
            let after = *self;
            assert forall|a: int, b: int|
                0 <= a < after.entries.len() && 0 <= b < after.entries.len() && a != b implies after.entries@[a].0@
                != after.entries@[b].0@ by {
                if a == i && b != i {
                    let kb = if b < i { b } else { b - 1 };
                    assert(after.entries@[b].0@ == before.entries@[kb].0@);
                    before.lemma_pos(before.entries@[kb].0@, kb);
                } else if b == i && a != i {
                    let ka = if a < i { a } else { a - 1 };
                    assert(after.entries@[a].0@ == before.entries@[ka].0@);
                    before.lemma_pos(before.entries@[ka].0@, ka);
                }
            }
            assert forall|x: Seq<char>| #[trigger] after.has(x) == (before.has(x) || x == name@) by {
                if before.has(x) {
                    let k = before.pos(x);
                    if k < i {
                        assert(after.entries@[k].0@ == x);
                    } else {
                        assert(after.entries@[k + 1].0@ == x);
                    }
                }
                if x == name@ {
                    assert(after.entries@[i as int].0@ == x);
                }
                if after.has(x) && x != name@ {
                    let k = after.pos(x);
                    if k < i {
                        assert(before.entries@[k].0@ == x);
                    } else {
                        assert(before.entries@[k - 1].0@ == x);
                    }
                }
            }
            assert forall|x: Seq<char>| after.has(x) implies #[trigger] after.map()[x] == (if x == name@ {
                v
            } else {
                before.map()[x]
            }) by {
                if x == name@ {
                    after.lemma_pos(x, i as int);
                } else {
                    let k = before.pos(x);
                    before.lemma_pos(x, k);
                    if k < i {
                        after.lemma_pos(x, k);
                    } else {
                        after.lemma_pos(x, k + 1);
                    }
                }
            }
            assert(after.map() =~= before.map().insert(name@, v));
            assert(after.order() =~= before.order().insert(i as int, name@));
        }
    }

    /// Puts `value` in place of the value of `name`, when there is one,
    /// and hands back the value it replaced; the order stays.
    pub fn replace(&mut self, name: &str, value: V) -> (r: Option<V>)
        requires
            old(self).wf(),
        ensures
            final(self).wf(),
            final(self).order() == old(self).order(),
            match r {
                Some(v) => old(self).map().contains_key(name@) && old(self).map()[name@] == v
                    && final(self).map() == old(self).map().insert(name@, value),
                None => !old(self).map().contains_key(name@) && final(self).map() == old(self).map(),
            },
    {
        let ghost val = value;
        match self.find(name) {
            Some(i) => {
                let ghost before = *self;
                let (key, v) = self.entries.remove(i);
                self.entries.insert(i, (key, value));
                proof {
                    let after = *self;
                    assert(after.entries@ =~= before.entries@.update(i as int, (key, val)));
                    before.lemma_pos(name@, i as int);
                    assert forall|x: Seq<char>| #[trigger] after.has(x) == before.has(x) by {
                        if before.has(x) {
                            let k = before.pos(x);
                            assert(after.entries@[k].0@ == x);
                        }
                        if after.has(x) {
                            let k = after.pos(x);
                            assert(before.entries@[k].0@ == x);
                        }
                    }
                    assert forall|a: int, b: int|
                        0 <= a < after.entries.len() && 0 <= b < after.entries.len() && a != b implies after.entries@[a].0@
                        != after.entries@[b].0@ by {
                        assert(after.entries@[a].0@ == before.entries@[a].0@);
                        assert(after.entries@[b].0@ == before.entries@[b].0@);
                    }
                    assert forall|x: Seq<char>| after.has(x) implies #[trigger] after.map()[x] == (if x
                        == name@ {
                        val
                    } else {
                        before.map()[x]
                    }) by {
                        let k = before.pos(x);
                        before.lemma_pos(x, k);
                        assert(after.entries@[k].0@ == x);
                        after.lemma_pos(x, k);
                    }
                    assert(after.map() =~= before.map().insert(name@, val));
                    assert(after.order() =~= before.order());
                }
                Some(v)
            },
            None => None,
        }
    }

    /// The entry at position `i` of the order.
    pub fn entry_at(&self, i: usize) -> (r: (&String, &V))
        requires
            self.wf(),
            i < self.order().len(),
        ensures
            r.0@ == self.order()[i as int],
            self.map().contains_key(r.0@),
            self.map()[r.0@] == *r.1,
    {
        proof {
            self.lemma_pos(self.entries@[i as int].0@, i as int);
        }
        (&self.entries[i].0, &self.entries[i].1)
    }

    /// Number of entries.
    pub fn len(&self) -> (n: usize)
        requires
            self.wf(),
        ensures
            n == self.map().len(),
            n == self.order().len(),
    {
        proof {
            let names = self.order();
            assert forall|x: Seq<char>| self.map().contains_key(x) <==> names.contains(x) by {
                if self.has(x) {
                    let k = self.pos(x);
                    assert(names[k] == x);
                }
                if names.contains(x) {
                    let k = choose|k: int| 0 <= k < names.len() && names[k] == x;
                    assert(self.entries@[k].0@ == x);
                }
            }
            assert(self.map().dom() =~= names.to_set());
            names.unique_seq_to_set();
        }
        self.entries.len()
    }

    /// The names, in insertion order.
    pub fn names(&self) -> (r: Vec<String>)
        requires
            self.wf(),
        ensures
            r.len() == self.order().len(),
            forall|i: int| 0 <= i < r.len() ==> (#[trigger] r@[i])@ == self.order()[i],
            forall|i: int| 0 <= i < r.len() ==> self.map().contains_key((#[trigger] r@[i])@),
            forall|x: Seq<char>| self.map().contains_key(x) ==> exists|i: int|
                0 <= i < r.len() && (#[trigger] r@[i])@ == x,
    {
        let mut r: Vec<String> = Vec::new();
        let mut i: usize = 0;
        while i < self.entries.len()
            invariant
                0 <= i <= self.entries.len(),
                self.wf(),
                r.len() == i,
                forall|j: int| 0 <= j < i ==> (#[trigger] r@[j])@ == self.entries@[j].0@,
            decreases self.entries.len() - i,
        {
            r.push(self.entries[i].0.clone());
            i += 1;
        }
        proof {
            assert forall|j: int| 0 <= j < r.len() implies self.map().contains_key((#[trigger] r@[j])@) by {
                self.lemma_pos(self.entries@[j].0@, j);
            }
            assert forall|x: Seq<char>| self.map().contains_key(x) implies exists|j: int|
                0 <= j < r.len() && (#[trigger] r@[j])@ == x by {
                let k = self.pos(x);
                assert(r@[k]@ == x);
            }
        }
        r
    }
}

/// Names other than `name`.
pub open spec fn other_than(name: Seq<char>) -> spec_fn(Seq<char>) -> bool {
    |x: Seq<char>| x != name
}

/// Filtering out a name that occurs once, at `i`, removes position `i`.
proof fn lemma_order_without(o: Seq<Seq<char>>, name: Seq<char>, i: int)
    requires
        0 <= i < o.len(),
        o[i] == name,
        forall|a: int, b: int| 0 <= a < o.len() && 0 <= b < o.len() && a != b ==> o[a] != o[b],
    ensures
        o.filter(other_than(name)) == o.remove(i),
    decreases o.len(),
{
    reveal_with_fuel(Seq::filter, 1);
    let last = o.len() - 1;
    if i == last {
        assert(o.drop_last() =~= o.remove(i));
        lemma_filter_keeps_all(o.drop_last(), name);
    } else {
        let d = o.drop_last();
        lemma_order_without(d, name, i);
        assert(o.remove(i) =~= d.remove(i).push(o[last]));
    }
}

/// Filtering out a name that does not occur keeps every element.
proof fn lemma_filter_keeps_all(o: Seq<Seq<char>>, name: Seq<char>)
    requires
        forall|k: int| 0 <= k < o.len() ==> o[k] != name,
    ensures
        o.filter(other_than(name)) == o,
    decreases o.len(),
{
    reveal_with_fuel(Seq::filter, 1);
    if o.len() > 0 {
        lemma_filter_keeps_all(o.drop_last(), name);
        assert(o.drop_last().push(o.last()) =~= o);
    }
}

} // verus!
