//! A small string-to-string map, kept as a list of entries with distinct
//! keys, viewed as a `Map`.
use vstd::prelude::*;

verus! {

/// Entries `(name, value)` with distinct names.
pub struct KeyMap {
    entries: Vec<(String, String)>,
}

impl KeyMap {
    /// Entry names are distinct.
    pub closed spec fn wf(self) -> bool {
        forall|i: int, j: int|
            0 <= i < self.entries.len() && 0 <= j < self.entries.len() && i != j
                ==> self.entries@[i].0@ != self.entries@[j].0@
    }

    /// Position of the entry called `name`, if there is one.
    spec fn pos(self, name: Seq<char>) -> int {
        choose|i: int| 0 <= i < self.entries.len() && self.entries@[i].0@ == name
    }

    spec fn has(self, name: Seq<char>) -> bool {
        exists|i: int| 0 <= i < self.entries.len() && self.entries@[i].0@ == name
    }

    /// The names in the order the entries were first inserted.
    pub closed spec fn order(self) -> Seq<Seq<char>> {
        Seq::new(self.entries@.len(), |i: int| self.entries@[i].0@)
    }

    proof fn lemma_pos(self, name: Seq<char>, i: int)
        requires
            self.wf(),
            0 <= i < self.entries.len(),
            self.entries@[i].0@ == name,
        ensures
            self.has(name),
            self.pos(name) == i,
    {
        let p = self.pos(name);
        assert(0 <= p < self.entries.len() && self.entries@[p].0@ == name);
    }

    /// The empty map.
    pub fn new() -> (m: KeyMap)
        ensures
            m.wf(),
            m@ == Map::<Seq<char>, Seq<char>>::empty(),
            m.order() == Seq::<Seq<char>>::empty(),
    {
        let m = KeyMap { entries: Vec::new() };
        assert(m@ =~= Map::<Seq<char>, Seq<char>>::empty());
        assert(m.order() =~= Seq::<Seq<char>>::empty());
        m
    }

    fn find(&self, name: &str) -> (r: Option<usize>)
        requires
            self.wf(),
        ensures
            match r {
                Some(i) => i < self.entries.len() && self.entries@[i as int].0@ == name@,
                None => !self.has(name@),
            },
    {
        let mut i: usize = 0;
        while i < self.entries.len()
            invariant
                0 <= i <= self.entries.len(),
                forall|j: int| 0 <= j < i ==> (#[trigger] self.entries@[j]).0@ != name@,
            decreases self.entries.len() - i,
        {
            if crate::text::same_text(self.entries[i].0.as_str(), name) {
                return Some(i);
            }
            i += 1;
        }
        None
    }

    /// The value held for `name`.
    pub fn get(&self, name: &str) -> (r: Option<String>)
        requires
            self.wf(),
        ensures
            match r {
                Some(v) => self@.contains_key(name@) && self@[name@] == v@,
                None => !self@.contains_key(name@),
            },
    {
        match self.find(name) {
            Some(i) => {
                proof {
                    self.lemma_pos(name@, i as int);
                }
                Some(self.entries[i].1.clone())
            },
            None => None,
        }
    }

    /// Whether some entry is called `name`.
    pub fn contains(&self, name: &str) -> (b: bool)
        requires
            self.wf(),
        ensures
            b == self@.contains_key(name@),
    {
        self.find(name).is_some()
    }

    /// Sets the value of `name` to `value`; a new name goes last in the
    /// order.
    pub fn insert(&mut self, name: &str, value: String)
        requires
            old(self).wf(),
        ensures
            final(self).wf(),
            final(self)@ == old(self)@.insert(name@, value@),
            old(self)@.contains_key(name@) ==> final(self).order() == old(self).order(),
            !old(self)@.contains_key(name@) ==> final(self).order() == old(self).order().push(
                name@,
            ),
    {
        let ghost before = *self;
        match self.find(name) {
            Some(i) => {
                proof {
                    before.lemma_pos(name@, i as int);
                }
                let entry = (self.entries[i].0.clone(), value);
                self.entries.set(i, entry);
                proof {
                    let after = *self;
                    assert forall|x: Seq<char>| #[trigger] after.has(x) == before.has(x) by {
                        if before.has(x) {
                            let k = before.pos(x);
                            assert(after.entries@[k].0@ == x);
                        }
                        if after.has(x) {
                            let k = after.pos(x);
                            assert(before.entries@[k].0@ == x);
                        }
                    }
                    assert forall|x: Seq<char>| after.has(x) implies #[trigger] after@[x] == (
                    if x == name@ {
                        value@
                    } else {
                        before@[x]
                    }) by {
                        let k = after.pos(x);
                        after.lemma_pos(x, k);
                        before.lemma_pos(x, k);
                    }
                    assert(after@ =~= before@.insert(name@, value@));
                    assert(after.order() =~= before.order());
                }
            },
            None => {
                self.entries.push((name.to_string(), value));
                proof {
                    let after = *self;
                    let n = before.entries.len() as int;
                    assert forall|x: Seq<char>| #[trigger]
                        after.has(x) == (before.has(x) || x == name@) by {
                        if before.has(x) {
                            let k = before.pos(x);
                            assert(after.entries@[k].0@ == x);
                        }
                        if x == name@ {
                            assert(after.entries@[n].0@ == x);
                        }
                        if after.has(x) && x != name@ {
                            let k = after.pos(x);
                            assert(before.entries@[k].0@ == x);
                        }
                    }
                    assert forall|x: Seq<char>| after.has(x) implies #[trigger] after@[x] == (
                    if x == name@ {
                        value@
                    } else {
                        before@[x]
                    }) by {
                        let k = after.pos(x);
                        after.lemma_pos(x, k);
                        if x != name@ {
                            before.lemma_pos(x, k);
                        }
                    }
                    assert(after@ =~= before@.insert(name@, value@));
                    assert(after.order() =~= before.order().push(name@));
                }
            },
        }
    }

    /// Forgets `name`; the other entries keep their order.
    pub fn remove(&mut self, name: &str)
        requires
            old(self).wf(),
        ensures
            final(self).wf(),
            final(self)@ == old(self)@.remove(name@),
            old(self)@.contains_key(name@) ==> exists|i: int|
                0 <= i < old(self).order().len() && old(self).order()[i] == name@
                    && final(self).order() == old(self).order().remove(i),
            !old(self)@.contains_key(name@) ==> final(self).order() == old(self).order(),
    {
        let ghost before = *self;
        if let Some(i) = self.find(name) {
            let _ = self.entries.remove(i);
            proof {
                let after = *self;
                before.lemma_pos(name@, i as int);
                assert forall|x: Seq<char>| #[trigger] after.has(x) == (before.has(x) && x != name@) by {
                    if before.has(x) && x != name@ {
                        let k = before.pos(x);
                        if k < i {
                            assert(after.entries@[k].0@ == x);
                        } else {
                            assert(k != i);
                            assert(after.entries@[k - 1].0@ == x);
                        }
                    }
                    if after.has(x) {
                        let k = after.pos(x);
                        if k < i {
                            assert(before.entries@[k].0@ == x);
                        } else {
                            assert(before.entries@[k + 1].0@ == x);
                        }
                    }
                }
                assert forall|x: Seq<char>| after.has(x) implies #[trigger] after@[x] == before@[x] by {
                    let k = after.pos(x);
                    after.lemma_pos(x, k);
                    if k < i {
                        before.lemma_pos(x, k);
                    } else {
                        before.lemma_pos(x, k + 1);
                    }
                }
                assert(after@ =~= before@.remove(name@));
                assert(after.order() =~= before.order().remove(i as int));
                assert(before.order()[i as int] == name@);
            }
        } else {
            proof {
                assert(self@ =~= old(self)@.remove(name@));
            }
        }
    }

    /// Some name whose value is `value` and that is not `except`, if any.
    pub fn name_with_value_except(&self, value: &str, except: Option<&str>) -> (r: Option<String>)
        requires
            self.wf(),
        ensures
            match r {
                Some(n) => self@.contains_key(n@) && self@[n@] == value@ && (match except {
                    Some(e) => n@ != e@,
                    None => true,
                }),
                None => forall|n: Seq<char>|
                    #![trigger self@[n]]
                    self@.contains_key(n) && self@[n] == value@ ==> (match except {
                        Some(e) => n == e@,
                        None => false,
                    }),
            },
    {
        let mut i: usize = 0;
        while i < self.entries.len()
            invariant
                0 <= i <= self.entries.len(),
                self.wf(),
                forall|j: int|
                    0 <= j < i ==> (#[trigger] self.entries@[j]).1@ != value@ || (match except {
                        Some(e) => self.entries@[j].0@ == e@,
                        None => false,
                    }),
            decreases self.entries.len() - i,
        {
            let same = crate::text::same_text(self.entries[i].1.as_str(), value);
            let excluded = match except {
                Some(e) => crate::text::same_text(self.entries[i].0.as_str(), e),
                None => false,
            };
            if same && !excluded {
                proof {
                    self.lemma_pos(self.entries@[i as int].0@, i as int);
                }
                return Some(self.entries[i].0.clone());
            }
            i += 1;
        }
        proof {
            assert forall|n: Seq<char>| #![trigger self@[n]]
                self@.contains_key(n) && self@[n] == value@ implies (match except {
                Some(e) => n == e@,
                None => false,
            }) by {
                let k = self.pos(n);
                self.lemma_pos(n, k);
            }
        }
        None
    }


    /// The first name, in insertion order, whose value is `value`.
    pub open spec fn first_bound(self, value: Seq<char>) -> Option<Seq<char>> {
        let names = self.order();
        if exists|i: int| 0 <= i < names.len() && #[trigger] self@[names[i]] == value {
            let i = choose|i: int|
                0 <= i < names.len() && #[trigger] self@[names[i]] == value && forall|j: int|
                    0 <= j < i ==> self@[#[trigger] names[j]] != value;
            Some(names[i])
        } else {
            None
        }
    }



    /// Every name in the order is a key of the map.
    pub proof fn lemma_order_in_map(self, i: int)
        requires
            self.wf(),
            0 <= i < self.order().len(),
        ensures
            self@.contains_key(self.order()[i]),
    {
        self.lemma_pos(self.entries@[i].0@, i);
    }

    /// When `name` is the only name whose value is `value`, it is the
    /// first such name.
    pub proof fn lemma_first_bound_unique(self, value: Seq<char>, name: Seq<char>)
        requires
            self.wf(),
            self@.contains_key(name),
            self@[name] == value,
            forall|n: Seq<char>|
                #![trigger self@[n]]
                self@.contains_key(n) && self@[n] == value ==> n == name,
        ensures
            self.first_bound(value) == Some(name),
    {
        let names = self.order();
        let p = self.pos(name);
        self.lemma_pos(name, p);
        assert(names[p] == name);
        assert(self@[names[p]] == value);
        let i = choose|i: int|
            0 <= i < names.len() && #[trigger] self@[names[i]] == value && forall|j: int|
                0 <= j < i ==> self@[#[trigger] names[j]] != value;
        self.lemma_pos(names[i], i);
        assert(self@.contains_key(names[i]));
    }

    /// The first name, in insertion order, whose value is `value`.
    pub fn first_name_with_value(&self, value: &str) -> (r: Option<String>)
        requires
            self.wf(),
        ensures
            match r {
                Some(n) => self.first_bound(value@) == Some(n@),
                None => self.first_bound(value@) is None,
            },
            r matches Some(n) ==> self@.contains_key(n@) && self@[n@] == value@,
            r is None ==> forall|n: Seq<char>|
                #![trigger self@[n]]
                self@.contains_key(n) ==> self@[n] != value@,
    {
        let ghost names = self.order();
        let mut i: usize = 0;
        while i < self.entries.len()
            invariant
                0 <= i <= self.entries.len(),
                self.wf(),
                names == self.order(),
                forall|j: int| 0 <= j < i ==> self@[#[trigger] names[j]] != value@,
            decreases self.entries.len() - i,
        {
            proof {
                self.lemma_pos(self.entries@[i as int].0@, i as int);
            }
            if crate::text::same_text(self.entries[i].1.as_str(), value) {
                proof {
                    assert(self@[names[i as int]] == value@);
                    let k = choose|k: int|
                        0 <= k < names.len() && #[trigger] self@[names[k]] == value@ && forall|j: int|
                            0 <= j < k ==> self@[#[trigger] names[j]] != value@;
                    if k < i {
                        assert(self@[names[k]] != value@);
                    }
                    if i < k {
                        assert(self@[names[i as int]] != value@);
                    }
                }
                return Some(self.entries[i].0.clone());
            }
            i += 1;
        }
        proof {
            assert forall|n: Seq<char>| #![trigger self@[n]]
                self@.contains_key(n) implies self@[n] != value@ by {
                let k = self.pos(n);
                assert(names[k] == n);
            }
        }
        None
    }

    /// The entries, in insertion order.
    pub fn pairs(&self) -> (r: Vec<(String, String)>)
        requires
            self.wf(),
        ensures
            r.len() == self.order().len(),
            forall|i: int|
                0 <= i < r.len() ==> (#[trigger] r@[i]).0@ == self.order()[i] && self@.contains_key(
                    r@[i].0@,
                ) && self@[r@[i].0@] == r@[i].1@,
            forall|i: int, j: int|
                0 <= i < r.len() && 0 <= j < r.len() && i != j ==> r@[i].0@ != r@[j].0@,
            forall|n: Seq<char>| self@.contains_key(n) ==> exists|i: int|
                0 <= i < r.len() && (#[trigger] r@[i]).0@ == n,
    {
        let mut r: Vec<(String, String)> = Vec::new();
        let mut i: usize = 0;
        while i < self.entries.len()
            invariant
                0 <= i <= self.entries.len(),
                self.wf(),
                r.len() == i,
                forall|j: int|
                    0 <= j < i ==> (#[trigger] r@[j]).0@ == self.entries@[j].0@ && r@[j].1@
                        == self.entries@[j].1@,
            decreases self.entries.len() - i,
        {
            r.push((self.entries[i].0.clone(), self.entries[i].1.clone()));
            i += 1;
        }
        proof {
            assert forall|j: int| 0 <= j < r.len() implies self@.contains_key(
                (#[trigger] r@[j]).0@,
            ) && self@[r@[j].0@] == r@[j].1@ by {
                self.lemma_pos(self.entries@[j].0@, j);
            }
            assert forall|n: Seq<char>| self@.contains_key(n) implies exists|i: int|
                0 <= i < r.len() && (#[trigger] r@[i]).0@ == n by {
                let k = self.pos(n);
                assert(r@[k].0@ == n);
            }
        }
        r
    }

    /// A copy with the same entries in the same order.
    pub fn snapshot(&self) -> (r: KeyMap)
        requires
            self.wf(),
        ensures
            r.wf(),
            r@ == self@,
            r.order() == self.order(),
    {
        let mut entries: Vec<(String, String)> = Vec::new();
        let mut i: usize = 0;
        while i < self.entries.len()
            invariant
                0 <= i <= self.entries.len(),
                entries.len() == i,
                forall|j: int|
                    0 <= j < i ==> (#[trigger] entries@[j]).0@ == self.entries@[j].0@
                        && entries@[j].1@ == self.entries@[j].1@,
            decreases self.entries.len() - i,
        {
            entries.push((self.entries[i].0.clone(), self.entries[i].1.clone()));
            i += 1;
        }
        let r = KeyMap { entries };
        proof {
            assert forall|x: Seq<char>| #[trigger] r.has(x) == self.has(x) by {
                if r.has(x) {
                    let k = r.pos(x);
                    assert(self.entries@[k].0@ == x);
                }
                if self.has(x) {
                    let k = self.pos(x);
                    assert(r.entries@[k].0@ == x);
                }
            }
            assert forall|x: Seq<char>| r.has(x) implies #[trigger] r@[x] == self@[x] by {
                let k = r.pos(x);
                r.lemma_pos(x, k);
                self.lemma_pos(x, k);
            }
            assert(r@ =~= self@);
            assert(r.order() =~= self.order());
        }
        r
    }

    /// Number of entries.
    pub fn len(&self) -> (n: usize)
        requires
            self.wf(),
        ensures
            n == self@.len(),
            n == self.order().len(),
    {
        proof {
            let names = self.order();
            assert forall|x: Seq<char>| self@.contains_key(x) <==> names.contains(x) by {
                if self.has(x) {
                    let k = self.pos(x);
                    assert(names[k] == x);
                }
                if names.contains(x) {
                    let k = choose|k: int| 0 <= k < names.len() && names[k] == x;
                    assert(self.entries@[k].0@ == x);
                }
            }
            assert(self@.dom() =~= names.to_set());
            assert forall|i: int, j: int|
                0 <= i < names.len() && 0 <= j < names.len() && i != j implies names[i]
                != names[j] by {}
            names.unique_seq_to_set();
        }
        self.entries.len()
    }
}

impl View for KeyMap {
    type V = Map<Seq<char>, Seq<char>>;

    closed spec fn view(&self) -> Map<Seq<char>, Seq<char>> {
        Map::new(|x: Seq<char>| self.has(x), |x: Seq<char>| self.entries@[self.pos(x)].1@)
    }
}

} // verus!
