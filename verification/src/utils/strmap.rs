//! Tables keyed by names, for the compiler's symbol tables: each name is bound at
//! most once, and a lookup finds the value bound to it.
use crate::utils::text::str_eq;
use vstd::prelude::*;

verus! {

/// A table from names to values, with each name bound at most once.
#[derive(Debug)]
pub struct StrMap<V> {
    pub entries: Vec<(String, V)>,
}

impl<V> StrMap<V> {
    /// The names bound in the table, in the order they were first bound.
    pub open spec fn names(&self) -> Seq<Seq<char>> {
        self.entries@.map_values(|e: (String, V)| e.0@)
    }

    /// No name is bound twice.
    pub open spec fn wf(&self) -> bool {
        forall|i: int, j: int|
            0 <= i < self.entries@.len() && 0 <= j < self.entries@.len() && i != j
                ==> self.entries@[i].0@ != self.entries@[j].0@
    }

    /// Whether the name `k` is bound.
    pub open spec fn has(&self, k: Seq<char>) -> bool {
        exists|i: int| 0 <= i < self.entries@.len() && self.entries@[i].0@ == k
    }

    /// The value bound to `k`, if any.
    pub open spec fn lookup(&self, k: Seq<char>) -> Option<V> {
        if self.has(k) {
            Some(
                self.entries@[choose|i: int|
                    0 <= i < self.entries@.len() && self.entries@[i].0@ == k].1,
            )
        } else {
            None
        }
    }

    /// The empty table.
    pub fn new() -> (res: Self)
        ensures
            res.wf(),
            res.entries@.len() == 0,
            forall|k: Seq<char>| !res.has(k),
    {
        StrMap { entries: Vec::new() }
    }

    /// The position of the entry that binds `k`, if any.
    fn position(&self, k: &str) -> (res: Option<usize>)
        requires
            self.wf(),
        ensures
            match res {
                Some(i) => i < self.entries@.len() && self.entries@[i as int].0@ == k@
                    && self.lookup(k@) == Some(self.entries@[i as int].1),
                None => !self.has(k@) && self.lookup(k@) is None,
            },
    {
        let mut i: usize = 0;
        while i < self.entries.len()
            invariant
                0 <= i <= self.entries@.len(),
                self.wf(),
                forall|j: int| 0 <= j < i ==> self.entries@[j].0@ != k@,
            decreases self.entries@.len() - i,
        {
            if str_eq(self.entries[i].0.as_str(), k) {
                let ghost c = choose|j: int|
                    0 <= j < self.entries@.len() && self.entries@[j].0@ == k@;
                assert(self.entries@[i as int].0@ == k@);
                assert(c == i as int);
                return Some(i);
            }
            i = i + 1;
        }
        None
    }

    /// The value bound to `k`, if any.
    pub fn get(&self, k: &str) -> (res: Option<&V>)
        requires
            self.wf(),
        ensures
            match res {
                Some(v) => self.lookup(k@) == Some(*v),
                None => self.lookup(k@) is None,
            },
    {
        match self.position(k) {
            Some(i) => Some(&self.entries[i].1),
            None => None,
        }
    }

    /// Whether `k` is bound.
    pub fn contains_key(&self, k: &str) -> (res: bool)
        requires
            self.wf(),
        ensures
            res == self.has(k@),
    {
        self.position(k).is_some()
    }

    /// Binds `k` to `v`, replacing any earlier binding of `k`; every other binding stays.
    pub fn insert(&mut self, k: String, v: V)
        requires
            old(self).wf(),
        ensures
            final(self).wf(),
            final(self).lookup(k@) == Some(v),
            forall|n: Seq<char>| n != k@ ==> final(self).lookup(n) == old(self).lookup(n),
            forall|n: Seq<char>| final(self).has(n) == (old(self).has(n) || n == k@),
    {
        let ghost old_self = *self;
        match self.position(k.as_str()) {
            Some(i) => {
                let ghost key = k@;
                self.entries.set(i, (k, v));
                assert forall|n: Seq<char>| n != key implies #[trigger] self.lookup(n)
                    == old_self.lookup(n) by {
                    if old_self.has(n) {
                        let j = choose|j: int|
                            0 <= j < old_self.entries@.len() && old_self.entries@[j].0@ == n;
                        assert(self.entries@[j] == old_self.entries@[j]);
                    }
                    if self.has(n) {
                        let j = choose|j: int|
                            0 <= j < self.entries@.len() && self.entries@[j].0@ == n;
                        assert(self.entries@[j] == old_self.entries@[j]);
                    }
                }
                assert forall|n: Seq<char>| #[trigger] self.has(n) == (old_self.has(n) || n == key) by {
                    if n == key {
                        assert(self.entries@[i as int].0@ == n);
                    }
                    if old_self.has(n) {
                        let j = choose|j: int|
                            0 <= j < old_self.entries@.len() && old_self.entries@[j].0@ == n;
                        if j != i {
                            assert(self.entries@[j] == old_self.entries@[j]);
                        }
                    }
                    if self.has(n) && n != key {
                        let j = choose|j: int|
                            0 <= j < self.entries@.len() && self.entries@[j].0@ == n;
                        assert(self.entries@[j] == old_self.entries@[j]);
                    }
                }
                assert(self.entries@[i as int].0@ == key);
            },
            None => {
                let ghost key = k@;
                self.entries.push((k, v));
                let ghost last: int = self.entries@.len() - 1;
                assert(self.entries@[last].0@ == key);
                assert forall|n: Seq<char>| n != key implies #[trigger] self.lookup(n)
                    == old_self.lookup(n) by {
                    if old_self.has(n) {
                        let j = choose|j: int|
                            0 <= j < old_self.entries@.len() && old_self.entries@[j].0@ == n;
                        assert(self.entries@[j] == old_self.entries@[j]);
                    }
                    if self.has(n) {
                        let j = choose|j: int|
                            0 <= j < self.entries@.len() && self.entries@[j].0@ == n;
                        assert(j != last);
                        assert(self.entries@[j] == old_self.entries@[j]);
                    }
                }
                assert forall|n: Seq<char>| #[trigger] self.has(n) == (old_self.has(n) || n == key) by {
                    if old_self.has(n) {
                        let j = choose|j: int|
                            0 <= j < old_self.entries@.len() && old_self.entries@[j].0@ == n;
                        assert(self.entries@[j] == old_self.entries@[j]);
                    }
                    if self.has(n) && n != key {
                        let j = choose|j: int|
                            0 <= j < self.entries@.len() && self.entries@[j].0@ == n;
                        assert(j != last);
                        assert(self.entries@[j] == old_self.entries@[j]);
                    }
                }
            },
        }
    }
}

} // verus!
