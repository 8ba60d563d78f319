//! A small association table keyed by byte strings, seen as a finite map.

use vstd::prelude::*;

use crate::bytes::{bytes_eq};

verus! {

/// Keys and values held side by side; each key occurs once.
#[derive(Clone, Debug)]
pub struct Table<V> {
    pub keys: Vec<Vec<u8>>,
    pub vals: Vec<V>,
}

impl<V> Table<V> {
    /// The table is well formed: as many values as keys, and no key twice.
    pub open spec fn wf(&self) -> bool {
        &&& self.keys.len() == self.vals.len()
        &&& forall|i: int, j: int|
            0 <= i < self.keys.len() && 0 <= j < self.keys.len() && i != j ==> #[trigger] self.keys@[i]@
                != #[trigger] self.keys@[j]@
    }

    pub open spec fn has(&self, k: Seq<u8>) -> bool {
        exists|i: int| 0 <= i < self.keys.len() && #[trigger] self.keys@[i]@ == k
    }

    pub open spec fn slot(&self, k: Seq<u8>) -> int {
        choose|i: int| 0 <= i < self.keys.len() && #[trigger] self.keys@[i]@ == k
    }

    /// The key of every slot is found at that slot.
    pub proof fn lemma_slot(&self, i: int)
        requires
            self.wf(),
            0 <= i < self.keys.len(),
        ensures
            self.has(self.keys@[i]@),
            self.slot(self.keys@[i]@) == i,
            self@.dom().contains(self.keys@[i]@),
            self@[self.keys@[i]@] == self.vals@[i],
    {
        let k = self.keys@[i]@;
        assert(self.has(k));
        let j = self.slot(k);
        assert(self.keys@[j]@ == k);
    }

    pub fn new() -> (t: Self)
        ensures
            t.wf(),
            t@ == Map::<Seq<u8>, V>::empty(),
    {
        let t = Table { keys: Vec::new(), vals: Vec::new() };
        assert(t@ =~= Map::<Seq<u8>, V>::empty());
        t
    }

    pub fn len(&self) -> (n: usize)
        requires
            self.wf(),
        ensures
            n == self@.dom().len(),
    {
        proof {
            self.lemma_len();
        }
        self.keys.len()
    }

    /// The number of keys is the size of the map's domain.
    pub proof fn lemma_len(&self)
        requires
            self.wf(),
        ensures
            self@.dom().len() == self.keys.len(),
            self@.dom().finite(),
    {
        let ks = self.keys@.map_values(|k: Vec<u8>| k@);
        assert forall|i: int, j: int| 0 <= i < ks.len() && 0 <= j < ks.len() && i != j implies ks[i]
            != ks[j] by {
            assert(self.keys@[i]@ != self.keys@[j]@);
        }
        assert(ks.no_duplicates());
        assert(self@.dom() =~= ks.to_set()) by {
            assert forall|k: Seq<u8>| self@.dom().contains(k) implies ks.to_set().contains(k) by {
                let i = self.slot(k);
                assert(ks[i] == k);
            }
            assert forall|k: Seq<u8>| ks.to_set().contains(k) implies self@.dom().contains(k) by {
                let i = choose|i: int| 0 <= i < ks.len() && ks[i] == k;
                assert(self.keys@[i]@ == k);
            }
        }
        ks.unique_seq_to_set();
    }

    /// Looks a key up and returns its slot.
    pub fn find(&self, key: &Vec<u8>) -> (r: Option<usize>)
        requires
            self.wf(),
        ensures
            match r {
                Some(i) => i < self.keys.len() && self.keys@[i as int]@ == key@ && self.slot(key@)
                    == i && self@.dom().contains(key@) && self@[key@] == self.vals@[i as int],
                None => !self@.dom().contains(key@),
            },
    {
        let mut i: usize = 0;
        while i < self.keys.len()
            invariant
                self.wf(),
                i <= self.keys.len(),
                forall|j: int| 0 <= j < i ==> #[trigger] self.keys@[j]@ != key@,
            decreases self.keys.len() - i,
        {
            if bytes_eq(&self.keys[i], key) {
                proof {
                    self.lemma_slot(i as int);
                }
                return Some(i);
            }
            i = i + 1;
        }
        None
    }

    /// Whether the key is present.
    pub fn contains(&self, key: &Vec<u8>) -> (r: bool)
        requires
            self.wf(),
        ensures
            r == self@.dom().contains(key@),
    {
        self.find(key).is_some()
    }

    /// The value held under `key`, if any.
    pub fn get(&self, key: &Vec<u8>) -> (r: Option<&V>)
        requires
            self.wf(),
        ensures
            r matches Some(v) ==> self@.dom().contains(key@) && *v == self@[key@],
            r is None ==> !self@.dom().contains(key@),
    {
        match self.find(key) {
            Some(i) => Some(&self.vals[i]),
            None => None,
        }
    }

    /// Sets the value held under `key`.
    pub fn set(&mut self, key: Vec<u8>, v: V)
        requires
            old(self).wf(),
        ensures
            final(self).wf(),
            final(self)@ == old(self)@.insert(key@, v),
    {
        let ghost pre = *self;
        match self.find(&key) {
            Some(i) => {
                self.vals.set(i, v);
                proof {
                    assert forall|k: Seq<u8>| #[trigger] self@.dom().contains(k) == pre@.insert(
                        key@,
                        v,
                    ).dom().contains(k) by {
                        if self.has(k) {
                            let j = self.slot(k);
                            assert(pre.keys@[j]@ == k);
                        }
                        if pre.has(k) {
                            let j = pre.slot(k);
                            assert(self.keys@[j]@ == k);
                        }
                    }
                    assert forall|k: Seq<u8>| #[trigger] self@.dom().contains(k) implies self@[k]
                        == pre@.insert(key@, v)[k] by {
                        let j = self.slot(k);
                        self.lemma_slot(j);
                        if k != key@ {
                            pre.lemma_slot(j);
                        }
                    }
                    assert(self@ =~= pre@.insert(key@, v));
                }
            },
            None => {
                self.keys.push(key);
                self.vals.push(v);
                proof {
                    let n = pre.keys.len() as int;
                    assert forall|i: int, j: int|
                        0 <= i < self.keys.len() && 0 <= j < self.keys.len() && i != j implies #[trigger] self.keys@[i]@
                        != #[trigger] self.keys@[j]@ by {
                        if i == n && self.keys@[j]@ == key@ {
                            assert(pre.keys@[j]@ == key@);
                        }
                        if j == n && self.keys@[i]@ == key@ {
                            assert(pre.keys@[i]@ == key@);
                        }
                        if i < n && j < n {
                            assert(pre.keys@[i]@ != pre.keys@[j]@);
                        }
                    }
                    assert forall|k: Seq<u8>| #[trigger] self@.dom().contains(k) == pre@.insert(
                        key@,
                        v,
                    ).dom().contains(k) by {
                        if self.has(k) {
                            let j = self.slot(k);
                            if j < n {
                                assert(pre.keys@[j]@ == k);
                            }
                        }
                        if pre.has(k) {
                            let j = pre.slot(k);
                            assert(self.keys@[j]@ == k);
                        }
                        if k == key@ {
                            assert(self.keys@[n]@ == k);
                        }
                    }
                    assert forall|k: Seq<u8>| #[trigger] self@.dom().contains(k) implies self@[k]
                        == pre@.insert(key@, v)[k] by {
                        let j = self.slot(k);
                        self.lemma_slot(j);
                        if j < n {
                            pre.lemma_slot(j);
                        }
                    }
                    assert(self@ =~= pre@.insert(key@, v));
                }
            },
        }
    }

    /// Removes `key` and returns the value it held.
    pub fn remove(&mut self, key: &Vec<u8>) -> (r: Option<V>)
        requires
            old(self).wf(),
        ensures
            final(self).wf(),
            final(self)@ == old(self)@.remove(key@),
            r matches Some(v) ==> old(self)@.dom().contains(key@) && v == old(self)@[key@],
            r is None ==> !old(self)@.dom().contains(key@),
    {
        let ghost pre = *self;
        match self.find(key) {
            Some(i) => {
                self.keys.remove(i);
                let v = self.vals.remove(i);
                proof {
                    let n = pre.keys.len() as int;
                    let ii = i as int;
                    assert forall|a: int| 0 <= a < self.keys.len() implies #[trigger] self.keys@[a]
                        == pre.keys@[if a < ii {
                        a
                    } else {
                        a + 1
                    }] && self.vals@[a] == pre.vals@[if a < ii {
                        a
                    } else {
                        a + 1
                    }] by {}
                    assert forall|a: int, b: int|
                        0 <= a < self.keys.len() && 0 <= b < self.keys.len() && a != b implies #[trigger] self.keys@[a]@
                        != #[trigger] self.keys@[b]@ by {
                        let a1 = if a < ii {
                            a
                        } else {
                            a + 1
                        };
                        let b1 = if b < ii {
                            b
                        } else {
                            b + 1
                        };
                        assert(pre.keys@[a1]@ != pre.keys@[b1]@);
                    }
                    assert forall|k: Seq<u8>| #[trigger] self@.dom().contains(k) == pre@.remove(
                        key@,
                    ).dom().contains(k) by {
                        if self.has(k) {
                            let a = self.slot(k);
                            let a1 = if a < ii {
                                a
                            } else {
                                a + 1
                            };
                            assert(pre.keys@[a1]@ == k);
                            assert(a1 != ii);
                        }
                        if pre.has(k) && k != key@ {
                            let b = pre.slot(k);
                            assert(b != ii);
                            let a = if b < ii {
                                b
                            } else {
                                b - 1
                            };
                            assert(self.keys@[a]@ == k);
                        }
                    }
                    assert forall|k: Seq<u8>| #[trigger] self@.dom().contains(k) implies self@[k]
                        == pre@.remove(key@)[k] by {
                        let a = self.slot(k);
                        self.lemma_slot(a);
                        let a1 = if a < ii {
                            a
                        } else {
                            a + 1
                        };
                        pre.lemma_slot(a1);
                    }
                    assert(self@ =~= pre@.remove(key@));
                }
                Some(v)
            },
            None => {
                assert(self@ =~= pre@.remove(key@));
                None
            },
        }
    }
}

impl<V> View for Table<V> {
    type V = Map<Seq<u8>, V>;

    open spec fn view(&self) -> Map<Seq<u8>, V> {
        Map::new(|k: Seq<u8>| self.has(k), |k: Seq<u8>| self.vals@[self.slot(k)])
    }
}

} // verus!
