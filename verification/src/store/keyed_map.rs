use vstd::hash_map::StringHashMap;
use vstd::prelude::*;

verus! {

/// A string-keyed map that also remembers the order in which its keys were
/// first inserted, so that its entries can be walked.
#[verifier::reject_recursive_types(V)]
pub struct KeyedMap<V> {
    map: StringHashMap<V>,
    keys: Vec<String>,
}

/// The character sequences of a list of strings.
pub open spec fn string_views(keys: Seq<String>) -> Seq<Seq<char>> {
    keys.map_values(|k: String| k@)
}

impl<V> View for KeyedMap<V> {
    type V = Map<Seq<char>, V>;

    closed spec fn view(&self) -> Map<Seq<char>, V> {
        self.map@
    }
}

impl<V> KeyedMap<V> {
    /// The keys, in the order in which they were first inserted.
    pub closed spec fn key_order(&self) -> Seq<Seq<char>> {
        string_views(self.keys@)
    }

    /// Every key of the map occurs exactly once in the key order, and nothing else does.
    pub closed spec fn well_formed(&self) -> bool {
        &&& self.key_order().no_duplicates()
        &&& self.map@.dom() == self.key_order().to_set()
    }

    /// What well-formedness gives a caller: the key order lists exactly the
    /// keys of the map, each once.
    pub proof fn lemma_keys(&self)
        requires
            self.well_formed(),
        ensures
            self.key_order().no_duplicates(),
            forall|k: Seq<char>| #[trigger] self@.contains_key(k) <==> self.key_order().contains(k),
            self@.dom().finite(),
            self@.len() == self.key_order().len(),
    {
        self.key_order().unique_seq_to_set();
        assert forall|k: Seq<char>| #[trigger] self@.contains_key(k) <==> self.key_order().contains(k) by {
            if self.key_order().contains(k) {
                assert(self.key_order().to_set().contains(k));
            }
        }
    }

    pub fn new() -> (m: Self)
        ensures
            m.well_formed(),
            m@ == Map::<Seq<char>, V>::empty(),
            m.key_order() == Seq::<Seq<char>>::empty(),
    {
        let m = KeyedMap { map: StringHashMap::new(), keys: Vec::new() };
        proof {
            assert(m.key_order() =~= Seq::<Seq<char>>::empty());
            assert(m.map@.dom() =~= m.key_order().to_set());
        }
        m
    }

    pub fn len(&self) -> (n: usize)
        requires
            self.well_formed(),
        ensures
            n == self@.len(),
            n == self.key_order().len(),
    {
        proof {
            self.lemma_keys();
        }
        self.keys.len()
    }

    pub fn contains_key(&self, k: &str) -> (b: bool)
        ensures
            b == self@.contains_key(k@),
    {
        self.map.contains_key(k)
    }

    pub fn get(&self, k: &str) -> (r: Option<&V>)
        ensures
            match r {
                Some(v) => self@.contains_key(k@) && *v == self@[k@],
                None => !self@.contains_key(k@),
            },
    {
        self.map.get(k)
    }

    /// The stored keys, in first-insertion order.
    pub fn keys(&self) -> (ks: &Vec<String>)
        ensures
            string_views(ks@) == self.key_order(),
    {
        &self.keys
    }

    /// A copy of the stored keys, in first-insertion order.
    pub fn key_list(&self) -> (ks: Vec<String>)
        ensures
            string_views(ks@) == self.key_order(),
    {
        let mut ks: Vec<String> = Vec::new();
        let n = self.keys.len();
        for i in 0..n
            invariant
                n == self.keys@.len(),
                string_views(ks@) == string_views(self.keys@).take(i as int),
        {
            let k = self.keys[i].clone();
            let ghost prev = ks@;
            proof {
                assert(k@ == self.keys@[i as int]@);
            }
            ks.push(k);
            proof {
                assert(ks@ == prev.push(k));
                assert(string_views(ks@) =~= string_views(prev).push(k@));
                assert(string_views(self.keys@).take(i + 1) =~= string_views(self.keys@).take(i as int).push(k@));
                assert(string_views(ks@) =~= string_views(self.keys@).take(i + 1));
            }
        }
        proof {
            assert(string_views(self.keys@).take(self.keys@.len() as int) =~= string_views(self.keys@));
        }
        ks
    }

    /// Inserts or replaces the value stored under `k`; a new key goes to the end of the key order.
    pub fn insert(&mut self, k: String, v: V)
        requires
            old(self).well_formed(),
        ensures
            final(self).well_formed(),
            final(self)@ == old(self)@.insert(k@, v),
            final(self).key_order() == (if old(self)@.contains_key(k@) {
                old(self).key_order()
            } else {
                old(self).key_order().push(k@)
            }),
    {
        proof {
            self.lemma_keys();
        }
        if !self.map.contains_key(k.as_str()) {
            let k2 = k.clone();
            self.keys.push(k2);
            proof {
                assert(string_views(self.keys@) =~= string_views(old(self).keys@).push(k@));
            }
        }
        self.map.insert(k, v);
        proof {
            assert forall|x: Seq<char>| self.map@.dom().contains(x) <==> self.key_order().to_set().contains(x) by {
                if x == k@ {
                    if old(self)@.contains_key(k@) {
                        assert(old(self).key_order().to_set().contains(x));
                    } else {
                        assert(self.key_order()[self.key_order().len() - 1] == x);
                    }
                } else if self.map@.dom().contains(x) {
                    assert(old(self).key_order().to_set().contains(x));
                    let j = choose|j: int| 0 <= j < old(self).key_order().len() && old(self).key_order()[j] == x;
                    assert(self.key_order()[j] == x);
                } else if self.key_order().to_set().contains(x) {
                    let j = choose|j: int| 0 <= j < self.key_order().len() && self.key_order()[j] == x;
                    assert(old(self).key_order()[j] == x);
                }
            }
            assert(self.map@.dom() =~= self.key_order().to_set());
        }
    }

    /// Removes `k` and its value; the other keys keep their order.
    pub fn remove(&mut self, k: &str)
        requires
            old(self).well_formed(),
        ensures
            final(self).well_formed(),
            final(self)@ == old(self)@.remove(k@),
            final(self).key_order() == old(self).key_order().remove_value(k@),
    {
        proof {
            self.lemma_keys();
        }
        if self.map.contains_key(k) {
            let target = k.to_owned();
            let n = self.keys.len();
            let mut i: usize = 0;
            while i < n
                invariant
                    n == self.keys.len(),
                    self.keys == old(self).keys,
                    self.map == old(self).map,
                    target@ == k@,
                    0 <= i <= n,
                    forall|j: int| 0 <= j < i ==> self.keys@[j]@ != k@,
                ensures
                    0 <= i <= n,
                    i < n ==> self.keys@[i as int]@ == k@,
                    forall|j: int| 0 <= j < i ==> self.keys@[j]@ != k@,
                decreases n - i,
            {
                if self.keys[i] == target {
                    break;
                }
                i = i + 1;
            }
            proof {
                assert(self.key_order().contains(k@));
                if i == n {
                    let j = choose|j: int| 0 <= j < n && self.key_order()[j] == k@;
                    assert(self.keys@[j]@ == k@);
                    assert(false);
                }
                assert(self.key_order()[i as int] == k@);
                self.key_order().index_of_first_ensures(k@);
                let first = self.key_order().index_of_first(k@);
                assert(first == Some(i as int)) by {
                    match first {
                        Some(f) => {
                            if f < i {
                                assert(self.keys@[f]@ != k@);
                            } else if f > i {
                                assert(self.key_order()[i as int] == k@);
                            }
                        },
                        None => {},
                    }
                }
            }
            self.keys.remove(i);
            proof {
                assert(string_views(self.keys@) =~= old(self).key_order().remove(i as int));
            }
        } else {
            proof {
                let first = self.key_order().index_of_first(k@);
                self.key_order().index_of_first_ensures(k@);
            }
        }
        self.map.remove(k);
        proof {
            let old_order = old(self).key_order();
            let new_order = self.key_order();
            assert forall|a: int, b: int| 0 <= a < b < new_order.len() implies new_order[a] != new_order[b] by {
                if old(self)@.contains_key(k@) {
                    let i = old_order.index_of_first(k@).unwrap();
                    let oa = if a < i { a } else { a + 1 };
                    let ob = if b < i { b } else { b + 1 };
                    assert(new_order[a] == old_order[oa]);
                    assert(new_order[b] == old_order[ob]);
                }
            }
            assert forall|x: Seq<char>| self.map@.dom().contains(x) <==> new_order.to_set().contains(x) by {
                if old(self)@.contains_key(k@) {
                    let i = old_order.index_of_first(k@).unwrap();
                    if self.map@.dom().contains(x) {
                        assert(old_order.contains(x));
                        let j = choose|j: int| 0 <= j < old_order.len() && old_order[j] == x;
                        assert(j != i);
                        if j < i {
                            assert(new_order[j] == x);
                        } else {
                            assert(new_order[j - 1] == x);
                        }
                    }
                    if new_order.to_set().contains(x) {
                        let j = choose|j: int| 0 <= j < new_order.len() && new_order[j] == x;
                        let oj = if j < i { j } else { j + 1 };
                        assert(old_order[oj] == x);
                        assert(oj != i);
                    }
                } else {
                    assert(old_order.remove_value(k@) == old_order);
                }
            }
            assert(self.map@.dom() =~= new_order.to_set());
        }
    }

    pub fn clear(&mut self)
        ensures
            final(self).well_formed(),
            final(self)@ == Map::<Seq<char>, V>::empty(),
            final(self).key_order() == Seq::<Seq<char>>::empty(),
    {
        self.map.clear();
        self.keys.clear();
        proof {
            assert(self.key_order() =~= Seq::<Seq<char>>::empty());
            assert(self.map@.dom() =~= self.key_order().to_set());
        }
    }

    /// The stored values, in key order.
    pub fn values(&self) -> (vs: Vec<&V>)
        requires
            self.well_formed(),
        ensures
            vs@.len() == self.key_order().len(),
            forall|i: int| 0 <= i < vs@.len() ==> *#[trigger] vs@[i] == self@[self.key_order()[i]],
    {
        proof {
            self.lemma_keys();
        }
        let mut vs: Vec<&V> = Vec::new();
        let n = self.keys.len();
        for i in 0..n
            invariant
                n == self.keys.len(),
                self.well_formed(),
                forall|k: Seq<char>| #[trigger] self@.contains_key(k) <==> self.key_order().contains(k),
                vs@.len() == i,
                forall|j: int| 0 <= j < i ==> *#[trigger] vs@[j] == self@[self.key_order()[j]],
        {
            proof {
                assert(self.key_order()[i as int] == self.keys@[i as int]@);
                assert(self.key_order().contains(self.keys@[i as int]@));
            }
            match self.map.get(self.keys[i].as_str()) {
                Some(v) => {
                    vs.push(v);
                },
                None => {
                    proof {
                        assert(false);
                    }
                },
            }
        }
        vs
    }
}

} // verus!
