//! The build manifests that the app build writes, and the string-keyed map
//! that their page tables are made of.
use vstd::prelude::*;

verus! {

/// The index of the key whose contents are `k`, among keys that hold no
/// contents twice.
pub closed spec fn key_index(keys: Seq<String>, k: Seq<char>) -> int {
    choose|i: int| 0 <= i < keys.len() && keys[i]@ == k
}

/// A map from strings to values that keeps its keys in insertion order.
/// Inserting under a key that is already present replaces its value in place.
pub struct StringMap<V> {
    keys: Vec<String>,
    values: Vec<V>,
}

impl<V> StringMap<V> {
    /// One value per key, and no key twice.
    #[verifier::type_invariant]
    closed spec fn well_formed(self) -> bool {
        &&& self.keys.len() == self.values.len()
        &&& forall|i: int, j: int|
            0 <= i < j < self.keys.len() ==> #[trigger] self.keys@[i]@ != #[trigger] self.keys@[j]@
    }

    /// The keys, in the order in which they were first inserted.
    pub closed spec fn key_seq(self) -> Seq<Seq<char>> {
        self.keys@.map_values(|k: String| k@)
    }
}

impl<V: DeepView> View for StringMap<V> {
    type V = Map<Seq<char>, V::V>;

    closed spec fn view(&self) -> Map<Seq<char>, V::V> {
        Map::new(
            |k: Seq<char>| exists|i: int| 0 <= i < self.keys.len() && #[trigger] self.keys@[i]@ == k,
            |k: Seq<char>| self.values@[key_index(self.keys@, k)].deep_view(),
        )
    }
}

impl<V: DeepView> StringMap<V> {
    /// An empty map.
    pub fn new() -> (m: Self)
        ensures
            m@ == Map::<Seq<char>, V::V>::empty(),
            m.key_seq() == Seq::<Seq<char>>::empty(),
    {
        let m = StringMap { keys: Vec::new(), values: Vec::new() };
        assert(m@ =~= Map::<Seq<char>, V::V>::empty());
        assert(m.key_seq() =~= Seq::<Seq<char>>::empty());
        m
    }

    /// The number of keys.
    pub fn len(&self) -> (n: usize)
        ensures
            n == self@.len(),
            n == self.key_seq().len(),
    {
        proof {
            use_type_invariant(self);
            self.lemma_dom_is_key_set();
        }
        self.keys.len()
    }

    proof fn lemma_dom_is_key_set(&self)
        requires
            self.keys.len() == self.values.len(),
            forall|i: int, j: int|
                0 <= i < j < self.keys.len() ==> #[trigger] self.keys@[i]@ != #[trigger] self.keys@[j]@,
        ensures
            self@.dom() == self.key_seq().to_set(),
            self.key_seq().no_duplicates(),
            self@.dom().len() == self.key_seq().len(),
            self@.len() == self.key_seq().len(),
    {
        let ks = self.key_seq();
        assert(self@.dom() =~= ks.to_set()) by {
            assert forall|k: Seq<char>| self@.dom().contains(k) implies ks.to_set().contains(k) by {
                let i = choose|i: int| 0 <= i < self.keys.len() && #[trigger] self.keys@[i]@ == k;
                assert(ks[i] == k);
            }
            assert forall|k: Seq<char>| ks.to_set().contains(k) implies self@.dom().contains(k) by {
                let i = choose|i: int| 0 <= i < ks.len() && ks[i] == k;
                assert(self.keys@[i]@ == k);
            }
        }
        assert(ks.no_duplicates()) by {
            assert forall|i: int, j: int| 0 <= i < ks.len() && 0 <= j < ks.len() && i != j implies ks[i]
                != ks[j] by {
                if i < j {
                    assert(self.keys@[i]@ != self.keys@[j]@);
                } else {
                    assert(self.keys@[j]@ != self.keys@[i]@);
                }
            }
        }
        ks.unique_seq_to_set();
    }

    /// The value stored under `key`, if there is one.
    pub fn get(&self, key: &String) -> (r: Option<&V>)
        ensures
            match r {
                Some(v) => self@.contains_key(key@) && v.deep_view() == self@[key@],
                None => !self@.contains_key(key@),
            },
    {
        proof {
            use_type_invariant(self);
        }
        let n = self.keys.len();
        let mut i: usize = 0;
        while i < n
            invariant
                n == self.keys.len(),
                self.keys.len() == self.values.len(),
                forall|a: int, b: int|
                    0 <= a < b < self.keys.len() ==> #[trigger] self.keys@[a]@ != #[trigger] self.keys@[b]@,
                i <= n,
                forall|j: int| 0 <= j < i ==> self.keys@[j]@ != key@,
            decreases n - i,
        {
            if self.keys[i] == *key {
                proof {
                    let j = key_index(self.keys@, key@);
                    assert(self.keys@[i as int]@ == key@);
                    if j != i as int {
                        if j < i {
                            assert(self.keys@[j]@ != self.keys@[i as int]@);
                        } else {
                            assert(self.keys@[i as int]@ != self.keys@[j]@);
                        }
                    }
                }
                return Some(&self.values[i]);
            }
            i = i + 1;
        }
        None
    }

    /// Stores `value` under `key`. A key that is already present keeps its
    /// place in the key order; a new key goes last.
    pub fn insert(&mut self, key: String, value: V)
        ensures
            final(self)@ == old(self)@.insert(key@, value.deep_view()),
            old(self)@.contains_key(key@) ==> final(self).key_seq() == old(self).key_seq(),
            !old(self)@.contains_key(key@) ==> final(self).key_seq() == old(self).key_seq().push(
                key@,
            ),
    {
        let mut taken = StringMap::new();
        std::mem::swap(&mut taken, self);
        proof {
            use_type_invariant(&taken);
        }
        let ghost old_view = taken@;
        let ghost old_key_seq = taken.key_seq();
        let StringMap { keys: mut keys, values: mut values } = taken;
        let ghost old_keys = keys@;
        let ghost old_values = values@;
        let n = keys.len();
        let mut i: usize = 0;
        while i < n
            invariant
                n == keys.len(),
                keys@ == old_keys,
                values@ == old_values,
                old_keys.len() == old_values.len(),
                forall|a: int, b: int|
                    0 <= a < b < old_keys.len() ==> #[trigger] old_keys[a]@ != #[trigger] old_keys[b]@,
                old_view == old(self)@,
                old(self).keys@ == old_keys,
                old(self).values@ == old_values,
                old_key_seq == old(self).key_seq(),
                old_key_seq == old_keys.map_values(|k: String| k@),
                i <= n,
                forall|j: int| 0 <= j < i ==> old_keys[j]@ != key@,
            decreases n - i,
        {
            if keys[i] == key {
                let ghost ki = i as int;
                proof {
                    assert(old_keys[ki]@ == key@);
                }
                values.set(i, value);
                let ghost new_values = values@;
                *self = StringMap { keys, values };
                proof {
                    let new_view = self@;
                    assert(self.keys@ == old_keys);
                    assert(new_values == old_values.update(ki, value));
                    assert forall|k: Seq<char>| #[trigger]
                        new_view.contains_key(k) == old_view.insert(key@, value.deep_view()).contains_key(
                            k,
                        ) by {
                        if k == key@ {
                            assert(old_keys[ki]@ == k);
                        }
                    }
                    assert forall|k: Seq<char>| new_view.contains_key(k) implies #[trigger] new_view[k]
                        == old_view.insert(key@, value.deep_view())[k] by {
                        let j = key_index(old_keys, k);
                        assert(0 <= j < old_keys.len() && old_keys[j]@ == k);
                        if k == key@ {
                            if j != ki {
                                if j < ki {
                                    assert(old_keys[j]@ != old_keys[ki]@);
                                } else {
                                    assert(old_keys[ki]@ != old_keys[j]@);
                                }
                            }
                        } else {
                            assert(j != ki);
                        }
                    }
                    assert(new_view =~= old_view.insert(key@, value.deep_view()));
                    assert(self.key_seq() =~= old_key_seq);
                }
                return ;
            }
            i = i + 1;
        }
        proof {
            assert(!old_view.contains_key(key@));
        }
        keys.push(key);
        values.push(value);
        let ghost new_keys = keys@;
        proof {
            assert(new_keys == old_keys.push(key));
            assert(values@ == old_values.push(value));
            assert forall|a: int, b: int|
                0 <= a < b < new_keys.len() implies #[trigger] new_keys[a]@ != #[trigger] new_keys[b]@ by {
                if b == n {
                    assert(old_keys[a]@ != key@);
                }
            }
        }
        *self = StringMap { keys, values };
        proof {
            let new_view = self@;
            assert forall|k: Seq<char>| #[trigger]
                new_view.contains_key(k) == old_view.insert(key@, value.deep_view()).contains_key(k) by {
                if k == key@ {
                    assert(new_keys[n as int]@ == k);
                } else if new_view.contains_key(k) {
                    let j = choose|j: int| 0 <= j < new_keys.len() && #[trigger] new_keys[j]@ == k;
                    assert(j < n);
                    assert(old_keys[j]@ == k);
                } else if old_view.contains_key(k) {
                    let j = choose|j: int| 0 <= j < old_keys.len() && #[trigger] old_keys[j]@ == k;
                    assert(new_keys[j]@ == k);
                }
            }
            assert forall|k: Seq<char>| new_view.contains_key(k) implies #[trigger] new_view[k]
                == old_view.insert(key@, value.deep_view())[k] by {
                let j = key_index(new_keys, k);
                assert(0 <= j < new_keys.len() && new_keys[j]@ == k);
                if k == key@ {
                    if j != n as int {
                        assert(new_keys[j]@ != new_keys[n as int]@);
                    }
                } else {
                    assert(j != n as int);
                    let j0 = key_index(old_keys, k);
                    assert(old_keys[j]@ == k);
                    assert(0 <= j0 < old_keys.len() && old_keys[j0]@ == k);
                    if j0 != j {
                        if j0 < j {
                            assert(new_keys[j0]@ != new_keys[j]@);
                        } else {
                            assert(new_keys[j]@ != new_keys[j0]@);
                        }
                    }
                }
            }
            assert(new_view =~= old_view.insert(key@, value.deep_view()));
            assert(self.key_seq() =~= old_key_seq.push(key@));
        }
    }
}

impl<V: DeepView> StringMap<V> {
    /// The keys, in the order in which they were first inserted.
    pub fn keys(&self) -> (keys: &Vec<String>)
        ensures
            keys.deep_view() == self.key_seq(),
    {
        let keys = &self.keys;
        assert(keys.deep_view() =~= self.key_seq());
        keys
    }

    /// The value stored under the `i`-th key.
    pub fn value_at(&self, i: usize) -> (v: &V)
        requires
            i < self.key_seq().len(),
        ensures
            self@.contains_key(self.key_seq()[i as int]),
            v.deep_view() == self@[self.key_seq()[i as int]],
    {
        proof {
            use_type_invariant(self);
            let k = self.keys@[i as int]@;
            assert(self.key_seq()[i as int] == k);
            let j = key_index(self.keys@, k);
            assert(0 <= j < self.keys.len() && self.keys@[j]@ == k);
            if j != i as int {
                if j < i {
                    assert(self.keys@[j]@ != self.keys@[i as int]@);
                } else {
                    assert(self.keys@[i as int]@ != self.keys@[j]@);
                }
            }
        }
        &self.values[i]
    }
}

/// The manifest of the client chunks that each app page loads.
pub struct AppBuildManifest {
    /// For each page, by its original name, the paths of its client chunks.
    pub pages: StringMap<Vec<String>>,
}

/// The part of the build manifest that app pages contribute to.
pub struct BuildManifest {
    /// The client chunks that every page loads first.
    pub root_main_files: Vec<String>,
}

/// The server-side paths of the app pages.
pub struct NodeServerAppPaths {
    /// For each page, by its original name, the path of its server chunk.
    pub pages: StringMap<String>,
}

/// The manifest that maps each app page to its server chunk.
pub struct AppPathsManifest {
    /// The paths for the Node.js server runtime.
    pub node_server_app_paths: NodeServerAppPaths,
}

impl AppBuildManifest {
    /// A manifest with no pages.
    pub fn new() -> (m: Self)
        ensures
            m.pages@ == Map::<Seq<char>, Seq<Seq<char>>>::empty(),
    {
        AppBuildManifest { pages: StringMap::new() }
    }
}

impl BuildManifest {
    /// A manifest with no root main files.
    pub fn new() -> (m: Self)
        ensures
            m.root_main_files@ == Seq::<String>::empty(),
    {
        BuildManifest { root_main_files: Vec::new() }
    }
}

impl AppPathsManifest {
    /// A manifest with no pages.
    pub fn new() -> (m: Self)
        ensures
            m.node_server_app_paths.pages@ == Map::<Seq<char>, Seq<char>>::empty(),
    {
        AppPathsManifest { node_server_app_paths: NodeServerAppPaths { pages: StringMap::new() } }
    }
}

} // verus!
