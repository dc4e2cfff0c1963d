//! Environment-variable overrides for a child process.
//!
//! The overrides are held as an association list with unique keys so that
//! contracts can speak of the mathematical map they represent.

use vstd::prelude::*;

verus! {

/// A map from environment-variable names to values, insertion order kept.
pub struct EnvMap {
    /// The `(name, value)` pairs, oldest first; no name occurs twice.
    pub entries: Vec<(String, String)>,
}

impl EnvMap {
    /// The number of entries.
    pub open spec fn spec_len(self) -> nat {
        self.entries@.len()
    }

    /// The key of the entry at position `i`.
    pub open spec fn key_at(self, i: int) -> Seq<char> {
        self.entries@[i].0@
    }

    /// The value of the entry at position `i`.
    pub open spec fn val_at(self, i: int) -> Seq<char> {
        self.entries@[i].1@
    }

    /// Whether some entry holds the key `k`.
    pub open spec fn has_key(self, k: Seq<char>) -> bool {
        exists|i: int| 0 <= i < self.spec_len() && self.key_at(i) == k
    }

    /// The value stored under `k`.
    pub open spec fn val_of(self, k: Seq<char>) -> Seq<char> {
        let i = choose|i: int| 0 <= i < self.spec_len() && self.key_at(i) == k;
        self.val_at(i)
    }

    /// Well-formedness: no key occurs twice.
    pub open spec fn wf(self) -> bool {
        forall|i: int, j: int|
            0 <= i < j < self.spec_len() ==> self.key_at(i) != self.key_at(j)
    }

    /// The mathematical map this value holds.
    pub open spec fn map_view(self) -> Map<Seq<char>, Seq<char>> {
        Map::new(|k: Seq<char>| self.has_key(k), |k: Seq<char>| self.val_of(k))
    }

    /// Under well-formedness, the entry at position `i` is what the map
    /// stores for its key.
    proof fn lemma_val_of_at(self, i: int)
        requires
            self.wf(),
            0 <= i < self.spec_len(),
        ensures
            self.has_key(self.key_at(i)),
            self.val_of(self.key_at(i)) == self.val_at(i),
    {
        assert(self.has_key(self.key_at(i)));
        let j = choose|j: int| 0 <= j < self.spec_len() && self.key_at(j) == self.key_at(i);
        if i < j {
            assert(self.key_at(i) != self.key_at(j));
        } else if j < i {
            assert(self.key_at(j) != self.key_at(i));
        }
    }

    /// An empty override map.
    pub fn new() -> (r: EnvMap)
        ensures
            r.wf(),
            r.spec_len() == 0,
            r.map_view() == Map::<Seq<char>, Seq<char>>::empty(),
    {
        let r = EnvMap { entries: Vec::new() };
        proof {
            assert(r.map_view() =~= Map::<Seq<char>, Seq<char>>::empty());
        }
        r
    }

    /// The number of entries.
    pub fn len(&self) -> (r: usize)
        ensures
            r == self.spec_len(),
    {
        self.entries.len()
    }

    /// The entry at position `i`, for walking the map.
    pub fn pair_at(&self, i: usize) -> (r: &(String, String))
        requires
            i < self.spec_len(),
        ensures
            r.0@ == self.key_at(i as int),
            r.1@ == self.val_at(i as int),
    {
        &self.entries[i]
    }

    /// The position holding `key`, if any.
    fn find(&self, key: &String) -> (r: Option<usize>)
        ensures
            r matches Some(i) ==> i < self.spec_len() && self.key_at(i as int) == key@,
            r is None ==> !self.has_key(key@),
    {
        let mut i: usize = 0;
        while i < self.entries.len()
            invariant
                i <= self.spec_len(),
                forall|j: int| 0 <= j < i ==> self.key_at(j) != key@,
            decreases self.spec_len() - i,
        {
            if crate::shell_env::string_eq(&self.entries[i].0, key) {
                return Some(i);
            }
            i = i + 1;
        }
        None
    }

    /// Whether the map holds `key`.
    pub fn contains_key(&self, key: &str) -> (r: bool)
        ensures
            r == self.has_key(key@),
    {
        let owned = key.to_owned();
        match self.find(&owned) {
            Some(_) => true,
            None => false,
        }
    }

    /// The value stored under `key`, if any.
    pub fn get(&self, key: &str) -> (r: Option<&String>)
        requires
            self.wf(),
        ensures
            self.has_key(key@) ==> (r matches Some(v) && v@ == self.map_view()[key@]),
            !self.has_key(key@) ==> r is None,
    {
        let owned = key.to_owned();
        match self.find(&owned) {
            Some(i) => {
                proof {
                    self.lemma_val_of_at(i as int);
                }
                Some(&self.entries[i].1)
            },
            None => None,
        }
    }

    /// A copy holding the same names and values.
    pub fn duplicate(&self) -> (r: EnvMap)
        ensures
            r.spec_len() == self.spec_len(),
            forall|i: int|
                0 <= i < self.spec_len() ==> r.key_at(i) == self.key_at(i) && r.val_at(i)
                    == self.val_at(i),
            self.wf() ==> r.wf(),
            self.wf() ==> r.map_view() == self.map_view(),
    {
        let mut entries: Vec<(String, String)> = Vec::new();
        let mut i: usize = 0;
        while i < self.entries.len()
            invariant
                i <= self.spec_len(),
                entries@.len() == i,
                forall|j: int|
                    0 <= j < i ==> entries@[j].0@ == self.key_at(j) && entries@[j].1@
                        == self.val_at(j),
            decreases self.spec_len() - i,
        {
            let p = &self.entries[i];
            entries.push((p.0.clone(), p.1.clone()));
            i = i + 1;
        }
        let r = EnvMap { entries };
        proof {
            if self.wf() {
                assert forall|i: int, j: int| 0 <= i < j < r.spec_len() implies r.key_at(i)
                    != r.key_at(j) by {
                    assert(r.key_at(i) == self.key_at(i));
                    assert(r.key_at(j) == self.key_at(j));
                }
                assert(r.wf());
                assert forall|k: Seq<char>| true implies #[trigger] r.has_key(k)
                    == self.has_key(k) by {
                    if r.has_key(k) {
                        let j = choose|j: int| 0 <= j < r.spec_len() && r.key_at(j) == k;
                        assert(self.key_at(j) == k);
                    }
                    if self.has_key(k) {
                        let j = choose|j: int| 0 <= j < self.spec_len() && self.key_at(j) == k;
                        assert(r.key_at(j) == k);
                    }
                }
                assert forall|k: Seq<char>| r.has_key(k) implies r.map_view()[k]
                    == self.map_view()[k] by {
                    let j = choose|j: int| 0 <= j < r.spec_len() && r.key_at(j) == k;
                    r.lemma_val_of_at(j);
                    self.lemma_val_of_at(j);
                }
                assert(r.map_view() =~= self.map_view());
            }
        }
        r
    }

    /// Store `value` under `key`, replacing any earlier value.
    pub fn insert(&mut self, key: String, value: String)
        requires
            old(self).wf(),
        ensures
            final(self).wf(),
            final(self).map_view() == old(self).map_view().insert(key@, value@),
    {
        let found = self.find(&key);
        match found {
            Some(i) => {
                self.entries[i].1 = value;
                proof {
                    let post = *self;
                    let pre = *old(self);
                    assert(post.spec_len() == pre.spec_len());
                    assert(forall|j: int|
                        0 <= j < post.spec_len() ==> post.key_at(j) == pre.key_at(j));
                    assert(forall|j: int|
                        0 <= j < post.spec_len() && j != i ==> post.val_at(j) == pre.val_at(j));
                    assert(post.val_at(i as int) == value@);
                    assert(post.key_at(i as int) == key@);
                    assert forall|k: Seq<char>| true implies #[trigger] post.has_key(k)
                        == pre.has_key(k) by {
                        if pre.has_key(k) {
                            let j = choose|j: int|
                                0 <= j < pre.spec_len() && pre.key_at(j) == k;
                            assert(post.key_at(j) == k);
                        }
                        if post.has_key(k) {
                            let j = choose|j: int|
                                0 <= j < post.spec_len() && post.key_at(j) == k;
                            assert(pre.key_at(j) == k);
                        }
                    }
                    assert(post.map_view() =~= pre.map_view().insert(key@, value@)) by {
                        assert forall|k: Seq<char>| post.has_key(k) implies post.map_view()[k]
                            == pre.map_view().insert(key@, value@)[k] by {
                            let j = choose|j: int|
                                0 <= j < post.spec_len() && post.key_at(j) == k;
                            post.lemma_val_of_at(j);
                            if k == key@ {
                                if j != i {
                                    assert(post.key_at(j) != post.key_at(i as int));
                                    assert(false);
                                }
                            } else {
                                assert(j != i);
                                pre.lemma_val_of_at(j);
                            }
                        }
                    }
                }
            },
            None => {
                let ghost pre = *self;
                self.entries.push((key, value));
                proof {
                    let post = *self;
                    assert(post.spec_len() == pre.spec_len() + 1);
                    assert(forall|j: int|
                        0 <= j < pre.spec_len() ==> post.key_at(j) == pre.key_at(j)
                            && post.val_at(j) == pre.val_at(j));
                    assert(post.key_at(pre.spec_len() as int) == key@);
                    assert(post.val_at(pre.spec_len() as int) == value@);
                    assert(!pre.has_key(key@));
                    assert(post.wf());
                    assert(post.map_view() =~= pre.map_view().insert(key@, value@)) by {
                        assert forall|k: Seq<char>| true implies post.has_key(k) == (
                        pre.has_key(k) || k == key@) by {
                            if pre.has_key(k) {
                                let j = choose|j: int|
                                    0 <= j < pre.spec_len() && pre.key_at(j) == k;
                                assert(post.key_at(j) == k);
                            }
                            if post.has_key(k) && k != key@ {
                                let j = choose|j: int|
                                    0 <= j < post.spec_len() && post.key_at(j) == k;
                                assert(j < pre.spec_len());
                                assert(pre.key_at(j) == k);
                            }
                        }
                        assert forall|k: Seq<char>| post.has_key(k) implies post.map_view()[k]
                            == pre.map_view().insert(key@, value@)[k] by {
                            let j = choose|j: int|
                                0 <= j < post.spec_len() && post.key_at(j) == k;
                            post.lemma_val_of_at(j);
                            if k == key@ {
                                if j != pre.spec_len() {
                                    assert(pre.key_at(j) == key@);
                                    assert(false);
                                }
                            } else {
                                assert(j != pre.spec_len());
                                pre.lemma_val_of_at(j);
                            }
                        }
                    }
                }
            },
        }
    }
}

} // verus!
