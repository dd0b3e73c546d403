use vstd::prelude::*;

verus! {

/// Byte-wise equality of two 20-byte addresses.
pub fn addr_eq(a: &[u8; 20], b: &[u8; 20]) -> (res: bool)
    ensures
        res == (a@ == b@),
{
    let mut i: usize = 0;
    while i < 20
        invariant
            0 <= i <= 20,
            a@.len() == 20,
            b@.len() == 20,
            forall|j: int| 0 <= j < i ==> a@[j] == b@[j],
        decreases 20 - i,
    {
        if a[i] != b[i] {
            return false;
        }
        i += 1;
    }
    assert(a@ =~= b@);
    true
}

/// A finite map keyed by 20-byte account addresses, with no key twice.
/// (vstd models `HashMap` lookups only for keys whose hashing it specifies,
/// the primitive integers, `bool` and boxes of them; a 20-byte array key is
/// not among them, so the addresses are kept in a vector of pairs.)
#[derive(Debug)]
pub struct AddressMap<V: Copy> {
    entries: Vec<([u8; 20], V)>,
}

impl<V: Copy> AddressMap<V> {
    /// The keys, in insertion order.
    pub closed spec fn key_seq(&self) -> Seq<Seq<u8>> {
        self.entries@.map_values(|e: ([u8; 20], V)| e.0@)
    }

    /// The values, in the order of their keys.
    pub closed spec fn value_seq(&self) -> Seq<V> {
        self.entries@.map_values(|e: ([u8; 20], V)| e.1)
    }

    /// No key occurs twice.
    #[verifier::type_invariant]
    pub closed spec fn inv(&self) -> bool {
        self.key_seq().no_duplicates()
    }

    /// The map from each key to its value.
    pub closed spec fn view(&self) -> Map<Seq<u8>, V> {
        Map::new(
            |k: Seq<u8>| self.key_seq().contains(k),
            |k: Seq<u8>| self.value_seq()[self.key_seq().index_of(k)],
        )
    }

    /// Facts tying the entries to the map: the same count, each entry's key maps
    /// to its value.
    pub proof fn lemma_view_entries(&self)
        requires
            self.inv(),
        ensures
            self.key_seq().no_duplicates(),
            self.key_seq().len() == self.value_seq().len(),
            self.view().dom().finite(),
            self.view().len() == self.key_seq().len(),
            forall|i: int|
                0 <= i < self.key_seq().len() ==> #[trigger] self.view()[self.key_seq()[i]]
                    == self.value_seq()[i],
            forall|k: Seq<u8>|
                #[trigger] self.view().contains_key(k) <==> self.key_seq().contains(k),
    {
        assert(self.view().dom() =~= self.key_seq().to_set());
        self.key_seq().unique_seq_to_set();
        assert forall|i: int| 0 <= i < self.key_seq().len() implies #[trigger] self.view()[self.key_seq()[i]]
            == self.value_seq()[i] by {
            let k = self.key_seq()[i];
            assert(self.key_seq().contains(k));
            let j = self.key_seq().index_of(k);
            assert(self.key_seq()[j] == k);
        }
    }

    /// An empty map.
    pub fn new() -> (res: Self)
        ensures
            res.view() == Map::<Seq<u8>, V>::empty(),
            res.value_seq() == Seq::<V>::empty(),
    {
        let res = AddressMap { entries: Vec::new() };
        assert(res.view() =~= Map::<Seq<u8>, V>::empty());
        assert(res.value_seq() =~= Seq::<V>::empty());
        res
    }

    /// The number of keys.
    pub fn len(&self) -> (res: usize)
        ensures
            res == self.view().len(),
            res == self.value_seq().len(),
    {
        proof {
            use_type_invariant(self);
            self.lemma_view_entries();
        }
        self.entries.len()
    }

    fn find(&self, k: &[u8; 20]) -> (res: Option<usize>)
        ensures
            match res {
                Some(i) => i < self.key_seq().len() && self.key_seq()[i as int] == k@,
                None => !self.key_seq().contains(k@),
            },
    {
        let mut i: usize = 0;
        while i < self.entries.len()
            invariant
                0 <= i <= self.entries@.len(),
                forall|j: int| 0 <= j < i ==> self.key_seq()[j] != k@,
            decreases self.entries@.len() - i,
        {
            if addr_eq(&self.entries[i].0, k) {
                return Some(i);
            }
            i += 1;
        }
        None
    }

    /// The value of key `k`, if any.
    pub fn get(&self, k: &[u8; 20]) -> (res: Option<V>)
        ensures
            res == (if self.view().contains_key(k@) {
                Some(self.view()[k@])
            } else {
                None
            }),
    {
        proof {
            use_type_invariant(self);
            self.lemma_view_entries();
        }
        match self.find(k) {
            Some(i) => Some(self.entries[i].1),
            None => None,
        }
    }

    /// Sets the value of key `k`, adding the key at the end if it is new.
    pub fn insert(&mut self, k: [u8; 20], v: V)
        ensures
            final(self).view() == old(self).view().insert(k@, v),
            old(self).view().contains_key(k@) ==> exists|i: int|
                0 <= i < old(self).value_seq().len() && old(self).key_seq()[i] == k@
                    && final(self).value_seq() == old(self).value_seq().update(i, v),
            !old(self).view().contains_key(k@) ==> final(self).value_seq() == old(
                self,
            ).value_seq().push(v),
    {
        proof {
            use_type_invariant(&*self);
            self.lemma_view_entries();
        }
        let ghost old_keys = self.key_seq();
        let ghost old_vals = self.value_seq();
        let ghost old_view = self.view();
        let found = self.find(&k);
        let mut entries: Vec<([u8; 20], V)> = Vec::new();
        std::mem::swap(&mut entries, &mut self.entries);
        match found {
            Some(i) => {
                entries.set(i, (k, v));
                proof {
                    assert(entries@.map_values(|e: ([u8; 20], V)| e.0@) =~= old_keys);
                }
                self.entries = entries;
                proof {
                    assert(self.key_seq() =~= old_keys);
                    assert(self.value_seq() =~= old_vals.update(i as int, v));
                    self.lemma_view_entries();
                    assert forall|kk: Seq<u8>| #[trigger] self.view().contains_key(kk)
                        == old_view.insert(k@, v).contains_key(kk) by {}
                    assert forall|kk: Seq<u8>| self.view().contains_key(kk) implies #[trigger] self.view()[kk]
                        == old_view.insert(k@, v)[kk] by {
                        let j = old_keys.index_of(kk);
                        assert(old_keys[j] == kk);
                        assert(self.view()[self.key_seq()[j]] == self.value_seq()[j]);
                        assert(old_view[old_keys[j]] == old_vals[j]);
                    }
                    assert(self.view() =~= old_view.insert(k@, v));
                }
            },
            None => {
                entries.push((k, v));
                proof {
                    assert(entries@.map_values(|e: ([u8; 20], V)| e.0@) =~= old_keys.push(k@));
                    assert(old_keys.push(k@).no_duplicates());
                }
                self.entries = entries;
                proof {
                    assert(self.key_seq() =~= old_keys.push(k@));
                    assert(self.value_seq() =~= old_vals.push(v));
                    self.lemma_view_entries();
                    let n = old_keys.len() as int;
                    assert(self.key_seq()[n] == k@);
                    assert forall|kk: Seq<u8>| #[trigger] self.view().contains_key(kk)
                        == old_view.insert(k@, v).contains_key(kk) by {
                        if old_keys.contains(kk) {
                            let j = old_keys.index_of(kk);
                            assert(self.key_seq()[j] == kk);
                        }
                        if self.key_seq().contains(kk) && kk != k@ {
                            let j = self.key_seq().index_of(kk);
                            assert(j < n);
                            assert(old_keys[j] == kk);
                        }
                    }
                    assert forall|kk: Seq<u8>| self.view().contains_key(kk) implies #[trigger] self.view()[kk]
                        == old_view.insert(k@, v)[kk] by {
                        if kk == k@ {
                            assert(self.view()[self.key_seq()[n]] == self.value_seq()[n]);
                        } else {
                            let j = old_keys.index_of(kk);
                            assert(old_keys[j] == kk);
                            assert(self.key_seq()[j] == kk);
                            assert(self.view()[self.key_seq()[j]] == self.value_seq()[j]);
                            assert(old_view[old_keys[j]] == old_vals[j]);
                        }
                    }
                    assert(self.view() =~= old_view.insert(k@, v));
                }
            },
        }
    }

    /// The key and value at position `i` of the insertion order.
    pub fn entry_at(&self, i: usize) -> (res: ([u8; 20], V))
        requires
            i < self.value_seq().len(),
        ensures
            res.0@ == self.key_seq()[i as int],
            res.1 == self.value_seq()[i as int],
            self.view()[res.0@] == res.1,
    {
        proof {
            use_type_invariant(self);
            self.lemma_view_entries();
        }
        self.entries[i]
    }
}

} // verus!
