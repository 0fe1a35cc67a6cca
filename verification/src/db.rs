use crate::strutil::str_eq;
use vstd::prelude::*;

verus! {

/// The in-memory key-value store behind the protocol responder.  Pairs are
/// kept in insertion order with unique keys, so every lookup and the key
/// listing have exact contracts over the key and value sequences.
pub struct Database {
    pairs: Vec<(String, String)>,
}

impl Database {
    /// The keys, in insertion order.
    pub closed spec fn keys(&self) -> Seq<Seq<char>> {
        Seq::new(self.pairs@.len(), |i: int| self.pairs@[i].0@)
    }

    /// The values, in the order of their keys.
    pub closed spec fn vals(&self) -> Seq<Seq<char>> {
        Seq::new(self.pairs@.len(), |i: int| self.pairs@[i].1@)
    }

    /// Keys are unique: each key stands for exactly one value.
    pub open spec fn wf(&self) -> bool {
        forall|i: int, j: int| 0 <= i < j < self.keys().len() ==> self.keys()[i] != self.keys()[j]
    }

    /// True when `k` is present.
    pub open spec fn has_key(&self, k: Seq<char>) -> bool {
        self.keys().contains(k)
    }

    /// The position of `k` among the keys.
    pub open spec fn index_of_key(&self, k: Seq<char>) -> int {
        self.keys().index_of(k)
    }

    /// The value stored under `k`.
    pub open spec fn value_of(&self, k: Seq<char>) -> Seq<char> {
        self.vals()[self.index_of_key(k)]
    }

    /// An empty store.
    pub fn new() -> (r: Database)
        ensures
            r.wf(),
            r.keys() == Seq::<Seq<char>>::empty(),
            r.vals() == Seq::<Seq<char>>::empty(),
    {
        let r = Database { pairs: Vec::new() };
        proof {
            assert(r.keys() =~= Seq::<Seq<char>>::empty());
            assert(r.vals() =~= Seq::<Seq<char>>::empty());
        }
        r
    }

    /// The position of `key`, if present.
    fn find(&self, key: &str) -> (r: Option<usize>)
        ensures
            r matches Some(i) ==> 0 <= i < self.keys().len() && self.keys()[i as int] == key@,
            r is None ==> !self.has_key(key@),
    {
        let mut i: usize = 0;
        let n = self.pairs.len();
        while i < n
            invariant
                i <= n,
                n == self.pairs@.len(),
                forall|k: int| 0 <= k < i ==> self.keys()[k] != key@,
            decreases n - i,
        {
            if str_eq(self.pairs[i].0.as_str(), key) {
                return Some(i);
            }
            i = i + 1;
        }
        assert(forall|k: int| 0 <= k < self.keys().len() ==> self.keys()[k] != key@);
        None
    }

    /// With unique keys, a position holding `k` is the position of `k`.
    proof fn lemma_index_of_found(&self, k: Seq<char>, i: int)
        requires
            self.wf(),
            0 <= i < self.keys().len(),
            self.keys()[i] == k,
        ensures
            self.has_key(k),
            self.index_of_key(k) == i,
    {
        assert(self.has_key(k));
        let j = self.keys().index_of(k);
        assert(self.keys()[j] == k);
        if i < j {
            assert(self.keys()[i] != self.keys()[j]);
        } else if j < i {
            assert(self.keys()[j] != self.keys()[i]);
        }
    }

    /// Stores `value` under `key`: an existing pair is overwritten in place,
    /// a new key joins at the end of the insertion order.
    pub fn add(&mut self, key: &str, value: &str)
        requires
            old(self).wf(),
        ensures
            final(self).wf(),
            old(self).has_key(key@) ==> final(self).keys() == old(self).keys()
                && final(self).vals() == old(self).vals().update(
                old(self).index_of_key(key@),
                value@,
            ),
            !old(self).has_key(key@) ==> final(self).keys() == old(self).keys().push(key@)
                && final(self).vals() == old(self).vals().push(value@),
            final(self).has_key(key@),
            final(self).value_of(key@) == value@,
    {
        let found = self.find(key);
        match found {
            Some(i) => {
                let pair = (key.to_owned(), value.to_owned());
                self.pairs.set(i, pair);
                proof {
                    old(self).lemma_index_of_found(key@, i as int);
                    assert(self.keys() =~= old(self).keys());
                    assert(self.vals() =~= old(self).vals().update(i as int, value@));
                    self.lemma_index_of_found(key@, i as int);
                }
            },
            None => {
                let pair = (key.to_owned(), value.to_owned());
                self.pairs.push(pair);
                proof {
                    assert(self.keys() =~= old(self).keys().push(key@));
                    assert(self.vals() =~= old(self).vals().push(value@));
                    let n = old(self).keys().len() as int;
                    assert(self.keys()[n] == key@);
                    assert forall|i: int, j: int| 0 <= i < j < self.keys().len() implies self.keys()[i]
                        != self.keys()[j] by {
                        if j < n {
                            assert(old(self).keys()[i] != old(self).keys()[j]);
                        } else {
                            assert(self.keys()[j] == key@);
                            assert(!old(self).has_key(key@));
                            assert(old(self).keys()[i] != key@);
                        }
                    }
                    self.lemma_index_of_found(key@, n);
                }
            },
        }
    }

    /// The value stored under `key`.  Looking up an absent key is not
    /// allowed; [`Database::try_get`] answers whether a key is present.
    pub fn get(&self, key: &str) -> (r: Option<String>)
        requires
            self.wf(),
            self.has_key(key@),
        ensures
            r matches Some(v) && v@ == self.value_of(key@),
    {
        let found = self.find(key);
        match found {
            Some(i) => {
                proof {
                    self.lemma_index_of_found(key@, i as int);
                }
                Some(self.pairs[i].1.clone())
            },
            None => unreached(),
        }
    }

    /// Removes `key` and its value, if present; later pairs move up one
    /// place, keeping their insertion order.
    pub fn remove(&mut self, key: &str)
        requires
            old(self).wf(),
        ensures
            final(self).wf(),
            !final(self).has_key(key@),
            old(self).has_key(key@) ==> final(self).keys() == old(self).keys().remove(
                old(self).index_of_key(key@),
            ) && final(self).vals() == old(self).vals().remove(old(self).index_of_key(key@)),
            !old(self).has_key(key@) ==> final(self).keys() == old(self).keys()
                && final(self).vals() == old(self).vals(),
    {
        let found = self.find(key);
        match found {
            Some(i) => {
                self.pairs.remove(i);
                proof {
                    old(self).lemma_index_of_found(key@, i as int);
                    assert(self.keys() =~= old(self).keys().remove(i as int));
                    assert(self.vals() =~= old(self).vals().remove(i as int));
                    assert forall|k: int| 0 <= k < self.keys().len() implies self.keys()[k]
                        != key@ by {
                        if k < i {
                            assert(self.keys()[k] == old(self).keys()[k]);
                        } else {
                            assert(self.keys()[k] == old(self).keys()[k + 1]);
                        }
                    }
                }
            },
            None => {
                proof {
                    assert(self.keys() =~= old(self).keys());
                    assert(self.vals() =~= old(self).vals());
                }
            },
        }
    }

    /// Reports whether `key` is present, without yielding its value.
    pub fn try_get(&self, key: &str) -> (r: Option<()>)
        ensures
            r is Some <==> self.has_key(key@),
    {
        match self.find(key) {
            Some(i) => {
                proof {
                    assert(self.keys().contains(key@));
                }
                Some(())
            },
            None => None,
        }
    }

    /// The stored keys except the first two of the insertion order, which
    /// hold the store's configuration entries.
    pub fn get_keys(&self) -> (r: Vec<String>)
        ensures
            self.keys().len() >= 2 ==> r.deep_view() == self.keys().skip(2),
            self.keys().len() < 2 ==> r.deep_view() == Seq::<Seq<char>>::empty(),
    {
        let mut out: Vec<String> = Vec::new();
        let n = self.pairs.len();
        if n < 2 {
            proof {
                assert(out.deep_view() =~= Seq::<Seq<char>>::empty());
            }
            return out;
        }
        let mut i: usize = 2;
        proof {
            assert(out.deep_view() =~= self.keys().subrange(2, 2));
        }
        while i < n
            invariant
                2 <= i <= n,
                n == self.pairs@.len(),
                out.deep_view() == self.keys().subrange(2, i as int),
            decreases n - i,
        {
            let ghost prev_dv = out.deep_view();
            out.push(self.pairs[i].0.clone());
            i = i + 1;
            proof {
                assert(out.deep_view() =~= prev_dv.push(self.keys()[i - 1]));
                assert(out.deep_view() =~= self.keys().subrange(2, i as int));
            }
        }
        proof {
            assert(out.deep_view() =~= self.keys().skip(2));
        }
        out
    }
}

} // verus!
