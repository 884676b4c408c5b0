//! A map from strings to values that keeps its keys in ascending order, so
//! that two maps with the same contents are laid out in the same way.

use crate::converter::sorted::{ascending, lemma_ascending_no_duplicates, lemma_insert_at, position};
use crate::converter::text::{lex_lt, views};
use vstd::prelude::*;

verus! {

/// The place of `k` among `ks`.
spec fn place(ks: Seq<Seq<char>>, k: Seq<char>) -> int {
    choose|i: int| 0 <= i < ks.len() && ks[i] == k
}

/// The map that pairs each of `ks` with the value at the same place.
spec fn paired<V>(ks: Seq<Seq<char>>, vs: Seq<V>) -> Map<Seq<char>, V> {
    Map::new(|k: Seq<char>| ks.contains(k), |k: Seq<char>| vs[place(ks, k)])
}

proof fn lemma_place(ks: Seq<Seq<char>>, i: int)
    requires
        ascending(ks),
        0 <= i < ks.len(),
    ensures
        place(ks, ks[i]) == i,
        ks.contains(ks[i]),
{
    lemma_ascending_no_duplicates(ks);
}

proof fn lemma_ascending_remove(ks: Seq<Seq<char>>, i: int)
    requires
        ascending(ks),
        0 <= i < ks.len(),
    ensures
        ascending(ks.remove(i)),
        forall|y: Seq<char>|
            #![trigger ks.remove(i).contains(y)]
            #![trigger ks.contains(y)]
            ks.remove(i).contains(y) <==> (ks.contains(y) && y != ks[i]),
{
    let w = ks.remove(i);
    lemma_ascending_no_duplicates(ks);
    assert forall|a: int, b: int| 0 <= a < b < w.len() implies lex_lt(w[a], w[b]) by {
        let a0 = if a < i { a } else { a + 1 };
        let b0 = if b < i { b } else { b + 1 };
        assert(lex_lt(ks[a0], ks[b0]));
    }
    assert forall|y: Seq<char>| w.contains(y) <==> (ks.contains(y) && y != ks[i]) by {
        if w.contains(y) {
            let k = choose|k: int| 0 <= k < w.len() && w[k] == y;
            let k0 = if k < i { k } else { k + 1 };
            assert(ks[k0] == y);
        }
        if ks.contains(y) && y != ks[i] {
            let k = choose|k: int| 0 <= k < ks.len() && ks[k] == y;
            let k1 = if k < i { k } else { k - 1 };
            assert(w[k1] == y);
        }
    }
}

/// A map from strings to values of type `V`. Each key is held once, and
/// the keys are held in ascending order.
#[derive(Debug)]
pub struct OrdMap<V> {
    keys: Vec<String>,
    values: Vec<V>,
}

impl<V> View for OrdMap<V> {
    type V = Map<Seq<char>, V>;

    closed spec fn view(&self) -> Map<Seq<char>, V> {
        paired(views(self.keys@), self.values@)
    }
}

impl<V> OrdMap<V> {
    #[verifier::type_invariant]
    spec fn well_formed(self) -> bool {
        self.keys.len() == self.values.len() && ascending(views(self.keys@))
    }

    /// The map that holds nothing.
    pub fn new() -> (m: Self)
        ensures
            m@ == Map::<Seq<char>, V>::empty(),
    {
        let m = OrdMap { keys: Vec::new(), values: Vec::new() };
        proof {
            assert(m@ =~= Map::<Seq<char>, V>::empty());
        }
        m
    }

    /// The number of keys.
    pub fn len(&self) -> (n: usize)
        ensures
            self@.dom().finite(),
            n == self@.len(),
    {
        proof {
            use_type_invariant(self);
            let ks = views(self.keys@);
            lemma_ascending_no_duplicates(ks);
            ks.unique_seq_to_set();
            assert(self@.dom() =~= ks.to_set());
        }
        self.keys.len()
    }

    /// The value at `key`, if the map holds that key.
    pub fn get(&self, key: &str) -> (r: Option<&V>)
        ensures
            match r {
                Some(v) => self@.contains_key(key@) && *v == self@[key@],
                None => !self@.contains_key(key@),
            },
    {
        proof {
            use_type_invariant(self);
        }
        let (i, found) = position(&self.keys, key);
        if found {
            proof {
                lemma_place(views(self.keys@), i as int);
            }
            Some(&self.values[i])
        } else {
            None
        }
    }

    /// Whether the map holds `key`.
    pub fn contains_key(&self, key: &str) -> (r: bool)
        ensures
            r == self@.contains_key(key@),
    {
        proof {
            use_type_invariant(self);
        }
        let (_, found) = position(&self.keys, key);
        found
    }

    /// Puts `value` at `key`, in place of what was there.
    pub fn insert(&mut self, key: String, value: V)
        ensures
            final(self)@ == old(self)@.insert(key@, value),
    {
        proof {
            use_type_invariant(&*self);
        }
        let mut taken = OrdMap { keys: Vec::new(), values: Vec::new() };
        std::mem::swap(self, &mut taken);
        let OrdMap { keys, values } = taken;
        let mut keys = keys;
        let mut values = values;
        let ghost ks = views(keys@);
        let ghost vs = values@;
        let (i, found) = position(&keys, key.as_str());
        if found {
            values.set(i, value);
            proof {
                assert forall|k: Seq<char>| ks.contains(k) implies #[trigger] paired(ks, values@)[k]
                    == paired(ks, vs).insert(key@, value)[k] by {
                    lemma_place(ks, place(ks, k));
                    lemma_place(ks, i as int);
                }
                assert(paired(ks, values@) =~= paired(ks, vs).insert(key@, value));
            }
        } else {
            proof {
                lemma_insert_at(ks, key@, i as int);
                assert(views(keys@.insert(i as int, key)) =~= ks.insert(i as int, key@));
            }
            keys.insert(i, key);
            values.insert(i, value);
            proof {
                let ks1 = views(keys@);
                assert forall|k: Seq<char>| ks1.contains(k) implies #[trigger] paired(
                    ks1,
                    values@,
                )[k] == paired(ks, vs).insert(key@, value)[k] by {
                    let here = place(ks1, k);
                    lemma_place(ks1, here);
                    if k != key@ {
                        let p = place(ks, k);
                        lemma_place(ks, p);
                        let q = if p < i { p } else { p + 1 };
                        assert(ks1[q] == k);
                        lemma_place(ks1, q);
                    } else {
                        assert(ks1[i as int] == k);
                        lemma_place(ks1, i as int);
                    }
                }
                assert(paired(ks1, values@) =~= paired(ks, vs).insert(key@, value));
            }
        }
        *self = OrdMap { keys, values };
    }

    /// Takes `key` and its value out of the map and hands the value back.
    pub fn remove(&mut self, key: &str) -> (r: Option<V>)
        ensures
            final(self)@ == old(self)@.remove(key@),
            r == if old(self)@.contains_key(key@) {
                Some(old(self)@[key@])
            } else {
                None
            },
    {
        proof {
            use_type_invariant(&*self);
        }
        let mut taken = OrdMap { keys: Vec::new(), values: Vec::new() };
        std::mem::swap(self, &mut taken);
        let OrdMap { keys, values } = taken;
        let mut keys = keys;
        let mut values = values;
        let ghost ks = views(keys@);
        let ghost vs = values@;
        let (i, found) = position(&keys, key);
        let r = if found {
            proof {
                lemma_place(ks, i as int);
                lemma_ascending_remove(ks, i as int);
                assert(views(keys@.remove(i as int)) =~= ks.remove(i as int));
            }
            let _ = keys.remove(i);
            let v = values.remove(i);
            proof {
                let ks1 = views(keys@);
                assert forall|k: Seq<char>| ks1.contains(k) implies #[trigger] paired(
                    ks1,
                    values@,
                )[k] == paired(ks, vs).remove(key@)[k] by {
                    let here = place(ks1, k);
                    lemma_place(ks1, here);
                    let q = if here < i { here } else { here + 1 };
                    assert(ks[q] == k);
                    lemma_place(ks, q);
                }
                assert(paired(ks1, values@) =~= paired(ks, vs).remove(key@));
            }
            Some(v)
        } else {
            proof {
                assert(paired(ks, vs) =~= paired(ks, vs).remove(key@));
            }
            None
        };
        *self = OrdMap { keys, values };
        r
    }

    /// The keys of the map, in ascending order.
    pub fn keys(&self) -> (r: &Vec<String>)
        ensures
            ascending(views(r@)),
            forall|k: Seq<char>| #[trigger] views(r@).contains(k) <==> self@.contains_key(k),
    {
        proof {
            use_type_invariant(self);
        }
        &self.keys
    }
}

} // verus!
