//! A map from user names to user records, kept as a vector of records with
//! distinct names and abstracted to a `Map` over the names.

use vstd::prelude::*;
use crate::assoc::{
    assoc_map, distinct_keys, lemma_assoc_dom, lemma_assoc_get, lemma_assoc_update,
    lemma_assoc_remove, lemma_assoc_push_fresh,
};
use crate::text::str_eq;
use crate::user::{User, UserData};

verus! {

/// An overlay tier: the users keyed by their own `name` field.
pub struct UserMap {
    pub v: Vec<User>,
}

impl View for UserMap {
    type V = Map<Seq<char>, UserData>;

    open spec fn view(&self) -> Map<Seq<char>, UserData> {
        assoc_map(self.entries())
    }
}

impl UserMap {
    /// The association sequence underneath the map.
    pub open spec fn entries(&self) -> Seq<(Seq<char>, UserData)> {
        self.v@.map_values(|u: User| (u.name@, u@))
    }

    /// Well-formed: no two records share a name.
    pub open spec fn wf(&self) -> bool {
        distinct_keys(self.entries())
    }

    /// The empty tier.
    pub fn new() -> (r: UserMap)
        ensures
            r.wf(),
            r@ == Map::<Seq<char>, UserData>::empty(),
            r.v@.len() == 0,
    {
        let r = UserMap { v: Vec::new() };
        proof {
            assert(r.entries() =~= Seq::<(Seq<char>, UserData)>::empty());
        }
        r
    }

    /// The position of the record with the given name, if any.
    fn index_of(&self, name: &str) -> (r: Option<usize>)
        ensures
            match r {
                Some(i) => i < self.v@.len() && self.v@[i as int].name@ == name@,
                None => forall|i: int| 0 <= i < self.v@.len() ==> self.v@[i].name@ != name@,
            },
    {
        let n: usize = self.v.len();
        let mut i: usize = 0;
        while i < n
            invariant
                i <= n,
                n == self.v@.len(),
                forall|j: int| 0 <= j < i ==> self.v@[j].name@ != name@,
            decreases n - i,
        {
            if str_eq(self.v[i].name.as_str(), name) {
                return Some(i);
            }
            i += 1;
        }
        None
    }

    /// Whether a record with the given name is present.
    pub fn contains(&self, name: &str) -> (r: bool)
        ensures
            r == self@.contains_key(name@),
    {
        proof {
            lemma_assoc_dom(self.entries());
        }
        match self.index_of(name) {
            Some(i) => {
                proof {
                    assert(self.entries()[i as int].0 == name@);
                }
                true
            },
            None => {
                proof {
                    assert(forall|j: int|
                        0 <= j < self.entries().len() ==> #[trigger] self.entries()[j].0
                            == self.v@[j].name@);
                }
                false
            },
        }
    }

    /// The record with the given name, if any.
    pub fn get(&self, name: &str) -> (r: Option<&User>)
        requires
            self.wf(),
        ensures
            match r {
                Some(u) => self@.contains_key(name@) && u@ == self@[name@],
                None => !self@.contains_key(name@),
            },
    {
        proof {
            lemma_assoc_dom(self.entries());
        }
        match self.index_of(name) {
            Some(i) => {
                proof {
                    lemma_assoc_get(self.entries(), i as int);
                }
                Some(&self.v[i])
            },
            None => None,
        }
    }

    /// Insert a record under its own name, replacing any present one.
    pub fn insert(&mut self, u: User)
        requires
            old(self).wf(),
        ensures
            final(self).wf(),
            final(self)@ == old(self)@.insert(u.name@, u@),
    {
        let ghost pre = self.entries();
        let ghost key = u.name@;
        let ghost data = u@;
        match self.index_of(u.name.as_str()) {
            Some(i) => {
                proof {
                    lemma_assoc_update(pre, i as int, data);
                }
                self.v[i] = u;
                proof {
                    assert(self.entries() =~= pre.update(i as int, (key, data)));
                }
            },
            None => {
                proof {
                    lemma_assoc_push_fresh(pre, key, data);
                }
                self.v.push(u);
                proof {
                    assert(self.entries() =~= pre.push((key, data)));
                }
            },
        }
    }

    /// Remove and return the record with the given name, if any.
    pub fn remove(&mut self, name: &str) -> (r: Option<User>)
        requires
            old(self).wf(),
        ensures
            final(self).wf(),
            match r {
                Some(u) => old(self)@.contains_key(name@) && u@ == old(self)@[name@]
                    && final(self)@ == old(self)@.remove(name@),
                None => !old(self)@.contains_key(name@) && final(self)@ == old(self)@
                    && *final(self) == *old(self),
            },
    {
        let ghost pre = self.entries();
        proof {
            lemma_assoc_dom(pre);
        }
        match self.index_of(name) {
            Some(i) => {
                proof {
                    lemma_assoc_get(pre, i as int);
                    lemma_assoc_remove(pre, i as int);
                }
                let u = self.v.remove(i);
                proof {
                    assert(self.entries() =~= pre.remove(i as int));
                }
                Some(u)
            },
            None => None,
        }
    }

    /// Whether the tier holds no record; empty tiers denote the empty map.
    pub fn is_empty(&self) -> (r: bool)
        requires
            self.wf(),
        ensures
            r == (self@ == Map::<Seq<char>, UserData>::empty()),
            r == (self.v@.len() == 0),
    {
        proof {
            if self.v@.len() == 0 {
                assert(self.entries() =~= Seq::<(Seq<char>, UserData)>::empty());
                assert(self@ =~= Map::<Seq<char>, UserData>::empty());
            } else {
                lemma_assoc_dom(self.entries());
                assert(self.entries()[0].0 == self.v@[0].name@);
                assert(self@.contains_key(self.v@[0].name@));
            }
        }
        self.v.len() == 0
    }

    /// Drop every record.
    pub fn clear(&mut self)
        ensures
            final(self).wf(),
            final(self)@ == Map::<Seq<char>, UserData>::empty(),
            final(self).v@.len() == 0,
    {
        self.v.clear();
        proof {
            assert(self.entries() =~= Seq::<(Seq<char>, UserData)>::empty());
            assert(self@ =~= Map::<Seq<char>, UserData>::empty());
        }
    }

    /// Every record's map entry is the record itself; names are map keys.
    pub proof fn lemma_entry(&self, i: int)
        requires
            self.wf(),
            0 <= i < self.v@.len(),
        ensures
            self@.contains_key(self.v@[i].name@),
            self@[self.v@[i].name@] == self.v@[i]@,
    {
        lemma_assoc_get(self.entries(), i);
    }

    /// Every record is stored under its own name.
    pub proof fn lemma_keyed(&self)
        requires
            self.wf(),
        ensures
            forall|n: Seq<char>| self@.contains_key(n) ==> #[trigger] self@[n].name == n,
    {
        lemma_assoc_dom(self.entries());
        assert forall|n: Seq<char>| self@.contains_key(n) implies #[trigger] self@[n].name
            == n by {
            let i = choose|i: int| 0 <= i < self.entries().len() && self.entries()[i].0 == n;
            lemma_assoc_get(self.entries(), i);
            assert(self.entries()[i].1 == self.v@[i]@);
            assert(self.entries()[i].0 == self.v@[i].name@);
        }
    }

    /// Every key of the map names some record in the vector.
    pub proof fn lemma_dom(&self)
        ensures
            forall|k: Seq<char>|
                #[trigger] self@.contains_key(k) <==> exists|i: int|
                    0 <= i < self.v@.len() && self.v@[i].name@ == k,
    {
        lemma_assoc_dom(self.entries());
        assert forall|k: Seq<char>| #[trigger]
            self@.contains_key(k) implies exists|i: int|
            0 <= i < self.v@.len() && self.v@[i].name@ == k by {
            let i = choose|i: int| 0 <= i < self.entries().len() && self.entries()[i].0 == k;
            assert(self.v@[i].name@ == k);
        }
        assert forall|k: Seq<char>|
            (exists|i: int| 0 <= i < self.v@.len() && self.v@[i].name@ == k) implies #[trigger]
            self@.contains_key(k) by {
            let i = choose|i: int| 0 <= i < self.v@.len() && self.v@[i].name@ == k;
            assert(self.entries()[i].0 == k);
        }
    }
}

} // verus!
