//! Live sessions: opaque tokens mapped to their owner and last access time.

use vstd::prelude::*;
use crate::assoc::{
    assoc_map, distinct_keys, lemma_assoc_dom, lemma_assoc_get, lemma_assoc_update,
    lemma_assoc_remove, lemma_assoc_push_fresh,
};
use crate::text::str_eq;
use crate::SESSION_PERIOD;

verus! {

/// The mathematical content of a session.
pub struct SessionData {
    pub name: Seq<char>,
    pub last_accessed: i64,
}

/// One live session: the owning user and the time it was last used.
#[derive(Debug)]
pub struct Session {
    pub name: String,
    pub last_accessed: i64,
}

impl View for Session {
    type V = SessionData;

    open spec fn view(&self) -> SessionData {
        SessionData { name: self.name@, last_accessed: self.last_accessed }
    }
}

impl Session {
    /// A session for `name`, last used `now`.
    pub fn new(name: &str, now: i64) -> (s: Session)
        ensures
            s@ == (SessionData { name: name@, last_accessed: now }),
    {
        Session { name: name.to_owned(), last_accessed: now }
    }

    /// An owned copy of the session.
    pub fn duplicate(&self) -> (r: Session)
        ensures
            r@ == self@,
    {
        Session { name: self.name.clone(), last_accessed: self.last_accessed }
    }
}

/// The session table: tokens mapped to sessions, kept as a vector of pairs
/// with distinct tokens.
pub struct SessionTable {
    pub v: Vec<(String, Session)>,
}

impl View for SessionTable {
    type V = Map<Seq<char>, SessionData>;

    open spec fn view(&self) -> Map<Seq<char>, SessionData> {
        assoc_map(self.entries())
    }
}

/// The association sequence of a vector of token/session pairs.
pub open spec fn table_entries(v: Seq<(String, Session)>) -> Seq<(Seq<char>, SessionData)> {
    v.map_values(|e: (String, Session)| (e.0@, e.1@))
}

impl SessionTable {
    /// The association sequence underneath the table.
    pub open spec fn entries(&self) -> Seq<(Seq<char>, SessionData)> {
        table_entries(self.v@)
    }

    /// Well-formed: no two entries share a token.
    pub open spec fn wf(&self) -> bool {
        distinct_keys(self.entries())
    }

    /// Every stored access time is in `[0, max]`, so that adding the session
    /// period cannot overflow.
    pub open spec fn bounded(&self, max: i64) -> bool {
        forall|t: Seq<char>|
            #[trigger] self@.contains_key(t) ==> 0 <= self@[t].last_accessed <= max
    }

    /// The empty table.
    pub fn new() -> (r: SessionTable)
        ensures
            r.wf(),
            r@ == Map::<Seq<char>, SessionData>::empty(),
    {
        let r = SessionTable { v: Vec::new() };
        proof {
            assert(r.entries() =~= Seq::<(Seq<char>, SessionData)>::empty());
        }
        r
    }

    /// The position of the entry with the given token, if any.
    fn index_of(&self, token: &str) -> (r: Option<usize>)
        ensures
            match r {
                Some(i) => i < self.v@.len() && self.v@[i as int].0@ == token@,
                None => forall|i: int| 0 <= i < self.v@.len() ==> self.v@[i].0@ != token@,
            },
    {
        let n: usize = self.v.len();
        let mut i: usize = 0;
        while i < n
            invariant
                i <= n,
                n == self.v@.len(),
                forall|j: int| 0 <= j < i ==> self.v@[j].0@ != token@,
            decreases n - i,
        {
            if str_eq(self.v[i].0.as_str(), token) {
                return Some(i);
            }
            i += 1;
        }
        None
    }

    /// Store a session under a token, replacing any session that token had.
    pub fn insert(&mut self, token: String, s: Session)
        requires
            old(self).wf(),
        ensures
            final(self).wf(),
            final(self)@ == old(self)@.insert(token@, s@),
    {
        let ghost pre = self.entries();
        let ghost key = token@;
        let ghost data = s@;
        match self.index_of(token.as_str()) {
            Some(i) => {
                proof {
                    lemma_assoc_update(pre, i as int, data);
                }
                self.v[i] = (token, s);
                proof {
                    assert(self.entries() =~= pre.update(i as int, (key, data)));
                }
            },
            None => {
                proof {
                    lemma_assoc_push_fresh(pre, key, data);
                }
                self.v.push((token, s));
                proof {
                    assert(self.entries() =~= pre.push((key, data)));
                }
            },
        }
    }

    /// Remove and return the session under a token, if any.
    pub fn remove(&mut self, token: &str) -> (r: Option<Session>)
        requires
            old(self).wf(),
        ensures
            final(self).wf(),
            match r {
                Some(s) => old(self)@.contains_key(token@) && s@ == old(self)@[token@]
                    && final(self)@ == old(self)@.remove(token@),
                None => !old(self)@.contains_key(token@) && final(self)@ == old(self)@
                    && *final(self) == *old(self),
            },
    {
        let ghost pre = self.entries();
        proof {
            lemma_assoc_dom(pre);
            assert(forall|j: int|
                0 <= j < pre.len() ==> #[trigger] pre[j].0 == self.v@[j].0@);
        }
        match self.index_of(token) {
            Some(i) => {
                proof {
                    lemma_assoc_get(pre, i as int);
                    lemma_assoc_remove(pre, i as int);
                }
                let e = self.v.remove(i);
                proof {
                    assert(self.entries() =~= pre.remove(i as int));
                }
                Some(e.1)
            },
            None => None,
        }
    }

    /// Refresh the session under a token: if it exists and has not yet been
    /// idle for a full session period, stamp it with `now` and return it;
    /// an expired session counts as absent and is left in place.
    pub fn touch(&mut self, token: &str, now: i64) -> (r: Option<Session>)
        requires
            old(self).wf(),
            old(self).bounded(crate::MAX_NOW),
        ensures
            final(self).wf(),
            match r {
                Some(s) => old(self)@.contains_key(token@) && old(self)@[token@].last_accessed
                    + SESSION_PERIOD > now && s@ == (SessionData {
                    name: old(self)@[token@].name,
                    last_accessed: now,
                }) && final(self)@ == old(self)@.insert(token@, s@),
                None => final(self)@ == old(self)@ && *final(self) == *old(self)
                    && (old(self)@.contains_key(token@) ==> old(self)@[token@].last_accessed
                    + SESSION_PERIOD <= now),
            },
    {
        let ghost pre = self.entries();
        match self.index_of(token) {
            Some(i) => {
                proof {
                    assert(pre[i as int] == (self.v@[i as int].0@, self.v@[i as int].1@));
                    lemma_assoc_get(pre, i as int);
                    assert(self@.contains_key(token@));
                    assert(0 <= self@[token@].last_accessed <= crate::MAX_NOW);
                    assert(self@[token@].last_accessed == self.v@[i as int].1.last_accessed);
                }
                if self.v[i].1.last_accessed + SESSION_PERIOD > now {
                    let tok = self.v[i].0.clone();
                    let name = self.v[i].1.name.clone();
                    let s = Session { name, last_accessed: now };
                    let r = s.duplicate();
                    proof {
                        lemma_assoc_update(pre, i as int, s@);
                    }
                    self.v[i] = (tok, s);
                    proof {
                        assert(self.entries() =~= pre.update(i as int, (token@, r@)));
                    }
                    Some(r)
                } else {
                    None
                }
            },
            None => {
                proof {
                    lemma_assoc_dom(pre);
                    assert(forall|j: int|
                        0 <= j < pre.len() ==> #[trigger] pre[j].0 == self.v@[j].0@);
                }
                None
            },
        }
    }

    /// Drop every session idle for a full session period at time `now`.
    pub fn expire_sweep(&mut self, now: i64)
        requires
            old(self).wf(),
            old(self).bounded(crate::MAX_NOW),
        ensures
            final(self).wf(),
            forall|t: Seq<char>|
                #[trigger] final(self)@.contains_key(t) <==> (old(self)@.contains_key(t) && old(
                    self,
                )@[t].last_accessed + SESSION_PERIOD >= now),
            forall|t: Seq<char>|
                final(self)@.contains_key(t) ==> final(self)@[t] == old(self)@[t],
    {
        let ghost pre = self.entries();
        proof {
            lemma_assoc_dom(pre);
        }
        let n: usize = self.v.len();
        let mut keep: Vec<(String, Session)> = Vec::new();
        let ghost keep_map_init = assoc_map(table_entries(keep@));
        proof {
            assert(table_entries(keep@)
                =~= Seq::<(Seq<char>, SessionData)>::empty());
        }
        let mut i: usize = 0;
        while i < n
            invariant
                i <= n,
                n == self.v@.len(),
                self.wf(),
                self.entries() == pre,
                self.bounded(crate::MAX_NOW),
                distinct_keys(table_entries(keep@)),
                forall|t: Seq<char>|
                    #[trigger] assoc_map(
                        table_entries(keep@),
                    ).contains_key(t) <==> exists|j: int|
                        0 <= j < i && pre[j].0 == t && pre[j].1.last_accessed + SESSION_PERIOD
                            >= now,
                forall|t: Seq<char>|
                    #[trigger] assoc_map(
                        table_entries(keep@),
                    ).contains_key(t) ==> assoc_map(
                        table_entries(keep@),
                    )[t] == assoc_map(pre)[t],
            decreases n - i,
        {
            let ghost keepe = table_entries(keep@);
            proof {
                lemma_assoc_get(pre, i as int);
                assert(self@.contains_key(pre[i as int].0));
            }
            if self.v[i].1.last_accessed + SESSION_PERIOD >= now {
                let tok = self.v[i].0.clone();
                let s = self.v[i].1.duplicate();
                proof {
                    if assoc_map(keepe).contains_key(tok@) {
                        let j = choose|j: int|
                            0 <= j < i && pre[j].0 == tok@ && pre[j].1.last_accessed
                                + SESSION_PERIOD >= now;
                        assert(pre[j].0 == pre[i as int].0);
                        assert(false);
                    }
                    lemma_assoc_dom(keepe);
                    assert(forall|j: int|
                        0 <= j < keepe.len() ==> #[trigger] keepe[j].0 == keep@[j].0@);
                    lemma_assoc_push_fresh(keepe, tok@, s@);
                }
                keep.push((tok, s));
                proof {
                    assert(table_entries(keep@) =~= keepe.push(
                        (pre[i as int].0, pre[i as int].1),
                    ));
                }
            }
            proof {
                let keepe2 = table_entries(keep@);
                assert forall|t: Seq<char>| #[trigger]
                    assoc_map(keepe2).contains_key(t) implies exists|j: int|
                    0 <= j < i + 1 && pre[j].0 == t && pre[j].1.last_accessed + SESSION_PERIOD
                        >= now by {
                    if assoc_map(keepe).contains_key(t) {
                        let j = choose|j: int|
                            0 <= j < i && pre[j].0 == t && pre[j].1.last_accessed + SESSION_PERIOD
                                >= now;
                        assert(0 <= j < i + 1 && pre[j].0 == t && pre[j].1.last_accessed
                            + SESSION_PERIOD >= now);
                    } else {
                        assert(pre[i as int].0 == t && pre[i as int].1.last_accessed
                            + SESSION_PERIOD >= now);
                    }
                }
            }
            i += 1;
        }
        self.v = keep;
        proof {
            assert forall|t: Seq<char>| #[trigger]
                self@.contains_key(t) <==> (assoc_map(pre).contains_key(t) && assoc_map(
                pre,
            )[t].last_accessed + SESSION_PERIOD >= now) by {
                if self@.contains_key(t) {
                    let j = choose|j: int|
                        0 <= j < n && pre[j].0 == t && pre[j].1.last_accessed + SESSION_PERIOD
                            >= now;
                    lemma_assoc_get(pre, j);
                }
                if assoc_map(pre).contains_key(t) && assoc_map(pre)[t].last_accessed
                    + SESSION_PERIOD >= now {
                    let j = choose|j: int| 0 <= j < pre.len() && pre[j].0 == t;
                    lemma_assoc_get(pre, j);
                    assert(0 <= j < n && pre[j].0 == t && pre[j].1.last_accessed + SESSION_PERIOD
                        >= now);
                }
            }
        }
    }
}

} // verus!
