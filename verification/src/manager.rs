//! The session/user manager: two in-memory overlay tiers over an immutable
//! on-disk store, a session table, lockout accounting, and the in-memory
//! side of the snapshot-and-swap save protocol.
//!
//! The on-disk store itself is reached through a constant-database codec
//! outside this crate; the manager models it with the ghost map `disk`,
//! which holds the store's contents as this manager has known them. Every
//! operation that consults the store takes the codec's answer as the `base`
//! argument, assumed consistent with that model.

use vstd::prelude::*;
use rand::RngCore;
use crate::session::{Session, SessionData, SessionTable};
use crate::text::{hex_of, hex_of_byte, lemma_hex_len, bytes_to_string, str_eq};
use crate::user::{
    User, UserData, spec_parse_user, spec_is_deleted, spec_is_locked, valid_token, is_valid_field,
};
use crate::user_map::UserMap;
use crate::{LOCK_COUNT, MAX_NOW};

verus! {

/// Whether the codec's answer for `name` agrees with the store model: a hit
/// returns exactly the stored value, a miss means the name is not stored.
pub open spec fn base_reflects(
    disk: Map<Seq<char>, Seq<char>>,
    name: Seq<char>,
    base: Option<String>,
) -> bool {
    match base {
        Some(v) => disk.contains_key(name) && disk[name] == v@,
        None => !disk.contains_key(name),
    }
}

/// The sequence byte after one more issuance.
pub open spec fn wrap_incr(s: u8) -> u8 {
    if s == 255 {
        0
    } else {
        (s + 1) as u8
    }
}

/// How one authentication attempt changes the located record: a locked or
/// tombstoned record is untouched; a password match clears the failure
/// count (and stamps the login time when `set_login`); a mismatch stamps
/// the failure, counts it, and locks the record once the count reaches
/// `LOCK_COUNT`.
pub open spec fn auth_step(u: UserData, pass: Seq<char>, now: i64, set_login: bool) -> UserData {
    if spec_is_locked(u) || spec_is_deleted(u) {
        u
    } else if u.password == pass {
        UserData {
            fail_count: 0,
            last_loggedin: if set_login {
                now
            } else {
                u.last_loggedin
            },
            ..u
        }
    } else {
        let fc: u64 = if u.fail_count < u64::MAX {
            (u.fail_count + 1) as u64
        } else {
            u64::MAX
        };
        UserData {
            failed: now,
            fail_count: fc,
            locked: if fc >= LOCK_COUNT {
                now
            } else {
                u.locked
            },
            ..u
        }
    }
}

/// When an authentication attempt succeeds: the record is neither locked
/// nor tombstoned and the password matches.
pub open spec fn auth_ok(u: UserData, pass: Seq<char>) -> bool {
    !spec_is_locked(u) && !spec_is_deleted(u) && u.password == pass
}

/// The manager. All state a request handler or the maintenance task reads
/// or writes lives here, behind one exclusive lock held by the caller.
pub struct SessionManager {
    /// Sequence byte appended to each issued token.
    pub seqno: u8,
    /// Directory that holds the store and its transient files.
    pub dir: String,
    /// Path of the live constant database.
    pub path_users_cdb: String,
    /// Live sessions by token.
    pub sessions: SessionTable,
    /// Users created since the last successful save; not on disk.
    pub created_users: UserMap,
    /// Users read from disk and possibly mutated since the last save.
    pub updated_users: UserMap,
    /// Model of the on-disk store's contents.
    pub disk: Ghost<Map<Seq<char>, Seq<char>>>,
}

impl SessionManager {
    /// The manager's invariant: the overlay tiers are well-formed maps with
    /// disjoint keysets, created names are absent from the store and
    /// updated names present in it, created records are fresh (no
    /// tombstone, storable name and password), every record sits under its
    /// own name, stored names are storable, and session times are bounded.
    pub open spec fn inv(&self) -> bool {
        &&& self.sessions.wf()
        &&& self.created_users.wf()
        &&& self.updated_users.wf()
        &&& self.sessions.bounded(MAX_NOW)
        &&& (forall|n: Seq<char>| #[trigger]
            self.created_users@.contains_key(n) ==> !self.updated_users@.contains_key(n))
        &&& (forall|n: Seq<char>| #[trigger]
            self.created_users@.contains_key(n) ==> !self.disk@.contains_key(n))
        &&& (forall|n: Seq<char>| #[trigger]
            self.updated_users@.contains_key(n) ==> self.disk@.contains_key(n))
        &&& (forall|n: Seq<char>| #[trigger]
            self.created_users@.contains_key(n) ==> self.created_users@[n].name == n
                && self.created_users@[n].deleted == 0 && valid_token(n) && valid_token(
                self.created_users@[n].password,
            ))
        &&& (forall|n: Seq<char>| #[trigger]
            self.updated_users@.contains_key(n) ==> self.updated_users@[n].name == n)
        &&& (forall|n: Seq<char>| #[trigger] self.disk@.contains_key(n) ==> valid_token(n))
    }

    /// Where a lookup of `name` lands, given the codec's answer `base`:
    /// the created tier first, then the updated tier, then the store; the
    /// first hit wins and later tiers are not consulted.
    pub open spec fn lookup(&self, name: Seq<char>, base: Option<String>) -> Option<UserData> {
        if self.created_users@.contains_key(name) {
            Some(self.created_users@[name])
        } else if self.updated_users@.contains_key(name) {
            Some(self.updated_users@[name])
        } else {
            match base {
                Some(v) => Some(spec_parse_user(name, v@)),
                None => None,
            }
        }
    }

    /// Where the record stepped by an authentication attempt lands: in the
    /// tier that held it, or in the updated tier for a record read from the
    /// store; an absent name changes nothing.
    pub open spec fn tiers_after(
        pre: SessionManager,
        post: SessionManager,
        name: Seq<char>,
        base: Option<String>,
        stepped: UserData,
    ) -> bool {
        if pre.created_users@.contains_key(name) {
            post.created_users@ == pre.created_users@.insert(name, stepped)
                && post.updated_users@ == pre.updated_users@
        } else if pre.updated_users@.contains_key(name) || (base matches Some(_)) {
            post.created_users@ == pre.created_users@ && post.updated_users@
                == pre.updated_users@.insert(name, stepped)
        } else {
            post.created_users@ == pre.created_users@ && post.updated_users@
                == pre.updated_users@
        }
    }

    /// A manager over an attached store: the tiers and the session table
    /// are empty and the store model is `store`.
    pub fn attach(dir: String, Ghost(store): Ghost<Map<Seq<char>, Seq<char>>>) -> (r:
        SessionManager)
        requires
            forall|n: Seq<char>| #[trigger] store.contains_key(n) ==> valid_token(n),
        ensures
            r.inv(),
            r.seqno == 0,
            r.dir == dir,
            r.path_users_cdb@ == crate::paths::spec_path_join(dir@, "users.cdb"@),
            r.sessions@ == Map::<Seq<char>, SessionData>::empty(),
            r.created_users@ == Map::<Seq<char>, UserData>::empty(),
            r.updated_users@ == Map::<Seq<char>, UserData>::empty(),
            r.disk@ == store,
    {
        let path = crate::paths::path_join(dir.as_str(), "users.cdb");
        SessionManager {
            seqno: 0,
            dir,
            path_users_cdb: path,
            sessions: SessionTable::new(),
            created_users: UserMap::new(),
            updated_users: UserMap::new(),
            disk: Ghost(store),
        }
    }

    /// A manager over a fresh, empty store.
    pub fn new(dir: String) -> (r: SessionManager)
        ensures
            r.inv(),
            r.seqno == 0,
            r.dir == dir,
            r.path_users_cdb@ == crate::paths::spec_path_join(dir@, "users.cdb"@),
            r.sessions@ == Map::<Seq<char>, SessionData>::empty(),
            r.created_users@ == Map::<Seq<char>, UserData>::empty(),
            r.updated_users@ == Map::<Seq<char>, UserData>::empty(),
            r.disk@ == Map::<Seq<char>, Seq<char>>::empty(),
    {
        SessionManager::attach(dir, Ghost(Map::empty()))
    }

    /// Path of the transient text dump the export writes.
    pub fn path_users_old(&self) -> (r: String)
        ensures
            r@ == crate::paths::spec_path_join(self.dir@, "users.old"@),
    {
        crate::paths::path_join(self.dir.as_str(), "users.old")
    }

    /// Path of the transient merged text the import reads.
    pub fn path_users_new(&self) -> (r: String)
        ensures
            r@ == crate::paths::spec_path_join(self.dir@, "users.new"@),
    {
        crate::paths::path_join(self.dir.as_str(), "users.new")
    }

    /// Path of the fresh store before it is renamed over the live one.
    pub fn path_users_tmp(&self) -> (r: String)
        ensures
            r@ == crate::paths::spec_path_join(self.dir@, "users.tmp"@),
    {
        crate::paths::path_join(self.dir.as_str(), "users.tmp")
    }

    /// Mint a session token: fifteen random bytes, then the stepped
    /// sequence byte, hex-encoded to thirty-two uppercase characters. The
    /// sequence byte makes consecutive tokens differ even under identical
    /// random prefixes.
    pub fn create_session_id(&mut self) -> (r: String)
        ensures
            final(self).seqno == wrap_incr(old(self).seqno),
            final(self).dir == old(self).dir,
            final(self).path_users_cdb == old(self).path_users_cdb,
            final(self).sessions == old(self).sessions,
            final(self).created_users == old(self).created_users,
            final(self).updated_users == old(self).updated_users,
            final(self).disk == old(self).disk,
            r@.len() == 32,
            r@.subrange(30, 32) == hex_of_byte(wrap_incr(old(self).seqno)),
            exists|bs: Seq<u8>|
                bs.len() == 16 && bs[15] == wrap_incr(old(self).seqno) && r@ == hex_of(bs),
    {
        let mut bytes: Vec<u8> = vec![0u8; 15];
        fill_random_bytes(&mut bytes);
        self.seqno = if self.seqno == 255 {
            0
        } else {
            self.seqno + 1
        };
        bytes.push(self.seqno);
        let r = bytes_to_string(bytes.as_slice());
        proof {
            lemma_hex_len(bytes@);
            lemma_hex_len(bytes@.drop_last());
            assert(bytes@.len() == 16);
            assert(bytes@[15] == wrap_incr(old(self).seqno));
            assert(r@ =~= hex_of(bytes@.drop_last()) + hex_of_byte(bytes@[15]));
            assert(r@.subrange(30, 32) =~= hex_of_byte(wrap_incr(old(self).seqno)));
            assert(bytes@.len() == 16 && bytes@[15] == wrap_incr(old(self).seqno) && r@ == hex_of(
                bytes@,
            ));
        }
        r
    }

    /// Locate `name` (created tier, updated tier, then the codec's answer),
    /// apply one authentication attempt to the record, and store the result
    /// back — a record read from the store lands in the updated tier so the
    /// lockout accounting persists.
    fn locate_and_step(
        &mut self,
        name: &str,
        pass: &str,
        base: Option<String>,
        now: i64,
        set_login: bool,
    ) -> (ok: bool)
        requires
            old(self).inv(),
            base_reflects(old(self).disk@, name@, base),
        ensures
            final(self).inv(),
            final(self).sessions == old(self).sessions,
            final(self).seqno == old(self).seqno,
            final(self).dir == old(self).dir,
            final(self).path_users_cdb == old(self).path_users_cdb,
            final(self).disk == old(self).disk,
            ok == (match old(self).lookup(name@, base) {
                Some(u) => auth_ok(u, pass@),
                None => false,
            }),
            match old(self).lookup(name@, base) {
                Some(u) => SessionManager::tiers_after(
                    *old(self),
                    *final(self),
                    name@,
                    base,
                    auth_step(u, pass@, now, set_login),
                ),
                None => final(self).created_users@ == old(self).created_users@
                    && final(self).updated_users@ == old(self).updated_users@,
            },
    {
        let cu: Option<User> = match self.created_users.get(name) {
            Some(r) => Some(r.duplicate()),
            None => None,
        };
        match cu {
            Some(mut u) => {
                let ok = apply_auth(&mut u, pass, now, set_login);
                self.created_users.insert(u);
                ok
            },
            None => {
                let uu: Option<User> = match self.updated_users.get(name) {
                    Some(r) => Some(r.duplicate()),
                    None => None,
                };
                match uu {
                    Some(mut u) => {
                        let ok = apply_auth(&mut u, pass, now, set_login);
                        self.updated_users.insert(u);
                        ok
                    },
                    None => match base {
                        Some(s) => {
                            let mut u = User::parse(name, s.as_str());
                            let ok = apply_auth(&mut u, pass, now, set_login);
                            self.updated_users.insert(u);
                            ok
                        },
                        None => false,
                    },
                }
            },
        }
    }

    /// Authenticate without opening a session. Fails on an absent, locked,
    /// or tombstoned record or a wrong password; a wrong password is
    /// counted and can lock the record.
    pub fn auth(&mut self, name: &str, pass: &str, base: Option<String>, now: i64) -> (r: Result<
        (),
        &'static str,
    >)
        requires
            old(self).inv(),
            base_reflects(old(self).disk@, name@, base),
        ensures
            final(self).inv(),
            final(self).sessions == old(self).sessions,
            final(self).seqno == old(self).seqno,
            final(self).dir == old(self).dir,
            final(self).path_users_cdb == old(self).path_users_cdb,
            final(self).disk == old(self).disk,
            (r matches Ok(_)) == (match old(self).lookup(name@, base) {
                Some(u) => auth_ok(u, pass@),
                None => false,
            }),
            r matches Err(e) ==> e@ == "Authentication failed."@,
            match old(self).lookup(name@, base) {
                Some(u) => SessionManager::tiers_after(
                    *old(self),
                    *final(self),
                    name@,
                    base,
                    auth_step(u, pass@, now, false),
                ),
                None => final(self).created_users@ == old(self).created_users@
                    && final(self).updated_users@ == old(self).updated_users@,
            },
    {
        if self.locate_and_step(name, pass, base, now, false) {
            Ok(())
        } else {
            Err("Authentication failed.")
        }
    }

    /// Authenticate and open a session: on success the login time is
    /// stamped, a fresh token minted, and a session stored under it.
    pub fn login(&mut self, name: &str, pass: &str, base: Option<String>, now: i64) -> (r: Result<
        String,
        &'static str,
    >)
        requires
            old(self).inv(),
            base_reflects(old(self).disk@, name@, base),
            0 <= now <= MAX_NOW,
        ensures
            final(self).inv(),
            final(self).dir == old(self).dir,
            final(self).path_users_cdb == old(self).path_users_cdb,
            final(self).disk == old(self).disk,
            (r matches Ok(_)) == (match old(self).lookup(name@, base) {
                Some(u) => auth_ok(u, pass@),
                None => false,
            }),
            match old(self).lookup(name@, base) {
                Some(u) => SessionManager::tiers_after(
                    *old(self),
                    *final(self),
                    name@,
                    base,
                    auth_step(u, pass@, now, true),
                ),
                None => final(self).created_users@ == old(self).created_users@
                    && final(self).updated_users@ == old(self).updated_users@,
            },
            match r {
                Ok(t) => {
                    &&& t@.len() == 32
                    &&& t@.subrange(30, 32) == hex_of_byte(wrap_incr(old(self).seqno))
                    &&& final(self).seqno == wrap_incr(old(self).seqno)
                    &&& final(self).sessions@ == old(self).sessions@.insert(
                        t@,
                        SessionData { name: name@, last_accessed: now },
                    )
                },
                Err(e) => {
                    &&& e@ == "Login failed."@
                    &&& final(self).seqno == old(self).seqno
                    &&& final(self).sessions == old(self).sessions
                },
            },
    {
        if self.locate_and_step(name, pass, base, now, true) {
            let sid = self.create_session_id();
            self.sessions.insert(sid.clone(), Session::new(name, now));
            Ok(sid)
        } else {
            Err("Login failed.")
        }
    }
}

/// A record as `create_user` makes it: created now, nothing else set.
pub open spec fn fresh_user(name: Seq<char>, pass: Seq<char>, now: i64) -> UserData {
    UserData {
        name,
        password: pass,
        created: now,
        updated: 0,
        deleted: 0,
        last_loggedin: 0,
        failed: 0,
        fail_count: 0,
        locked: 0,
    }
}

/// A record after `update_user`: new password, update time stamped.
pub open spec fn upd_step(u: UserData, pass: Seq<char>, now: i64) -> UserData {
    UserData { password: pass, updated: now, ..u }
}

/// A record after `delete_user` tombstones it.
pub open spec fn del_step(u: UserData, now: i64) -> UserData {
    UserData { deleted: now, ..u }
}

impl SessionManager {
    /// Look a session up by token and refresh it: an existing, unexpired
    /// session is stamped with `now` and returned; anything else fails.
    pub fn is_logged_in(&mut self, session_id: &str, now: i64) -> (r: Result<
        Session,
        &'static str,
    >)
        requires
            old(self).inv(),
            0 <= now <= MAX_NOW,
        ensures
            final(self).inv(),
            final(self).seqno == old(self).seqno,
            final(self).dir == old(self).dir,
            final(self).path_users_cdb == old(self).path_users_cdb,
            final(self).disk == old(self).disk,
            final(self).created_users == old(self).created_users,
            final(self).updated_users == old(self).updated_users,
            match r {
                Ok(s) => {
                    &&& old(self).sessions@.contains_key(session_id@)
                    &&& old(self).sessions@[session_id@].last_accessed + crate::SESSION_PERIOD
                        > now
                    &&& s@ == (SessionData {
                        name: old(self).sessions@[session_id@].name,
                        last_accessed: now,
                    })
                    &&& final(self).sessions@ == old(self).sessions@.insert(session_id@, s@)
                },
                Err(e) => {
                    &&& e@ == "Session not found."@
                    &&& final(self).sessions@ == old(self).sessions@
                    &&& (old(self).sessions@.contains_key(session_id@) ==> old(self).sessions@[session_id@].last_accessed + crate::SESSION_PERIOD <= now)
                },
            },
    {
        let r = self.sessions.touch(session_id, now);
        proof {
            if r is Some {
                assert forall|t: Seq<char>| #[trigger]
                    self.sessions@.contains_key(t) implies 0 <= self.sessions@[t].last_accessed
                    <= MAX_NOW by {
                    if t != session_id@ {
                        assert(old(self).sessions@.contains_key(t));
                    }
                }
            }
        }
        match r {
            Some(s) => Ok(s),
            None => Err("Session not found."),
        }
    }

    /// Close a session: remove it and return it; a token without a session
    /// fails, so a second logout of the same token fails.
    pub fn logout(&mut self, session_id: &str) -> (r: Result<Session, &'static str>)
        requires
            old(self).inv(),
        ensures
            final(self).inv(),
            final(self).seqno == old(self).seqno,
            final(self).dir == old(self).dir,
            final(self).path_users_cdb == old(self).path_users_cdb,
            final(self).disk == old(self).disk,
            final(self).created_users == old(self).created_users,
            final(self).updated_users == old(self).updated_users,
            match r {
                Ok(s) => old(self).sessions@.contains_key(session_id@) && s@ == old(self).sessions@[session_id@] && final(self).sessions@ == old(self).sessions@.remove(
                    session_id@,
                ),
                Err(e) => e@ == "Session not found."@ && !old(self).sessions@.contains_key(
                    session_id@,
                ) && final(self).sessions@ == old(self).sessions@,
            },
    {
        let r = self.sessions.remove(session_id);
        proof {
            assert forall|t: Seq<char>| #[trigger]
                self.sessions@.contains_key(t) implies 0 <= self.sessions@[t].last_accessed
                <= MAX_NOW by {
                assert(old(self).sessions@.contains_key(t));
                assert(self.sessions@[t] == old(self).sessions@[t]);
            }
        }
        match r {
            Some(s) => Ok(s),
            None => Err("Session not found."),
        }
    }

    /// Create a user: the name must be new to every tier and to the store,
    /// and name and password must be storable (nonempty, whitespace-free).
    /// On success the record enters the created tier and a session is
    /// opened for it.
    pub fn create_user(&mut self, name: &str, pass: &str, base: Option<String>, now: i64) -> (r:
        Result<String, &'static str>)
        requires
            old(self).inv(),
            base_reflects(old(self).disk@, name@, base),
            0 <= now <= MAX_NOW,
        ensures
            final(self).inv(),
            final(self).dir == old(self).dir,
            final(self).path_users_cdb == old(self).path_users_cdb,
            final(self).disk == old(self).disk,
            (r matches Ok(_)) == (valid_token(name@) && valid_token(pass@) && !old(self).created_users@.contains_key(name@) && !old(self).updated_users@.contains_key(name@)
                && (base matches None)),
            match r {
                Ok(t) => {
                    &&& final(self).created_users@ == old(self).created_users@.insert(
                        name@,
                        fresh_user(name@, pass@, now),
                    )
                    &&& final(self).updated_users@ == old(self).updated_users@
                    &&& t@.len() == 32
                    &&& t@.subrange(30, 32) == hex_of_byte(wrap_incr(old(self).seqno))
                    &&& final(self).seqno == wrap_incr(old(self).seqno)
                    &&& final(self).sessions@ == old(self).sessions@.insert(
                        t@,
                        SessionData { name: name@, last_accessed: now },
                    )
                },
                Err(e) => {
                    &&& final(self).created_users == old(self).created_users
                    &&& final(self).updated_users == old(self).updated_users
                    &&& final(self).sessions == old(self).sessions
                    &&& final(self).seqno == old(self).seqno
                    &&& (if valid_token(name@) && valid_token(pass@) {
                        e@ == "User already exists."@
                    } else {
                        e@ == "Invalid name."@
                    })
                },
            },
    {
        if !is_valid_field(name) || !is_valid_field(pass) {
            return Err("Invalid name.");
        }
        let in_created = self.created_users.contains(name);
        let in_updated = self.updated_users.contains(name);
        if in_created || in_updated || base.is_some() {
            return Err("User already exists.");
        }
        self.created_users.insert(User::new(name, pass, now));
        let sid = self.create_session_id();
        self.sessions.insert(sid.clone(), Session::new(name, now));
        Ok(sid)
    }

    /// Change a user's password (promotion-on-write): a record in either
    /// tier is mutated in place, one only on disk is read, mutated, and
    /// promoted to the updated tier; tombstoned or absent records fail.
    pub fn update_user(&mut self, name: &str, pass: &str, base: Option<String>, now: i64) -> (r:
        Result<(), &'static str>)
        requires
            old(self).inv(),
            base_reflects(old(self).disk@, name@, base),
        ensures
            final(self).inv(),
            final(self).sessions == old(self).sessions,
            final(self).seqno == old(self).seqno,
            final(self).dir == old(self).dir,
            final(self).path_users_cdb == old(self).path_users_cdb,
            final(self).disk == old(self).disk,
            (r matches Ok(_)) == (valid_token(pass@) && (match old(self).lookup(name@, base) {
                Some(u) => old(self).created_users@.contains_key(name@) || !spec_is_deleted(u),
                None => false,
            })),
            match r {
                Ok(_) => (match old(self).lookup(name@, base) {
                    Some(u) => SessionManager::tiers_after(
                        *old(self),
                        *final(self),
                        name@,
                        base,
                        upd_step(u, pass@, now),
                    ),
                    None => false,
                }),
                Err(e) => {
                    &&& final(self).created_users == old(self).created_users
                    &&& final(self).updated_users == old(self).updated_users
                    &&& (if valid_token(pass@) {
                        e@ == "User not found."@
                    } else {
                        e@ == "Invalid name."@
                    })
                },
            },
    {
        if !is_valid_field(pass) {
            return Err("Invalid name.");
        }
        let cu: Option<User> = match self.created_users.get(name) {
            Some(r) => Some(r.duplicate()),
            None => None,
        };
        if let Some(mut u) = cu {
            u.password = pass.to_owned();
            u.updated = now;
            self.created_users.insert(u);
            return Ok(());
        }
        let uu: Option<User> = match self.updated_users.get(name) {
            Some(r) => Some(r.duplicate()),
            None => None,
        };
        if let Some(mut u) = uu {
            if !u.is_deleted() {
                u.password = pass.to_owned();
                u.updated = now;
                self.updated_users.insert(u);
                return Ok(());
            }
            return Err("User not found.");
        }
        match base {
            Some(s) => {
                let mut u = User::parse(name, s.as_str());
                if !u.is_deleted() {
                    u.password = pass.to_owned();
                    u.updated = now;
                    self.updated_users.insert(u);
                    Ok(())
                } else {
                    Err("User not found.")
                }
            },
            None => Err("User not found."),
        }
    }

    /// Delete a user: a record only in the created tier vanishes outright;
    /// one known to the store is tombstoned in the updated tier; already
    /// tombstoned or absent records fail.
    pub fn delete_user(&mut self, name: &str, base: Option<String>, now: i64) -> (r: Result<
        (),
        &'static str,
    >)
        requires
            old(self).inv(),
            base_reflects(old(self).disk@, name@, base),
        ensures
            final(self).inv(),
            final(self).sessions == old(self).sessions,
            final(self).seqno == old(self).seqno,
            final(self).dir == old(self).dir,
            final(self).path_users_cdb == old(self).path_users_cdb,
            final(self).disk == old(self).disk,
            (r matches Ok(_)) == (match old(self).lookup(name@, base) {
                Some(u) => old(self).created_users@.contains_key(name@) || !spec_is_deleted(u),
                None => false,
            }),
            r matches Err(e) ==> e@ == "User not found."@,
            match r {
                Ok(_) => (if old(self).created_users@.contains_key(name@) {
                    final(self).created_users@ == old(self).created_users@.remove(name@) && final(self).updated_users@ == old(self).updated_users@
                } else {
                    match old(self).lookup(name@, base) {
                        Some(u) => final(self).created_users@ == old(self).created_users@
                            && final(self).updated_users@ == old(self).updated_users@.insert(
                            name@,
                            del_step(u, now),
                        ),
                        None => false,
                    }
                }),
                Err(_) => final(self).created_users == old(self).created_users && final(self).updated_users == old(self).updated_users,
            },
    {
        if self.created_users.contains(name) {
            self.created_users.remove(name);
            return Ok(());
        }
        let uu: Option<User> = match self.updated_users.get(name) {
            Some(r) => Some(r.duplicate()),
            None => None,
        };
        if let Some(mut u) = uu {
            if !u.is_deleted() {
                u.deleted = now;
                self.updated_users.insert(u);
                return Ok(());
            }
            return Err("User not found.");
        }
        match base {
            Some(s) => {
                let mut u = User::parse(name, s.as_str());
                if !u.is_deleted() {
                    u.deleted = now;
                    self.updated_users.insert(u);
                    Ok(())
                } else {
                    Err("User not found.")
                }
            },
            None => Err("User not found."),
        }
    }

    /// Drop every session idle for a full session period at time `now`.
    pub fn expire_sweep(&mut self, now: i64)
        requires
            old(self).inv(),
        ensures
            final(self).inv(),
            final(self).seqno == old(self).seqno,
            final(self).dir == old(self).dir,
            final(self).path_users_cdb == old(self).path_users_cdb,
            final(self).disk == old(self).disk,
            final(self).created_users == old(self).created_users,
            final(self).updated_users == old(self).updated_users,
            forall|t: Seq<char>|
                #[trigger] final(self).sessions@.contains_key(t) <==> (old(self).sessions@.contains_key(t) && old(self).sessions@[t].last_accessed
                    + crate::SESSION_PERIOD >= now),
            forall|t: Seq<char>|
                final(self).sessions@.contains_key(t) ==> final(self).sessions@[t] == old(self).sessions@[t],
    {
        self.sessions.expire_sweep(now);
        proof {
            assert forall|t: Seq<char>| #[trigger]
                self.sessions@.contains_key(t) implies 0 <= self.sessions@[t].last_accessed
                <= MAX_NOW by {
                assert(old(self).sessions@.contains_key(t));
            }
        }
    }

    /// Sweep expired sessions against the clock now.
    pub fn clean(&mut self)
        requires
            old(self).inv(),
        ensures
            final(self).inv(),
            final(self).seqno == old(self).seqno,
            final(self).dir == old(self).dir,
            final(self).path_users_cdb == old(self).path_users_cdb,
            final(self).disk == old(self).disk,
            final(self).created_users == old(self).created_users,
            final(self).updated_users == old(self).updated_users,
            forall|t: Seq<char>|
                #[trigger] final(self).sessions@.contains_key(t) ==> old(self).sessions@.contains_key(t) && final(self).sessions@[t] == old(self).sessions@[t],
    {
        let now = current_time();
        self.expire_sweep(now);
    }

    /// Whether some overlay tier holds unsaved work.
    pub fn overlay_dirty(&self) -> (r: bool)
        requires
            self.inv(),
        ensures
            r == !(self.created_users@ == Map::<Seq<char>, UserData>::empty()
                && self.updated_users@ == Map::<Seq<char>, UserData>::empty()),
    {
        !self.created_users.is_empty() || !self.updated_users.is_empty()
    }

    /// One cycle of the maintenance task's decisions: sweep expired
    /// sessions, then report whether a save is due because some overlay
    /// tier is non-empty.
    pub fn maintenance_tick(&mut self, now: i64) -> (do_save: bool)
        requires
            old(self).inv(),
        ensures
            final(self).inv(),
            final(self).seqno == old(self).seqno,
            final(self).dir == old(self).dir,
            final(self).path_users_cdb == old(self).path_users_cdb,
            final(self).disk == old(self).disk,
            final(self).created_users == old(self).created_users,
            final(self).updated_users == old(self).updated_users,
            forall|t: Seq<char>|
                #[trigger] final(self).sessions@.contains_key(t) <==> (old(self).sessions@.contains_key(t) && old(self).sessions@[t].last_accessed
                    + crate::SESSION_PERIOD >= now),
            forall|t: Seq<char>|
                final(self).sessions@.contains_key(t) ==> final(self).sessions@[t] == old(self).sessions@[t],
            do_save == !(final(self).created_users@ == Map::<Seq<char>, UserData>::empty()
                && final(self).updated_users@ == Map::<Seq<char>, UserData>::empty()),
    {
        self.expire_sweep(now);
        self.overlay_dirty()
    }
}

/// The clock, clamped into the range the manager accepts.
pub fn current_time() -> (r: i64)
    ensures
        0 <= r <= MAX_NOW,
{
    let t = now_seconds();
    if t < 0 {
        0
    } else if t > MAX_NOW {
        MAX_NOW
    } else {
        t
    }
}

/// Relies on time::OffsetDateTime::now_utc and unix_timestamp: the clock as
/// seconds since the Unix epoch; nothing is promised of the value.
#[verifier::external_body]
fn now_seconds() -> i64 {
    time::OffsetDateTime::now_utc().unix_timestamp()
}

/// The overlay invariants, spelled out: the tiers' keysets are disjoint, a
/// created name is not in the store, and an updated name is in the store
/// and owns its record.
pub proof fn lemma_overlay_invariants(m: SessionManager)
    requires
        m.inv(),
    ensures
        forall|n: Seq<char>| #[trigger]
            m.created_users@.contains_key(n) ==> !m.updated_users@.contains_key(n),
        forall|n: Seq<char>| #[trigger]
            m.created_users@.contains_key(n) ==> !m.disk@.contains_key(n),
        forall|n: Seq<char>| #[trigger]
            m.updated_users@.contains_key(n) ==> m.disk@.contains_key(n)
                && m.updated_users@[n].name == n,
{
}

/// A name in the created tier is not in the store: a truthful codec answer
/// for it is a miss.
pub proof fn lemma_created_name_misses_store(m: SessionManager, name: Seq<char>, base: Option<
    String,
>)
    requires
        m.inv(),
        base_reflects(m.disk@, name, base),
        m.created_users@.contains_key(name),
    ensures
        base matches None,
{
}

/// A name in the updated tier is in the store: a truthful codec answer for
/// it is a hit, and the tier's record carries that very name.
pub proof fn lemma_updated_name_hits_store(m: SessionManager, name: Seq<char>, base: Option<
    String,
>)
    requires
        m.inv(),
        base_reflects(m.disk@, name, base),
        m.updated_users@.contains_key(name),
    ensures
        base matches Some(_),
        m.updated_users@[name].name == name,
{
}

/// Stepping the sequence byte always changes it.
pub proof fn lemma_wrap_incr_changes(s: u8)
    ensures
        wrap_incr(s) != s,
{
}

/// Distinct bytes have distinct hexadecimal renderings.
pub proof fn lemma_hex_of_byte_injective(a: u8, b: u8)
    requires
        a != b,
    ensures
        hex_of_byte(a) != hex_of_byte(b),
{
    vstd::arithmetic::div_mod::lemma_fundamental_div_mod(a as int, 16);
    vstd::arithmetic::div_mod::lemma_fundamental_div_mod(b as int, 16);
    if hex_of_byte(a) == hex_of_byte(b) {
        assert(hex_of_byte(a)[0] == hex_of_byte(b)[0]);
        assert(hex_of_byte(a)[1] == hex_of_byte(b)[1]);
        assert(a as int / 16 == b as int / 16);
        assert(a as int % 16 == b as int % 16);
        assert(false);
    }
}

/// Two tokens issued by consecutive mintings always differ: each minting
/// steps the sequence byte, whose rendering fills the last two characters.
pub proof fn lemma_consecutive_tokens_differ(s: u8, t1: Seq<char>, t2: Seq<char>)
    requires
        t1.len() == 32,
        t2.len() == 32,
        t1.subrange(30, 32) == hex_of_byte(wrap_incr(s)),
        t2.subrange(30, 32) == hex_of_byte(wrap_incr(wrap_incr(s))),
    ensures
        t1 != t2,
{
    lemma_wrap_incr_changes(wrap_incr(s));
    lemma_hex_of_byte_injective(wrap_incr(s), wrap_incr(wrap_incr(s)));
    if t1 == t2 {
        assert(t1.subrange(30, 32) == t2.subrange(30, 32));
        assert(false);
    }
}

/// A failed attempt that brings the failure count to the lockout threshold
/// locks the record, provided the clock reads a nonzero time.
pub proof fn lemma_failures_lock(u: UserData, pass: Seq<char>, now: i64, set_login: bool)
    requires
        !spec_is_locked(u),
        !spec_is_deleted(u),
        u.password != pass,
        u.fail_count + 1 >= LOCK_COUNT,
        now != 0,
    ensures
        spec_is_locked(auth_step(u, pass, now, set_login)),
        auth_step(u, pass, now, set_login).fail_count >= LOCK_COUNT,
{
}

/// A locked record rejects every attempt, with or without the right
/// password, and an attempt leaves it exactly as it was — locked.
pub proof fn lemma_locked_rejects(u: UserData, pass: Seq<char>, now: i64, set_login: bool)
    requires
        spec_is_locked(u),
    ensures
        !auth_ok(u, pass),
        auth_step(u, pass, now, set_login) == u,
{
}

/// One authentication attempt against a record, in place; reports whether
/// it succeeded.
fn apply_auth(u: &mut User, pass: &str, now: i64, set_login: bool) -> (ok: bool)
    ensures
        final(u)@ == auth_step(old(u)@, pass@, now, set_login),
        ok == auth_ok(old(u)@, pass@),
{
    if u.is_locked() || u.is_deleted() {
        return false;
    }
    if str_eq(u.password.as_str(), pass) {
        u.fail_count = 0;
        if set_login {
            u.last_loggedin = now;
        }
        true
    } else {
        u.failed = now;
        if u.fail_count < u64::MAX {
            u.fail_count = u.fail_count + 1;
        }
        if u.fail_count >= LOCK_COUNT {
            u.locked = u.failed;
        }
        false
    }
}

/// Relies on `rand`'s thread-local generator (`RngCore::fill_bytes`): fills
/// the buffer with random bytes; nothing is promised of their values.
#[verifier::external_body]
fn fill_random_bytes(buf: &mut Vec<u8>)
    ensures
        final(buf)@.len() == old(buf)@.len(),
{
    rand::thread_rng().fill_bytes(buf.as_mut_slice());
}

} // verus!
