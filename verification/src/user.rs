//! The user record: one line of the on-disk store, its parsing, its
//! formatting, and the round-trip law connecting the two.

use vstd::prelude::*;
use crate::text::{
    no_ws, is_ws_char, is_digit_char, dec_i64, dec_u64, parse_i64_or0, parse_u64_or0,
    parse_i64_or_zero, parse_u64_or_zero, i64_to_string, u64_to_string, lemma_dec_digits_val,
    lemma_i64_round_trip, lemma_u64_round_trip,
};
use crate::tokens::{
    tokens_of, views_of, split_tokens, lemma_tokens_of_join, lemma_tokens_of_single, find_ws,
};

verus! {

/// A nonempty, whitespace-free field, as the line format requires of names
/// and passwords it can faithfully store.
pub open spec fn valid_token(s: Seq<char>) -> bool {
    s.len() > 0 && no_ws(s)
}

/// The mathematical content of a user record.
pub struct UserData {
    pub name: Seq<char>,
    pub password: Seq<char>,
    pub created: i64,
    pub updated: i64,
    pub deleted: i64,
    pub last_loggedin: i64,
    pub failed: i64,
    pub fail_count: u64,
    pub locked: i64,
}

/// One user of the store. Timestamps are seconds since the epoch, with zero
/// meaning "never".
pub struct User {
    pub name: String,
    pub password: String,
    pub created: i64,
    pub updated: i64,
    pub deleted: i64,
    pub last_loggedin: i64,
    pub failed: i64,
    pub fail_count: u64,
    pub locked: i64,
}

impl View for User {
    type V = UserData;

    open spec fn view(&self) -> UserData {
        UserData {
            name: self.name@,
            password: self.password@,
            created: self.created,
            updated: self.updated,
            deleted: self.deleted,
            last_loggedin: self.last_loggedin,
            failed: self.failed,
            fail_count: self.fail_count,
            locked: self.locked,
        }
    }
}

/// A record is deleted when its tombstone timestamp is set.
pub open spec fn spec_is_deleted(u: UserData) -> bool {
    u.deleted != 0
}

/// A record is locked when its lockout timestamp is set.
pub open spec fn spec_is_locked(u: UserData) -> bool {
    u.locked != 0
}

/// What parsing the value part of a store line yields: tokens are assigned
/// positionally, missing ones default to zero or the empty string, and
/// malformed numbers default to zero.
pub open spec fn spec_parse_user(name: Seq<char>, rest: Seq<char>) -> UserData {
    let ts = tokens_of(rest);
    UserData {
        name: name,
        password: if ts.len() > 0 { ts[0] } else { Seq::empty() },
        created: if ts.len() > 1 { parse_i64_or0(ts[1]) } else { 0 },
        updated: if ts.len() > 2 { parse_i64_or0(ts[2]) } else { 0 },
        deleted: if ts.len() > 3 { parse_i64_or0(ts[3]) } else { 0 },
        last_loggedin: if ts.len() > 4 { parse_i64_or0(ts[4]) } else { 0 },
        failed: if ts.len() > 5 { parse_i64_or0(ts[5]) } else { 0 },
        fail_count: if ts.len() > 6 { parse_u64_or0(ts[6]) } else { 0 },
        locked: if ts.len() > 7 { parse_i64_or0(ts[7]) } else { 0 },
    }
}

/// The value part of a record's store line: every field but the name, in
/// canonical order, separated by single spaces.
pub open spec fn user_rest(u: UserData) -> Seq<char> {
    u.password + seq![' '] + dec_i64(u.created) + seq![' '] + dec_i64(u.updated) + seq![' ']
        + dec_i64(u.deleted) + seq![' '] + dec_i64(u.last_loggedin) + seq![' '] + dec_i64(u.failed)
        + seq![' '] + dec_u64(u.fail_count) + seq![' '] + dec_i64(u.locked)
}

/// A record's full store line: the name, a space, then the value part.
pub open spec fn user_line(u: UserData) -> Seq<char> {
    u.name + seq![' '] + user_rest(u)
}

impl User {
    /// A fresh record: created now, never logged in, touched, or locked.
    pub fn new(name: &str, password: &str, now: i64) -> (u: User)
        ensures
            u@ == (UserData {
                name: name@,
                password: password@,
                created: now,
                updated: 0,
                deleted: 0,
                last_loggedin: 0,
                failed: 0,
                fail_count: 0,
                locked: 0,
            }),
    {
        User {
            name: name.to_owned(),
            password: password.to_owned(),
            created: now,
            updated: 0,
            deleted: 0,
            last_loggedin: 0,
            failed: 0,
            fail_count: 0,
            locked: 0,
        }
    }

    /// Parse the value part of a store line, permissively: missing fields
    /// default to empty or zero, malformed numbers to zero.
    pub fn parse(name: &str, rest: &str) -> (u: User)
        ensures
            u@ == spec_parse_user(name@, rest@),
    {
        let ts = split_tokens(rest);
        let ghost tsv = tokens_of(rest@);
        proof {
            assert(views_of(ts@).len() == ts@.len());
        }
        let password = if ts.len() > 0 {
            ts[0].clone()
        } else {
            String::new()
        };
        let created: i64 = if ts.len() > 1 { parse_i64_or_zero(ts[1].as_str()) } else { 0 };
        let updated: i64 = if ts.len() > 2 { parse_i64_or_zero(ts[2].as_str()) } else { 0 };
        let deleted: i64 = if ts.len() > 3 { parse_i64_or_zero(ts[3].as_str()) } else { 0 };
        let last_loggedin: i64 = if ts.len() > 4 { parse_i64_or_zero(ts[4].as_str()) } else { 0 };
        let failed: i64 = if ts.len() > 5 { parse_i64_or_zero(ts[5].as_str()) } else { 0 };
        let fail_count: u64 = if ts.len() > 6 { parse_u64_or_zero(ts[6].as_str()) } else { 0 };
        let locked: i64 = if ts.len() > 7 { parse_i64_or_zero(ts[7].as_str()) } else { 0 };
        User {
            name: name.to_owned(),
            password,
            created,
            updated,
            deleted,
            last_loggedin,
            failed,
            fail_count,
            locked,
        }
    }

    /// Render the record as its full store line (without the newline).
    pub fn to_string(&self) -> (r: String)
        ensures
            r@ == user_line(self@),
    {
        proof {
            reveal_strlit(" ");
        }
        let mut r = String::new();
        r.append(self.name.as_str());
        r.append(" ");
        r.append(self.password.as_str());
        r.append(" ");
        let s_created = i64_to_string(self.created);
        r.append(s_created.as_str());
        r.append(" ");
        let s_updated = i64_to_string(self.updated);
        r.append(s_updated.as_str());
        r.append(" ");
        let s_deleted = i64_to_string(self.deleted);
        r.append(s_deleted.as_str());
        r.append(" ");
        let s_last = i64_to_string(self.last_loggedin);
        r.append(s_last.as_str());
        r.append(" ");
        let s_failed = i64_to_string(self.failed);
        r.append(s_failed.as_str());
        r.append(" ");
        let s_count = u64_to_string(self.fail_count);
        r.append(s_count.as_str());
        r.append(" ");
        let s_locked = i64_to_string(self.locked);
        r.append(s_locked.as_str());
        proof {
            assert(r@ =~= user_line(self@));
        }
        r
    }

    /// An owned copy of the record.
    pub fn duplicate(&self) -> (r: User)
        ensures
            r@ == self@,
    {
        User {
            name: self.name.clone(),
            password: self.password.clone(),
            created: self.created,
            updated: self.updated,
            deleted: self.deleted,
            last_loggedin: self.last_loggedin,
            failed: self.failed,
            fail_count: self.fail_count,
            locked: self.locked,
        }
    }

    /// Whether the record carries a tombstone.
    pub fn is_deleted(&self) -> (r: bool)
        ensures
            r == spec_is_deleted(self@),
    {
        self.deleted != 0
    }

    /// Whether the record is locked out.
    pub fn is_locked(&self) -> (r: bool)
        ensures
            r == spec_is_locked(self@),
    {
        self.locked != 0
    }
}

/// Whether a name or password can be stored faithfully: nonempty and free
/// of whitespace.
pub fn is_valid_field(s: &str) -> (r: bool)
    ensures
        r == valid_token(s@),
{
    if s.unicode_len() == 0 {
        return false;
    }
    match find_ws(s) {
        Some(_) => false,
        None => true,
    }
}

/// Decimal renderings contain no whitespace and are nonempty.
proof fn lemma_dec_i64_token(v: i64)
    ensures
        valid_token(dec_i64(v)),
{
    lemma_dec_digits_val(if v >= 0 { v as nat } else { (-(v as int)) as nat });
    let s = dec_i64(v);
    assert forall|i: int| 0 <= i < s.len() implies !is_ws_char(s[i]) by {
        if v < 0 && i == 0 {
            assert(s[0] == '-');
        } else {
            let d = dec_digits_of(v);
            assert(is_digit_char(if v >= 0 { s[i] } else { d[i - 1] }));
        }
    }
}

/// The digit part of a signed decimal rendering.
spec fn dec_digits_of(v: i64) -> Seq<char> {
    crate::text::dec_digits(if v >= 0 { v as nat } else { (-(v as int)) as nat })
}

/// Unsigned decimal renderings contain no whitespace and are nonempty.
proof fn lemma_dec_u64_token(n: u64)
    ensures
        valid_token(dec_u64(n)),
{
    lemma_dec_digits_val(n as nat);
    let s = dec_u64(n);
    assert forall|i: int| 0 <= i < s.len() implies !is_ws_char(s[i]) by {
        assert(is_digit_char(s[i]));
    }
}

/// The value part of a formatted record tokenizes into exactly its eight
/// fields in order.
proof fn lemma_user_rest_tokens(u: UserData)
    requires
        valid_token(u.password),
    ensures
        tokens_of(user_rest(u)) =~= seq![
            u.password,
            dec_i64(u.created),
            dec_i64(u.updated),
            dec_i64(u.deleted),
            dec_i64(u.last_loggedin),
            dec_i64(u.failed),
            dec_u64(u.fail_count),
            dec_i64(u.locked),
        ],
{
    let sp = seq![' '];
    let t1 = u.password;
    let t2 = dec_i64(u.created);
    let t3 = dec_i64(u.updated);
    let t4 = dec_i64(u.deleted);
    let t5 = dec_i64(u.last_loggedin);
    let t6 = dec_i64(u.failed);
    let t7 = dec_u64(u.fail_count);
    let t8 = dec_i64(u.locked);
    lemma_dec_i64_token(u.created);
    lemma_dec_i64_token(u.updated);
    lemma_dec_i64_token(u.deleted);
    lemma_dec_i64_token(u.last_loggedin);
    lemma_dec_i64_token(u.failed);
    lemma_dec_u64_token(u.fail_count);
    lemma_dec_i64_token(u.locked);
    let r8 = t8;
    let r7 = t7 + sp + r8;
    let r6 = t6 + sp + r7;
    let r5 = t5 + sp + r6;
    let r4 = t4 + sp + r5;
    let r3 = t3 + sp + r4;
    let r2 = t2 + sp + r3;
    let r1 = t1 + sp + r2;
    assert(user_rest(u) =~= r1);
    lemma_tokens_of_single(r8);
    lemma_tokens_of_join(t7, r8);
    lemma_tokens_of_join(t6, r7);
    lemma_tokens_of_join(t5, r6);
    lemma_tokens_of_join(t4, r5);
    lemma_tokens_of_join(t3, r4);
    lemma_tokens_of_join(t2, r3);
    lemma_tokens_of_join(t1, r2);
    assert(tokens_of(r1) =~= seq![t1] + (seq![t2] + (seq![t3] + (seq![t4] + (seq![t5] + (seq![t6]
        + (seq![t7] + seq![t8])))))));
}

/// Formatting then parsing gives the record back, provided its password is a
/// storable field (nonempty, whitespace-free).
pub proof fn lemma_user_round_trip(u: UserData)
    requires
        valid_token(u.password),
    ensures
        spec_parse_user(u.name, user_rest(u)) == u,
{
    lemma_user_rest_tokens(u);
    lemma_i64_round_trip(u.created);
    lemma_i64_round_trip(u.updated);
    lemma_i64_round_trip(u.deleted);
    lemma_i64_round_trip(u.last_loggedin);
    lemma_i64_round_trip(u.failed);
    lemma_u64_round_trip(u.fail_count);
    lemma_i64_round_trip(u.locked);
}

} // verus!
