//! The save protocol's verified side: merging the exported store text with
//! the overlay tiers, and the law that importing the merged text yields the
//! store the overlays described.
//!
//! The surrounding pipeline — export the live store to text, write the
//! merged text, build a fresh store from it, atomically rename it over the
//! live one — is file work done by the caller; the merge itself and the
//! bookkeeping after a successful swap live here.

use vstd::prelude::*;
use crate::manager::SessionManager;
use crate::tokens::{
    views_of, find_ws, first_ws_idx, lemma_first_ws_idx, lemma_line_split,
};
use crate::text::no_ws;
use crate::user::{
    User, UserData, user_line, user_rest, valid_token, spec_parse_user, lemma_user_round_trip,
};

verus! {

/// The key of a store line: everything before the first whitespace.
pub open spec fn line_key(line: Seq<char>) -> Seq<char> {
    line.take(first_ws_idx(line))
}

/// The value of a store line: everything after the first whitespace.
pub open spec fn line_val(line: Seq<char>) -> Seq<char> {
    line.skip(first_ws_idx(line) + 1)
}

/// One line of a store as the export writes it: key, space, value.
pub open spec fn export_line(k: Seq<char>, v: Seq<char>) -> Seq<char> {
    k + seq![' '] + v
}

/// What the merge makes of one exported line: a line without whitespace is
/// dropped; a line whose key the updated tier holds is replaced by that
/// record's line; any other line passes through unchanged.
pub open spec fn merge_one(upd: Map<Seq<char>, UserData>, line: Seq<char>) -> Seq<Seq<char>> {
    if no_ws(line) {
        Seq::empty()
    } else if upd.contains_key(line_key(line)) {
        seq![user_line(upd[line_key(line)])]
    } else {
        seq![line]
    }
}

/// The merge of all exported lines, in order.
pub open spec fn merge_lines(upd: Map<Seq<char>, UserData>, lines: Seq<Seq<char>>) -> Seq<
    Seq<char>,
>
    decreases lines.len(),
{
    if lines.len() == 0 {
        Seq::empty()
    } else {
        merge_lines(upd, lines.drop_last()) + merge_one(upd, lines.last())
    }
}

/// The store lines of the created tier's records, in tier order.
pub open spec fn created_lines(v: Seq<User>) -> Seq<Seq<char>> {
    v.map_values(|u: User| user_line(u@))
}

/// What building a store from text yields: each line is split at its first
/// whitespace into key and value, lines without whitespace are dropped, and
/// the last of duplicate keys wins.
pub open spec fn lines_to_map(lines: Seq<Seq<char>>) -> Map<Seq<char>, Seq<char>>
    decreases lines.len(),
{
    if lines.len() == 0 {
        Map::empty()
    } else {
        let m = lines_to_map(lines.drop_last());
        let line = lines.last();
        if no_ws(line) {
            m
        } else {
            m.insert(line_key(line), line_val(line))
        }
    }
}

/// The store after a successful save: every name the store or the created
/// tier knew, with updated records' lines taking precedence, then created
/// records' lines, then the store's old values.
pub open spec fn saved_disk(
    disk: Map<Seq<char>, Seq<char>>,
    created: Map<Seq<char>, UserData>,
    updated: Map<Seq<char>, UserData>,
) -> Map<Seq<char>, Seq<char>> {
    Map::new(
        |n: Seq<char>| disk.contains_key(n) || created.contains_key(n),
        |n: Seq<char>|
            if updated.contains_key(n) {
                user_rest(updated[n])
            } else if created.contains_key(n) {
                user_rest(created[n])
            } else {
                disk[n]
            },
    )
}

/// What the export writes for a store: one line per stored name, in some
/// order `keys` that enumerates the store's names without repetition.
pub open spec fn export_encodes(
    lines: Seq<Seq<char>>,
    keys: Seq<Seq<char>>,
    disk: Map<Seq<char>, Seq<char>>,
) -> bool {
    &&& lines.len() == keys.len()
    &&& (forall|i: int|
        0 <= i < keys.len() ==> valid_token(#[trigger] keys[i]) && disk.contains_key(keys[i])
            && lines[i] == export_line(keys[i], disk[keys[i]]))
    &&& (forall|i: int, j: int| 0 <= i < j < keys.len() ==> keys[i] != keys[j])
    &&& (forall|n: Seq<char>|
        #[trigger] disk.contains_key(n) ==> exists|i: int| 0 <= i < keys.len() && keys[i] == n)
}

/// Building a store from concatenated text: the later part's keys win.
proof fn lemma_ltm_concat(a: Seq<Seq<char>>, b: Seq<Seq<char>>)
    ensures
        forall|n: Seq<char>|
            #[trigger] lines_to_map(a + b).contains_key(n) <==> (lines_to_map(a).contains_key(n)
                || lines_to_map(b).contains_key(n)),
        forall|n: Seq<char>|
            #[trigger] lines_to_map(b).contains_key(n) ==> lines_to_map(a + b)[n] == lines_to_map(
                b,
            )[n],
        forall|n: Seq<char>|
            !lines_to_map(b).contains_key(n) && #[trigger] lines_to_map(a).contains_key(n)
                ==> lines_to_map(a + b)[n] == lines_to_map(a)[n],
    decreases b.len(),
{
    if b.len() == 0 {
        assert(a + b =~= a);
    } else {
        let b0 = b.drop_last();
        let line = b.last();
        assert((a + b).drop_last() =~= a + b0);
        assert((a + b).last() == line);
        lemma_ltm_concat(a, b0);
        if no_ws(line) {
            assert(lines_to_map(a + b) == lines_to_map(a + b0));
            assert(lines_to_map(b) == lines_to_map(b0));
        } else {
            let k = line_key(line);
            let v = line_val(line);
            assert(lines_to_map(a + b) == lines_to_map(a + b0).insert(k, v));
            assert(lines_to_map(b) == lines_to_map(b0).insert(k, v));
            assert forall|n: Seq<char>| #[trigger]
                lines_to_map(b).contains_key(n) implies lines_to_map(a + b)[n] == lines_to_map(
                b,
            )[n] by {
                if n != k {
                    assert(lines_to_map(b0).contains_key(n));
                }
            }
            assert forall|n: Seq<char>|
                !lines_to_map(b).contains_key(n) && #[trigger] lines_to_map(a).contains_key(
                    n,
                ) implies lines_to_map(a + b)[n] == lines_to_map(a)[n] by {
                assert(n != k);
                assert(!lines_to_map(b0).contains_key(n));
            }
        }
    }
}

/// The merged store lines denote exactly the store's names, each carrying
/// its updated record's line when the updated tier holds it and its old
/// value otherwise.
proof fn lemma_merge_part(
    upd: Map<Seq<char>, UserData>,
    disk: Map<Seq<char>, Seq<char>>,
    lines: Seq<Seq<char>>,
    keys: Seq<Seq<char>>,
)
    requires
        lines.len() == keys.len(),
        forall|i: int|
            0 <= i < keys.len() ==> valid_token(#[trigger] keys[i]) && disk.contains_key(keys[i])
                && lines[i] == export_line(keys[i], disk[keys[i]]),
        forall|i: int, j: int| 0 <= i < j < keys.len() ==> keys[i] != keys[j],
        forall|n: Seq<char>| #[trigger] upd.contains_key(n) ==> upd[n].name == n,
    ensures
        forall|n: Seq<char>|
            #[trigger] lines_to_map(merge_lines(upd, lines)).contains_key(n) <==> exists|i: int|
                0 <= i < keys.len() && keys[i] == n,
        forall|i: int|
            0 <= i < keys.len() ==> lines_to_map(merge_lines(upd, lines))[#[trigger] keys[i]]
                == (if upd.contains_key(keys[i]) {
                user_rest(upd[keys[i]])
            } else {
                disk[keys[i]]
            }),
    decreases lines.len(),
{
    if lines.len() == 0 {
    } else {
        let len = lines.len() as int;
        let lines0 = lines.drop_last();
        let keys0 = keys.drop_last();
        assert(forall|i: int| 0 <= i < len - 1 ==> lines0[i] == lines[i] && keys0[i] == keys[i]);
        lemma_merge_part(upd, disk, lines0, keys0);
        let k = keys.last();
        let line = lines.last();
        assert(keys[len - 1] == k && lines[len - 1] == line);
        assert(valid_token(k));
        lemma_line_split(k, disk[k]);
        assert(line_key(line) == k);
        assert(line_val(line) == disk[k]);
        let merged0 = merge_lines(upd, lines0);
        let one = merge_one(upd, line);
        assert(merge_lines(upd, lines) == merged0 + one);
        let x: Seq<char> = if upd.contains_key(k) {
            user_line(upd[k])
        } else {
            line
        };
        if upd.contains_key(k) {
            assert(upd[k].name == k);
            lemma_line_split(k, user_rest(upd[k]));
            assert(line_key(x) == k);
            assert(line_val(x) == user_rest(upd[k]));
        }
        assert(one =~= seq![x]);
        assert((merged0 + one).drop_last() =~= merged0);
        assert((merged0 + one).last() == x);
        assert(!no_ws(x));
        let m = lines_to_map(merge_lines(upd, lines));
        assert(m == lines_to_map(merged0).insert(
            k,
            if upd.contains_key(k) {
                user_rest(upd[k])
            } else {
                disk[k]
            },
        ));
        assert forall|n: Seq<char>| #[trigger]
            m.contains_key(n) implies exists|i: int| 0 <= i < keys.len() && keys[i] == n by {
            if n == k {
                assert(keys[len - 1] == n);
            } else {
                let i = choose|i: int| 0 <= i < keys0.len() && keys0[i] == n;
                assert(keys[i] == n);
            }
        }
        assert forall|n: Seq<char>|
            (exists|i: int| 0 <= i < keys.len() && keys[i] == n) implies #[trigger] m.contains_key(
            n,
        ) by {
            let i = choose|i: int| 0 <= i < keys.len() && keys[i] == n;
            if i < len - 1 {
                assert(keys0[i] == n);
                assert(lines_to_map(merged0).contains_key(n));
            }
        }
        assert forall|i: int| 0 <= i < keys.len() implies m[#[trigger] keys[i]] == (
        if upd.contains_key(keys[i]) {
            user_rest(upd[keys[i]])
        } else {
            disk[keys[i]]
        }) by {
            if i < len - 1 {
                assert(keys0[i] == keys[i]);
                assert(keys[i] != k);
            }
        }
    }
}

/// The created tier's lines denote exactly its records.
proof fn lemma_created_lines_map(v: Seq<User>)
    requires
        forall|i: int, j: int| 0 <= i < j < v.len() ==> v[i].name@ != v[j].name@,
        forall|i: int| 0 <= i < v.len() ==> valid_token(#[trigger] v[i].name@),
    ensures
        forall|n: Seq<char>|
            #[trigger] lines_to_map(created_lines(v)).contains_key(n) <==> exists|i: int|
                0 <= i < v.len() && v[i].name@ == n,
        forall|i: int|
            0 <= i < v.len() ==> lines_to_map(created_lines(v))[#[trigger] v[i].name@]
                == user_rest(v[i]@),
    decreases v.len(),
{
    if v.len() == 0 {
    } else {
        let len = v.len() as int;
        let v0 = v.drop_last();
        assert(forall|i: int| 0 <= i < len - 1 ==> v0[i] == v[i]);
        lemma_created_lines_map(v0);
        let u = v.last();
        let line = user_line(u@);
        lemma_line_split(u.name@, user_rest(u@));
        assert(line_key(line) == u.name@);
        assert(line_val(line) == user_rest(u@));
        assert(created_lines(v).drop_last() =~= created_lines(v0));
        assert(created_lines(v).last() == line);
        let m = lines_to_map(created_lines(v));
        assert(m == lines_to_map(created_lines(v0)).insert(u.name@, user_rest(u@)));
        assert forall|n: Seq<char>| #[trigger]
            m.contains_key(n) implies exists|i: int| 0 <= i < v.len() && v[i].name@ == n by {
            if n == u.name@ {
                assert(v[len - 1].name@ == n);
            } else {
                let i = choose|i: int| 0 <= i < v0.len() && v0[i].name@ == n;
                assert(v[i].name@ == n);
            }
        }
        assert forall|n: Seq<char>|
            (exists|i: int| 0 <= i < v.len() && v[i].name@ == n) implies #[trigger] m.contains_key(
            n,
        ) by {
            let i = choose|i: int| 0 <= i < v.len() && v[i].name@ == n;
            if i < len - 1 {
                assert(v0[i].name@ == n);
                assert(lines_to_map(created_lines(v0)).contains_key(n));
            }
        }
        assert forall|i: int| 0 <= i < v.len() implies m[#[trigger] v[i].name@] == user_rest(
            v[i]@,
        ) by {
            if i < len - 1 {
                assert(v0[i].name@ == v[i].name@);
                assert(v[i].name@ != u.name@);
            }
        }
    }
}

/// The law of the save protocol: when the exported lines faithfully list
/// the store, building a fresh store from the merged text yields exactly
/// the saved store — every name formerly in either overlay tier now reads
/// as that tier's record, every other stored name keeps its old value, and
/// no other name exists.
pub proof fn lemma_save_reflects(m: SessionManager, lines: Seq<Seq<char>>, keys: Seq<Seq<char>>)
    requires
        m.inv(),
        export_encodes(lines, keys, m.disk@),
    ensures
        lines_to_map(merge_lines(m.updated_users@, lines) + created_lines(m.created_users.v@))
            == saved_disk(m.disk@, m.created_users@, m.updated_users@),
{
    let disk = m.disk@;
    let upd = m.updated_users@;
    let created = m.created_users@;
    let cv = m.created_users.v@;
    m.updated_users.lemma_keyed();
    m.created_users.lemma_keyed();
    m.created_users.lemma_dom();
    assert forall|i: int| 0 <= i < cv.len() implies valid_token(#[trigger] cv[i].name@) by {
        m.created_users.lemma_entry(i);
    }
    assert forall|i: int, j: int| 0 <= i < j < cv.len() implies cv[i].name@ != cv[j].name@ by {
        assert(m.created_users.entries()[i].0 == cv[i].name@);
        assert(m.created_users.entries()[j].0 == cv[j].name@);
    }
    lemma_merge_part(upd, disk, lines, keys);
    lemma_created_lines_map(cv);
    let a = merge_lines(upd, lines);
    let b = created_lines(cv);
    lemma_ltm_concat(a, b);
    let lhs = lines_to_map(a + b);
    let rhs = saved_disk(disk, created, upd);
    assert forall|n: Seq<char>| #[trigger]
        lhs.contains_key(n) implies rhs.contains_key(n) && lhs[n] == rhs[n] by {
        if lines_to_map(b).contains_key(n) {
            let i = choose|i: int| 0 <= i < cv.len() && cv[i].name@ == n;
            m.created_users.lemma_entry(i);
            assert(created.contains_key(n));
            assert(created[n] == cv[i]@);
            assert(!disk.contains_key(n));
            assert(!upd.contains_key(n));
            assert(lhs[n] == user_rest(created[n]));
        } else {
            assert(lines_to_map(a).contains_key(n));
            let i = choose|i: int| 0 <= i < keys.len() && keys[i] == n;
            assert(disk.contains_key(n));
            if created.contains_key(n) {
                assert(!disk.contains_key(n));
            }
            assert(lhs[n] == lines_to_map(a)[n]);
            assert(lines_to_map(a)[keys[i]] == (if upd.contains_key(keys[i]) {
                user_rest(upd[keys[i]])
            } else {
                disk[keys[i]]
            }));
        }
    }
    assert forall|n: Seq<char>| #[trigger] rhs.contains_key(n) implies lhs.contains_key(n) by {
        if disk.contains_key(n) {
            assert(lines_to_map(a).contains_key(n));
        } else {
            assert(created.contains_key(n));
            assert(lines_to_map(b).contains_key(n));
        }
    }
    assert(lhs =~= rhs);
}

/// A record sitting in an overlay tier reads back from the saved store as
/// itself: looking its name up and parsing the stored value restores the
/// record, for created records and for updated records with a storable
/// password.
pub proof fn lemma_saved_record_reads_back(m: SessionManager, n: Seq<char>)
    requires
        m.inv(),
        m.created_users@.contains_key(n) || (m.updated_users@.contains_key(n) && valid_token(
            m.updated_users@[n].password,
        )),
    ensures
        saved_disk(m.disk@, m.created_users@, m.updated_users@).contains_key(n),
        spec_parse_user(n, saved_disk(m.disk@, m.created_users@, m.updated_users@)[n]) == (
        if m.updated_users@.contains_key(n) {
            m.updated_users@[n]
        } else {
            m.created_users@[n]
        }),
{
    if m.updated_users@.contains_key(n) {
        lemma_user_round_trip(m.updated_users@[n]);
    } else {
        lemma_user_round_trip(m.created_users@[n]);
    }
}

impl SessionManager {
    /// Merge the exported store text with the overlay tiers: each line
    /// whose name the updated tier holds is replaced by that record's
    /// current line, every other line passes through, and the created
    /// tier's records are appended at the end.
    pub fn merge_for_save(&self, old_lines: &Vec<String>) -> (out: Vec<String>)
        requires
            self.inv(),
        ensures
            views_of(out@) == merge_lines(self.updated_users@, views_of(old_lines@))
                + created_lines(self.created_users.v@),
    {
        let ghost upd = self.updated_users@;
        let ghost linesv = views_of(old_lines@);
        let mut out: Vec<String> = Vec::new();
        proof {
            assert(views_of(out@) =~= Seq::<Seq<char>>::empty());
            assert(linesv.take(0) =~= Seq::<Seq<char>>::empty());
        }
        let n: usize = old_lines.len();
        let mut i: usize = 0;
        while i < n
            invariant
                i <= n,
                n == old_lines@.len(),
                self.inv(),
                upd == self.updated_users@,
                linesv == views_of(old_lines@),
                views_of(out@) == merge_lines(upd, linesv.take(i as int)),
            decreases n - i,
        {
            let ghost pre_out = out@;
            let line: &String = &old_lines[i];
            proof {
                assert(line@ == linesv[i as int]);
            }
            match find_ws(line.as_str()) {
                None => {
                    proof {
                        assert(merge_one(upd, line@) =~= Seq::<Seq<char>>::empty());
                    }
                },
                Some(p) => {
                    proof {
                        lemma_first_ws_idx(line@, p as int);
                        assert(!no_ws(line@));
                    }
                    let key: &str = line.as_str().substring_char(0, p);
                    proof {
                        assert(key@ =~= line_key(line@));
                    }
                    match self.updated_users.get(key) {
                        Some(u) => {
                            let merged = u.to_string();
                            out.push(merged);
                        },
                        None => {
                            out.push(line.clone());
                        },
                    }
                    proof {
                        assert(views_of(out@) =~= views_of(pre_out) + merge_one(upd, line@));
                    }
                },
            }
            proof {
                assert(linesv.take(i + 1).drop_last() =~= linesv.take(i as int));
                assert(linesv.take(i + 1).last() == line@);
                assert(views_of(out@) =~= merge_lines(upd, linesv.take(i + 1)));
            }
            i += 1;
        }
        proof {
            assert(linesv.take(n as int) =~= linesv);
        }
        let ghost merged_all = merge_lines(upd, linesv);
        let m: usize = self.created_users.v.len();
        let mut j: usize = 0;
        proof {
            assert(created_lines(self.created_users.v@.take(0)) =~= Seq::<Seq<char>>::empty());
            assert(views_of(out@) =~= merged_all + created_lines(self.created_users.v@.take(0)));
        }
        while j < m
            invariant
                j <= m,
                m == self.created_users.v@.len(),
                self.inv(),
                views_of(out@) == merged_all + created_lines(self.created_users.v@.take(j as int)),
            decreases m - j,
        {
            let ghost pre_out = out@;
            let line = self.created_users.v[j].to_string();
            out.push(line);
            proof {
                assert(views_of(out@) =~= views_of(pre_out).push(
                    user_line(self.created_users.v@[j as int]@),
                ));
                assert(created_lines(self.created_users.v@.take(j + 1)) =~= created_lines(
                    self.created_users.v@.take(j as int),
                ).push(user_line(self.created_users.v@[j as int]@)));
                assert(views_of(out@) =~= merged_all + created_lines(
                    self.created_users.v@.take(j + 1),
                ));
            }
            j += 1;
        }
        proof {
            assert(self.created_users.v@.take(m as int) =~= self.created_users.v@);
        }
        out
    }

    /// Record a committed save: the freshly built store has been renamed
    /// over the live one, so the overlay tiers empty out and the store
    /// model becomes the merged store.
    pub fn commit_save(&mut self)
        requires
            old(self).inv(),
        ensures
            final(self).inv(),
            final(self).sessions == old(self).sessions,
            final(self).seqno == old(self).seqno,
            final(self).dir == old(self).dir,
            final(self).path_users_cdb == old(self).path_users_cdb,
            final(self).created_users@ == Map::<Seq<char>, UserData>::empty(),
            final(self).updated_users@ == Map::<Seq<char>, UserData>::empty(),
            final(self).disk@ == saved_disk(
                old(self).disk@,
                old(self).created_users@,
                old(self).updated_users@,
            ),
    {
        self.created_users.clear();
        self.updated_users.clear();
        proof {
            self.disk@ = saved_disk(
                old(self).disk@,
                old(self).created_users@,
                old(self).updated_users@,
            );
            assert forall|n: Seq<char>| #[trigger]
                self.disk@.contains_key(n) implies valid_token(n) by {
                if old(self).disk@.contains_key(n) {
                } else {
                    assert(old(self).created_users@.contains_key(n));
                }
            }
        }
    }
}

} // verus!
