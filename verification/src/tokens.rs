//! Whitespace tokenization of protocol lines and store records.

use vstd::prelude::*;
use crate::text::{is_ws, is_ws_char, no_ws};

verus! {

/// The views of a sequence of owned strings.
pub open spec fn views_of(v: Seq<String>) -> Seq<Seq<char>> {
    v.map_values(|t: String| t@)
}

/// One step of left-to-right tokenization: `cur` is the (possibly empty)
/// token being collected, `acc` the tokens already emitted.
pub open spec fn tokens_rec(s: Seq<char>, cur: Seq<char>, acc: Seq<Seq<char>>) -> Seq<Seq<char>>
    decreases s.len(),
{
    if s.len() == 0 {
        if cur.len() == 0 {
            acc
        } else {
            acc.push(cur)
        }
    } else if is_ws_char(s[0]) {
        if cur.len() == 0 {
            tokens_rec(s.drop_first(), Seq::empty(), acc)
        } else {
            tokens_rec(s.drop_first(), Seq::empty(), acc.push(cur))
        }
    } else {
        tokens_rec(s.drop_first(), cur.push(s[0]), acc)
    }
}

/// The maximal whitespace-free runs of `s`, in order.
pub open spec fn tokens_of(s: Seq<char>) -> Seq<Seq<char>> {
    tokens_rec(s, Seq::empty(), Seq::empty())
}

/// Tokens already emitted pass through tokenization unchanged.
proof fn lemma_tokens_rec_acc(s: Seq<char>, cur: Seq<char>, acc: Seq<Seq<char>>)
    ensures
        tokens_rec(s, cur, acc) == acc + tokens_rec(s, cur, Seq::empty()),
    decreases s.len(),
{
    if s.len() == 0 {
        if cur.len() == 0 {
            assert(acc + Seq::<Seq<char>>::empty() =~= acc);
        } else {
            assert(acc + Seq::<Seq<char>>::empty().push(cur) =~= acc.push(cur));
        }
    } else if is_ws_char(s[0]) {
        if cur.len() == 0 {
            lemma_tokens_rec_acc(s.drop_first(), Seq::empty(), acc);
        } else {
            lemma_tokens_rec_acc(s.drop_first(), Seq::empty(), acc.push(cur));
            lemma_tokens_rec_acc(s.drop_first(), Seq::empty(), Seq::<Seq<char>>::empty().push(cur));
            assert(acc.push(cur) + tokens_rec(s.drop_first(), Seq::empty(), Seq::empty()) =~= acc
                + (Seq::<Seq<char>>::empty().push(cur) + tokens_rec(
                s.drop_first(),
                Seq::empty(),
                Seq::empty(),
            )));
        }
    } else {
        lemma_tokens_rec_acc(s.drop_first(), cur.push(s[0]), acc);
    }
}

/// Consuming a whitespace-free run extends the current token.
proof fn lemma_tokens_rec_nonws(t: Seq<char>, s: Seq<char>, cur: Seq<char>, acc: Seq<Seq<char>>)
    requires
        no_ws(t),
    ensures
        tokens_rec(t + s, cur, acc) == tokens_rec(s, cur + t, acc),
    decreases t.len(),
{
    if t.len() == 0 {
        assert(t + s =~= s);
        assert(cur + t =~= cur);
    } else {
        assert((t + s)[0] == t[0]);
        assert(!is_ws_char(t[0]));
        assert((t + s).drop_first() =~= t.drop_first() + s);
        assert(no_ws(t.drop_first()));
        lemma_tokens_rec_nonws(t.drop_first(), s, cur.push(t[0]), acc);
        assert(cur.push(t[0]) + t.drop_first() =~= cur + t);
    }
}

/// A single whitespace-free, nonempty run is one token.
pub proof fn lemma_tokens_of_single(t: Seq<char>)
    requires
        t.len() > 0,
        no_ws(t),
    ensures
        tokens_of(t) == seq![t],
{
    lemma_tokens_rec_nonws(t, Seq::empty(), Seq::empty(), Seq::empty());
    assert(t + Seq::<char>::empty() =~= t);
    assert(Seq::<char>::empty() + t =~= t);
    assert(tokens_rec(Seq::<char>::empty(), t, Seq::empty()) =~= seq![t]);
}

/// A token followed by a space splits off as the first token.
pub proof fn lemma_tokens_of_join(t: Seq<char>, rest: Seq<char>)
    requires
        t.len() > 0,
        no_ws(t),
    ensures
        tokens_of(t + seq![' '] + rest) == seq![t] + tokens_of(rest),
{
    let sp = seq![' '];
    assert(t + sp + rest =~= t + (sp + rest));
    lemma_tokens_rec_nonws(t, sp + rest, Seq::empty(), Seq::empty());
    assert(Seq::<char>::empty() + t =~= t);
    assert((sp + rest)[0] == ' ');
    assert(is_ws_char(' '));
    assert((sp + rest).drop_first() =~= rest);
    assert(tokens_rec(sp + rest, t, Seq::empty()) == tokens_rec(
        rest,
        Seq::empty(),
        Seq::<Seq<char>>::empty().push(t),
    ));
    lemma_tokens_rec_acc(rest, Seq::empty(), Seq::<Seq<char>>::empty().push(t));
    assert(Seq::<Seq<char>>::empty().push(t) =~= seq![t]);
}

/// Split a string into its whitespace-separated tokens.
pub fn split_tokens(s: &str) -> (r: Vec<String>)
    ensures
        views_of(r@) == tokens_of(s@),
{
    let n: usize = s.unicode_len();
    let mut acc: Vec<String> = Vec::new();
    let mut cur = String::new();
    let mut i: usize = 0;
    proof {
        assert(s@.skip(0) =~= s@);
        assert(views_of(acc@) =~= Seq::<Seq<char>>::empty());
    }
    while i < n
        invariant
            i <= n,
            n == s@.len(),
            tokens_rec(s@.skip(i as int), cur@, views_of(acc@)) == tokens_of(s@),
        decreases n - i,
    {
        let ghost pre_acc = acc@;
        let ghost pre_cur = cur@;
        proof {
            assert(s@.skip(i as int)[0] == s@[i as int]);
            assert(s@.skip(i as int).drop_first() =~= s@.skip(i + 1));
        }
        let c = s.get_char(i);
        if is_ws(c) {
            if cur.unicode_len() > 0 {
                acc.push(cur);
                cur = String::new();
                proof {
                    assert(views_of(acc@) =~= views_of(pre_acc).push(pre_cur));
                }
            } else {
                proof {
                    assert(cur@ =~= Seq::<char>::empty());
                }
            }
        } else {
            let piece = s.substring_char(i, i + 1);
            cur.append(piece);
            proof {
                assert(piece@ =~= seq![s@[i as int]]);
                assert(cur@ =~= pre_cur.push(s@[i as int]));
            }
        }
        i += 1;
    }
    proof {
        assert(s@.skip(n as int) =~= Seq::<char>::empty());
    }
    if cur.unicode_len() > 0 {
        let ghost pre_acc = acc@;
        let ghost pre_cur = cur@;
        acc.push(cur);
        proof {
            assert(views_of(acc@) =~= views_of(pre_acc).push(pre_cur));
        }
    }
    acc
}

/// The index of the first whitespace character, or the length when there is
/// none.
pub open spec fn first_ws_idx(s: Seq<char>) -> int
    decreases s.len(),
{
    if s.len() == 0 {
        0
    } else if is_ws_char(s[0]) {
        0
    } else {
        1 + first_ws_idx(s.drop_first())
    }
}

/// The characterization of [`first_ws_idx`]: it is the position before
/// which nothing is whitespace and at which (if in range) whitespace sits.
pub proof fn lemma_first_ws_idx(s: Seq<char>, k: int)
    requires
        0 <= k <= s.len(),
        forall|j: int| 0 <= j < k ==> !is_ws_char(s[j]),
        k < s.len() ==> is_ws_char(s[k]),
    ensures
        first_ws_idx(s) == k,
    decreases k,
{
    if k == 0 {
    } else {
        assert(!is_ws_char(s[0]));
        let t = s.drop_first();
        assert(forall|j: int| 0 <= j < k - 1 ==> t[j] == s[j + 1] && !is_ws_char(s[j + 1]));
        if k - 1 < t.len() {
            assert(t[k - 1] == s[k]);
        }
        lemma_first_ws_idx(t, k - 1);
    }
}

/// Splitting a line built from a whitespace-free key, a space, and a value:
/// the key is everything before the first whitespace and the value
/// everything after it.
pub proof fn lemma_line_split(t: Seq<char>, rest: Seq<char>)
    requires
        t.len() > 0,
        no_ws(t),
    ensures
        !no_ws(t + seq![' '] + rest),
        first_ws_idx(t + seq![' '] + rest) == t.len(),
        (t + seq![' '] + rest).take(t.len() as int) == t,
        (t + seq![' '] + rest).skip(t.len() as int + 1) == rest,
{
    let line = t + seq![' '] + rest;
    assert(line[t.len() as int] == ' ');
    assert(is_ws_char(' '));
    assert(forall|j: int| 0 <= j < t.len() ==> line[j] == t[j]);
    lemma_first_ws_idx(line, t.len() as int);
    assert(line.take(t.len() as int) =~= t);
    assert(line.skip(t.len() as int + 1) =~= rest);
}

/// The index of the first whitespace character, if any: `Some(i)` means the
/// character at `i` is whitespace and none before it is.
pub fn find_ws(s: &str) -> (r: Option<usize>)
    ensures
        match r {
            Some(i) => i < s@.len() && is_ws_char(s@[i as int]) && (forall|j: int|
                0 <= j < i ==> !is_ws_char(s@[j])),
            None => no_ws(s@),
        },
{
    let n: usize = s.unicode_len();
    let mut i: usize = 0;
    while i < n
        invariant
            i <= n,
            n == s@.len(),
            forall|j: int| 0 <= j < i ==> !is_ws_char(s@[j]),
        decreases n - i,
    {
        if is_ws(s.get_char(i)) {
            return Some(i);
        }
        i += 1;
    }
    None
}

} // verus!
