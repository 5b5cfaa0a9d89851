//! Character-level text helpers: whitespace classification, string equality,
//! hexadecimal encoding, and decimal formatting and parsing.

use vstd::prelude::*;

verus! {

/// The whitespace characters that separate fields of the store's line format
/// (the ASCII whitespace set).
pub open spec fn is_ws_char(c: char) -> bool {
    c == ' ' || c == '\t' || c == '\n' || c == '\r' || c == '\x0b' || c == '\x0c'
}

/// Executable counterpart of [`is_ws_char`].
pub fn is_ws(c: char) -> (r: bool)
    ensures
        r == is_ws_char(c),
{
    c == ' ' || c == '\t' || c == '\n' || c == '\r' || c == '\x0b' || c == '\x0c'
}

/// A sequence with no whitespace character in it.
pub open spec fn no_ws(s: Seq<char>) -> bool {
    forall|i: int| 0 <= i < s.len() ==> !is_ws_char(s[i])
}

/// Character-by-character string comparison.
pub fn str_eq(a: &str, b: &str) -> (r: bool)
    ensures
        r == (a@ == b@),
{
    let alen: usize = a.unicode_len();
    let blen: usize = b.unicode_len();
    if alen != blen {
        return false;
    }
    let mut i: usize = 0;
    while i < alen
        invariant
            alen == a@.len(),
            blen == b@.len(),
            alen == blen,
            i <= alen,
            forall|j: int| 0 <= j < i ==> a@[j] == b@[j],
        decreases alen - i,
    {
        if a.get_char(i) != b.get_char(i) {
            return false;
        }
        i += 1;
    }
    proof {
        assert(a@ =~= b@);
    }
    true
}

/// The uppercase hexadecimal digit for a value below sixteen.
pub open spec fn hex_digit_char(d: int) -> char {
    if d == 0 { '0' }
    else if d == 1 { '1' }
    else if d == 2 { '2' }
    else if d == 3 { '3' }
    else if d == 4 { '4' }
    else if d == 5 { '5' }
    else if d == 6 { '6' }
    else if d == 7 { '7' }
    else if d == 8 { '8' }
    else if d == 9 { '9' }
    else if d == 10 { 'A' }
    else if d == 11 { 'B' }
    else if d == 12 { 'C' }
    else if d == 13 { 'D' }
    else if d == 14 { 'E' }
    else { 'F' }
}

/// Two uppercase hexadecimal digits of one byte, high digit first.
pub open spec fn hex_of_byte(b: u8) -> Seq<char> {
    seq![hex_digit_char(b as int / 16), hex_digit_char(b as int % 16)]
}

/// Uppercase hexadecimal encoding of a byte sequence.
pub open spec fn hex_of(bs: Seq<u8>) -> Seq<char>
    decreases bs.len(),
{
    if bs.len() == 0 {
        Seq::empty()
    } else {
        hex_of(bs.drop_last()) + hex_of_byte(bs.last())
    }
}

/// Hexadecimal encoding yields two characters per byte.
pub proof fn lemma_hex_len(bs: Seq<u8>)
    ensures
        hex_of(bs).len() == 2 * bs.len(),
    decreases bs.len(),
{
    if bs.len() > 0 {
        lemma_hex_len(bs.drop_last());
    }
}

/// A one-character string literal for each hexadecimal digit value.
fn hex_digit_str(d: u8) -> (r: &'static str)
    requires
        d < 16,
    ensures
        r@ == seq![hex_digit_char(d as int)],
{
    proof {
        reveal_strlit("0");
        reveal_strlit("1");
        reveal_strlit("2");
        reveal_strlit("3");
        reveal_strlit("4");
        reveal_strlit("5");
        reveal_strlit("6");
        reveal_strlit("7");
        reveal_strlit("8");
        reveal_strlit("9");
        reveal_strlit("A");
        reveal_strlit("B");
        reveal_strlit("C");
        reveal_strlit("D");
        reveal_strlit("E");
        reveal_strlit("F");
    }
    let r: &'static str = if d == 0 { "0" }
    else if d == 1 { "1" }
    else if d == 2 { "2" }
    else if d == 3 { "3" }
    else if d == 4 { "4" }
    else if d == 5 { "5" }
    else if d == 6 { "6" }
    else if d == 7 { "7" }
    else if d == 8 { "8" }
    else if d == 9 { "9" }
    else if d == 10 { "A" }
    else if d == 11 { "B" }
    else if d == 12 { "C" }
    else if d == 13 { "D" }
    else if d == 14 { "E" }
    else { "F" };
    proof {
        assert(r@ =~= seq![hex_digit_char(d as int)]);
    }
    r
}

/// Uppercase hexadecimal encoding of a byte slice, two digits per byte.
pub fn bytes_to_string(bytes: &[u8]) -> (r: String)
    ensures
        r@ == hex_of(bytes@),
{
    let mut r = String::new();
    let n: usize = bytes.len();
    let mut i: usize = 0;
    while i < n
        invariant
            n == bytes@.len(),
            i <= n,
            r@ == hex_of(bytes@.take(i as int)),
        decreases n - i,
    {
        let b: u8 = bytes[i];
        r.append(hex_digit_str(b / 16));
        r.append(hex_digit_str(b % 16));
        proof {
            assert(bytes@.take(i + 1 as int).drop_last() =~= bytes@.take(i as int));
            assert(bytes@.take(i + 1 as int).last() == b);
        }
        i += 1;
    }
    proof {
        assert(bytes@.take(n as int) =~= bytes@);
    }
    r
}

/// Whether a character is a decimal digit.
pub open spec fn is_digit_char(c: char) -> bool {
    c == '0' || c == '1' || c == '2' || c == '3' || c == '4' || c == '5' || c == '6' || c == '7'
        || c == '8' || c == '9'
}

/// The value of a decimal digit character.
pub open spec fn digit_val(c: char) -> int {
    if c == '0' { 0 }
    else if c == '1' { 1 }
    else if c == '2' { 2 }
    else if c == '3' { 3 }
    else if c == '4' { 4 }
    else if c == '5' { 5 }
    else if c == '6' { 6 }
    else if c == '7' { 7 }
    else if c == '8' { 8 }
    else { 9 }
}

/// Whether every character of the sequence is a decimal digit.
pub open spec fn all_digits(s: Seq<char>) -> bool {
    forall|i: int| 0 <= i < s.len() ==> is_digit_char(s[i])
}

/// The number denoted by a sequence of decimal digits, most significant first.
pub open spec fn digits_val(s: Seq<char>) -> int
    decreases s.len(),
{
    if s.len() == 0 {
        0
    } else {
        digits_val(s.drop_last()) * 10 + digit_val(s.last())
    }
}

/// The canonical decimal digits of a natural number (no sign, no leading zeros).
pub open spec fn dec_digits(n: nat) -> Seq<char>
    decreases n,
{
    if n < 10 {
        seq![hex_digit_char(n as int)]
    } else {
        dec_digits(n / 10).push(hex_digit_char((n % 10) as int))
    }
}

/// The canonical decimal rendering of an unsigned 64-bit number.
pub open spec fn dec_u64(n: u64) -> Seq<char> {
    dec_digits(n as nat)
}

/// The canonical decimal rendering of a signed 64-bit number.
pub open spec fn dec_i64(v: i64) -> Seq<char> {
    if v >= 0 {
        dec_digits(v as nat)
    } else {
        seq!['-'] + dec_digits((-(v as int)) as nat)
    }
}

/// What `u64` decimal parsing accepts: an optional leading plus sign, then at
/// least one digit, denoting a value that fits.
pub open spec fn parse_u64_val(s: Seq<char>) -> Option<u64> {
    let body = if s.len() > 0 && s[0] == '+' { s.drop_first() } else { s };
    if body.len() > 0 && all_digits(body) && digits_val(body) <= u64::MAX as int {
        Some(digits_val(body) as u64)
    } else {
        None
    }
}

/// What `i64` decimal parsing accepts: an optional sign, then at least one
/// digit, denoting a value that fits.
pub open spec fn parse_i64_val(s: Seq<char>) -> Option<i64> {
    if s.len() > 0 && s[0] == '-' {
        let body = s.drop_first();
        if body.len() > 0 && all_digits(body) && -digits_val(body) >= i64::MIN as int {
            Some((-digits_val(body)) as i64)
        } else {
            None
        }
    } else {
        let body = if s.len() > 0 && s[0] == '+' { s.drop_first() } else { s };
        if body.len() > 0 && all_digits(body) && digits_val(body) <= i64::MAX as int {
            Some(digits_val(body) as i64)
        } else {
            None
        }
    }
}

/// `u64` parsing with the permissive default: malformed input denotes zero.
pub open spec fn parse_u64_or0(s: Seq<char>) -> u64 {
    match parse_u64_val(s) {
        Some(v) => v,
        None => 0,
    }
}

/// `i64` parsing with the permissive default: malformed input denotes zero.
pub open spec fn parse_i64_or0(s: Seq<char>) -> i64 {
    match parse_i64_val(s) {
        Some(v) => v,
        None => 0,
    }
}

/// A digit string denotes a nonnegative value.
proof fn lemma_digits_val_nonneg(s: Seq<char>)
    requires
        all_digits(s),
    ensures
        digits_val(s) >= 0,
    decreases s.len(),
{
    if s.len() > 0 {
        assert(all_digits(s.drop_last()));
        lemma_digits_val_nonneg(s.drop_last());
    }
}

/// Extending a digit string can only increase its value.
proof fn lemma_digits_val_monotone(s: Seq<char>, i: int)
    requires
        all_digits(s),
        0 <= i <= s.len(),
    ensures
        digits_val(s.take(i)) <= digits_val(s),
    decreases s.len() - i,
{
    assert(all_digits(s.take(i)));
    lemma_digits_val_nonneg(s.take(i));
    if i < s.len() {
        assert(s.take(i + 1).drop_last() =~= s.take(i));
        assert(digits_val(s.take(i + 1)) == digits_val(s.take(i)) * 10 + digit_val(s[i]));
        lemma_digits_val_monotone(s, i + 1);
    } else {
        assert(s.take(i) =~= s);
    }
}

/// The value of the digits of `s` from `start` on, if they are all digits,
/// nonempty, and denote a value that fits in `u64`.
fn digits_value(s: &str, start: usize) -> (r: Option<u64>)
    requires
        start <= s@.len(),
    ensures
        ({
            let body = s@.skip(start as int);
            match r {
                Some(v) => body.len() > 0 && all_digits(body) && digits_val(body) == v as int,
                None => !(body.len() > 0 && all_digits(body) && digits_val(body)
                    <= u64::MAX as int),
            }
        }),
{
    let ghost body = s@.skip(start as int);
    let n: usize = s.unicode_len();
    if start >= n {
        return None;
    }
    let mut acc: u64 = 0;
    let mut i: usize = start;
    while i < n
        invariant
            start <= i <= n,
            n == s@.len(),
            start < n,
            body == s@.skip(start as int),
            all_digits(body.take(i - start)),
            digits_val(body.take(i - start)) == acc as int,
        decreases n - i,
    {
        let c = s.get_char(i);
        let d: u64 = if c == '0' { 0 }
        else if c == '1' { 1 }
        else if c == '2' { 2 }
        else if c == '3' { 3 }
        else if c == '4' { 4 }
        else if c == '5' { 5 }
        else if c == '6' { 6 }
        else if c == '7' { 7 }
        else if c == '8' { 8 }
        else if c == '9' { 9 }
        else { 10 };
        if d == 10 {
            proof {
                assert(body[i - start] == s@[i as int]);
                assert(!is_digit_char(body[i - start]));
            }
            return None;
        }
        proof {
            assert(is_digit_char(body[i - start]) && digit_val(body[i - start]) == d as int);
        }
        if acc > (u64::MAX - d) / 10 {
            proof {
                vstd::arithmetic::div_mod::lemma_fundamental_div_mod(
                    u64::MAX as int - d as int,
                    10,
                );
                assert(body.take(i - start + 1).drop_last() =~= body.take(i - start));
                assert(digits_val(body.take(i - start + 1)) == acc as int * 10 + d as int);
                assert(acc as int * 10 + d > u64::MAX as int) by (nonlinear_arith)
                    requires
                        acc as int > (u64::MAX as int - d as int) / 10,
                        (u64::MAX as int - d as int) == 10 * ((u64::MAX as int - d as int) / 10)
                            + (u64::MAX as int - d as int) % 10,
                        0 <= (u64::MAX as int - d as int) % 10 < 10,
                ;
                if all_digits(body) {
                    lemma_digits_val_monotone(body, i - start + 1);
                }
            }
            return None;
        }
        proof {
            vstd::arithmetic::div_mod::lemma_fundamental_div_mod(u64::MAX as int - d as int, 10);
            assert(acc as int * 10 + d <= u64::MAX as int) by (nonlinear_arith)
                requires
                    acc as int <= (u64::MAX as int - d as int) / 10,
                    (u64::MAX as int - d as int) == 10 * ((u64::MAX as int - d as int) / 10) + (
                    u64::MAX as int - d as int) % 10,
                    0 <= (u64::MAX as int - d as int) % 10 < 10,
            ;
            assert(body.take(i - start + 1).drop_last() =~= body.take(i - start));
        }
        acc = acc * 10 + d;
        i += 1;
    }
    proof {
        assert(body.take(n - start) =~= body);
    }
    Some(acc)
}

/// Decimal `u64` parsing; malformed or overflowing input yields zero.
pub fn parse_u64_or_zero(s: &str) -> (r: u64)
    ensures
        r == parse_u64_or0(s@),
{
    let n: usize = s.unicode_len();
    if n == 0 {
        return 0;
    }
    let start: usize = if s.get_char(0) == '+' { 1 } else { 0 };
    proof {
        if start == 1 {
            assert(s@.skip(1) =~= s@.drop_first());
        } else {
            assert(s@.skip(0) =~= s@);
        }
    }
    match digits_value(s, start) {
        Some(v) => v,
        None => 0,
    }
}

/// Decimal `i64` parsing; malformed or overflowing input yields zero.
pub fn parse_i64_or_zero(s: &str) -> (r: i64)
    ensures
        r == parse_i64_or0(s@),
{
    let n: usize = s.unicode_len();
    if n == 0 {
        return 0;
    }
    let c0 = s.get_char(0);
    if c0 == '-' {
        proof {
            assert(s@.skip(1) =~= s@.drop_first());
        }
        match digits_value(s, 1) {
            Some(m) => {
                if m <= 9223372036854775808u64 {
                    if m == 9223372036854775808u64 {
                        i64::MIN
                    } else {
                        -(m as i64)
                    }
                } else {
                    0
                }
            },
            None => 0,
        }
    } else {
        let start: usize = if c0 == '+' { 1 } else { 0 };
        proof {
            if start == 1 {
                assert(s@.skip(1) =~= s@.drop_first());
            } else {
                assert(s@.skip(0) =~= s@);
            }
        }
        match digits_value(s, start) {
            Some(v) => {
                if v <= i64::MAX as u64 {
                    v as i64
                } else {
                    0
                }
            },
            None => 0,
        }
    }
}

/// Decimal rendering of a `u64`, digit literals appended most significant
/// first.
pub fn u64_to_string(n: u64) -> (r: String)
    ensures
        r@ == dec_u64(n),
    decreases n,
{
    if n < 10 {
        let mut r = String::new();
        r.append(hex_digit_str((n % 16) as u8));
        proof {
            assert(r@ =~= dec_digits(n as nat));
        }
        r
    } else {
        let mut r = u64_to_string(n / 10);
        r.append(hex_digit_str((n % 10) as u8));
        proof {
            assert(r@ =~= dec_digits(n as nat));
        }
        r
    }
}

/// Decimal rendering of an `i64`, with a leading minus sign when negative.
pub fn i64_to_string(v: i64) -> (r: String)
    ensures
        r@ == dec_i64(v),
{
    if v >= 0 {
        u64_to_string(v as u64)
    } else {
        proof {
            reveal_strlit("-");
        }
        let mut r = String::new();
        r.append("-");
        let m: u64 = if v == i64::MIN {
            9223372036854775808u64
        } else {
            (-v) as u64
        };
        let digits = u64_to_string(m);
        r.append(digits.as_str());
        proof {
            assert(r@ =~= dec_i64(v));
        }
        r
    }
}

/// The canonical digits of `n` are digits, nonempty, and denote `n`.
pub proof fn lemma_dec_digits_val(n: nat)
    ensures
        all_digits(dec_digits(n)),
        dec_digits(n).len() > 0,
        digits_val(dec_digits(n)) == n,
        dec_digits(n)[0] != '+',
        dec_digits(n)[0] != '-',
    decreases n,
{
    if n < 10 {
        let s = dec_digits(n);
        assert(s.len() == 1);
        assert(s.last() == hex_digit_char(n as int));
        assert(s[0] == hex_digit_char(n as int));
        assert(s.drop_last() =~= Seq::<char>::empty());
        assert(digits_val(Seq::<char>::empty()) == 0);
        assert(digits_val(s) == digit_val(hex_digit_char(n as int)));
    } else {
        lemma_dec_digits_val(n / 10);
        let s = dec_digits(n);
        assert(s.drop_last() =~= dec_digits(n / 10));
        assert(s.last() == hex_digit_char((n % 10) as int));
        vstd::arithmetic::div_mod::lemma_fundamental_div_mod(n as int, 10);
        assert(digits_val(s) == (n / 10) * 10 + (n % 10));
        assert(forall|i: int| 0 <= i < s.len() ==> is_digit_char(#[trigger] s[i]));
    }
}

/// Decimal rendering and parsing of a `u64` round-trip.
pub proof fn lemma_u64_round_trip(n: u64)
    ensures
        parse_u64_val(dec_u64(n)) == Some(n),
{
    lemma_dec_digits_val(n as nat);
}

/// Decimal rendering and parsing of an `i64` round-trip.
pub proof fn lemma_i64_round_trip(v: i64)
    ensures
        parse_i64_val(dec_i64(v)) == Some(v),
{
    if v >= 0 {
        lemma_dec_digits_val(v as nat);
    } else {
        let m = (-(v as int)) as nat;
        lemma_dec_digits_val(m);
        let s = dec_i64(v);
        assert(s[0] == '-');
        assert(s.drop_first() =~= dec_digits(m));
    }
}

} // verus!
