//! Character classification and small string utilities.
//!
//! Classification is over the ASCII range: labels and locators are matched
//! against ASCII allow-lists and grammars, so characters outside ASCII are
//! never alphanumeric, whitespace or uppercase for the purposes of this
//! crate.

use vstd::prelude::*;

verus! {

/// ASCII whitespace: space, tab, line feed, carriage return, form feed.
pub open spec fn is_wsp_char(c: char) -> bool {
    c == ' ' || c == '\t' || c == '\n' || c == '\r' || c == '\u{c}'
}

pub open spec fn is_digit_char(c: char) -> bool {
    ('0' as u32) <= (c as u32) && (c as u32) <= ('9' as u32)
}

pub open spec fn is_lower_char(c: char) -> bool {
    ('a' as u32) <= (c as u32) && (c as u32) <= ('z' as u32)
}

pub open spec fn is_upper_char(c: char) -> bool {
    ('A' as u32) <= (c as u32) && (c as u32) <= ('Z' as u32)
}

pub open spec fn is_alnum_char(c: char) -> bool {
    is_digit_char(c) || is_lower_char(c) || is_upper_char(c)
}

/// Uppercase ASCII letters are mapped to their lowercase counterpart;
/// everything else is left alone.
pub open spec fn to_lower_char(c: char) -> char {
    if is_upper_char(c) {
        (((c as u8) + 32) as char)
    } else {
        c
    }
}

pub fn wsp_char(c: char) -> (r: bool)
    ensures
        r == is_wsp_char(c),
{
    c == ' ' || c == '\t' || c == '\n' || c == '\r' || c == '\u{c}'
}

pub fn alnum_char(c: char) -> (r: bool)
    ensures
        r == is_alnum_char(c),
{
    let u = c as u32;
    (('0' as u32) <= u && u <= ('9' as u32)) || (('a' as u32) <= u && u <= ('z' as u32)) || (('A'
        as u32) <= u && u <= ('Z' as u32))
}

pub fn upper_char(c: char) -> (r: bool)
    ensures
        r == is_upper_char(c),
{
    let u = c as u32;
    ('A' as u32) <= u && u <= ('Z' as u32)
}

pub fn lower_char(c: char) -> (r: char)
    ensures
        r == to_lower_char(c),
{
    if upper_char(c) {
        ((c as u8) + 32) as char
    } else {
        c
    }
}

/// Collects the characters of a string slice into a vector.
pub fn to_chars(s: &str) -> (r: Vec<char>)
    ensures
        r@ == s@,
{
    let n = s.unicode_len();
    let mut r: Vec<char> = Vec::new();
    let mut i: usize = 0;
    while i < n
        invariant
            n == s@.len(),
            i <= n,
            r@ == s@.take(i as int),
        decreases n - i,
    {
        r.push(s.get_char(i));
        proof {
            assert(r@ =~= s@.take(i + 1 as int));
        }
        i = i + 1;
    }
    proof {
        assert(r@ =~= s@);
    }
    r
}

/// The pattern `p` occurs in `s` at position `k`.
pub open spec fn match_at(s: Seq<char>, k: int, p: Seq<char>) -> bool {
    0 <= k && k + p.len() <= s.len() && s.subrange(k, k + p.len()) == p
}

/// Tests whether `pat` occurs in `v` at position `start`.
pub fn chars_match_at(v: &Vec<char>, start: usize, pat: &str) -> (b: bool)
    ensures
        b == match_at(v@, start as int, pat@),
{
    let m = pat.unicode_len();
    let n = v.len();
    if m > n || start > n - m {
        return false;
    }
    let mut j: usize = 0;
    while j < m
        invariant
            m == pat@.len(),
            n == v@.len(),
            start + m <= n,
            j <= m,
            forall|t: int| 0 <= t < j ==> v@[start + t] == pat@[t],
        decreases m - j,
    {
        if v[start + j] != pat.get_char(j) {
            proof {
                assert(v@.subrange(start as int, start as int + m) != pat@) by {
                    assert(v@.subrange(start as int, start as int + m)[j as int] == v@[start + j]);
                }
            }
            return false;
        }
        j = j + 1;
    }
    proof {
        assert(v@.subrange(start as int, start as int + m) =~= pat@);
    }
    true
}

/// Index of the first occurrence of `c` in `s`, or `-1` if absent.
pub open spec fn find_char(s: Seq<char>, c: char) -> int
    decreases s.len(),
{
    if s.len() == 0 {
        -1
    } else if s[0] == c {
        0
    } else {
        let r = find_char(s.skip(1), c);
        if r < 0 {
            -1
        } else {
            r + 1
        }
    }
}

pub proof fn lemma_find_char_at(s: Seq<char>, c: char, k: int)
    requires
        0 <= k < s.len(),
        s[k] == c,
        forall|t: int| 0 <= t < k ==> s[t] != c,
    ensures
        find_char(s, c) == k,
    decreases s.len(),
{
    if k > 0 {
        assert(forall|t: int| 0 <= t < k - 1 ==> #[trigger] s.skip(1)[t] == s[t + 1]);
        lemma_find_char_at(s.skip(1), c, k - 1);
    }
}

pub proof fn lemma_find_char_missing(s: Seq<char>, c: char)
    requires
        forall|t: int| 0 <= t < s.len() ==> s[t] != c,
    ensures
        find_char(s, c) == -1,
    decreases s.len(),
{
    if s.len() > 0 {
        assert(forall|t: int| 0 <= t < s.skip(1).len() ==> #[trigger] s.skip(1)[t] == s[t + 1]);
        lemma_find_char_missing(s.skip(1), c);
    }
}

/// What `find_char`'s result means: the index it returns holds the first
/// occurrence, and `-1` means there is none.
pub proof fn lemma_find_char_props(s: Seq<char>, c: char)
    ensures
        find_char(s, c) == -1 ==> (forall|t: int| 0 <= t < s.len() ==> s[t] != c),
        find_char(s, c) != -1 ==> 0 <= find_char(s, c) < s.len() && s[find_char(s, c)] == c && (
        forall|t: int| 0 <= t < find_char(s, c) ==> s[t] != c),
    decreases s.len(),
{
    if s.len() == 0 {
    } else if s[0] == c {
    } else {
        lemma_find_char_props(s.skip(1), c);
        assert(forall|t: int| 0 <= t < s.skip(1).len() ==> #[trigger] s.skip(1)[t] == s[t + 1]);
        let r = find_char(s.skip(1), c);
        if r == -1 {
            assert forall|t: int| 0 <= t < s.len() implies s[t] != c by {
                if t > 0 {
                    assert(s.skip(1)[t - 1] != c);
                }
            }
        } else {
            assert(s[r + 1] == s.skip(1)[r]);
            assert forall|t: int| 0 <= t < r + 1 implies s[t] != c by {
                if t > 0 {
                    assert(s.skip(1)[t - 1] != c);
                }
            }
        }
    }
}

/// Finds the first occurrence of `c` in `v` at or after `from`.
pub fn find_char_from(v: &Vec<char>, from: usize, c: char) -> (r: Option<usize>)
    requires
        from <= v@.len(),
    ensures
        match r {
            Some(k) => from <= k < v@.len() && v@[k as int] == c && (forall|t: int|
                from <= t < k ==> v@[t] != c) && find_char(v@.skip(from as int), c) == k - from,
            None => (forall|t: int| from <= t < v@.len() ==> v@[t] != c) && find_char(
                v@.skip(from as int),
                c,
            ) == -1,
        },
{
    let mut k: usize = from;
    while k < v.len()
        invariant
            from <= k <= v@.len(),
            forall|t: int| from <= t < k ==> v@[t] != c,
        decreases v@.len() - k,
    {
        if v[k] == c {
            proof {
                assert(forall|t: int|
                    0 <= t < v@.skip(from as int).len() ==> #[trigger] v@.skip(from as int)[t]
                        == v@[t + from]);
                lemma_find_char_at(v@.skip(from as int), c, k - from);
            }
            return Some(k);
        }
        k = k + 1;
    }
    proof {
        assert(forall|t: int|
            0 <= t < v@.skip(from as int).len() ==> #[trigger] v@.skip(from as int)[t] == v@[t
                + from]);
        lemma_find_char_missing(v@.skip(from as int), c);
    }
    None
}

/// Index of the last occurrence of `c` in `s`, or `-1` if absent.
pub open spec fn last_index_of(s: Seq<char>, c: char) -> int
    decreases s.len(),
{
    if s.len() == 0 {
        -1
    } else if s[s.len() - 1] == c {
        s.len() - 1
    } else {
        last_index_of(s.take(s.len() - 1), c)
    }
}

pub proof fn lemma_last_index_at(s: Seq<char>, c: char, k: int)
    requires
        0 <= k < s.len(),
        s[k] == c,
        forall|t: int| k < t < s.len() ==> s[t] != c,
    ensures
        last_index_of(s, c) == k,
    decreases s.len(),
{
    if k < s.len() - 1 {
        assert(forall|t: int|
            0 <= t < s.take(s.len() - 1).len() ==> #[trigger] s.take(s.len() - 1)[t] == s[t]);
        lemma_last_index_at(s.take(s.len() - 1), c, k);
    }
}

pub proof fn lemma_last_index_missing(s: Seq<char>, c: char)
    requires
        forall|t: int| 0 <= t < s.len() ==> s[t] != c,
    ensures
        last_index_of(s, c) == -1,
    decreases s.len(),
{
    if s.len() > 0 {
        assert(forall|t: int|
            0 <= t < s.take(s.len() - 1).len() ==> #[trigger] s.take(s.len() - 1)[t] == s[t]);
        lemma_last_index_missing(s.take(s.len() - 1), c);
    }
}

/// Finds the last occurrence of `c` in `v`.
pub fn find_last(v: &Vec<char>, c: char) -> (r: Option<usize>)
    ensures
        match r {
            Some(k) => k < v@.len() && v@[k as int] == c && (forall|t: int|
                k < t < v@.len() ==> v@[t] != c) && last_index_of(v@, c) == k,
            None => (forall|t: int| 0 <= t < v@.len() ==> v@[t] != c) && last_index_of(v@, c)
                == -1,
        },
{
    let mut k: usize = v.len();
    while k > 0
        invariant
            k <= v@.len(),
            forall|t: int| k <= t < v@.len() ==> v@[t] != c,
        decreases k,
    {
        k = k - 1;
        if v[k] == c {
            proof {
                lemma_last_index_at(v@, c, k as int);
            }
            return Some(k);
        }
    }
    proof {
        lemma_last_index_missing(v@, c);
    }
    None
}

/// Copies `v[from..to]` into a fresh vector.
pub fn sub_chars(v: &Vec<char>, from: usize, to: usize) -> (r: Vec<char>)
    requires
        from <= to <= v@.len(),
    ensures
        r@ == v@.subrange(from as int, to as int),
{
    let mut r: Vec<char> = Vec::new();
    let mut k: usize = from;
    while k < to
        invariant
            from <= k <= to <= v@.len(),
            r@ == v@.subrange(from as int, k as int),
        decreases to - k,
    {
        r.push(v[k]);
        proof {
            assert(v@.subrange(from as int, k as int) + seq![v@[k as int]] =~= v@.subrange(
                from as int,
                k + 1,
            ));
        }
        k = k + 1;
    }
    r
}

/// The decimal digit character for `d`.
pub open spec fn dec_digit(d: int) -> char {
    ((48 + d) as u8) as char
}

/// The decimal rendering of `n`, most significant digit first.
pub open spec fn dec_str(n: nat) -> Seq<char>
    decreases n,
{
    if n < 10 {
        seq![dec_digit(n as int)]
    } else {
        dec_str(n / 10) + seq![dec_digit((n % 10) as int)]
    }
}

fn digit_char(d: u64) -> (c: char)
    requires
        d < 10,
    ensures
        c == dec_digit(d as int),
{
    ((48 + d as u8)) as char
}

/// Renders `n` in decimal.
pub fn u64_to_dec_string(n: u64) -> (r: String)
    ensures
        r@ == dec_str(n as nat),
{
    if n == 0 {
        proof {
            reveal_strlit("0");
            assert("0"@ =~= seq![dec_digit(0)]);
        }
        return String::from_str("0");
    }
    let mut digits: Vec<char> = Vec::new();
    let mut cur: u64 = n;
    proof {
        assert(dec_str(n as nat) =~= dec_str(cur as nat) + digits@);
    }
    while cur > 0
        invariant
            cur > 0 ==> dec_str(n as nat) == dec_str(cur as nat) + digits@,
            cur == 0 ==> dec_str(n as nat) == digits@,
        decreases cur,
    {
        let d = cur % 10;
        let ghost pre = digits@;
        digits.insert(0, digit_char(d));
        proof {
            assert(digits@ =~= seq![dec_digit(d as int)] + pre);
        }
        let prev = cur;
        cur = cur / 10;
        proof {
            if cur > 0 {
                assert(dec_str(prev as nat) == dec_str(cur as nat) + seq![
                    dec_digit((prev % 10) as int),
                ]);
                assert(dec_str(cur as nat) + (seq![dec_digit(d as int)] + pre) =~= (dec_str(
                    cur as nat,
                ) + seq![dec_digit(d as int)]) + pre);
            } else {
                assert(prev < 10);
                assert(dec_str(prev as nat) == seq![dec_digit(prev as int)]);
                assert(seq![dec_digit(d as int)] + pre =~= dec_str(prev as nat) + pre);
            }
        }
    }
    string_from_chars(&digits)
}

/// The value of a digit string.
pub open spec fn dec_value(s: Seq<char>) -> int
    decreases s.len(),
{
    if s.len() == 0 {
        0
    } else {
        dec_value(s.take(s.len() - 1)) * 10 + ((s[s.len() - 1] as u32) as int - 48)
    }
}

pub open spec fn all_digits(s: Seq<char>) -> bool {
    forall|i: int| 0 <= i < s.len() ==> is_digit_char(#[trigger] s[i])
}

/// A string that `usize` parsing accepts: an optional plus sign, then at
/// least one digit, with a value that fits.
pub open spec fn valid_usize_str(s: Seq<char>) -> bool {
    usize_digits(s).len() >= 1 && all_digits(usize_digits(s)) && dec_value(usize_digits(s))
        <= usize::MAX as int
}

/// The digit part of a `usize` string: everything after an optional
/// leading plus sign.
pub open spec fn usize_digits(s: Seq<char>) -> Seq<char> {
    if s.len() >= 1 && s[0] == '+' {
        s.skip(1)
    } else {
        s
    }
}

proof fn lemma_dec_value_nonneg(s: Seq<char>)
    requires
        all_digits(s),
    ensures
        dec_value(s) >= 0,
    decreases s.len(),
{
    if s.len() > 0 {
        assert(forall|i: int|
            0 <= i < s.take(s.len() - 1).len() ==> #[trigger] s.take(s.len() - 1)[i] == s[i]);
        lemma_dec_value_nonneg(s.take(s.len() - 1));
    }
}

proof fn lemma_dec_value_prefix_bound(s: Seq<char>, k: int)
    requires
        all_digits(s),
        0 <= k <= s.len(),
    ensures
        dec_value(s.take(k)) <= dec_value(s),
    decreases s.len(),
{
    if k < s.len() {
        let head = s.take(s.len() - 1);
        assert(forall|i: int| 0 <= i < head.len() ==> #[trigger] head[i] == s[i]);
        assert(head.take(k) =~= s.take(k));
        lemma_dec_value_prefix_bound(head, k);
        lemma_dec_value_nonneg(head);
    } else {
        assert(s.take(k) =~= s);
    }
}

/// Parses a decimal `usize`, accepting an optional leading plus sign;
/// `None` when the string is malformed or the value does not fit.
pub fn parse_usize(s: &str) -> (r: Option<usize>)
    ensures
        match r {
            Some(v) => valid_usize_str(s@) && v as int == dec_value(usize_digits(s@)),
            None => !valid_usize_str(s@),
        },
{
    let v = to_chars(s);
    let n = v.len();
    let start: usize = if n >= 1 && v[0] == '+' {
        1
    } else {
        0
    };
    let ghost digits = usize_digits(s@);
    proof {
        assert(digits =~= v@.skip(start as int));
    }
    if start >= n {
        return None;
    }
    let mut acc: usize = 0;
    let mut i: usize = start;
    while i < n
        invariant
            start <= i <= n,
            n == v@.len(),
            digits == v@.skip(start as int),
            digits == usize_digits(s@),
            all_digits(v@.skip(start as int).take(i - start)),
            acc as int == dec_value(v@.skip(start as int).take(i - start)),
        decreases n - i,
    {
        let c = v[i];
        let u = c as u32;
        if !(48 <= u && u <= 57) {
            proof {
                assert(digits[i - start] == v@[i as int]);
                assert(!is_digit_char(digits[i - start]));
            }
            return None;
        }
        let d = (u - 48) as u64;
        let wide = acc as u128 * 10 + d as u128;
        let ghost prefix = v@.skip(start as int).take(i - start);
        let ghost prefix2 = v@.skip(start as int).take(i + 1 - start);
        proof {
            assert(prefix2 =~= prefix.push(v@[i as int]));
            assert(prefix2.take(prefix2.len() - 1) =~= prefix);
            assert(dec_value(prefix2) == dec_value(prefix) * 10 + ((v@[i as int] as u32) as int
                - 48));
            assert(all_digits(prefix2)) by {
                assert(forall|t: int| 0 <= t < prefix.len() ==> #[trigger] prefix2[t] == prefix[t]);
                assert(prefix2[prefix2.len() - 1] == v@[i as int]);
                assert(is_digit_char(v@[i as int]));
            }
        }
        if wide > usize::MAX as u128 {
            proof {
                assert(dec_value(prefix2) > usize::MAX as int);
                assert(forall|t: int|
                    0 <= t < prefix2.len() ==> #[trigger] prefix2[t] == digits[t]);
                if all_digits(digits) {
                    lemma_dec_value_prefix_bound(digits, i + 1 - start);
                    assert(digits.take(i + 1 - start) =~= prefix2);
                }
            }
            return None;
        }
        acc = wide as usize;
        i = i + 1;
    }
    proof {
        assert(v@.skip(start as int).take(n - start) =~= digits);
    }
    Some(acc)
}

/// Relies on `core::iter::Iterator::collect`: collecting characters into a
/// `String` yields exactly those characters in order.
#[verifier::external_body]
pub fn string_from_chars(v: &Vec<char>) -> (r: String)
    ensures
        r@ == v@,
{
    v.iter().collect()
}

} // verus!
