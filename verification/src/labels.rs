//! Issue-label canonicalization and the allow-list filter.
//!
//! A label is canonicalized by splitting it on whitespace, stripping
//! non-alphanumeric characters from each word, dropping words that consist of
//! a single uppercase letter (a common sorting-prefix convention),
//! lowercasing, and rejoining with single spaces.  Canonicalization is
//! idempotent; see [`lemma_canonicalize_idempotent`].
//!
//! Character classes are deliberately ASCII: every allow-list entry is
//! ASCII, so a label can only match after its characters canonicalize to
//! ASCII, and a character outside ASCII is treated like punctuation and
//! stripped.  This keeps the whole pipeline, including idempotence, provable
//! without trusting a Unicode case-folding oracle.

use vstd::prelude::*;

use crate::text::alnum_char;
use crate::text::is_alnum_char;
use crate::text::is_upper_char;
use crate::text::is_wsp_char;
use crate::text::lower_char;
use crate::text::string_from_chars;
use crate::text::to_chars;
use crate::text::to_lower_char;
use crate::text::upper_char;
use crate::text::wsp_char;

verus! {

/// Split a character sequence at every whitespace character.
/// The result always has at least one (possibly empty) word.
pub open spec fn split_wsp(s: Seq<char>) -> Seq<Seq<char>>
    decreases s.len(),
{
    if s.len() == 0 {
        seq![Seq::<char>::empty()]
    } else if is_wsp_char(s[0]) {
        seq![Seq::<char>::empty()] + split_wsp(s.skip(1))
    } else {
        let rest = split_wsp(s.skip(1));
        seq![seq![s[0]] + rest[0]] + rest.skip(1)
    }
}

/// Keep only the alphanumeric characters of a word.
pub open spec fn strip_non_alnum(w: Seq<char>) -> Seq<char>
    decreases w.len(),
{
    if w.len() == 0 {
        Seq::<char>::empty()
    } else if is_alnum_char(w[0]) {
        seq![w[0]] + strip_non_alnum(w.skip(1))
    } else {
        strip_non_alnum(w.skip(1))
    }
}

/// A word is kept unless it is a single uppercase letter.
pub open spec fn keep_word(w: Seq<char>) -> bool {
    !(w.len() == 1 && is_upper_char(w[0]))
}

pub open spec fn drop_single_uppers(ws: Seq<Seq<char>>) -> Seq<Seq<char>>
    decreases ws.len(),
{
    if ws.len() == 0 {
        Seq::<Seq<char>>::empty()
    } else if keep_word(ws[0]) {
        seq![ws[0]] + drop_single_uppers(ws.skip(1))
    } else {
        drop_single_uppers(ws.skip(1))
    }
}

pub open spec fn lower_word(w: Seq<char>) -> Seq<char> {
    w.map_values(|c: char| to_lower_char(c))
}

pub open spec fn lower_words(ws: Seq<Seq<char>>) -> Seq<Seq<char>> {
    ws.map_values(|w: Seq<char>| lower_word(w))
}

pub open spec fn clean_words(ws: Seq<Seq<char>>) -> Seq<Seq<char>> {
    ws.map_values(|w: Seq<char>| strip_non_alnum(w))
}

/// Join words with single spaces.
pub open spec fn join_sp(ws: Seq<Seq<char>>) -> Seq<char>
    decreases ws.len(),
{
    if ws.len() == 0 {
        Seq::<char>::empty()
    } else if ws.len() == 1 {
        ws[0]
    } else {
        ws[0] + seq![' '] + join_sp(ws.skip(1))
    }
}

pub open spec fn canon_words(s: Seq<char>) -> Seq<Seq<char>> {
    lower_words(drop_single_uppers(clean_words(split_wsp(s))))
}

/// The canonical form of a label.
pub open spec fn canon_label(s: Seq<char>) -> Seq<char> {
    join_sp(canon_words(s))
}

proof fn lemma_split_wsp_len(s: Seq<char>)
    ensures
        split_wsp(s).len() >= 1,
    decreases s.len(),
{
    if s.len() == 0 {
    } else {
        lemma_split_wsp_len(s.skip(1));
    }
}

/// Every character of a stripped word is alphanumeric.
proof fn lemma_strip_all_alnum(w: Seq<char>)
    ensures
        forall|i: int| 0 <= i < strip_non_alnum(w).len() ==> is_alnum_char(#[trigger] strip_non_alnum(w)[i]),
    decreases w.len(),
{
    if w.len() == 0 {
    } else {
        lemma_strip_all_alnum(w.skip(1));
        if is_alnum_char(w[0]) {
            assert(strip_non_alnum(w) == seq![w[0]] + strip_non_alnum(w.skip(1)));
            assert forall|i: int| 0 <= i < strip_non_alnum(w).len() implies is_alnum_char(
                #[trigger] strip_non_alnum(w)[i],
            ) by {
                if i == 0 {
                    assert(strip_non_alnum(w)[0] == w[0]);
                } else {
                    assert(strip_non_alnum(w)[i] == strip_non_alnum(w.skip(1))[i - 1]);
                    assert(is_alnum_char(strip_non_alnum(w.skip(1))[i - 1]));
                }
            }
        } else {
            assert(strip_non_alnum(w) == strip_non_alnum(w.skip(1)));
            assert forall|i: int| 0 <= i < strip_non_alnum(w).len() implies is_alnum_char(
                #[trigger] strip_non_alnum(w)[i],
            ) by {
                assert(is_alnum_char(strip_non_alnum(w.skip(1))[i]));
            }
        }
    }
}

/// Stripping keeps a word that is already all-alphanumeric unchanged.
proof fn lemma_strip_identity(w: Seq<char>)
    requires
        forall|i: int| 0 <= i < w.len() ==> is_alnum_char(#[trigger] w[i]),
    ensures
        strip_non_alnum(w) == w,
    decreases w.len(),
{
    if w.len() == 0 {
        assert(strip_non_alnum(w) =~= w);
    } else {
        lemma_strip_identity(w.skip(1));
        assert(strip_non_alnum(w) =~= w);
    }
}

/// Lowercasing an alphanumeric character yields an alphanumeric,
/// non-uppercase, non-whitespace character.
proof fn lemma_lower_char_props(c: char)
    requires
        is_alnum_char(c),
    ensures
        is_alnum_char(to_lower_char(c)),
        !is_upper_char(to_lower_char(c)),
        !is_wsp_char(to_lower_char(c)),
        to_lower_char(to_lower_char(c)) == to_lower_char(c),
{
}

/// Every word surviving `drop_single_uppers` occurs in the input.
proof fn lemma_drop_subset(ws: Seq<Seq<char>>, x: Seq<char>)
    requires
        drop_single_uppers(ws).contains(x),
    ensures
        ws.contains(x),
        keep_word(x),
    decreases ws.len(),
{
    if ws.len() == 0 {
    } else if keep_word(ws[0]) {
        if x == ws[0] {
            assert(ws.contains(x)) by {
                assert(ws[0] == x);
            }
        } else {
            assert(drop_single_uppers(ws).skip(1).contains(x)) by {
                let j = choose|j: int|
                    0 <= j < drop_single_uppers(ws).len() && drop_single_uppers(ws)[j] == x;
                assert(drop_single_uppers(ws)[j] == x);
                assert(j != 0);
                assert(drop_single_uppers(ws).skip(1)[j - 1] == x);
            }
            assert(drop_single_uppers(ws).skip(1) =~= drop_single_uppers(ws.skip(1)));
            lemma_drop_subset(ws.skip(1), x);
            assert(ws.skip(1).contains(x));
            let j = choose|j: int| 0 <= j < ws.skip(1).len() && ws.skip(1)[j] == x;
            assert(ws[j + 1] == x);
        }
    } else {
        lemma_drop_subset(ws.skip(1), x);
        let j = choose|j: int| 0 <= j < ws.skip(1).len() && ws.skip(1)[j] == x;
        assert(ws[j + 1] == x);
    }
}

/// Dropping is the identity when every word is kept.
proof fn lemma_drop_identity(ws: Seq<Seq<char>>)
    requires
        forall|i: int| 0 <= i < ws.len() ==> keep_word(#[trigger] ws[i]),
    ensures
        drop_single_uppers(ws) == ws,
    decreases ws.len(),
{
    if ws.len() == 0 {
        assert(drop_single_uppers(ws) =~= ws);
    } else {
        lemma_drop_identity(ws.skip(1));
        assert(drop_single_uppers(ws) =~= ws);
    }
}

pub open spec fn wsp_free(w: Seq<char>) -> bool {
    forall|i: int| 0 <= i < w.len() ==> !is_wsp_char(#[trigger] w[i])
}

/// A whitespace-free word splits into exactly itself.
proof fn lemma_split_single(w: Seq<char>)
    requires
        wsp_free(w),
    ensures
        split_wsp(w) == seq![w],
    decreases w.len(),
{
    if w.len() == 0 {
        assert(split_wsp(w) =~~= seq![w]);
    } else {
        assert(wsp_free(w.skip(1))) by {
            assert(forall|i: int|
                0 <= i < w.skip(1).len() ==> #[trigger] w.skip(1)[i] == w[i + 1]);
        }
        lemma_split_single(w.skip(1));
        assert(split_wsp(w) =~~= seq![w]);
    }
}

/// Splitting a whitespace-free word, a space, and a tail yields the word
/// followed by the split of the tail.
proof fn lemma_split_word_space(w: Seq<char>, t: Seq<char>)
    requires
        wsp_free(w),
    ensures
        split_wsp(w + seq![' '] + t) == seq![w] + split_wsp(t),
    decreases w.len(),
{
    let s = w + seq![' '] + t;
    if w.len() == 0 {
        assert(s[0] == ' ');
        assert(s.skip(1) =~= t);
        assert(split_wsp(s) =~~= seq![w] + split_wsp(t));
    } else {
        assert(s[0] == w[0]);
        assert(!is_wsp_char(s[0]));
        assert(wsp_free(w.skip(1))) by {
            assert(forall|i: int|
                0 <= i < w.skip(1).len() ==> #[trigger] w.skip(1)[i] == w[i + 1]);
        }
        lemma_split_word_space(w.skip(1), t);
        assert(s.skip(1) =~= w.skip(1) + seq![' '] + t);
        let rest = split_wsp(s.skip(1));
        assert(rest == seq![w.skip(1)] + split_wsp(t));
        lemma_split_wsp_len(t);
        assert(rest[0] == w.skip(1));
        assert(seq![s[0]] + rest[0] =~= w);
        assert(rest.skip(1) =~= split_wsp(t));
        assert(split_wsp(s) =~~= seq![w] + split_wsp(t));
    }
}

/// Joining whitespace-free words with spaces and re-splitting recovers the
/// same words.
proof fn lemma_split_join(ws: Seq<Seq<char>>)
    requires
        ws.len() >= 1,
        forall|i: int| 0 <= i < ws.len() ==> wsp_free(#[trigger] ws[i]),
    ensures
        split_wsp(join_sp(ws)) == ws,
    decreases ws.len(),
{
    if ws.len() == 1 {
        lemma_split_single(ws[0]);
        assert(split_wsp(join_sp(ws)) =~~= ws);
    } else {
        assert(forall|i: int|
            0 <= i < ws.skip(1).len() ==> #[trigger] ws.skip(1)[i] == ws[i + 1]);
        lemma_split_join(ws.skip(1));
        assert(join_sp(ws) == ws[0] + seq![' '] + join_sp(ws.skip(1)));
        lemma_split_word_space(ws[0], join_sp(ws.skip(1)));
        assert(split_wsp(join_sp(ws)) =~~= ws);
    }
}

/// Every word of the canonical decomposition is made of lowered
/// alphanumeric characters only.
proof fn lemma_canon_words_clean(s: Seq<char>)
    ensures
        forall|i: int, j: int|
            0 <= i < canon_words(s).len() && 0 <= j < canon_words(s)[i].len() ==> {
                let c = #[trigger] canon_words(s)[i][j];
                is_alnum_char(c) && !is_upper_char(c) && !is_wsp_char(c) && to_lower_char(c) == c
            },
{
    let cleaned = clean_words(split_wsp(s));
    let kept = drop_single_uppers(cleaned);
    assert forall|i: int, j: int|
        0 <= i < canon_words(s).len() && 0 <= j < canon_words(s)[i].len() implies {
        let c = #[trigger] canon_words(s)[i][j];
        is_alnum_char(c) && !is_upper_char(c) && !is_wsp_char(c) && to_lower_char(c) == c
    } by {
        assert(canon_words(s)[i] == lower_word(kept[i]));
        let w = kept[i];
        assert(kept.contains(w));
        lemma_drop_subset(cleaned, w);
        let k = choose|k: int| 0 <= k < cleaned.len() && cleaned[k] == w;
        assert(cleaned[k] == strip_non_alnum(split_wsp(s)[k]));
        lemma_strip_all_alnum(split_wsp(s)[k]);
        assert(is_alnum_char(w[j]));
        assert(canon_words(s)[i][j] == to_lower_char(w[j]));
        lemma_lower_char_props(w[j]);
    }
}

/// Canonicalization is idempotent.
pub proof fn lemma_canonicalize_idempotent(s: Seq<char>)
    ensures
        canon_label(canon_label(s)) == canon_label(s),
{
    let ws = canon_words(s);
    lemma_canon_words_clean(s);
    if ws.len() == 0 {
        assert(canon_label(s) == Seq::<char>::empty());
        assert(split_wsp(Seq::<char>::empty()) == seq![Seq::<char>::empty()]);
        let e = Seq::<char>::empty();
        let one = seq![e];
        assert(split_wsp(e) == one);
        assert(clean_words(one) =~= one) by {
            assert(clean_words(one)[0] == strip_non_alnum(e));
            assert(strip_non_alnum(e) == e);
        }
        assert(drop_single_uppers(one) =~= one) by {
            assert(keep_word(one[0]));
            assert(one.skip(1) =~= Seq::<Seq<char>>::empty());
            assert(drop_single_uppers(Seq::<Seq<char>>::empty()) == Seq::<Seq<char>>::empty());
        }
        assert(lower_words(one) =~= one) by {
            assert(lower_words(one)[0] == lower_word(e));
            assert(lower_word(e) =~= e);
        }
        assert(canon_words(canon_label(s)) == one);
        assert(canon_label(canon_label(s)) == e);
    } else {
        assert(forall|i: int| 0 <= i < ws.len() ==> wsp_free(#[trigger] ws[i]));
        lemma_split_join(ws);
        assert(split_wsp(canon_label(s)) == ws);
        assert(clean_words(ws) =~~= ws) by {
            assert forall|i: int| 0 <= i < ws.len() implies #[trigger] clean_words(ws)[i]
                == ws[i] by {
                lemma_strip_identity(ws[i]);
            }
        }
        assert(forall|i: int| 0 <= i < ws.len() ==> keep_word(#[trigger] ws[i]));
        lemma_drop_identity(ws);
        assert(lower_words(ws) =~~= ws) by {
            assert forall|i: int| 0 <= i < ws.len() implies #[trigger] lower_words(ws)[i]
                == ws[i] by {
                assert(lower_word(ws[i]) =~= ws[i]);
            }
        }
        assert(canon_words(canon_label(s)) == ws);
    }
}

/// Cleaning, filtering and lowercasing a word list.
pub open spec fn refine_words(ws: Seq<Seq<char>>) -> Seq<Seq<char>> {
    lower_words(drop_single_uppers(clean_words(ws)))
}

pub open spec fn views_of(ws: Seq<Vec<char>>) -> Seq<Seq<char>> {
    ws.map_values(|w: Vec<char>| w@)
}

proof fn lemma_split_skip_unfold(s: Seq<char>, i: int)
    requires
        0 <= i < s.len(),
    ensures
        is_wsp_char(s[i]) ==> split_wsp(s.skip(i)) == seq![Seq::<char>::empty()] + split_wsp(
            s.skip(i + 1),
        ),
        !is_wsp_char(s[i]) ==> split_wsp(s.skip(i)) == seq![seq![s[i]] + split_wsp(s.skip(i + 1))[0]]
            + split_wsp(s.skip(i + 1)).skip(1),
{
    assert(s.skip(i)[0] == s[i]);
    assert(s.skip(i).skip(1) =~= s.skip(i + 1));
}

proof fn lemma_strip_skip_unfold(w: Seq<char>, j: int)
    requires
        0 <= j < w.len(),
    ensures
        is_alnum_char(w[j]) ==> strip_non_alnum(w.skip(j)) == seq![w[j]] + strip_non_alnum(
            w.skip(j + 1),
        ),
        !is_alnum_char(w[j]) ==> strip_non_alnum(w.skip(j)) == strip_non_alnum(w.skip(j + 1)),
{
    assert(w.skip(j)[0] == w[j]);
    assert(w.skip(j).skip(1) =~= w.skip(j + 1));
}

proof fn lemma_refine_unfold(ws: Seq<Seq<char>>)
    requires
        ws.len() >= 1,
    ensures
        keep_word(strip_non_alnum(ws[0])) ==> refine_words(ws) == seq![lower_word(
            strip_non_alnum(ws[0]),
        )] + refine_words(ws.skip(1)),
        !keep_word(strip_non_alnum(ws[0])) ==> refine_words(ws) == refine_words(ws.skip(1)),
{
    let cleaned = clean_words(ws);
    assert(cleaned[0] == strip_non_alnum(ws[0]));
    assert(cleaned.skip(1) =~= clean_words(ws.skip(1)));
    if keep_word(cleaned[0]) {
        assert(drop_single_uppers(cleaned) == seq![cleaned[0]] + drop_single_uppers(
            cleaned.skip(1),
        ));
        assert(lower_words(seq![cleaned[0]] + drop_single_uppers(clean_words(ws.skip(1)))) =~= seq![
            lower_word(cleaned[0]),
        ] + refine_words(ws.skip(1)));
    } else {
        assert(drop_single_uppers(cleaned) == drop_single_uppers(cleaned.skip(1)));
    }
}

proof fn lemma_join_push(ws: Seq<Seq<char>>, w: Seq<char>)
    requires
        ws.len() >= 1,
    ensures
        join_sp(ws.push(w)) == join_sp(ws) + seq![' '] + w,
    decreases ws.len(),
{
    if ws.len() == 1 {
        assert(ws.push(w).skip(1) =~= seq![w]);
        assert(join_sp(seq![w]) == w);
        assert(join_sp(ws.push(w)) == ws[0] + seq![' '] + w);
    } else {
        lemma_join_push(ws.skip(1), w);
        assert(ws.push(w).skip(1) =~= ws.skip(1).push(w));
        assert(join_sp(ws.push(w)) == ws[0] + seq![' '] + join_sp(ws.skip(1).push(w)));
        assert(ws[0] + seq![' '] + (join_sp(ws.skip(1)) + seq![' '] + w) =~= (ws[0] + seq![' ']
            + join_sp(ws.skip(1))) + seq![' '] + w);
    }
}

/// Appends all characters of `src` to `dst`.
fn push_all(dst: &mut Vec<char>, src: &Vec<char>)
    ensures
        final(dst)@ == old(dst)@ + src@,
{
    let mut k: usize = 0;
    while k < src.len()
        invariant
            k <= src@.len(),
            dst@ == old(dst)@ + src@.take(k as int),
        decreases src@.len() - k,
    {
        dst.push(src[k]);
        proof {
            assert(old(dst)@ + src@.take(k as int) + seq![src@[k as int]] =~= old(dst)@
                + src@.take(k + 1 as int));
        }
        k = k + 1;
    }
    proof {
        assert(src@.take(src@.len() as int) =~= src@);
    }
}

/// Canonicalize an issue label: split on whitespace, strip non-alphanumeric
/// characters, drop single uppercase letters, lowercase, and rejoin with
/// single spaces.  Classification is ASCII: characters outside ASCII count
/// as punctuation and are stripped (the allow-list is ASCII, so this does
/// not change which labels match it).
pub fn canonicalize_label(label: &str) -> (r: String)
    ensures
        r@ == canon_label(label@),
{
    let cs = to_chars(label);
    let n = cs.len();
    // Split into whitespace-separated words.
    let mut words: Vec<Vec<char>> = Vec::new();
    let mut cur: Vec<char> = Vec::new();
    let mut i: usize = 0;
    proof {
        assert(cs@.skip(0) =~= cs@);
        lemma_split_wsp_len(cs@);
        assert(views_of(words@) + seq![cur@ + split_wsp(cs@)[0]] + split_wsp(cs@).skip(1)
            =~= split_wsp(cs@));
    }
    while i < n
        invariant
            n == cs@.len(),
            i <= n,
            split_wsp(cs@) == views_of(words@) + seq![cur@ + split_wsp(cs@.skip(i as int))[0]]
                + split_wsp(cs@.skip(i as int)).skip(1),
        decreases n - i,
    {
        let c = cs[i];
        proof {
            lemma_split_skip_unfold(cs@, i as int);
            lemma_split_wsp_len(cs@.skip(i + 1));
        }
        let ghost old_words = words@;
        let ghost old_cur = cur@;
        if wsp_char(c) {
            words.push(cur);
            cur = Vec::new();
            proof {
                assert(views_of(words@) =~= views_of(old_words).push(old_cur));
                assert(old_cur + (seq![Seq::<char>::empty()] + split_wsp(cs@.skip(i + 1)))[0]
                    =~= old_cur);
                assert((seq![Seq::<char>::empty()] + split_wsp(cs@.skip(i + 1))).skip(1)
                    =~= split_wsp(cs@.skip(i + 1)));
                assert(views_of(old_words) + seq![old_cur] + split_wsp(cs@.skip(i + 1))
                    =~= views_of(words@) + seq![cur@ + split_wsp(cs@.skip(i + 1))[0]] + split_wsp(
                    cs@.skip(i + 1),
                ).skip(1));
            }
        } else {
            cur.push(c);
            proof {
                let rest = split_wsp(cs@.skip(i + 1));
                let ci = cs@[i as int];
                assert((seq![seq![ci] + rest[0]] + rest.skip(1))[0] == seq![ci] + rest[0]);
                assert((seq![seq![cs@[i as int]] + rest[0]] + rest.skip(1)).skip(1) =~= rest.skip(
                    1,
                ));
                assert(old_cur + (seq![ci] + rest[0]) =~= cur@ + rest[0]);
                assert(views_of(old_words) + seq![old_cur + split_wsp(cs@.skip(i as int))[0]]
                    + split_wsp(cs@.skip(i as int)).skip(1) =~= views_of(words@) + seq![cur@
                    + rest[0]] + rest.skip(1));
            }
        }
        i = i + 1;
    }
    proof {
        assert(cs@.skip(n as int) =~= Seq::<char>::empty());
        assert(split_wsp(Seq::<char>::empty()) == seq![Seq::<char>::empty()]);
        assert(split_wsp(cs@) =~= views_of(words@) + seq![cur@]) by {
            assert(cur@ + seq![Seq::<char>::empty()][0] =~= cur@);
            assert(seq![Seq::<char>::empty()].skip(1) =~= Seq::<Seq<char>>::empty());
        }
    }
    let ghost last_cur = cur@;
    let ghost pre_words = words@;
    words.push(cur);
    proof {
        assert(views_of(words@) =~= views_of(pre_words).push(last_cur));
        assert(views_of(words@) =~= split_wsp(cs@));
    }
    // Strip, filter and lowercase each word.
    let ghost all = views_of(words@);
    let mut out_words: Vec<Vec<char>> = Vec::new();
    let mut t: usize = 0;
    proof {
        assert(all.skip(0) =~= all);
        assert(views_of(out_words@) + refine_words(all) =~= refine_words(all));
    }
    while t < words.len()
        invariant
            t <= words@.len(),
            all == views_of(words@),
            refine_words(all) == views_of(out_words@) + refine_words(all.skip(t as int)),
        decreases words@.len() - t,
    {
        let w = &words[t];
        proof {
            assert(all.skip(t as int)[0] == w@);
            assert(all.skip(t as int).len() >= 1);
            lemma_refine_unfold(all.skip(t as int));
            assert(all.skip(t as int).skip(1) =~= all.skip(t + 1));
        }
        // Strip non-alphanumeric characters.
        let mut sw: Vec<char> = Vec::new();
        let mut j: usize = 0;
        proof {
            assert(w@.skip(0) =~= w@);
        }
        while j < w.len()
            invariant
                j <= w@.len(),
                strip_non_alnum(w@) == sw@ + strip_non_alnum(w@.skip(j as int)),
            decreases w@.len() - j,
        {
            proof {
                lemma_strip_skip_unfold(w@, j as int);
            }
            let ghost old_sw = sw@;
            if alnum_char(w[j]) {
                sw.push(w[j]);
                proof {
                    assert(old_sw + (seq![w@[j as int]] + strip_non_alnum(w@.skip(j + 1))) =~= sw@
                        + strip_non_alnum(w@.skip(j + 1)));
                }
            }
            j = j + 1;
        }
        proof {
            assert(w@.skip(w@.len() as int) =~= Seq::<char>::empty());
            assert(strip_non_alnum(Seq::<char>::empty()) == Seq::<char>::empty());
            assert(sw@ + Seq::<char>::empty() =~= sw@);
            assert(sw@ == strip_non_alnum(w@));
        }
        // Drop a single uppercase letter; lowercase the rest.
        let is_single_upper = sw.len() == 1 && upper_char(sw[0]);
        proof {
            assert(is_single_upper == !keep_word(sw@));
        }
        if !is_single_upper {
            let mut lw: Vec<char> = Vec::new();
            let mut k: usize = 0;
            while k < sw.len()
                invariant
                    k <= sw@.len(),
                    lw@.len() == k,
                    forall|m: int| 0 <= m < k ==> lw@[m] == to_lower_char(#[trigger] sw@[m]),
                decreases sw@.len() - k,
            {
                lw.push(lower_char(sw[k]));
                k = k + 1;
            }
            proof {
                assert(lw@ =~= lower_word(sw@));
            }
            let ghost old_out = out_words@;
            out_words.push(lw);
            proof {
                assert(views_of(out_words@) =~= views_of(old_out).push(lower_word(sw@)));
                assert(views_of(old_out) + (seq![lower_word(sw@)] + refine_words(all.skip(t + 1)))
                    =~= views_of(out_words@) + refine_words(all.skip(t + 1)));
            }
        }
        t = t + 1;
    }
    proof {
        assert(all.skip(words@.len() as int) =~= Seq::<Seq<char>>::empty());
        assert(refine_words(Seq::<Seq<char>>::empty()) == Seq::<Seq<char>>::empty());
        assert(views_of(out_words@) + Seq::<Seq<char>>::empty() =~= views_of(out_words@));
        assert(views_of(out_words@) == canon_words(cs@));
    }
    // Join with single spaces.
    let ghost final_words = views_of(out_words@);
    let mut out: Vec<char> = Vec::new();
    if out_words.len() > 0 {
        push_all(&mut out, &out_words[0]);
        proof {
            assert(final_words.take(1) =~= seq![final_words[0]]);
            assert(join_sp(seq![final_words[0]]) == final_words[0]);
            assert(out@ == join_sp(final_words.take(1)));
        }
        let m = out_words.len();
        let mut t2: usize = 1;
        while t2 < m
            invariant
                1 <= t2 <= m,
                m == out_words@.len(),
                final_words == views_of(out_words@),
                out@ == join_sp(final_words.take(t2 as int)),
            decreases m - t2,
        {
            out.push(' ');
            push_all(&mut out, &out_words[t2]);
            proof {
                lemma_join_push(final_words.take(t2 as int), final_words[t2 as int]);
                assert(final_words.take(t2 as int).push(final_words[t2 as int]) =~= final_words.take(
                    t2 + 1,
                ));
                assert(join_sp(final_words.take(t2 as int)) + seq![' '] + final_words[t2 as int]
                    =~= out@);
            }
            t2 = t2 + 1;
        }
        proof {
            assert(final_words.take(m as int) =~= final_words);
        }
    } else {
        proof {
            assert(final_words =~= Seq::<Seq<char>>::empty());
            assert(join_sp(final_words) == Seq::<char>::empty());
            assert(out@ =~= join_sp(final_words));
        }
    }
    string_from_chars(&out)
}

/// Splitting and rejoining is the identity when the only whitespace in the
/// string is the plain space that joining inserts.
proof fn lemma_join_split_space(s: Seq<char>)
    requires
        forall|i: int| 0 <= i < s.len() ==> is_wsp_char(#[trigger] s[i]) ==> s[i] == ' ',
    ensures
        join_sp(split_wsp(s)) == s,
    decreases s.len(),
{
    if s.len() == 0 {
        assert(join_sp(split_wsp(s)) =~= s);
    } else {
        let rest = s.skip(1);
        assert(forall|i: int| 0 <= i < rest.len() ==> #[trigger] rest[i] == s[i + 1]);
        lemma_join_split_space(rest);
        let r = split_wsp(rest);
        lemma_split_wsp_len(rest);
        if is_wsp_char(s[0]) {
            assert(s[0] == ' ');
            let ws = seq![Seq::<char>::empty()] + r;
            assert(split_wsp(s) == ws);
            assert(ws.len() >= 2);
            assert(ws.skip(1) =~= r);
            assert(join_sp(ws) == ws[0] + seq![' '] + join_sp(r));
            assert(Seq::<char>::empty() + seq![' '] + rest =~= s);
        } else {
            let ws = seq![seq![s[0]] + r[0]] + r.skip(1);
            assert(split_wsp(s) == ws);
            if r.len() == 1 {
                assert(ws =~= seq![seq![s[0]] + r[0]]);
                assert(join_sp(ws) == seq![s[0]] + r[0]);
                assert(join_sp(r) == r[0]);
                assert(seq![s[0]] + r[0] =~= s);
            } else {
                assert(ws.len() >= 2);
                assert(ws.skip(1) =~= r.skip(1));
                assert(join_sp(ws) == (seq![s[0]] + r[0]) + seq![' '] + join_sp(r.skip(1)));
                assert(join_sp(r) == r[0] + seq![' '] + join_sp(r.skip(1)));
                assert((seq![s[0]] + r[0]) + seq![' '] + join_sp(r.skip(1)) =~= seq![s[0]] + (r[0]
                    + seq![' '] + join_sp(r.skip(1))));
                assert(seq![s[0]] + rest =~= s);
            }
        }
    }
}

/// The characters of the split words are non-whitespace characters of the
/// input.
proof fn lemma_split_preserves(s: Seq<char>, p: spec_fn(char) -> bool)
    requires
        forall|i: int| 0 <= i < s.len() ==> p(#[trigger] s[i]),
    ensures
        forall|i: int, j: int|
            0 <= i < split_wsp(s).len() && 0 <= j < split_wsp(s)[i].len() ==> p(
                #[trigger] split_wsp(s)[i][j],
            ) && !is_wsp_char(split_wsp(s)[i][j]),
    decreases s.len(),
{
    if s.len() == 0 {
    } else {
        let rest = s.skip(1);
        assert(forall|i: int| 0 <= i < rest.len() ==> #[trigger] rest[i] == s[i + 1]);
        lemma_split_preserves(rest, p);
        let r = split_wsp(rest);
        lemma_split_wsp_len(rest);
        assert forall|i: int, j: int|
            0 <= i < split_wsp(s).len() && 0 <= j < split_wsp(s)[i].len() implies p(
            #[trigger] split_wsp(s)[i][j],
        ) && !is_wsp_char(split_wsp(s)[i][j]) by {
            if is_wsp_char(s[0]) {
                assert(split_wsp(s) == seq![Seq::<char>::empty()] + r);
                if i > 0 {
                    assert(split_wsp(s)[i] == r[i - 1]);
                }
            } else {
                assert(split_wsp(s) == seq![seq![s[0]] + r[0]] + r.skip(1));
                if i == 0 {
                    if j == 0 {
                        assert(split_wsp(s)[0][0] == s[0]);
                    } else {
                        assert(split_wsp(s)[0][j] == r[0][j - 1]);
                    }
                } else {
                    assert(split_wsp(s)[i] == r.skip(1)[i - 1]);
                    assert(r.skip(1)[i - 1] == r[i]);
                }
            }
        }
    }
}

/// A string made of lowercase alphanumerics and spaces is a fixed point of
/// canonicalization.
pub proof fn lemma_canonical_fixed_point(s: Seq<char>)
    requires
        forall|i: int|
            0 <= i < s.len() ==> (is_alnum_char(#[trigger] s[i]) && !is_upper_char(s[i])) || s[i]
                == ' ',
    ensures
        canon_label(s) == s,
{
    let good = |c: char| (is_alnum_char(c) && !is_upper_char(c)) || c == ' ';
    assert(forall|i: int| 0 <= i < s.len() ==> good(#[trigger] s[i]));
    lemma_split_preserves(s, good);
    let ws = split_wsp(s);
    assert(forall|i: int, j: int|
        0 <= i < ws.len() && 0 <= j < ws[i].len() ==> is_alnum_char(#[trigger] ws[i][j])
            && !is_upper_char(ws[i][j])) by {
        assert(forall|i: int, j: int|
            0 <= i < ws.len() && 0 <= j < ws[i].len() ==> good(#[trigger] ws[i][j])
                && !is_wsp_char(ws[i][j]));
    }
    assert(clean_words(ws) =~~= ws) by {
        assert forall|i: int| 0 <= i < ws.len() implies #[trigger] clean_words(ws)[i]
            == ws[i] by {
            lemma_strip_identity(ws[i]);
        }
    }
    assert(forall|i: int| 0 <= i < ws.len() ==> keep_word(#[trigger] ws[i]));
    lemma_drop_identity(ws);
    assert(lower_words(ws) =~~= ws) by {
        assert forall|i: int| 0 <= i < ws.len() implies #[trigger] lower_words(ws)[i]
            == ws[i] by {
            assert(lower_word(ws[i]) =~= ws[i]);
        }
    }
    assert(canon_words(s) == ws);
    lemma_join_split_space(s);
}

/// Every entry of the built-in allow-list is already in canonical form.
pub proof fn lemma_allow_list_canonical()
    ensures
        forall|i: int|
            0 <= i < default_label_views().len() ==> canon_label(
                #[trigger] default_label_views()[i],
            ) == default_label_views()[i],
{
    reveal_strlit("help wanted");
    reveal_strlit("good first issue");
    reveal_strlit("easy");
    reveal_strlit("beginner");
    lemma_canonical_fixed_point("help wanted"@);
    lemma_canonical_fixed_point("good first issue"@);
    lemma_canonical_fixed_point("easy"@);
    lemma_canonical_fixed_point("beginner"@);
    assert(default_label_views()[0] == "help wanted"@);
    assert(default_label_views()[1] == "good first issue"@);
    assert(default_label_views()[2] == "easy"@);
    assert(default_label_views()[3] == "beginner"@);
}

pub open spec fn string_views(v: Seq<String>) -> Seq<Seq<char>> {
    v.map_values(|s: String| s@)
}

/// The built-in allow-list: labels that mark an issue as approachable.
pub open spec fn default_label_views() -> Seq<Seq<char>> {
    seq!["help wanted"@, "good first issue"@, "easy"@, "beginner"@]
}

pub fn default_labels() -> (r: Vec<String>)
    ensures
        string_views(r@) == default_label_views(),
{
    let mut r: Vec<String> = Vec::new();
    r.push(String::from_str("help wanted"));
    r.push(String::from_str("good first issue"));
    r.push(String::from_str("easy"));
    r.push(String::from_str("beginner"));
    proof {
        assert(string_views(r@) =~= default_label_views());
    }
    r
}

/// Accepts an issue when at least one of its labels canonicalizes to an
/// entry of the allow-list.
pub struct LabelFilter {
    pub allowed: Vec<String>,
}

impl LabelFilter {
    pub open spec fn allowed_views(&self) -> Seq<Seq<char>> {
        string_views(self.allowed@)
    }

    pub open spec fn spec_accepts(&self, labels: Seq<Seq<char>>) -> bool {
        exists|i: int|
            0 <= i < labels.len() && self.allowed_views().contains(
                canon_label(#[trigger] labels[i]),
            )
    }

    pub fn new(allowed: Vec<String>) -> (r: Self)
        ensures
            r.allowed_views() == string_views(allowed@),
    {
        LabelFilter { allowed }
    }

    /// The filter used by the issue producer.
    pub fn with_default_labels() -> (r: Self)
        ensures
            r.allowed_views() == default_label_views(),
    {
        LabelFilter { allowed: default_labels() }
    }

    /// Does any of the given labels, canonicalized, match the allow-list?
    pub fn accepts_labels(&self, labels: &Vec<String>) -> (r: bool)
        ensures
            r == self.spec_accepts(string_views(labels@)),
    {
        let mut i: usize = 0;
        while i < labels.len()
            invariant
                i <= labels@.len(),
                forall|m: int|
                    0 <= m < i ==> !self.allowed_views().contains(
                        canon_label(#[trigger] string_views(labels@)[m]),
                    ),
            decreases labels@.len() - i,
        {
            let c = canonicalize_label(labels[i].as_str());
            let mut j: usize = 0;
            while j < self.allowed.len()
                invariant
                    j <= self.allowed@.len(),
                    c@ == canon_label(labels@[i as int]@),
                    i < labels@.len(),
                    forall|m: int| 0 <= m < j ==> #[trigger] self.allowed@[m]@ != c@,
                decreases self.allowed@.len() - j,
            {
                if c == self.allowed[j] {
                    proof {
                        assert(self.allowed_views()[j as int] == c@);
                        assert(self.allowed_views().contains(
                            canon_label(string_views(labels@)[i as int]),
                        ));
                    }
                    return true;
                }
                j = j + 1;
            }
            proof {
                assert(!self.allowed_views().contains(
                    canon_label(string_views(labels@)[i as int]),
                )) by {
                    assert(forall|m: int|
                        0 <= m < self.allowed@.len() ==> #[trigger] self.allowed_views()[m]
                            == self.allowed@[m]@);
                }
            }
            i = i + 1;
        }
        false
    }
}

} // verus!
