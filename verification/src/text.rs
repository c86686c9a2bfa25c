//! Text utilities: lowercasing, whitespace splitting into terms, and term
//! counting. The relevance scorer and the simple tokenizer are built on these.

use vstd::prelude::*;
use vstd::string::StrSliceExecFns;

verus! {

/// The whitespace characters on which content is split into terms: the
/// Unicode white-space set (as `char::is_whitespace` has it).
pub open spec fn is_space_char(c: char) -> bool {
    ||| c == ' '
    ||| '\u{9}' <= c && c <= '\u{d}'
    ||| c == '\u{85}'
    ||| c == '\u{a0}'
    ||| c == '\u{1680}'
    ||| '\u{2000}' <= c && c <= '\u{200a}'
    ||| c == '\u{2028}'
    ||| c == '\u{2029}'
    ||| c == '\u{202f}'
    ||| c == '\u{205f}'
    ||| c == '\u{3000}'
}

/// Executable test for `is_space_char`.
pub fn is_space(c: char) -> (r: bool)
    ensures
        r == is_space_char(c),
{
    c == ' ' || ('\u{9}' <= c && c <= '\u{d}') || c == '\u{85}' || c == '\u{a0}' || c
        == '\u{1680}' || ('\u{2000}' <= c && c <= '\u{200a}') || c == '\u{2028}' || c
        == '\u{2029}' || c == '\u{202f}' || c == '\u{205f}' || c == '\u{3000}'
}

/// Length of the leading run of non-space characters.
pub open spec fn word_len(s: Seq<char>) -> nat
    decreases s.len(),
{
    if s.len() == 0 || is_space_char(s[0]) {
        0
    } else {
        1 + word_len(s.drop_first())
    }
}

proof fn lemma_word_len_le(s: Seq<char>)
    ensures
        word_len(s) <= s.len(),
    decreases s.len(),
{
    if s.len() > 0 && !is_space_char(s[0]) {
        lemma_word_len_le(s.drop_first());
    }
}

#[via_fn]
proof fn split_spec_decreases(s: Seq<char>) {
    lemma_word_len_le(s);
}

/// The whitespace-delimited terms of a character sequence, in order.
pub open spec fn split_spec(s: Seq<char>) -> Seq<Seq<char>>
    decreases s.len(),
    via split_spec_decreases
{
    if s.len() == 0 {
        Seq::empty()
    } else if is_space_char(s[0]) {
        split_spec(s.drop_first())
    } else {
        seq![s.take(word_len(s) as int)] + split_spec(s.skip(word_len(s) as int))
    }
}

/// Every character of `s` is a non-space character.
pub open spec fn all_non_space(s: Seq<char>) -> bool {
    forall|i: int| 0 <= i < s.len() ==> !is_space_char(#[trigger] s[i])
}

/// The leading word of `w + rest` is exactly `w` when `w` holds no spaces and
/// `rest` starts with a space (or is empty).
proof fn lemma_word_len_concat(w: Seq<char>, rest: Seq<char>)
    requires
        all_non_space(w),
        rest.len() == 0 || is_space_char(rest[0]),
    ensures
        word_len(w + rest) == w.len(),
    decreases w.len(),
{
    if w.len() == 0 {
        assert(w + rest =~= rest);
    } else {
        assert((w + rest)[0] == w[0]);
        assert((w + rest).drop_first() =~= w.drop_first() + rest);
        assert(all_non_space(w.drop_first()));
        lemma_word_len_concat(w.drop_first(), rest);
    }
}

/// Splitting `w + rest` yields `w` followed by the terms of `rest`, when `w`
/// is a non-empty spaceless word and `rest` starts with a space or is empty.
proof fn lemma_split_word_boundary(w: Seq<char>, rest: Seq<char>)
    requires
        all_non_space(w),
        rest.len() == 0 || is_space_char(rest[0]),
    ensures
        split_spec(w + rest) == if w.len() == 0 {
            split_spec(rest)
        } else {
            seq![w] + split_spec(rest)
        },
{
    if w.len() == 0 {
        assert(w + rest =~= rest);
    } else {
        let s = w + rest;
        lemma_word_len_concat(w, rest);
        assert(!is_space_char(s[0]));
        assert(s.take(w.len() as int) =~= w);
        assert(s.skip(w.len() as int) =~= rest);
    }
}

/// Collect the characters of a string into a vector.
pub fn chars_vec(s: &str) -> (r: Vec<char>)
    ensures
        r@ == s@,
{
    let n = s.unicode_len();
    let mut r: Vec<char> = Vec::new();
    let mut i: usize = 0;
    while i < n
        invariant
            n == s@.len(),
            i <= n,
            r@ == s@.take(i as int),
        decreases n - i,
    {
        r.push(s.get_char(i));
        i = i + 1;
        assert(r@ =~= s@.take(i as int));
    }
    assert(r@ =~= s@);
    r
}

/// Split a character vector into its whitespace-delimited terms.
pub fn split_terms(chars: &Vec<char>) -> (r: Vec<Vec<char>>)
    ensures
        r@.map_values(|t: Vec<char>| t@) == split_spec(chars@),
{
    let ghost full = chars@;
    let mut r: Vec<Vec<char>> = Vec::new();
    let mut word: Vec<char> = Vec::new();
    let mut i: usize = 0;
    proof {
        assert(word@ + full.skip(0) =~= full);
        assert(r@.map_values(|t: Vec<char>| t@) + split_spec(full) =~= split_spec(full));
    }
    while i < chars.len()
        invariant
            i <= chars.len(),
            full == chars@,
            all_non_space(word@),
            split_spec(full) == r@.map_values(|t: Vec<char>| t@) + split_spec(
                word@ + full.skip(i as int),
            ),
        decreases chars.len() - i,
    {
        let c = chars[i];
        let ghost prev_rest = word@ + full.skip(i as int);
        if is_space(c) {
            proof {
                assert(full.skip(i as int)[0] == c);
                assert(full.skip(i as int) =~= seq![c] + full.skip(i + 1));
                assert(prev_rest =~= word@ + (seq![c] + full.skip(i + 1)));
                lemma_split_word_boundary(word@, seq![c] + full.skip(i + 1));
                assert(split_spec(seq![c] + full.skip(i + 1)) == split_spec(
                    (seq![c] + full.skip(i + 1)).drop_first(),
                ));
                assert((seq![c] + full.skip(i + 1)).drop_first() =~= full.skip(i + 1));
            }
            if word.len() > 0 {
                let ghost old_r = r@;
                let ghost w = word@;
                r.push(word);
                proof {
                    let old_map = old_r.map_values(|t: Vec<char>| t@);
                    assert(r@.map_values(|t: Vec<char>| t@) =~= old_map + seq![w]);
                    assert(old_map + (seq![w] + split_spec(full.skip(i + 1))) =~= (old_map
                        + seq![w]) + split_spec(full.skip(i + 1)));
                }
                word = Vec::new();
            }
            proof {
                assert(word@ + full.skip(i + 1) =~= full.skip(i + 1));
            }
        } else {
            word.push(c);
            proof {
                assert(word@ + full.skip(i + 1) =~= prev_rest);
            }
        }
        i = i + 1;
    }
    proof {
        assert(word@ + full.skip(i as int) =~= word@);
        lemma_split_word_boundary(word@, Seq::empty());
        assert(word@ + Seq::<char>::empty() =~= word@);
    }
    if word.len() > 0 {
        let ghost old_r = r@;
        r.push(word);
        proof {
            assert(r@.map_values(|t: Vec<char>| t@) =~= old_r.map_values(|t: Vec<char>| t@)
                + seq![word@ + Seq::<char>::empty()].map_values(|t: Seq<char>| t));
        }
    }
    proof {
        assert(r@.map_values(|t: Vec<char>| t@) =~= split_spec(full));
    }
    r
}

/// How many terms of `ts` equal `t`.
pub open spec fn count_term(ts: Seq<Seq<char>>, t: Seq<char>) -> nat
    decreases ts.len(),
{
    if ts.len() == 0 {
        0
    } else {
        (if ts[0] == t {
            1nat
        } else {
            0nat
        }) + count_term(ts.drop_first(), t)
    }
}

/// Whether some term of `ts` equals `t`.
pub open spec fn has_term(ts: Seq<Seq<char>>, t: Seq<char>) -> bool {
    exists|i: int| 0 <= i < ts.len() && ts[i] == t
}

pub proof fn lemma_count_term_bound(ts: Seq<Seq<char>>, t: Seq<char>)
    ensures
        count_term(ts, t) <= ts.len(),
    decreases ts.len(),
{
    if ts.len() > 0 {
        lemma_count_term_bound(ts.drop_first(), t);
    }
}

/// Count the occurrences of term `t` in `ts`.
pub fn count_occurrences(ts: &Vec<Vec<char>>, t: &Vec<char>) -> (r: u64)
    requires
        ts@.len() <= u64::MAX,
    ensures
        r == count_term(ts@.map_values(|x: Vec<char>| x@), t@),
{
    let ghost tss = ts@.map_values(|x: Vec<char>| x@);
    let mut r: u64 = 0;
    let mut i: usize = 0;
    proof {
        lemma_count_term_bound(tss, t@);
    }
    while i < ts.len()
        invariant
            i <= ts.len(),
            tss == ts@.map_values(|x: Vec<char>| x@),
            tss.len() == ts@.len() <= u64::MAX,
            r == count_term(tss.take(i as int), t@),
            r <= i,
        decreases ts.len() - i,
    {
        proof {
            assert(tss.take(i + 1).drop_last() =~= tss.take(i as int));
            lemma_count_term_snoc(tss.take(i + 1), t@);
        }
        if vec_chars_eq(&ts[i], t) {
            r = r + 1;
        }
        i = i + 1;
    }
    proof {
        assert(tss.take(i as int) =~= tss);
    }
    r
}

/// Counting over `ts.push(x)` adds one exactly when `x == t`.
proof fn lemma_count_term_snoc(ts: Seq<Seq<char>>, t: Seq<char>)
    requires
        ts.len() > 0,
    ensures
        count_term(ts, t) == count_term(ts.drop_last(), t) + if ts.last() == t {
            1int
        } else {
            0int
        },
    decreases ts.len(),
{
    if ts.len() == 1 {
        assert(ts.drop_first() =~= ts.drop_last());
        assert(count_term(ts.drop_last(), t) == 0);
    } else {
        lemma_count_term_snoc(ts.drop_first(), t);
        assert(ts.drop_first().drop_last() =~= ts.drop_last().drop_first());
        assert(ts.drop_first().last() == ts.last());
    }
}

/// Compare two character vectors for equality.
pub fn vec_chars_eq(a: &Vec<char>, b: &Vec<char>) -> (r: bool)
    ensures
        r == (a@ == b@),
{
    if a.len() != b.len() {
        return false;
    }
    let mut i: usize = 0;
    while i < a.len()
        invariant
            a@.len() == b@.len(),
            i <= a@.len(),
            forall|j: int| 0 <= j < i ==> a@[j] == b@[j],
        decreases a.len() - i,
    {
        if a[i] != b[i] {
            return false;
        }
        i = i + 1;
    }
    proof {
        assert(a@ =~= b@);
    }
    true
}

/// Whether term `t` occurs in `ts`.
pub fn contains_term(ts: &Vec<Vec<char>>, t: &Vec<char>) -> (r: bool)
    ensures
        r == has_term(ts@.map_values(|x: Vec<char>| x@), t@),
{
    let ghost tss = ts@.map_values(|x: Vec<char>| x@);
    let mut i: usize = 0;
    while i < ts.len()
        invariant
            i <= ts.len(),
            tss == ts@.map_values(|x: Vec<char>| x@),
            forall|j: int| 0 <= j < i ==> tss[j] != t@,
        decreases ts.len() - i,
    {
        if vec_chars_eq(&ts[i], t) {
            proof {
                assert(tss[i as int] == t@);
            }
            return true;
        }
        i = i + 1;
    }
    false
}

/// The distinct terms of `ts`, keeping the first occurrence of each.
pub open spec fn dedup_spec(ts: Seq<Seq<char>>) -> Seq<Seq<char>>
    decreases ts.len(),
{
    if ts.len() == 0 {
        Seq::empty()
    } else if has_term(ts.drop_last(), ts.last()) {
        dedup_spec(ts.drop_last())
    } else {
        dedup_spec(ts.drop_last()).push(ts.last())
    }
}

/// Deduplicate a list of terms, keeping first occurrences in order.
pub fn dedup_terms(ts: &Vec<Vec<char>>) -> (r: Vec<Vec<char>>)
    ensures
        r@.map_values(|x: Vec<char>| x@) == dedup_spec(ts@.map_values(|x: Vec<char>| x@)),
{
    let ghost tss = ts@.map_values(|x: Vec<char>| x@);
    let mut r: Vec<Vec<char>> = Vec::new();
    let mut i: usize = 0;
    while i < ts.len()
        invariant
            i <= ts.len(),
            tss == ts@.map_values(|x: Vec<char>| x@),
            r@.map_values(|x: Vec<char>| x@) == dedup_spec(tss.take(i as int)),
            forall|t: Seq<char>| has_term(tss.take(i as int), t) == #[trigger] has_term(
                dedup_spec(tss.take(i as int)),
                t,
            ),
        decreases ts.len() - i,
    {
        let ghost pre = tss.take(i as int);
        proof {
            assert(tss.take(i + 1).drop_last() =~= pre);
            assert(tss.take(i + 1).last() == tss[i as int]);
            assert(tss.take(i + 1) =~= pre.push(tss[i as int]));
            lemma_has_term_extend(pre, tss[i as int]);
        }
        let present = contains_term(&r, &ts[i]);
        proof {
            assert(has_term(pre, tss[i as int]) == present);
        }
        if !present {
            let ghost old_r = r@;
            r.push(ts[i].clone());
            proof {
                assert(ts[i as int]@ == tss[i as int]);
                assert(r@.map_values(|x: Vec<char>| x@) =~= old_r.map_values(|x: Vec<char>| x@)
                    .push(tss[i as int]));
                lemma_has_term_extend(old_r.map_values(|x: Vec<char>| x@), tss[i as int]);
            }
        }
        i = i + 1;
    }
    proof {
        assert(tss.take(i as int) =~= tss);
    }
    r
}

/// Membership in `ts.push(x)` is membership in `ts` or equality with `x`.
proof fn lemma_has_term_extend(ts: Seq<Seq<char>>, x: Seq<char>)
    ensures
        forall|t: Seq<char>| #[trigger] has_term(ts.push(x), t) == (has_term(ts, t) || t == x),
{
    assert forall|t: Seq<char>| #[trigger] has_term(ts.push(x), t) == (has_term(ts, t) || t
        == x) by {
        if has_term(ts, t) {
            let i = choose|i: int| 0 <= i < ts.len() && ts[i] == t;
            assert(ts.push(x)[i] == t);
        }
        if t == x {
            assert(ts.push(x)[ts.len() as int] == t);
        }
        if has_term(ts.push(x), t) && t != x {
            let i = choose|i: int| 0 <= i < ts.push(x).len() && ts.push(x)[i] == t;
            assert(ts[i] == t);
        }
    }
}

pub uninterp spec fn lower_of(s: Seq<char>) -> Seq<char>;

/// Relies on str::to_lowercase: the result depends on the characters alone,
/// so it is named by `lower_of` rather than spelled out.
#[verifier::external_body]
pub fn lowercase(s: &str) -> (r: String)
    ensures
        r@ == lower_of(s@),
{
    s.to_lowercase()
}

} // verus!
