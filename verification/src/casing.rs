//! Subject-casing classification: the four disallowed shapes of a commit
//! subject, each an independent predicate.

use vstd::prelude::*;

use crate::chars::{
    copy_range, is_ascii_alpha, is_ascii_digit, is_ascii_lower, is_ascii_upper, is_space,
    lemma_lines_deep_index, spec_is_ascii_alpha, spec_is_ascii_digit, spec_is_ascii_lower,
    spec_is_ascii_upper, spec_is_space,
};

verus! {

// ------------------------------------------------------------------
// Words, as `str::split_whitespace` yields them
// ------------------------------------------------------------------

/// Index of the first whitespace character, or the length if none.
pub open spec fn spec_first_space_at(s: Seq<char>) -> int
    decreases s.len(),
{
    if s.len() == 0 {
        0
    } else if spec_is_space(s[0]) {
        0
    } else {
        1 + spec_first_space_at(s.drop_first())
    }
}

pub proof fn lemma_first_space_bounds(s: Seq<char>)
    ensures
        0 <= spec_first_space_at(s) <= s.len(),
        forall|j: int| 0 <= j < spec_first_space_at(s) ==> !spec_is_space(s[j]),
        spec_first_space_at(s) < s.len() ==> spec_is_space(s[spec_first_space_at(s)]),
    decreases s.len(),
{
    if s.len() > 0 && !spec_is_space(s[0]) {
        lemma_first_space_bounds(s.drop_first());
        assert forall|j: int| 0 <= j < spec_first_space_at(s) implies !spec_is_space(
            #[trigger] s[j],
        ) by {
            if j >= 1 {
                assert(s.drop_first()[j - 1] == s[j]);
            }
        }
        if spec_first_space_at(s) < s.len() {
            assert(s.drop_first()[spec_first_space_at(s) - 1] == s[spec_first_space_at(s)]);
        }
    }
}

/// The whitespace-separated words of the subject.
pub open spec fn spec_words(s: Seq<char>) -> Seq<Seq<char>>
    decreases s.len(),
{
    if s.len() == 0 {
        Seq::<Seq<char>>::empty()
    } else if spec_is_space(s[0]) {
        spec_words(s.drop_first())
    } else {
        let j = spec_first_space_at(s);
        let jj = if 1 <= j <= s.len() {
            j
        } else {
            1
        };
        seq![s.take(jj)] + spec_words(s.skip(jj))
    }
}

pub fn words_of(v: &Vec<char>) -> (r: Vec<Vec<char>>)
    ensures
        r.deep_view() == spec_words(v@),
{
    let mut r: Vec<Vec<char>> = Vec::new();
    let mut i: usize = 0;
    proof {
        assert(v@.skip(0) =~= v@);
        assert(r.deep_view() + spec_words(v@.skip(0)) =~~= spec_words(v@));
    }
    while i < v.len()
        invariant
            0 <= i <= v@.len(),
            r.deep_view() + spec_words(v@.skip(i as int)) == spec_words(v@),
        decreases v@.len() - i,
    {
        let ghost rem = v@.skip(i as int);
        assert(rem[0] == v@[i as int]);
        if is_space(v[i]) {
            proof {
                assert(rem.drop_first() =~= v@.skip(i as int + 1));
            }
            i += 1;
        } else {
            let mut j = i + 1;
            while j < v.len() && !is_space(v[j])
                invariant
                    i < j <= v@.len(),
                    forall|t: int| i < t < j ==> !spec_is_space(v@[t]),
                decreases v@.len() - j,
            {
                j += 1;
            }
            proof {
                lemma_first_space_bounds(rem);
                assert(forall|t: int|
                    0 <= t < rem.len() ==> #[trigger] rem[t] == v@[i as int + t]);
                assert forall|t: int| 0 <= t < j - i implies !spec_is_space(rem[t]) by {}
                if spec_first_space_at(rem) < j - i {
                    assert(false);
                }
                if spec_first_space_at(rem) > j - i {
                    assert(j < v@.len() && spec_is_space(v@[j as int]));
                    assert(spec_is_space(rem[j - i]));
                    assert(false);
                }
                assert(spec_first_space_at(rem) == j - i);
            }
            let word = copy_range(v, i, j);
            let ghost old_dv = r.deep_view();
            r.push(word);
            proof {
                assert(r.deep_view() =~~= old_dv.push(word@));
                assert(rem.take(j - i) =~= v@.subrange(i as int, j as int));
                assert(rem.skip(j - i) =~= v@.skip(j as int));
                assert(spec_words(rem) == seq![rem.take(j - i)] + spec_words(rem.skip(j - i)));
                assert(r.deep_view() + spec_words(v@.skip(j as int)) =~~= spec_words(v@));
            }
            i = j;
        }
    }
    proof {
        assert(v@.skip(v@.len() as int) =~= Seq::<char>::empty());
        assert(r.deep_view() =~~= spec_words(v@));
    }
    r
}

// ------------------------------------------------------------------
// First ASCII letter of a word
// ------------------------------------------------------------------

pub open spec fn spec_first_alpha(w: Seq<char>) -> Option<int>
    decreases w.len(),
{
    if w.len() == 0 {
        None
    } else if spec_is_ascii_alpha(w[0]) {
        Some(0int)
    } else {
        match spec_first_alpha(w.drop_first()) {
            None => None,
            Some(i) => Some(i + 1),
        }
    }
}

pub proof fn lemma_first_alpha_props(w: Seq<char>)
    ensures
        match spec_first_alpha(w) {
            None => forall|j: int| 0 <= j < w.len() ==> !spec_is_ascii_alpha(#[trigger] w[j]),
            Some(i) => 0 <= i < w.len() && spec_is_ascii_alpha(w[i]) && forall|j: int|
                0 <= j < i ==> !spec_is_ascii_alpha(#[trigger] w[j]),
        },
    decreases w.len(),
{
    if w.len() > 0 && !spec_is_ascii_alpha(w[0]) {
        lemma_first_alpha_props(w.drop_first());
        let t = w.drop_first();
        match spec_first_alpha(t) {
            None => {
                assert forall|j: int| 0 <= j < w.len() implies !spec_is_ascii_alpha(
                    #[trigger] w[j],
                ) by {
                    if j >= 1 {
                        assert(t[j - 1] == w[j]);
                    }
                }
            },
            Some(i) => {
                assert(t[i] == w[i + 1]);
                assert forall|j: int| 0 <= j < i + 1 implies !spec_is_ascii_alpha(
                    #[trigger] w[j],
                ) by {
                    if j >= 1 {
                        assert(t[j - 1] == w[j]);
                    }
                }
            },
        }
    }
}

pub fn first_alpha(w: &Vec<char>) -> (r: Option<usize>)
    ensures
        r is Some <==> spec_first_alpha(w@) is Some,
        r matches Some(k) ==> spec_first_alpha(w@) == Some(k as int),
{
    proof {
        lemma_first_alpha_props(w@);
    }
    let mut j: usize = 0;
    while j < w.len()
        invariant
            0 <= j <= w@.len(),
            forall|t: int| 0 <= t < j ==> !spec_is_ascii_alpha(#[trigger] w@[t]),
        decreases w@.len() - j,
    {
        if is_ascii_alpha(w[j]) {
            proof {
                lemma_first_alpha_props(w@);
                match spec_first_alpha(w@) {
                    None => {
                        assert(!spec_is_ascii_alpha(w@[j as int]));
                    },
                    Some(i) => {
                        if i < j {
                            assert(spec_is_ascii_alpha(w@[i]));
                            assert(false);
                        }
                        if i > j {
                            assert(!spec_is_ascii_alpha(w@[j as int]));
                        }
                    },
                }
            }
            return Some(j);
        }
        j += 1;
    }
    None
}

// ------------------------------------------------------------------
// The four disallowed shapes
// ------------------------------------------------------------------

/// Upper case: the subject has letters and none of them is lower case.
pub open spec fn spec_is_upper_case(s: Seq<char>) -> bool {
    &&& exists|i: int| 0 <= i < s.len() && spec_is_ascii_alpha(#[trigger] s[i])
    &&& forall|i: int|
        0 <= i < s.len() && spec_is_ascii_alpha(#[trigger] s[i]) ==> !spec_is_ascii_lower(s[i])
}

pub fn is_upper_case(v: &Vec<char>) -> (r: bool)
    ensures
        r == spec_is_upper_case(v@),
{
    let mut saw_alpha = false;
    let mut i: usize = 0;
    while i < v.len()
        invariant
            0 <= i <= v@.len(),
            saw_alpha == exists|j: int| 0 <= j < i && spec_is_ascii_alpha(#[trigger] v@[j]),
            forall|j: int|
                0 <= j < i && spec_is_ascii_alpha(#[trigger] v@[j]) ==> !spec_is_ascii_lower(
                    v@[j],
                ),
        decreases v@.len() - i,
    {
        let c = v[i];
        if is_ascii_alpha(c) {
            if is_ascii_lower(c) {
                return false;
            }
            saw_alpha = true;
        }
        i += 1;
    }
    saw_alpha
}

/// Pascal case: one word that starts upper case and mixes in a lower-case
/// letter, built of letters, digits, underscores and hyphens.
pub open spec fn spec_is_pascal_case(s: Seq<char>) -> bool {
    &&& s.len() > 0
    &&& !exists|i: int| 0 <= i < s.len() && spec_is_space(#[trigger] s[i])
    &&& spec_is_ascii_upper(s[0])
    &&& forall|i: int|
        1 <= i < s.len() ==> spec_is_ascii_alpha(#[trigger] s[i]) || spec_is_ascii_digit(s[i])
            || s[i] == '_' || s[i] == '-'
    &&& exists|i: int| 1 <= i < s.len() && spec_is_ascii_lower(#[trigger] s[i])
}

pub fn is_pascal_case(v: &Vec<char>) -> (r: bool)
    ensures
        r == spec_is_pascal_case(v@),
{
    let mut i: usize = 0;
    while i < v.len()
        invariant
            0 <= i <= v@.len(),
            forall|j: int| 0 <= j < i ==> !spec_is_space(#[trigger] v@[j]),
        decreases v@.len() - i,
    {
        if is_space(v[i]) {
            return false;
        }
        i += 1;
    }
    if v.len() == 0 {
        return false;
    }
    if !is_ascii_upper(v[0]) {
        return false;
    }
    let mut saw_lower = false;
    let mut k: usize = 1;
    while k < v.len()
        invariant
            1 <= k <= v@.len(),
            v@.len() > 0,
            saw_lower == exists|j: int| 1 <= j < k && spec_is_ascii_lower(#[trigger] v@[j]),
            forall|j: int|
                1 <= j < k ==> spec_is_ascii_alpha(#[trigger] v@[j]) || spec_is_ascii_digit(
                    v@[j],
                ) || v@[j] == '_' || v@[j] == '-',
        decreases v@.len() - k,
    {
        let c = v[k];
        if is_ascii_upper(c) {
        } else if is_ascii_lower(c) {
            saw_lower = true;
        } else if !is_ascii_digit(c) && c != '_' && c != '-' {
            return false;
        }
        k += 1;
    }
    saw_lower
}

/// What one word must look like: its first letter as demanded, and no
/// upper-case letter after it.  A word with no letter is not constrained.
pub open spec fn spec_word_ok(w: Seq<char>, first_upper: bool) -> bool {
    match spec_first_alpha(w) {
        None => true,
        Some(a) => {
            &&& (if first_upper {
                spec_is_ascii_upper(w[a])
            } else {
                spec_is_ascii_lower(w[a])
            })
            &&& forall|j: int| a < j < w.len() ==> !spec_is_ascii_upper(#[trigger] w[j])
        },
    }
}

fn word_ok(w: &Vec<char>, first_upper: bool) -> (r: bool)
    ensures
        r == spec_word_ok(w@, first_upper),
{
    proof {
        lemma_first_alpha_props(w@);
    }
    match first_alpha(w) {
        None => true,
        Some(a) => {
            let n = w.len();
            assert(a < n);
            let lead_ok = if first_upper {
                is_ascii_upper(w[a])
            } else {
                is_ascii_lower(w[a])
            };
            if !lead_ok {
                proof {
                    assert(spec_first_alpha(w@) == Some(a as int));
                }
                return false;
            }
            let mut j = a + 1;
            while j < n
                invariant
                    n == w@.len(),
                    a < j <= w@.len(),
                    a < w@.len(),
                    spec_first_alpha(w@) == Some(a as int),
                    forall|t: int| a < t < j ==> !spec_is_ascii_upper(#[trigger] w@[t]),
                decreases w@.len() - j,
            {
                if is_ascii_upper(w[j]) {
                    proof {
                        assert(spec_is_ascii_upper(w@[j as int]));
                        assert(!spec_word_ok(w@, first_upper));
                    }
                    return false;
                }
                j += 1;
            }
            true
        },
    }
}

/// Sentence case: two or more words, the first capitalized, every other word
/// starting lower case, and no embedded upper-case letters.
pub open spec fn spec_is_sentence_case(s: Seq<char>) -> bool {
    let ws = spec_words(s);
    &&& ws.len() >= 2
    &&& spec_first_alpha(ws[0]) is Some
    &&& forall|i: int| 0 <= i < ws.len() ==> spec_word_ok(#[trigger] ws[i], i == 0)
}

pub fn is_sentence_case(v: &Vec<char>) -> (r: bool)
    ensures
        r == spec_is_sentence_case(v@),
{
    let ws = words_of(v);
    if ws.len() < 2 {
        return false;
    }
    proof {
        lemma_lines_deep_index(ws, 0);
    }
    if first_alpha(&ws[0]).is_none() {
        return false;
    }
    let mut i: usize = 0;
    while i < ws.len()
        invariant
            0 <= i <= ws@.len(),
            ws.deep_view() == spec_words(v@),
            ws.deep_view().len() == ws@.len(),
            forall|j: int| 0 <= j < i ==> spec_word_ok(#[trigger] ws.deep_view()[j], j == 0),
        decreases ws@.len() - i,
    {
        proof {
            lemma_lines_deep_index(ws, i as int);
        }
        if !word_ok(&ws[i], i == 0) {
            return false;
        }
        i += 1;
    }
    true
}

/// Start case: two or more words, each capitalized, with no embedded
/// upper-case letters.
pub open spec fn spec_is_start_case(s: Seq<char>) -> bool {
    let ws = spec_words(s);
    &&& ws.len() >= 2
    &&& forall|i: int| 0 <= i < ws.len() ==> spec_word_ok(#[trigger] ws[i], true)
}

pub fn is_start_case(v: &Vec<char>) -> (r: bool)
    ensures
        r == spec_is_start_case(v@),
{
    let ws = words_of(v);
    if ws.len() < 2 {
        return false;
    }
    let mut i: usize = 0;
    while i < ws.len()
        invariant
            0 <= i <= ws@.len(),
            ws.deep_view() == spec_words(v@),
            ws.deep_view().len() == ws@.len(),
            forall|j: int| 0 <= j < i ==> spec_word_ok(#[trigger] ws.deep_view()[j], true),
        decreases ws@.len() - i,
    {
        proof {
            lemma_lines_deep_index(ws, i as int);
        }
        if !word_ok(&ws[i], true) {
            return false;
        }
        i += 1;
    }
    true
}

/// The casing rule of the subject line: none of the four shapes is allowed.
pub open spec fn spec_is_disallowed_subject_case(s: Seq<char>) -> bool {
    spec_is_upper_case(s) || spec_is_pascal_case(s) || spec_is_sentence_case(s)
        || spec_is_start_case(s)
}

pub fn is_disallowed_subject_case(v: &Vec<char>) -> (r: bool)
    ensures
        r == spec_is_disallowed_subject_case(v@),
{
    is_upper_case(v) || is_pascal_case(v) || is_sentence_case(v) || is_start_case(v)
}

} // verus!
