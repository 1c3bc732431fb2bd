//! Character classes, trimming, and line splitting over sequences of
//! characters, shared by the structural parser and the validators.

use vstd::prelude::*;

verus! {

// ------------------------------------------------------------------
// Character classes
// ------------------------------------------------------------------

/// The Unicode `White_Space` characters.
pub open spec fn spec_is_space(c: char) -> bool {
    c == ' ' || c == '\t' || c == '\n' || c == '\r' || c == '\u{0b}' || c == '\u{0c}'
        || c == '\u{85}' || c == '\u{a0}' || c == '\u{1680}' || (0x2000 <= c as u32 <= 0x200a)
        || c == '\u{2028}' || c == '\u{2029}' || c == '\u{202f}' || c == '\u{205f}'
        || c == '\u{3000}'
}

/// Whether `c` is a Unicode whitespace character.
pub fn is_space(c: char) -> (r: bool)
    ensures
        r == spec_is_space(c),
{
    c == ' ' || c == '\t' || c == '\n' || c == '\r' || c == '\u{0b}' || c == '\u{0c}'
        || c == '\u{85}' || c == '\u{a0}' || c == '\u{1680}' || (0x2000 <= c as u32 && c as u32
        <= 0x200a) || c == '\u{2028}' || c == '\u{2029}' || c == '\u{202f}' || c == '\u{205f}'
        || c == '\u{3000}'
}

pub open spec fn spec_is_ascii_upper(c: char) -> bool {
    65 <= c as u32 <= 90
}

pub open spec fn spec_is_ascii_lower(c: char) -> bool {
    97 <= c as u32 <= 122
}

pub open spec fn spec_is_ascii_alpha(c: char) -> bool {
    spec_is_ascii_upper(c) || spec_is_ascii_lower(c)
}

pub open spec fn spec_is_ascii_digit(c: char) -> bool {
    48 <= c as u32 <= 57
}

pub open spec fn spec_is_ascii_alnum(c: char) -> bool {
    spec_is_ascii_alpha(c) || spec_is_ascii_digit(c)
}

pub fn is_ascii_upper(c: char) -> (r: bool)
    ensures
        r == spec_is_ascii_upper(c),
{
    65 <= c as u32 && c as u32 <= 90
}

pub fn is_ascii_lower(c: char) -> (r: bool)
    ensures
        r == spec_is_ascii_lower(c),
{
    97 <= c as u32 && c as u32 <= 122
}

pub fn is_ascii_alpha(c: char) -> (r: bool)
    ensures
        r == spec_is_ascii_alpha(c),
{
    is_ascii_upper(c) || is_ascii_lower(c)
}

pub fn is_ascii_digit(c: char) -> (r: bool)
    ensures
        r == spec_is_ascii_digit(c),
{
    48 <= c as u32 && c as u32 <= 57
}

pub fn is_ascii_alnum(c: char) -> (r: bool)
    ensures
        r == spec_is_ascii_alnum(c),
{
    is_ascii_alpha(c) || is_ascii_digit(c)
}

/// ASCII upper-case letters folded to lower case; everything else unchanged.
pub open spec fn spec_fold_lower(c: char) -> int {
    if spec_is_ascii_upper(c) {
        c as u32 + 32
    } else {
        c as u32 as int
    }
}

pub fn fold_lower(c: char) -> (r: u32)
    ensures
        r as int == spec_fold_lower(c),
{
    if is_ascii_upper(c) {
        c as u32 + 32
    } else {
        c as u32
    }
}

// ------------------------------------------------------------------
// Blank lines and trimming
// ------------------------------------------------------------------

/// A line is blank when every character is whitespace.
pub open spec fn spec_is_blank(s: Seq<char>) -> bool {
    forall|i: int| 0 <= i < s.len() ==> spec_is_space(s[i])
}

pub fn is_blank(v: &Vec<char>) -> (r: bool)
    ensures
        r == spec_is_blank(v@),
{
    let mut i: usize = 0;
    while i < v.len()
        invariant
            0 <= i <= v@.len(),
            forall|j: int| 0 <= j < i ==> spec_is_space(v@[j]),
        decreases v@.len() - i,
    {
        if !is_space(v[i]) {
            return false;
        }
        i += 1;
    }
    true
}

pub open spec fn spec_drop_leading_space(s: Seq<char>) -> Seq<char>
    decreases s.len(),
{
    if s.len() > 0 && spec_is_space(s[0]) {
        spec_drop_leading_space(s.drop_first())
    } else {
        s
    }
}

pub open spec fn spec_drop_trailing_space(s: Seq<char>) -> Seq<char>
    decreases s.len(),
{
    if s.len() > 0 && spec_is_space(s.last()) {
        spec_drop_trailing_space(s.drop_last())
    } else {
        s
    }
}

/// What `str::trim` returns: the text with whitespace removed from both ends.
pub open spec fn spec_trim(s: Seq<char>) -> Seq<char> {
    spec_drop_trailing_space(spec_drop_leading_space(s))
}

pub proof fn lemma_drop_leading_space_skip(s: Seq<char>, a: int)
    requires
        0 <= a <= s.len(),
        forall|j: int| 0 <= j < a ==> spec_is_space(s[j]),
        a < s.len() ==> !spec_is_space(s[a]),
    ensures
        spec_drop_leading_space(s) == s.skip(a),
    decreases a,
{
    if a == 0 {
        assert(s.skip(0) =~= s);
    } else {
        assert(spec_is_space(s[0]));
        lemma_drop_leading_space_skip(s.drop_first(), a - 1);
        assert(s.drop_first().skip(a - 1) =~= s.skip(a));
    }
}

pub proof fn lemma_drop_trailing_space_take(s: Seq<char>, b: int)
    requires
        0 <= b <= s.len(),
        forall|j: int| b <= j < s.len() ==> spec_is_space(s[j]),
        b > 0 ==> !spec_is_space(s[b - 1]),
    ensures
        spec_drop_trailing_space(s) == s.take(b),
    decreases s.len(),
{
    if b == s.len() {
        if s.len() > 0 && spec_is_space(s.last()) {
            assert(!spec_is_space(s[b - 1]));
            assert(false);
        }
        assert(s.take(b) =~= s);
    } else {
        assert(spec_is_space(s.last()));
        lemma_drop_trailing_space_take(s.drop_last(), b);
        assert(s.drop_last().take(b) =~= s.take(b));
    }
}

/// Trimming a blank line leaves nothing; trimming a non-blank line leaves
/// its characters from the first to the last non-whitespace character.
pub proof fn lemma_trim_subrange(s: Seq<char>, a: int, b: int)
    requires
        0 <= a <= b <= s.len(),
        forall|j: int| 0 <= j < a ==> spec_is_space(s[j]),
        forall|j: int| b <= j < s.len() ==> spec_is_space(s[j]),
        a < b ==> !spec_is_space(s[a]) && !spec_is_space(s[b - 1]),
    ensures
        spec_trim(s) == s.subrange(a, b),
{
    if a == b {
        lemma_drop_leading_space_skip(s, s.len() as int);
        assert(s.skip(s.len() as int) =~= Seq::<char>::empty());
        assert(spec_trim(s) =~= s.subrange(a, b));
    } else {
        lemma_drop_leading_space_skip(s, a);
        let t = s.skip(a);
        lemma_drop_trailing_space_take(t, b - a);
        assert(t.take(b - a) =~= s.subrange(a, b));
    }
}

/// A line is blank exactly when trimming it leaves nothing.
pub proof fn lemma_blank_iff_trim_empty(s: Seq<char>)
    ensures
        spec_is_blank(s) <==> spec_trim(s).len() == 0,
{
    if spec_is_blank(s) {
        lemma_drop_leading_space_skip(s, s.len() as int);
        assert(s.skip(s.len() as int) =~= Seq::<char>::empty());
    } else {
        let w = choose|i: int| 0 <= i < s.len() && !spec_is_space(s[i]);
        let a = spec_first_nonspace(s);
        lemma_first_nonspace_bounds(s);
        assert(a <= w);
        lemma_drop_leading_space_skip(s, a);
        let t = s.skip(a);
        assert(!spec_is_space(t[0]));
        lemma_drop_trailing_nonempty(t);
    }
}

/// Index of the first non-whitespace character, or the length if none.
pub open spec fn spec_first_nonspace(s: Seq<char>) -> int
    decreases s.len(),
{
    if s.len() == 0 {
        0
    } else if spec_is_space(s[0]) {
        1 + spec_first_nonspace(s.drop_first())
    } else {
        0
    }
}

pub proof fn lemma_first_nonspace_bounds(s: Seq<char>)
    ensures
        0 <= spec_first_nonspace(s) <= s.len(),
        forall|j: int| 0 <= j < spec_first_nonspace(s) ==> spec_is_space(s[j]),
        spec_first_nonspace(s) < s.len() ==> !spec_is_space(s[spec_first_nonspace(s)]),
    decreases s.len(),
{
    if s.len() > 0 && spec_is_space(s[0]) {
        lemma_first_nonspace_bounds(s.drop_first());
        assert(forall|j: int|
            1 <= j < spec_first_nonspace(s) ==> spec_is_space(#[trigger] s[j])) by {
            assert(forall|j: int|
                1 <= j < spec_first_nonspace(s) ==> #[trigger] s[j] == s.drop_first()[j - 1]);
        }
    }
}

proof fn lemma_drop_trailing_nonempty(t: Seq<char>)
    requires
        t.len() > 0,
        !spec_is_space(t[0]),
    ensures
        spec_drop_trailing_space(t).len() > 0,
    decreases t.len(),
{
    if spec_is_space(t.last()) {
        lemma_drop_trailing_nonempty(t.drop_last());
    }
}

/// Copies the characters of `v` from `a` (inclusive) to `b` (exclusive).
pub fn copy_range(v: &Vec<char>, a: usize, b: usize) -> (r: Vec<char>)
    requires
        a <= b <= v@.len(),
    ensures
        r@ == v@.subrange(a as int, b as int),
{
    let mut r: Vec<char> = Vec::new();
    let mut i: usize = a;
    while i < b
        invariant
            a <= i <= b <= v@.len(),
            r@ == v@.subrange(a as int, i as int),
        decreases b - i,
    {
        r.push(v[i]);
        i += 1;
        assert(r@ =~= v@.subrange(a as int, i as int));
    }
    r
}

/// What `str::trim` returns, as a fresh vector.
pub fn trim(v: &Vec<char>) -> (r: Vec<char>)
    ensures
        r@ == spec_trim(v@),
{
    let mut a: usize = 0;
    while a < v.len() && is_space(v[a])
        invariant
            0 <= a <= v@.len(),
            forall|j: int| 0 <= j < a ==> spec_is_space(v@[j]),
        decreases v@.len() - a,
    {
        a += 1;
    }
    let mut b: usize = v.len();
    while b > a && is_space(v[b - 1])
        invariant
            a <= b <= v@.len(),
            forall|j: int| b <= j < v@.len() ==> spec_is_space(v@[j]),
        decreases b,
    {
        b -= 1;
    }
    proof {
        lemma_trim_subrange(v@, a as int, b as int);
    }
    copy_range(v, a, b)
}

/// What `str::trim_start` returns, as a fresh vector.
pub fn trim_start(v: &Vec<char>) -> (r: Vec<char>)
    ensures
        r@ == spec_drop_leading_space(v@),
{
    let mut a: usize = 0;
    while a < v.len() && is_space(v[a])
        invariant
            0 <= a <= v@.len(),
            forall|j: int| 0 <= j < a ==> spec_is_space(v@[j]),
        decreases v@.len() - a,
    {
        a += 1;
    }
    proof {
        lemma_drop_leading_space_skip(v@, a as int);
        assert(v@.skip(a as int) =~= v@.subrange(a as int, v@.len() as int));
    }
    copy_range(v, a, v.len())
}

// ------------------------------------------------------------------
// Further trimming families
// ------------------------------------------------------------------

/// Trailing spaces and tabs removed, as `str::trim_end_matches([' ', '\t'])`.
pub open spec fn spec_drop_trailing_sptab(s: Seq<char>) -> Seq<char>
    decreases s.len(),
{
    if s.len() > 0 && (s.last() == ' ' || s.last() == '\t') {
        spec_drop_trailing_sptab(s.drop_last())
    } else {
        s
    }
}

pub proof fn lemma_drop_trailing_sptab_take(s: Seq<char>, b: int)
    requires
        0 <= b <= s.len(),
        forall|j: int| b <= j < s.len() ==> s[j] == ' ' || s[j] == '\t',
        b > 0 ==> !(s[b - 1] == ' ' || s[b - 1] == '\t'),
    ensures
        spec_drop_trailing_sptab(s) == s.take(b),
    decreases s.len(),
{
    if b == s.len() {
        assert(s.take(b) =~= s);
    } else {
        lemma_drop_trailing_sptab_take(s.drop_last(), b);
        assert(s.drop_last().take(b) =~= s.take(b));
    }
}

pub fn trim_end_sptab(v: &Vec<char>) -> (r: Vec<char>)
    ensures
        r@ == spec_drop_trailing_sptab(v@),
{
    let mut b: usize = v.len();
    while b > 0 && (v[b - 1] == ' ' || v[b - 1] == '\t')
        invariant
            0 <= b <= v@.len(),
            forall|j: int| b <= j < v@.len() ==> v@[j] == ' ' || v@[j] == '\t',
        decreases b,
    {
        b -= 1;
    }
    proof {
        lemma_drop_trailing_sptab_take(v@, b as int);
        assert(v@.take(b as int) =~= v@.subrange(0, b as int));
    }
    copy_range(v, 0, b)
}

/// Leading line feeds removed.
pub open spec fn spec_drop_leading_nl(s: Seq<char>) -> Seq<char>
    decreases s.len(),
{
    if s.len() > 0 && s[0] == '\n' {
        spec_drop_leading_nl(s.drop_first())
    } else {
        s
    }
}

/// Trailing line feeds removed.
pub open spec fn spec_drop_trailing_nl(s: Seq<char>) -> Seq<char>
    decreases s.len(),
{
    if s.len() > 0 && s.last() == '\n' {
        spec_drop_trailing_nl(s.drop_last())
    } else {
        s
    }
}

/// What `str::trim_matches('\n')` returns.
pub open spec fn spec_trim_nl(s: Seq<char>) -> Seq<char> {
    spec_drop_trailing_nl(spec_drop_leading_nl(s))
}

pub proof fn lemma_drop_leading_nl_skip(s: Seq<char>, a: int)
    requires
        0 <= a <= s.len(),
        forall|j: int| 0 <= j < a ==> s[j] == '\n',
        a < s.len() ==> s[a] != '\n',
    ensures
        spec_drop_leading_nl(s) == s.skip(a),
    decreases a,
{
    if a == 0 {
        assert(s.skip(0) =~= s);
    } else {
        lemma_drop_leading_nl_skip(s.drop_first(), a - 1);
        assert(s.drop_first().skip(a - 1) =~= s.skip(a));
    }
}

pub proof fn lemma_drop_trailing_nl_take(s: Seq<char>, b: int)
    requires
        0 <= b <= s.len(),
        forall|j: int| b <= j < s.len() ==> s[j] == '\n',
        b > 0 ==> s[b - 1] != '\n',
    ensures
        spec_drop_trailing_nl(s) == s.take(b),
    decreases s.len(),
{
    if b == s.len() {
        assert(s.take(b) =~= s);
    } else {
        lemma_drop_trailing_nl_take(s.drop_last(), b);
        assert(s.drop_last().take(b) =~= s.take(b));
    }
}

pub fn trim_nl(v: &Vec<char>) -> (r: Vec<char>)
    ensures
        r@ == spec_trim_nl(v@),
{
    let mut a: usize = 0;
    while a < v.len() && v[a] == '\n'
        invariant
            0 <= a <= v@.len(),
            forall|j: int| 0 <= j < a ==> v@[j] == '\n',
        decreases v@.len() - a,
    {
        a += 1;
    }
    let mut b: usize = v.len();
    while b > a && v[b - 1] == '\n'
        invariant
            a <= b <= v@.len(),
            forall|j: int| b <= j < v@.len() ==> v@[j] == '\n',
        decreases b,
    {
        b -= 1;
    }
    proof {
        lemma_drop_leading_nl_skip(v@, a as int);
        let t = v@.skip(a as int);
        lemma_drop_trailing_nl_take(t, b - a);
        assert(t.take(b - a) =~= v@.subrange(a as int, b as int));
    }
    copy_range(v, a, b)
}

/// Trailing carriage returns removed, as `str::trim_end_matches('\r')`.
pub open spec fn spec_drop_trailing_cr(s: Seq<char>) -> Seq<char>
    decreases s.len(),
{
    if s.len() > 0 && s.last() == '\r' {
        spec_drop_trailing_cr(s.drop_last())
    } else {
        s
    }
}

pub proof fn lemma_drop_trailing_cr_take(s: Seq<char>, b: int)
    requires
        0 <= b <= s.len(),
        forall|j: int| b <= j < s.len() ==> s[j] == '\r',
        b > 0 ==> s[b - 1] != '\r',
    ensures
        spec_drop_trailing_cr(s) == s.take(b),
    decreases s.len(),
{
    if b == s.len() {
        assert(s.take(b) =~= s);
    } else {
        lemma_drop_trailing_cr_take(s.drop_last(), b);
        assert(s.drop_last().take(b) =~= s.take(b));
    }
}

pub fn trim_end_cr(v: &Vec<char>) -> (r: Vec<char>)
    ensures
        r@ == spec_drop_trailing_cr(v@),
{
    let mut b: usize = v.len();
    while b > 0 && v[b - 1] == '\r'
        invariant
            0 <= b <= v@.len(),
            forall|j: int| b <= j < v@.len() ==> v@[j] == '\r',
        decreases b,
    {
        b -= 1;
    }
    proof {
        lemma_drop_trailing_cr_take(v@, b as int);
        assert(v@.take(b as int) =~= v@.subrange(0, b as int));
    }
    copy_range(v, 0, b)
}

// ------------------------------------------------------------------
// Splitting on line feeds and joining again
// ------------------------------------------------------------------

/// The segments of `s` between line feeds; always at least one segment,
/// as `str::split('\n')`.
pub open spec fn spec_split_nl(s: Seq<char>) -> Seq<Seq<char>>
    decreases s.len(),
{
    if s.len() == 0 {
        seq![Seq::<char>::empty()]
    } else if s[0] == '\n' {
        seq![Seq::<char>::empty()] + spec_split_nl(s.drop_first())
    } else {
        let rest = spec_split_nl(s.drop_first());
        seq![seq![s[0]] + rest[0]] + rest.drop_first()
    }
}

pub proof fn lemma_split_nl_len(s: Seq<char>)
    ensures
        spec_split_nl(s).len() >= 1,
    decreases s.len(),
{
    if s.len() > 0 {
        lemma_split_nl_len(s.drop_first());
    }
}

/// No segment contains a line feed.
pub proof fn lemma_split_nl_segments(s: Seq<char>)
    ensures
        forall|i: int, j: int|
            0 <= i < spec_split_nl(s).len() && 0 <= j < spec_split_nl(s)[i].len()
                ==> spec_split_nl(s)[i][j] != '\n',
    decreases s.len(),
{
    if s.len() > 0 {
        lemma_split_nl_segments(s.drop_first());
        lemma_split_nl_len(s.drop_first());
    }
}

/// How appending one character extends the segments.
pub proof fn lemma_split_nl_push(s: Seq<char>, c: char)
    ensures
        c == '\n' ==> spec_split_nl(s.push(c)) == spec_split_nl(s).push(Seq::<char>::empty()),
        c != '\n' ==> spec_split_nl(s.push(c)) == spec_split_nl(s).update(
            spec_split_nl(s).len() - 1,
            spec_split_nl(s).last().push(c),
        ),
    decreases s.len(),
{
    lemma_split_nl_len(s);
    let sc = s.push(c);
    if s.len() == 0 {
        assert(sc.drop_first() =~= Seq::<char>::empty());
        assert(spec_split_nl(sc.drop_first()) == seq![Seq::<char>::empty()]);
        assert(sc[0] == c);
        assert(spec_split_nl(s) == seq![Seq::<char>::empty()]);
        if c == '\n' {
            assert(spec_split_nl(sc) == seq![Seq::<char>::empty()] + spec_split_nl(
                sc.drop_first(),
            ));
            assert(spec_split_nl(sc) =~~= spec_split_nl(s).push(Seq::<char>::empty()));
        } else {
            let rest = spec_split_nl(sc.drop_first());
            assert(spec_split_nl(sc) == seq![seq![sc[0]] + rest[0]] + rest.drop_first());
            assert(spec_split_nl(sc) =~~= spec_split_nl(s).update(
                0,
                spec_split_nl(s).last().push(c),
            ));
        }
    } else {
        assert(sc.drop_first() =~= s.drop_first().push(c));
        lemma_split_nl_push(s.drop_first(), c);
        lemma_split_nl_len(s.drop_first());
        assert(sc[0] == s[0]);
        let r = spec_split_nl(s.drop_first());
        let rc = spec_split_nl(sc.drop_first());
        if s[0] == '\n' {
            assert(spec_split_nl(s) == seq![Seq::<char>::empty()] + r);
            assert(spec_split_nl(sc) == seq![Seq::<char>::empty()] + rc);
            if c == '\n' {
                assert(rc == r.push(Seq::<char>::empty()));
                assert(spec_split_nl(sc) =~~= spec_split_nl(s).push(Seq::<char>::empty()));
            } else {
                assert(rc == r.update(r.len() - 1, r.last().push(c)));
                assert(spec_split_nl(s).last() == r.last());
                assert(spec_split_nl(sc) =~~= spec_split_nl(s).update(
                    spec_split_nl(s).len() - 1,
                    spec_split_nl(s).last().push(c),
                ));
            }
        } else {
            assert(spec_split_nl(s) == seq![seq![s[0]] + r[0]] + r.drop_first());
            assert(spec_split_nl(sc) == seq![seq![sc[0]] + rc[0]] + rc.drop_first());
            if c == '\n' {
                assert(rc == r.push(Seq::<char>::empty()));
                assert(rc[0] == r[0]);
                assert(rc.drop_first() =~~= r.drop_first().push(Seq::<char>::empty()));
                assert(spec_split_nl(sc) =~~= spec_split_nl(s).push(Seq::<char>::empty()));
            } else {
                assert(rc == r.update(r.len() - 1, r.last().push(c)));
                if r.len() == 1 {
                    assert(rc[0] == r[0].push(c));
                    assert(spec_split_nl(sc) =~~= spec_split_nl(s).update(
                        spec_split_nl(s).len() - 1,
                        spec_split_nl(s).last().push(c),
                    ));
                } else {
                    assert(rc[0] == r[0]);
                    assert(rc.drop_first() =~~= r.drop_first().update(
                        r.len() - 2,
                        r.last().push(c),
                    ));
                    assert(spec_split_nl(s).last() == r.last());
                    assert(spec_split_nl(sc) =~~= spec_split_nl(s).update(
                        spec_split_nl(s).len() - 1,
                        spec_split_nl(s).last().push(c),
                    ));
                }
            }
        }
    }
}

pub fn split_nl(v: &Vec<char>) -> (r: Vec<Vec<char>>)
    ensures
        r.deep_view() == spec_split_nl(v@),
        r@.len() >= 1,
{
    let mut done: Vec<Vec<char>> = Vec::new();
    let mut cur: Vec<char> = Vec::new();
    let mut i: usize = 0;
    proof {
        assert(v@.take(0) =~= Seq::<char>::empty());
        assert(done.deep_view().push(cur@) =~~= spec_split_nl(v@.take(0)));
    }
    while i < v.len()
        invariant
            0 <= i <= v@.len(),
            done.deep_view().push(cur@) == spec_split_nl(v@.take(i as int)),
        decreases v@.len() - i,
    {
        proof {
            lemma_split_nl_push(v@.take(i as int), v@[i as int]);
            assert(v@.take(i as int).push(v@[i as int]) =~= v@.take(i as int + 1));
            lemma_split_nl_len(v@.take(i as int));
        }
        let ghost prev = spec_split_nl(v@.take(i as int));
        if v[i] == '\n' {
            done.push(cur);
            cur = Vec::new();
            proof {
                assert(done.deep_view().push(cur@) =~~= prev.push(Seq::<char>::empty()));
            }
        } else {
            cur.push(v[i]);
            proof {
                assert(done.deep_view().push(cur@) =~~= prev.update(
                    prev.len() - 1,
                    prev.last().push(v@[i as int]),
                ));
            }
        }
        i += 1;
    }
    proof {
        assert(v@.take(v@.len() as int) =~= v@);
    }
    let ghost done_dv = done.deep_view();
    done.push(cur);
    proof {
        assert(done.deep_view() =~~= done_dv.push(cur@));
        lemma_split_nl_len(v@);
    }
    done
}

/// The segments joined with line feeds between them.
pub open spec fn spec_join_nl(lines: Seq<Seq<char>>) -> Seq<char>
    decreases lines.len(),
{
    if lines.len() == 0 {
        Seq::<char>::empty()
    } else if lines.len() == 1 {
        lines[0]
    } else {
        lines[0] + seq!['\n'] + spec_join_nl(lines.drop_first())
    }
}

pub proof fn lemma_join_nl_push(lines: Seq<Seq<char>>, l: Seq<char>)
    ensures
        lines.len() == 0 ==> spec_join_nl(lines.push(l)) == l,
        lines.len() > 0 ==> spec_join_nl(lines.push(l)) == spec_join_nl(lines) + seq!['\n'] + l,
    decreases lines.len(),
{
    if lines.len() == 0 {
        assert(spec_join_nl(lines.push(l)) =~= l);
    } else {
        assert(lines.push(l).drop_first() =~= lines.drop_first().push(l));
        lemma_join_nl_push(lines.drop_first(), l);
        if lines.len() == 1 {
            assert(spec_join_nl(lines.push(l)) =~= spec_join_nl(lines) + seq!['\n'] + l);
        } else {
            assert(spec_join_nl(lines.push(l)) =~= spec_join_nl(lines) + seq!['\n'] + l);
        }
    }
}

pub fn join_nl(lines: &Vec<Vec<char>>) -> (r: Vec<char>)
    ensures
        r@ == spec_join_nl(lines.deep_view()),
{
    let mut r: Vec<char> = Vec::new();
    let mut i: usize = 0;
    proof {
        assert(lines.deep_view().take(0) =~= Seq::<Seq<char>>::empty());
    }
    while i < lines.len()
        invariant
            0 <= i <= lines@.len(),
            lines.deep_view().len() == lines@.len(),
            r@ == spec_join_nl(lines.deep_view().take(i as int)),
        decreases lines@.len() - i,
    {
        proof {
            lemma_join_nl_push(lines.deep_view().take(i as int), lines.deep_view()[i as int]);
            assert(lines.deep_view().take(i as int).push(lines.deep_view()[i as int])
                =~= lines.deep_view().take(i as int + 1));
        }
        if i > 0 {
            r.push('\n');
        }
        let line = &lines[i];
        assert(line@ == lines.deep_view()[i as int]);
        let mut j: usize = 0;
        let ghost base = r@;
        while j < line.len()
            invariant
                0 <= j <= line@.len(),
                r@ == base + line@.take(j as int),
            decreases line@.len() - j,
        {
            r.push(line[j]);
            j += 1;
            proof {
                assert(base + line@.take(j as int) =~= (base + line@.take(j as int - 1)).push(
                    line@[j as int - 1],
                ));
            }
        }
        proof {
            assert(line@.take(line@.len() as int) =~= line@);
            if i == 0 {
                assert(r@ =~= spec_join_nl(lines.deep_view().take(i as int + 1)));
            } else {
                assert(r@ =~= spec_join_nl(lines.deep_view().take(i as int + 1)));
            }
        }
        i += 1;
    }
    proof {
        assert(lines.deep_view().take(lines@.len() as int) =~= lines.deep_view());
    }
    r
}

/// Joining the segments of a split restores the text.
pub proof fn lemma_join_split(s: Seq<char>)
    ensures
        spec_join_nl(spec_split_nl(s)) == s,
    decreases s.len(),
{
    lemma_split_nl_len(s);
    if s.len() == 0 {
        assert(spec_join_nl(spec_split_nl(s)) =~= s);
    } else {
        lemma_join_split(s.drop_first());
        lemma_split_nl_len(s.drop_first());
        if s[0] == '\n' {
            let r = spec_split_nl(s.drop_first());
            assert((seq![Seq::<char>::empty()] + r).drop_first() =~= r);
            if r.len() == 0 {
            } else {
                assert(spec_join_nl(spec_split_nl(s)) =~= s);
            }
        } else {
            let r = spec_split_nl(s.drop_first());
            let head = seq![s[0]] + r[0];
            let w = seq![head] + r.drop_first();
            assert(spec_split_nl(s) == w);
            if r.len() == 1 {
                assert(w.len() == 1);
                assert(spec_join_nl(w) == head);
                assert(spec_join_nl(r) == r[0]);
                assert(head =~= s);
            } else {
                assert(w.len() > 1);
                assert(w.drop_first() =~= r.drop_first());
                assert(spec_join_nl(w) == head + seq!['\n'] + spec_join_nl(r.drop_first()));
                assert(spec_join_nl(r) == r[0] + seq!['\n'] + spec_join_nl(r.drop_first()));
                assert(head + seq!['\n'] + spec_join_nl(r.drop_first()) =~= seq![s[0]] + (r[0]
                    + seq!['\n'] + spec_join_nl(r.drop_first())));
                assert(seq![s[0]] + s.drop_first() =~= s);
            }
        }
    }
}

/// Splitting a text with no line feeds yields that text alone.
pub proof fn lemma_split_no_nl(s: Seq<char>)
    requires
        forall|i: int| 0 <= i < s.len() ==> s[i] != '\n',
    ensures
        spec_split_nl(s) == seq![s],
    decreases s.len(),
{
    if s.len() == 0 {
        assert(spec_split_nl(s) =~~= seq![s]);
    } else {
        lemma_split_no_nl(s.drop_first());
        assert(spec_split_nl(s) =~~= seq![s]) by {
            assert(seq![s[0]] + s.drop_first() =~= s);
            assert(seq![s].drop_first() =~= Seq::<Seq<char>>::empty());
        }
    }
}

/// Splitting after a line feed continues with the remainder's segments.
pub proof fn lemma_split_concat_nl(a: Seq<char>, b: Seq<char>)
    requires
        forall|i: int| 0 <= i < a.len() ==> a[i] != '\n',
    ensures
        spec_split_nl(a + seq!['\n'] + b) == seq![a] + spec_split_nl(b),
    decreases a.len(),
{
    lemma_split_nl_len(b);
    if a.len() == 0 {
        assert((a + seq!['\n'] + b).drop_first() =~= b);
        assert(spec_split_nl(a + seq!['\n'] + b) =~~= seq![a] + spec_split_nl(b));
    } else {
        let s = a + seq!['\n'] + b;
        assert(s[0] == a[0]);
        assert(s.drop_first() =~= a.drop_first() + seq!['\n'] + b);
        lemma_split_concat_nl(a.drop_first(), b);
        let rest = spec_split_nl(s.drop_first());
        assert(rest == seq![a.drop_first()] + spec_split_nl(b));
        assert(rest[0] == a.drop_first());
        assert(seq![s[0]] + rest[0] =~= a);
        assert(rest.drop_first() =~= spec_split_nl(b));
        assert(spec_split_nl(s) =~~= seq![a] + spec_split_nl(b));
    }
}

// ------------------------------------------------------------------
// Lines as `str::lines` yields them
// ------------------------------------------------------------------

/// One carriage return stripped from the end of a line, if present.
pub open spec fn spec_strip_one_cr(l: Seq<char>) -> Seq<char> {
    if l.len() > 0 && l.last() == '\r' {
        l.drop_last()
    } else {
        l
    }
}

/// What `str::lines` yields: the segments between line feeds, one carriage
/// return stripped from the end of every line that a line feed ended, and
/// no final empty segment.
pub open spec fn spec_lines(s: Seq<char>) -> Seq<Seq<char>> {
    let segs = spec_split_nl(s);
    if segs.last().len() == 0 {
        segs.drop_last().map_values(|l: Seq<char>| spec_strip_one_cr(l))
    } else {
        segs.drop_last().map_values(|l: Seq<char>| spec_strip_one_cr(l)).push(segs.last())
    }
}

pub fn lines_of(v: &Vec<char>) -> (r: Vec<Vec<char>>)
    ensures
        r.deep_view() == spec_lines(v@),
{
    let segs = split_nl(v);
    let k = segs.len() - 1;
    let last_empty = segs[k].len() == 0;
    let mut r: Vec<Vec<char>> = Vec::new();
    let mut i: usize = 0;
    while i < k
        invariant
            0 <= i <= k,
            k == segs@.len() - 1,
            segs.deep_view() == spec_split_nl(v@),
            r@.len() == i,
            forall|j: int|
                0 <= j < i ==> r.deep_view()[j] == spec_strip_one_cr(segs.deep_view()[j]),
        decreases k - i,
    {
        let seg = &segs[i];
        let mut line = copy_range(seg, 0, seg.len());
        proof {
            assert(line@ =~= segs.deep_view()[i as int]);
        }
        if line.len() > 0 && line[line.len() - 1] == '\r' {
            line.pop();
            proof {
                assert(line@ =~= spec_strip_one_cr(segs.deep_view()[i as int]));
            }
        } else {
            proof {
                assert(line@ =~= spec_strip_one_cr(segs.deep_view()[i as int]));
            }
        }
        let ghost old_dv = r.deep_view();
        r.push(line);
        proof {
            assert(r.deep_view() =~~= old_dv.push(line@));
        }
        i += 1;
    }
    if !last_empty {
        let seg = &segs[k];
        let line = copy_range(seg, 0, seg.len());
        let ghost old_dv = r.deep_view();
        r.push(line);
        proof {
            assert(r.deep_view() =~~= old_dv.push(segs.deep_view()[k as int]));
            let segsv = spec_split_nl(v@);
            assert(r.deep_view() =~~= segsv.drop_last().map_values(
                |l: Seq<char>| spec_strip_one_cr(l),
            ).push(segsv.last()));
        }
    } else {
        proof {
            let segsv = spec_split_nl(v@);
            assert(r.deep_view() =~~= segsv.drop_last().map_values(
                |l: Seq<char>| spec_strip_one_cr(l),
            ));
        }
    }
    r
}

// ------------------------------------------------------------------
// Line-ending normalization
// ------------------------------------------------------------------

/// Every `\r\n` replaced by `\n`, and every remaining `\r` by `\n`.
pub open spec fn spec_normalize(s: Seq<char>) -> Seq<char>
    decreases s.len(),
{
    if s.len() == 0 {
        s
    } else if s[0] == '\r' && s.len() >= 2 && s[1] == '\n' {
        seq!['\n'] + spec_normalize(s.skip(2))
    } else if s[0] == '\r' {
        seq!['\n'] + spec_normalize(s.skip(1))
    } else {
        seq![s[0]] + spec_normalize(s.skip(1))
    }
}

/// Normalization leaves no carriage return behind.
pub proof fn lemma_normalize_no_cr(s: Seq<char>)
    ensures
        forall|i: int| 0 <= i < spec_normalize(s).len() ==> spec_normalize(s)[i] != '\r',
    decreases s.len(),
{
    if s.len() > 0 {
        if s[0] == '\r' && s.len() >= 2 && s[1] == '\n' {
            lemma_normalize_no_cr(s.skip(2));
            assert forall|i: int|
                0 <= i < spec_normalize(s).len() implies spec_normalize(s)[i] != '\r' by {
                if i > 0 {
                    assert(spec_normalize(s)[i] == spec_normalize(s.skip(2))[i - 1]);
                }
            }
        } else if s[0] == '\r' {
            lemma_normalize_no_cr(s.skip(1));
            assert forall|i: int|
                0 <= i < spec_normalize(s).len() implies spec_normalize(s)[i] != '\r' by {
                if i > 0 {
                    assert(spec_normalize(s)[i] == spec_normalize(s.skip(1))[i - 1]);
                }
            }
        } else {
            lemma_normalize_no_cr(s.skip(1));
            assert forall|i: int|
                0 <= i < spec_normalize(s).len() implies spec_normalize(s)[i] != '\r' by {
                if i > 0 {
                    assert(spec_normalize(s)[i] == spec_normalize(s.skip(1))[i - 1]);
                } else {
                    assert(spec_normalize(s)[0] == s[0]);
                }
            }
        }
    }
}

/// A text without carriage returns is already normal.
pub proof fn lemma_normalize_id(s: Seq<char>)
    requires
        forall|i: int| 0 <= i < s.len() ==> s[i] != '\r',
    ensures
        spec_normalize(s) == s,
    decreases s.len(),
{
    if s.len() > 0 {
        assert(forall|i: int| 0 <= i < s.skip(1).len() ==> #[trigger] s.skip(1)[i] == s[i + 1]);
        lemma_normalize_id(s.skip(1));
        assert(seq![s[0]] + s.skip(1) =~= s);
    }
}

pub fn normalize_newlines(v: &Vec<char>) -> (r: Vec<char>)
    ensures
        r@ == spec_normalize(v@),
{
    let mut out: Vec<char> = Vec::new();
    let mut i: usize = 0;
    proof {
        assert(v@.skip(0) =~= v@);
        assert(out@ + spec_normalize(v@.skip(0)) =~= spec_normalize(v@));
    }
    while i < v.len()
        invariant
            0 <= i <= v@.len(),
            out@ + spec_normalize(v@.skip(i as int)) == spec_normalize(v@),
        decreases v@.len() - i,
    {
        let ghost rem = v@.skip(i as int);
        assert(rem[0] == v@[i as int]);
        if v[i] == '\r' && i + 1 < v.len() && v[i + 1] == '\n' {
            out.push('\n');
            proof {
                assert(rem.len() >= 2 && rem[1] == '\n');
                assert(rem.skip(2) =~= v@.skip(i as int + 2));
                assert(out@ + spec_normalize(v@.skip(i as int + 2)) =~= spec_normalize(v@));
            }
            i += 2;
        } else if v[i] == '\r' {
            out.push('\n');
            proof {
                if rem.len() >= 2 {
                    assert(rem[1] == v@[i as int + 1]);
                }
                assert(rem.skip(1) =~= v@.skip(i as int + 1));
                assert(out@ + spec_normalize(v@.skip(i as int + 1)) =~= spec_normalize(v@));
            }
            i += 1;
        } else {
            out.push(v[i]);
            proof {
                assert(rem.skip(1) =~= v@.skip(i as int + 1));
                assert(out@ + spec_normalize(v@.skip(i as int + 1)) =~= spec_normalize(v@));
            }
            i += 1;
        }
    }
    proof {
        assert(v@.skip(v@.len() as int) =~= Seq::<char>::empty());
        assert(out@ =~= spec_normalize(v@));
    }
    out
}

// ------------------------------------------------------------------
// Finding a two-character separator
// ------------------------------------------------------------------

/// Index of the first occurrence of the pair `c1 c2`, if any.
pub open spec fn spec_find_pair(s: Seq<char>, c1: char, c2: char) -> Option<int>
    decreases s.len(),
{
    if s.len() < 2 {
        None
    } else if s[0] == c1 && s[1] == c2 {
        Some(0int)
    } else {
        match spec_find_pair(s.skip(1), c1, c2) {
            None => None,
            Some(i) => Some(i + 1),
        }
    }
}

pub proof fn lemma_find_pair_props(s: Seq<char>, c1: char, c2: char)
    ensures
        match spec_find_pair(s, c1, c2) {
            None => forall|j: int|
                0 <= j && j + 1 < s.len() ==> !(#[trigger] s[j] == c1 && s[j + 1] == c2),
            Some(i) => 0 <= i && i + 1 < s.len() && s[i] == c1 && s[i + 1] == c2 && forall|j: int|
                0 <= j < i ==> !(#[trigger] s[j] == c1 && s[j + 1] == c2),
        },
    decreases s.len(),
{
    if s.len() >= 2 && !(s[0] == c1 && s[1] == c2) {
        lemma_find_pair_props(s.skip(1), c1, c2);
        let t = s.skip(1);
        match spec_find_pair(t, c1, c2) {
            None => {
                assert forall|j: int|
                    0 <= j && j + 1 < s.len() implies !(#[trigger] s[j] == c1 && s[j + 1]
                    == c2) by {
                    if j >= 1 {
                        assert(t[j - 1] == s[j] && t[j] == s[j + 1]);
                    }
                }
            },
            Some(i) => {
                assert(t[i] == s[i + 1] && t[i + 1] == s[i + 2]);
                assert forall|j: int|
                    0 <= j < i + 1 implies !(#[trigger] s[j] == c1 && s[j + 1] == c2) by {
                    if j >= 1 {
                        assert(t[j - 1] == s[j] && t[j] == s[j + 1]);
                    }
                }
            },
        }
    }
}

pub fn find_pair(v: &Vec<char>, c1: char, c2: char) -> (r: Option<usize>)
    ensures
        r is Some <==> spec_find_pair(v@, c1, c2) is Some,
        r matches Some(k) ==> spec_find_pair(v@, c1, c2) == Some(k as int),
{
    proof {
        lemma_find_pair_props(v@, c1, c2);
    }
    if v.len() < 2 {
        return None;
    }
    let mut j: usize = 0;
    while j < v.len() - 1
        invariant
            v@.len() >= 2,
            0 <= j <= v@.len() - 1,
            forall|t: int| 0 <= t < j ==> !(#[trigger] v@[t] == c1 && v@[t + 1] == c2),
        decreases v@.len() - j,
    {
        if v[j] == c1 && v[j + 1] == c2 {
            proof {
                lemma_find_pair_props(v@, c1, c2);
            }
            return Some(j);
        }
        j += 1;
    }
    None
}

// ------------------------------------------------------------------
// ASCII case-insensitive comparison
// ------------------------------------------------------------------

/// Equality up to ASCII case, as `str::eq_ignore_ascii_case`.
pub open spec fn spec_eq_ci(a: Seq<char>, b: Seq<char>) -> bool {
    a.len() == b.len() && forall|i: int|
        0 <= i < a.len() ==> spec_fold_lower(a[i]) == spec_fold_lower(b[i])
}

pub fn eq_ci(a: &Vec<char>, b: &Vec<char>) -> (r: bool)
    ensures
        r == spec_eq_ci(a@, b@),
{
    if a.len() != b.len() {
        return false;
    }
    let mut i: usize = 0;
    while i < a.len()
        invariant
            0 <= i <= a@.len(),
            a@.len() == b@.len(),
            forall|j: int| 0 <= j < i ==> spec_fold_lower(a@[j]) == spec_fold_lower(b@[j]),
        decreases a@.len() - i,
    {
        if fold_lower(a[i]) != fold_lower(b[i]) {
            return false;
        }
        i += 1;
    }
    true
}

/// Plain equality of two character vectors.
pub fn seq_eq(a: &Vec<char>, b: &Vec<char>) -> (r: bool)
    ensures
        r == (a@ == b@),
{
    if a.len() != b.len() {
        proof {
            assert(a@.len() != b@.len());
        }
        return false;
    }
    let mut i: usize = 0;
    while i < a.len()
        invariant
            0 <= i <= a@.len(),
            a@.len() == b@.len(),
            forall|j: int| 0 <= j < i ==> a@[j] == b@[j],
        decreases a@.len() - i,
    {
        if a[i] != b[i] {
            return false;
        }
        i += 1;
    }
    proof {
        assert(a@ =~= b@);
    }
    true
}

// ------------------------------------------------------------------
// Decimal rendering of lengths
// ------------------------------------------------------------------

pub open spec fn spec_digit_char(d: int) -> char {
    if d == 0 {
        '0'
    } else if d == 1 {
        '1'
    } else if d == 2 {
        '2'
    } else if d == 3 {
        '3'
    } else if d == 4 {
        '4'
    } else if d == 5 {
        '5'
    } else if d == 6 {
        '6'
    } else if d == 7 {
        '7'
    } else if d == 8 {
        '8'
    } else {
        '9'
    }
}

/// The decimal digits of a non-negative number, most significant first.
pub open spec fn spec_dec_str(n: int) -> Seq<char>
    decreases n,
{
    if n <= 9 {
        seq![spec_digit_char(n)]
    } else {
        spec_dec_str(n / 10).push(spec_digit_char(n % 10))
    }
}

fn digit_char_of(d: usize) -> (c: char)
    requires
        d <= 9,
    ensures
        c == spec_digit_char(d as int),
{
    if d == 0 {
        '0'
    } else if d == 1 {
        '1'
    } else if d == 2 {
        '2'
    } else if d == 3 {
        '3'
    } else if d == 4 {
        '4'
    } else if d == 5 {
        '5'
    } else if d == 6 {
        '6'
    } else if d == 7 {
        '7'
    } else if d == 8 {
        '8'
    } else {
        '9'
    }
}

pub fn dec_str_usize(n: usize) -> (r: Vec<char>)
    ensures
        r@ == spec_dec_str(n as int),
{
    let mut digits: Vec<char> = Vec::new();
    let ghost mut tail: Seq<char> = Seq::empty();
    let mut m = n;
    proof {
        assert(spec_dec_str(n as int) =~= spec_dec_str(m as int) + tail);
    }
    while m > 9
        invariant
            spec_dec_str(n as int) == spec_dec_str(m as int) + tail,
            digits@.len() == tail.len(),
            forall|k: int| 0 <= k < tail.len() ==> digits@[k] == tail[tail.len() - 1 - k],
        decreases m,
    {
        let d = m % 10;
        digits.push(digit_char_of(d));
        proof {
            let dch = spec_digit_char(d as int);
            assert(spec_dec_str(m as int) == spec_dec_str(m as int / 10).push(dch));
            assert((m / 10) as int == m as int / 10);
            tail = seq![dch] + tail;
            assert(spec_dec_str(n as int) =~= spec_dec_str((m / 10) as int) + tail);
        }
        m = m / 10;
    }
    let mut r: Vec<char> = Vec::new();
    r.push(digit_char_of(m));
    proof {
        assert(spec_dec_str(m as int) =~= seq![spec_digit_char(m as int)]);
    }
    let mut k = digits.len();
    while k > 0
        invariant
            0 <= k <= digits@.len(),
            digits@.len() == tail.len(),
            forall|t: int| 0 <= t < tail.len() ==> digits@[t] == tail[tail.len() - 1 - t],
            r@.len() == 1 + (digits@.len() - k),
            r@[0] == spec_digit_char(m as int),
            forall|t: int| 0 <= t < digits@.len() - k ==> r@[1 + t] == tail[t],
        decreases k,
    {
        r.push(digits[k - 1]);
        k -= 1;
    }
    proof {
        assert(r@ =~= spec_dec_str(m as int) + tail);
    }
    r
}

// ------------------------------------------------------------------
// Conversions between strings and character vectors
// ------------------------------------------------------------------

/// What `str::to_lowercase` returns: the Unicode lowercase mapping, a
/// function of the characters alone.
pub uninterp spec fn lower_of(s: Seq<char>) -> Seq<char>;

/// Relies on str::to_lowercase: the result depends on the characters alone.
#[verifier::external_body]
pub(crate) fn lowercase_of(s: &str) -> (r: String)
    ensures
        r@ == lower_of(s@),
{
    s.to_lowercase()
}

/// Relies on str::chars: it yields exactly the string's characters in order.
#[verifier::external_body]
pub fn str_to_chars(s: &str) -> (v: Vec<char>)
    ensures
        v@ == s@,
{
    s.chars().collect()
}

/// Relies on String's FromIterator impl over char: the built string holds
/// exactly the given characters, in order.
#[verifier::external_body]
pub fn chars_to_string(v: &Vec<char>) -> (s: String)
    ensures
        s@ == v@,
{
    v.iter().collect()
}

/// Splitting a join restores the segments, when none holds a line feed.
pub proof fn lemma_split_join(lines: Seq<Seq<char>>)
    requires
        lines.len() > 0,
        forall|i: int, j: int|
            0 <= i < lines.len() && 0 <= j < lines[i].len() ==> lines[i][j] != '\n',
    ensures
        spec_split_nl(spec_join_nl(lines)) == lines,
    decreases lines.len(),
{
    if lines.len() == 1 {
        lemma_split_no_nl(lines[0]);
        assert(seq![lines[0]] =~= lines);
    } else {
        lemma_split_join(lines.drop_first());
        lemma_split_concat_nl(lines[0], spec_join_nl(lines.drop_first()));
        assert(seq![lines[0]] + lines.drop_first() =~= lines);
    }
}



/// An element of a vector of lines views deeply as that line's view.
pub proof fn lemma_lines_deep_index(lines: Vec<Vec<char>>, k: int)
    requires
        0 <= k < lines@.len(),
    ensures
        lines.deep_view()[k] == lines@[k]@,
        lines.deep_view().len() == lines@.len(),
{
    assert(lines.deep_view()[k] =~= lines@[k]@);
}


// ------------------------------------------------------------------
// Characterizations used by the autofix proofs
// ------------------------------------------------------------------

/// Dropping trailing spaces and tabs keeps a prefix whose last character is
/// neither.
pub proof fn lemma_drop_trailing_sptab_prefix(l: Seq<char>)
    ensures
        spec_drop_trailing_sptab(l).len() <= l.len(),
        spec_drop_trailing_sptab(l) == l.take(spec_drop_trailing_sptab(l).len() as int),
        spec_drop_trailing_sptab(l).len() > 0 ==> !(spec_drop_trailing_sptab(l).last() == ' '
            || spec_drop_trailing_sptab(l).last() == '\t'),
    decreases l.len(),
{
    if l.len() > 0 && (l.last() == ' ' || l.last() == '\t') {
        lemma_drop_trailing_sptab_prefix(l.drop_last());
        assert(l.drop_last().take(spec_drop_trailing_sptab(l).len() as int) =~= l.take(
            spec_drop_trailing_sptab(l).len() as int,
        ));
    } else {
        assert(l.take(l.len() as int) =~= l);
    }
}

/// Dropping leading line feeds keeps a suffix that starts with something
/// else.
pub proof fn lemma_drop_leading_nl_suffix(s: Seq<char>)
    ensures
        spec_drop_leading_nl(s).len() <= s.len(),
        spec_drop_leading_nl(s) == s.skip(s.len() - spec_drop_leading_nl(s).len()),
        spec_drop_leading_nl(s).len() > 0 ==> spec_drop_leading_nl(s)[0] != '\n',
    decreases s.len(),
{
    if s.len() > 0 && s[0] == '\n' {
        lemma_drop_leading_nl_suffix(s.drop_first());
        assert(s.drop_first().skip(
            s.drop_first().len() - spec_drop_leading_nl(s).len(),
        ) =~= s.skip(s.len() - spec_drop_leading_nl(s).len()));
    } else {
        assert(s.skip(0) =~= s);
    }
}

/// Dropping trailing line feeds keeps a prefix that ends with something
/// else; the first dropped character, if any, was a line feed.
pub proof fn lemma_drop_trailing_nl_prefix(s: Seq<char>)
    ensures
        spec_drop_trailing_nl(s).len() <= s.len(),
        spec_drop_trailing_nl(s) == s.take(spec_drop_trailing_nl(s).len() as int),
        spec_drop_trailing_nl(s).len() > 0 ==> spec_drop_trailing_nl(s).last() != '\n',
        spec_drop_trailing_nl(s).len() < s.len() ==> s[spec_drop_trailing_nl(s).len() as int]
            == '\n',
    decreases s.len(),
{
    if s.len() > 0 && s.last() == '\n' {
        lemma_drop_trailing_nl_prefix(s.drop_last());
        assert(s.drop_last().take(spec_drop_trailing_nl(s).len() as int) =~= s.take(
            spec_drop_trailing_nl(s).len() as int,
        ));
        if spec_drop_trailing_nl(s).len() < s.drop_last().len() {
            assert(s[spec_drop_trailing_nl(s).len() as int] == s.drop_last()[
                spec_drop_trailing_nl(s).len() as int
            ]);
        }
    } else {
        assert(s.take(s.len() as int) =~= s);
    }
}

/// The last segment of a split is empty exactly for an empty text or one
/// that ends with a line feed.
pub proof fn lemma_split_last_empty(s: Seq<char>)
    ensures
        spec_split_nl(s).last().len() == 0 <==> (s.len() == 0 || s.last() == '\n'),
    decreases s.len(),
{
    lemma_split_nl_len(s);
    if s.len() > 0 {
        lemma_split_last_empty(s.drop_first());
        lemma_split_nl_len(s.drop_first());
        let r = spec_split_nl(s.drop_first());
        if s[0] == '\n' {
            assert(spec_split_nl(s).last() == r.last());
            if s.len() > 1 {
                assert(s.drop_first().last() == s.last());
            }
        } else {
            if r.len() == 1 {
                assert(r.drop_first() =~~= Seq::<Seq<char>>::empty());
                assert(spec_split_nl(s).last() == seq![s[0]] + r[0]);
                assert(spec_split_nl(s).last().len() > 0);
                if s.len() > 1 {
                    assert(s.drop_first().last() == s.last());
                    if s.last() == '\n' {
                        assert(r.last() == r[0]);
                        assert(r[0].len() == 0);
                        lemma_join_split(s.drop_first());
                        assert(spec_join_nl(r) == r[0]);
                        assert(s.drop_first().len() == 0);
                        assert(false);
                    }
                }
            } else {
                assert(spec_split_nl(s).last() == r.last());
                assert(s.drop_first().last() == s.last());
            }
        }
    }
}

/// A character other than the line feed that the text lacks is absent from
/// every segment of its split.
pub proof fn lemma_split_no_char(s: Seq<char>, c: char)
    requires
        c != '\n',
        forall|i: int| 0 <= i < s.len() ==> s[i] != c,
    ensures
        forall|i: int, j: int|
            0 <= i < spec_split_nl(s).len() && 0 <= j < spec_split_nl(s)[i].len()
                ==> spec_split_nl(s)[i][j] != c,
    decreases s.len(),
{
    if s.len() > 0 {
        assert(forall|i: int|
            0 <= i < s.drop_first().len() ==> #[trigger] s.drop_first()[i] != c);
        lemma_split_no_char(s.drop_first(), c);
        lemma_split_nl_len(s.drop_first());
    }
}



/// Index of the first occurrence of one character, if any.
pub open spec fn spec_find_char(s: Seq<char>, c: char) -> Option<int>
    decreases s.len(),
{
    if s.len() == 0 {
        None
    } else if s[0] == c {
        Some(0int)
    } else {
        match spec_find_char(s.skip(1), c) {
            None => None,
            Some(i) => Some(i + 1),
        }
    }
}

pub proof fn lemma_find_char_props(s: Seq<char>, c: char)
    ensures
        match spec_find_char(s, c) {
            None => forall|j: int| 0 <= j < s.len() ==> #[trigger] s[j] != c,
            Some(i) => 0 <= i < s.len() && s[i] == c && forall|j: int|
                0 <= j < i ==> #[trigger] s[j] != c,
        },
    decreases s.len(),
{
    if s.len() > 0 && s[0] != c {
        lemma_find_char_props(s.skip(1), c);
        let t = s.skip(1);
        match spec_find_char(t, c) {
            None => {
                assert forall|j: int| 0 <= j < s.len() implies #[trigger] s[j] != c by {
                    if j >= 1 {
                        assert(t[j - 1] == s[j]);
                    }
                }
            },
            Some(i) => {
                assert(t[i] == s[i + 1]);
                assert forall|j: int| 0 <= j < i + 1 implies #[trigger] s[j] != c by {
                    if j >= 1 {
                        assert(t[j - 1] == s[j]);
                    }
                }
            },
        }
    }
}

pub fn find_char(v: &Vec<char>, c: char) -> (r: Option<usize>)
    ensures
        r is Some <==> spec_find_char(v@, c) is Some,
        r matches Some(k) ==> spec_find_char(v@, c) == Some(k as int),
{
    let mut j: usize = 0;
    while j < v.len()
        invariant
            0 <= j <= v@.len(),
            forall|t: int| 0 <= t < j ==> #[trigger] v@[t] != c,
        decreases v@.len() - j,
    {
        if v[j] == c {
            proof {
                lemma_find_char_props(v@, c);
            }
            return Some(j);
        }
        j += 1;
    }
    proof {
        lemma_find_char_props(v@, c);
    }
    None
}



/// A blank text loses everything to leading-whitespace trimming.
pub proof fn lemma_blank_drop_leading_space(s: Seq<char>)
    requires
        spec_is_blank(s),
    ensures
        spec_drop_leading_space(s).len() == 0,
    decreases s.len(),
{
    if s.len() > 0 {
        assert(spec_is_space(s[0]));
        assert(forall|i: int|
            0 <= i < s.drop_first().len() ==> spec_is_space(#[trigger] s.drop_first()[i]));
        lemma_blank_drop_leading_space(s.drop_first());
    }
}

/// A blank text stays blank when trailing carriage returns go.
pub proof fn lemma_blank_drop_trailing_cr(s: Seq<char>)
    requires
        spec_is_blank(s),
    ensures
        spec_is_blank(spec_drop_trailing_cr(s)),
    decreases s.len(),
{
    if s.len() > 0 && s.last() == '\r' {
        assert(forall|i: int|
            0 <= i < s.drop_last().len() ==> spec_is_space(#[trigger] s.drop_last()[i]));
        lemma_blank_drop_trailing_cr(s.drop_last());
    }
}


} // verus!
