//! The structural autofix: newline normalization, whitespace trimming,
//! blank-line collapsing, and the blank separators the conventional shape
//! asks for.

use vstd::prelude::*;

use crate::chars::{
    chars_to_string, is_blank, join_nl, lemma_drop_leading_nl_suffix, lemma_drop_trailing_nl_prefix,
    lemma_drop_trailing_sptab_prefix, lemma_join_split, lemma_lines_deep_index,
    lemma_normalize_id, lemma_normalize_no_cr, lemma_split_join, lemma_split_last_empty,
    lemma_split_nl_len, lemma_split_nl_segments, lemma_split_no_char, lines_of,
    normalize_newlines, seq_eq, spec_drop_leading_nl, spec_drop_trailing_cr,
    spec_drop_trailing_nl, spec_drop_trailing_sptab, spec_is_blank, spec_join_nl, spec_lines,
    spec_normalize, spec_split_nl, spec_strip_one_cr, spec_trim_nl, split_nl, str_to_chars,
    trim_end_sptab, trim_nl,
};
use crate::conventional::{has_content_after_first, push_lit, spec_has_content_after_first};
use crate::parse::{detect_footer_start, lemma_last_footer_idx_bounds, spec_detect_footer_start};

verus! {

// ------------------------------------------------------------------
// Collapsing runs of blank lines
// ------------------------------------------------------------------

/// Length of the leading run of line feeds.
pub open spec fn spec_nl_run(s: Seq<char>) -> int
    decreases s.len(),
{
    if s.len() > 0 && s[0] == '\n' {
        1 + spec_nl_run(s.drop_first())
    } else {
        0
    }
}

pub proof fn lemma_nl_run_bounds(s: Seq<char>)
    ensures
        0 <= spec_nl_run(s) <= s.len(),
        forall|j: int| 0 <= j < spec_nl_run(s) ==> #[trigger] s[j] == '\n',
        spec_nl_run(s) < s.len() ==> s[spec_nl_run(s)] != '\n',
    decreases s.len(),
{
    if s.len() > 0 && s[0] == '\n' {
        lemma_nl_run_bounds(s.drop_first());
        assert forall|j: int| 0 <= j < spec_nl_run(s) implies #[trigger] s[j] == '\n' by {
            if j >= 1 {
                assert(s.drop_first()[j - 1] == s[j]);
            }
        }
        if spec_nl_run(s) < s.len() {
            assert(s.drop_first()[spec_nl_run(s) - 1] == s[spec_nl_run(s)]);
        }
    }
}

/// Every run of three or more line feeds reduced to exactly two.
pub open spec fn spec_collapse(s: Seq<char>) -> Seq<char>
    decreases s.len(),
{
    if s.len() >= 3 && s[0] == '\n' && s[1] == '\n' && s[2] == '\n' {
        let r = spec_nl_run(s);
        let rr = if 3 <= r <= s.len() {
            r
        } else {
            3
        };
        seq!['\n', '\n'] + spec_collapse(s.skip(rr))
    } else if s.len() == 0 {
        s
    } else {
        seq![s[0]] + spec_collapse(s.skip(1))
    }
}

pub fn collapse_blank_runs(v: &Vec<char>) -> (r: Vec<char>)
    ensures
        r@ == spec_collapse(v@),
{
    let mut out: Vec<char> = Vec::new();
    let mut i: usize = 0;
    proof {
        assert(v@.skip(0) =~= v@);
        assert(out@ + spec_collapse(v@.skip(0)) =~= spec_collapse(v@));
    }
    while i < v.len()
        invariant
            0 <= i <= v@.len(),
            out@ + spec_collapse(v@.skip(i as int)) == spec_collapse(v@),
        decreases v@.len() - i,
    {
        let ghost rem = v@.skip(i as int);
        assert(rem[0] == v@[i as int]);
        if v[i] == '\n' && i + 1 < v.len() && v[i + 1] == '\n' && i + 2 < v.len() && v[i + 2]
            == '\n' {
            let mut j = i + 3;
            while j < v.len() && v[j] == '\n'
                invariant
                    i + 3 <= j <= v@.len(),
                    forall|t: int| i <= t < j ==> #[trigger] v@[t] == '\n',
                decreases v@.len() - j,
            {
                j += 1;
            }
            proof {
                lemma_nl_run_bounds(rem);
                assert(forall|t: int|
                    0 <= t < rem.len() ==> #[trigger] rem[t] == v@[i as int + t]);
                if spec_nl_run(rem) < j - i {
                    assert(rem[spec_nl_run(rem)] == '\n');
                    assert(false);
                }
                if spec_nl_run(rem) > j - i {
                    assert(j < v@.len() && v@[j as int] != '\n');
                    assert(rem[j - i] == '\n');
                    assert(false);
                }
                assert(spec_nl_run(rem) == j - i);
                assert(rem[1] == v@[i as int + 1] && rem[2] == v@[i as int + 2]);
            }
            out.push('\n');
            out.push('\n');
            proof {
                assert(rem.skip(j - i) =~= v@.skip(j as int));
                assert(spec_collapse(rem) == seq!['\n', '\n'] + spec_collapse(rem.skip(j - i)));
                assert(out@ + spec_collapse(v@.skip(j as int)) =~= spec_collapse(v@));
            }
            i = j;
        } else {
            out.push(v[i]);
            proof {
                if rem.len() >= 2 {
                    assert(rem[1] == v@[i as int + 1]);
                }
                if rem.len() >= 3 {
                    assert(rem[2] == v@[i as int + 2]);
                }
                assert(rem.skip(1) =~= v@.skip(i as int + 1));
                assert(out@ + spec_collapse(v@.skip(i as int + 1)) =~= spec_collapse(v@));
            }
            i += 1;
        }
    }
    proof {
        assert(v@.skip(v@.len() as int) =~= Seq::<char>::empty());
        assert(out@ =~= spec_collapse(v@));
    }
    out
}

// ------------------------------------------------------------------
// The autofix pipeline
// ------------------------------------------------------------------

/// Every line's trailing spaces and tabs removed; a final line feed falls
/// away with the empty line it ended.
pub open spec fn spec_trim_line_ends(s: Seq<char>) -> Seq<char> {
    spec_join_nl(spec_lines(s).map_values(|l: Seq<char>| spec_drop_trailing_sptab(l)))
}

pub fn trim_line_ends(v: &Vec<char>) -> (r: Vec<char>)
    ensures
        r@ == spec_trim_line_ends(v@),
{
    let lines = lines_of(v);
    let mut trimmed: Vec<Vec<char>> = Vec::new();
    let mut i: usize = 0;
    while i < lines.len()
        invariant
            0 <= i <= lines@.len(),
            lines.deep_view().len() == lines@.len(),
            lines.deep_view() == spec_lines(v@),
            trimmed@.len() == i,
            forall|j: int|
                0 <= j < i ==> trimmed.deep_view()[j] == spec_drop_trailing_sptab(
                    #[trigger] lines.deep_view()[j],
                ),
        decreases lines@.len() - i,
    {
        proof {
            lemma_lines_deep_index(lines, i as int);
        }
        let t = trim_end_sptab(&lines[i]);
        let ghost old_dv = trimmed.deep_view();
        trimmed.push(t);
        proof {
            assert(trimmed.deep_view() =~~= old_dv.push(t@));
        }
        i += 1;
    }
    proof {
        assert(trimmed.deep_view() =~~= spec_lines(v@).map_values(
            |l: Seq<char>| spec_drop_trailing_sptab(l),
        ));
    }
    join_nl(&trimmed)
}

/// The blank separators the conventional shape asks for: one before the
/// body, one before the footer block, each only where content follows the
/// header and the separator is missing.
pub open spec fn spec_insert_separators(s: Seq<char>) -> (Seq<char>, Seq<Seq<char>>) {
    let lines = spec_split_nl(s);
    if spec_has_content_after_first(lines) {
        let need_body = 1 < lines.len() && !spec_is_blank(lines[1]);
        let l1 = if need_body {
            lines.insert(1, Seq::<char>::empty())
        } else {
            lines
        };
        let m1 = if need_body {
            seq!["Insert blank line before body"@]
        } else {
            Seq::<Seq<char>>::empty()
        };
        let fs = spec_detect_footer_start(l1);
        let need_footer = match fs {
            Some(i) => i > 0 && 0 <= i - 1 < l1.len() && !spec_is_blank(l1[i - 1]),
            None => false,
        };
        let l2 = if need_footer {
            l1.insert(fs->Some_0, Seq::<char>::empty())
        } else {
            l1
        };
        let m2 = if need_footer {
            seq!["Insert blank line before footers"@]
        } else {
            Seq::<Seq<char>>::empty()
        };
        (spec_join_nl(l2), m1 + m2)
    } else {
        (spec_join_nl(lines), Seq::<Seq<char>>::empty())
    }
}

fn insert_separators(v: &Vec<char>) -> (r: (Vec<char>, Vec<String>))
    ensures
        r.0@ == spec_insert_separators(v@).0,
        r.1.deep_view() == spec_insert_separators(v@).1,
{
    let mut work = split_nl(v);
    let mut summaries: Vec<String> = Vec::new();
    proof {
        assert(summaries.deep_view() =~~= Seq::<Seq<char>>::empty());
    }
    if !has_content_after_first(&work) {
        let rebuilt = join_nl(&work);
        return (rebuilt, summaries);
    }
    let ghost lines0 = work.deep_view();
    if work.len() > 1 {
        proof {
            lemma_lines_deep_index(work, 1);
        }
        if !is_blank(&work[1]) {
            work.insert(1, Vec::new());
            push_lit(&mut summaries, "Insert blank line before body");
            proof {
                assert(work.deep_view() =~~= lines0.insert(1, Seq::<char>::empty()));
                assert(summaries.deep_view() =~~= seq!["Insert blank line before body"@]);
            }
        }
    }
    let ghost l1 = work.deep_view();
    let ghost m1 = summaries.deep_view();
    let fs = detect_footer_start(&work);
    proof {
        crate::parse::lemma_strip_trailing_blanks_len(l1);
        lemma_last_footer_idx_bounds(crate::parse::spec_strip_trailing_blanks(l1));
    }
    match fs {
        Some(i) => {
            if i > 0 && i - 1 < work.len() {
                proof {
                    lemma_lines_deep_index(work, i as int - 1);
                }
                if !is_blank(&work[i - 1]) {
                    proof {
                        assert(i <= work@.len());
                    }
                    work.insert(i, Vec::new());
                    push_lit(&mut summaries, "Insert blank line before footers");
                    proof {
                        assert(work.deep_view() =~~= l1.insert(
                            i as int,
                            Seq::<char>::empty(),
                        ));
                        assert(summaries.deep_view() =~~= m1 + seq![
                            "Insert blank line before footers"@,
                        ]);
                    }
                }
            }
        },
        None => {},
    }
    proof {
        assert(summaries.deep_view() =~~= spec_insert_separators(v@).1);
    }
    let rebuilt = join_nl(&work);
    (rebuilt, summaries)
}

/// The whole autofix: normalize line endings, trim line ends, trim blank
/// edges, collapse blank runs, and, under the conventional shape, insert the
/// missing blank separators.  Each step that changed the text leaves one
/// summary, in step order.
pub open spec fn spec_apply_autofix(input: Seq<char>, enforce: bool) -> (Seq<char>, Seq<Seq<char>>) {
    let s1 = spec_normalize(input);
    let s2 = spec_trim_line_ends(s1);
    let m2 = if s2 != s1 {
        seq!["Trim trailing whitespace"@]
    } else {
        Seq::<Seq<char>>::empty()
    };
    let s3 = spec_trim_nl(s2);
    let m3 = if s3 != s2 {
        seq!["Trim leading/trailing blank lines"@]
    } else {
        Seq::<Seq<char>>::empty()
    };
    let s4 = spec_collapse(s3);
    let m4 = if s4 != s3 {
        seq!["Collapse excessive blank lines"@]
    } else {
        Seq::<Seq<char>>::empty()
    };
    if enforce {
        let ins = spec_insert_separators(s4);
        (ins.0, m2 + m3 + m4 + ins.1)
    } else {
        (s4, m2 + m3 + m4)
    }
}

pub fn apply_autofix(input: &str, enforce: bool) -> (r: (String, Vec<String>))
    ensures
        r.0@ == spec_apply_autofix(input@, enforce).0,
        r.1.deep_view() == spec_apply_autofix(input@, enforce).1,
{
    let v = str_to_chars(input);
    let s1 = normalize_newlines(&v);
    let ghost g2 = if spec_trim_line_ends(s1@) != s1@ {
        seq!["Trim trailing whitespace"@]
    } else {
        Seq::<Seq<char>>::empty()
    };
    let ghost g3 = if spec_trim_nl(spec_trim_line_ends(s1@)) != spec_trim_line_ends(s1@) {
        seq!["Trim leading/trailing blank lines"@]
    } else {
        Seq::<Seq<char>>::empty()
    };
    let ghost g4 = if spec_collapse(spec_trim_nl(spec_trim_line_ends(s1@))) != spec_trim_nl(
        spec_trim_line_ends(s1@),
    ) {
        seq!["Collapse excessive blank lines"@]
    } else {
        Seq::<Seq<char>>::empty()
    };
    let mut summaries: Vec<String> = Vec::new();
    proof {
        assert(summaries.deep_view() =~~= Seq::<Seq<char>>::empty());
    }
    let s2 = trim_line_ends(&s1);
    if !seq_eq(&s2, &s1) {
        push_lit(&mut summaries, "Trim trailing whitespace");
    }
    proof {
        assert(summaries.deep_view() =~~= g2);
    }
    let s3 = trim_nl(&s2);
    if !seq_eq(&s3, &s2) {
        push_lit(&mut summaries, "Trim leading/trailing blank lines");
    }
    proof {
        assert(summaries.deep_view() =~~= g2 + g3);
    }
    let s4 = collapse_blank_runs(&s3);
    if !seq_eq(&s4, &s3) {
        push_lit(&mut summaries, "Collapse excessive blank lines");
    }
    proof {
        assert(summaries.deep_view() =~~= g2 + g3 + g4);
    }
    if enforce {
        let ins = insert_separators(&s4);
        let mut tail = ins.1;
        let ghost base = summaries.deep_view();
        summaries.append(&mut tail);
        proof {
            assert(summaries.deep_view() =~~= spec_apply_autofix(input@, enforce).1);
        }
        (chars_to_string(&ins.0), summaries)
    } else {
        proof {
            assert(summaries.deep_view() =~~= spec_apply_autofix(input@, enforce).1);
        }
        (chars_to_string(&s4), summaries)
    }
}


// ------------------------------------------------------------------
// The autofix output is in normal form, and normal forms are fixed points
// ------------------------------------------------------------------

/// No carriage return anywhere.
pub open spec fn spec_no_cr(s: Seq<char>) -> bool {
    forall|i: int| 0 <= i < s.len() ==> s[i] != '\r'
}

/// No space or tab right before a line feed, and none at the very end.
pub open spec fn spec_no_line_end_ws(s: Seq<char>) -> bool {
    &&& forall|i: int|
        0 <= i && i + 1 < s.len() ==> !((#[trigger] s[i] == ' ' || s[i] == '\t') && s[i + 1]
            == '\n')
    &&& (s.len() > 0 ==> !(s.last() == ' ' || s.last() == '\t'))
}

/// Neither starts nor ends with a line feed.
pub open spec fn spec_nl_trimmed_form(s: Seq<char>) -> bool {
    s.len() > 0 ==> s[0] != '\n' && s.last() != '\n'
}

/// No run of three line feeds.
pub open spec fn spec_no_triple_nl(s: Seq<char>) -> bool {
    forall|i: int|
        0 <= i && i + 2 < s.len() ==> !(#[trigger] s[i] == '\n' && s[i + 1] == '\n' && s[i + 2]
            == '\n')
}

/// Joining lines that lack a character other than the line feed yields a
/// text that lacks it too.
proof fn lemma_join_no_char(ls: Seq<Seq<char>>, c: char)
    requires
        c != '\n',
        forall|i: int, j: int| 0 <= i < ls.len() && 0 <= j < ls[i].len() ==> ls[i][j] != c,
    ensures
        forall|k: int| 0 <= k < spec_join_nl(ls).len() ==> spec_join_nl(ls)[k] != c,
    decreases ls.len(),
{
    if ls.len() > 1 {
        assert(forall|i: int, j: int|
            0 <= i < ls.drop_first().len() && 0 <= j < ls.drop_first()[i].len()
                ==> #[trigger] ls.drop_first()[i][j] == ls[i + 1][j]);
        lemma_join_no_char(ls.drop_first(), c);
        let head = ls[0];
        let rest = spec_join_nl(ls.drop_first());
        assert(spec_join_nl(ls) == head + seq!['\n'] + rest);
        assert forall|k: int| 0 <= k < spec_join_nl(ls).len() implies spec_join_nl(ls)[k]
            != c by {
            if k < head.len() {
                assert(spec_join_nl(ls)[k] == head[k]);
            } else if k == head.len() {
                assert(spec_join_nl(ls)[k] == '\n');
            } else {
                assert(spec_join_nl(ls)[k] == rest[k - head.len() - 1]);
            }
        }
    } else if ls.len() == 1 {
        assert(forall|k: int| 0 <= k < ls[0].len() ==> #[trigger] ls[0][k] != c);
    }
}

/// Joining lines without line feeds, each free of trailing spaces and tabs,
/// yields a text with no space or tab at a line's end.
proof fn lemma_join_line_end_ws(ls: Seq<Seq<char>>)
    requires
        forall|i: int, j: int| 0 <= i < ls.len() && 0 <= j < ls[i].len() ==> ls[i][j] != '\n',
        forall|i: int|
            0 <= i < ls.len() && #[trigger] ls[i].len() > 0 ==> !(ls[i].last() == ' '
                || ls[i].last() == '\t'),
    ensures
        spec_no_line_end_ws(spec_join_nl(ls)),
    decreases ls.len(),
{
    if ls.len() > 1 {
        assert(forall|i: int, j: int|
            0 <= i < ls.drop_first().len() && 0 <= j < ls.drop_first()[i].len()
                ==> #[trigger] ls.drop_first()[i][j] == ls[i + 1][j]);
        assert(forall|i: int|
            0 <= i < ls.drop_first().len() ==> #[trigger] ls.drop_first()[i] == ls[i + 1]);
        lemma_join_line_end_ws(ls.drop_first());
        let head = ls[0];
        let rest = spec_join_nl(ls.drop_first());
        let whole = head + seq!['\n'] + rest;
        assert(spec_join_nl(ls) == whole);
        assert forall|k: int|
            0 <= k && k + 1 < whole.len() implies !((#[trigger] whole[k] == ' ' || whole[k]
            == '\t') && whole[k + 1] == '\n') by {
            if k + 1 < head.len() {
                assert(whole[k] == head[k] && whole[k + 1] == head[k + 1]);
                assert(whole[k + 1] != '\n');
            } else if k + 1 == head.len() {
                assert(whole[k] == head[k]);
                assert(head[k] == head.last());
                assert(!(head.last() == ' ' || head.last() == '\t'));
            } else if k < head.len() {
                assert(k + 1 == head.len() + 1 && k == head.len());
                assert(whole[k] == '\n');
            } else if k == head.len() {
                assert(whole[k] == '\n');
            } else {
                assert(whole[k] == rest[k - head.len() - 1]);
                assert(whole[k + 1] == rest[k - head.len()]);
            }
        }
        if whole.len() > 0 {
            if rest.len() > 0 {
                assert(whole.last() == rest.last());
            } else {
                assert(whole.last() == '\n');
            }
        }
    } else if ls.len() == 1 {
        assert(spec_join_nl(ls) == ls[0]);
        assert forall|k: int|
            0 <= k && k + 1 < ls[0].len() implies !((#[trigger] ls[0][k] == ' ' || ls[0][k]
            == '\t') && ls[0][k + 1] == '\n') by {
            assert(ls[0][k + 1] != '\n');
        }
    }
}

/// The text the line-end trimming yields has no carriage returns (given the
/// input had none) and no space or tab at a line's end.
proof fn lemma_trim_line_ends_form(s: Seq<char>)
    requires
        spec_no_cr(s),
    ensures
        spec_no_cr(spec_trim_line_ends(s)),
        spec_no_line_end_ws(spec_trim_line_ends(s)),
{
    let segs = spec_split_nl(s);
    lemma_split_nl_len(s);
    lemma_split_nl_segments(s);
    lemma_split_no_char(s, '\r');
    let lines = spec_lines(s);
    let trimmed = lines.map_values(|l: Seq<char>| spec_drop_trailing_sptab(l));
    assert forall|i: int, j: int|
        0 <= i < trimmed.len() && 0 <= j < trimmed[i].len() implies trimmed[i][j] != '\n'
        && trimmed[i][j] != '\r' by {
        let li = lines[i];
        lemma_drop_trailing_sptab_prefix(li);
        assert(trimmed[i] == spec_drop_trailing_sptab(li));
        assert(trimmed[i][j] == li[j]);
        if segs.last().len() == 0 {
            assert(li == spec_strip_one_cr(segs.drop_last()[i]));
            assert(li[j] == segs[i][j]);
        } else {
            if i < lines.len() - 1 {
                assert(li == spec_strip_one_cr(segs.drop_last()[i]));
                assert(li[j] == segs[i][j]);
            } else {
                assert(li == segs.last());
                assert(li[j] == segs[segs.len() - 1][j]);
            }
        }
    }
    assert forall|i: int|
        0 <= i < trimmed.len() && #[trigger] trimmed[i].len() > 0 implies !(trimmed[i].last()
        == ' ' || trimmed[i].last() == '\t') by {
        lemma_drop_trailing_sptab_prefix(lines[i]);
        assert(trimmed[i] == spec_drop_trailing_sptab(lines[i]));
    }
    lemma_join_no_char(trimmed, '\r');
    lemma_join_line_end_ws(trimmed);
}

/// Trimming line feeds off both ends preserves the two cleanliness
/// properties and leaves no line feed at either end.
proof fn lemma_trim_nl_form(s: Seq<char>)
    requires
        spec_no_cr(s),
        spec_no_line_end_ws(s),
    ensures
        spec_no_cr(spec_trim_nl(s)),
        spec_no_line_end_ws(spec_trim_nl(s)),
        spec_nl_trimmed_form(spec_trim_nl(s)),
{
    lemma_drop_leading_nl_suffix(s);
    let m = spec_drop_leading_nl(s);
    let a = s.len() - m.len();
    assert forall|i: int| 0 <= i < m.len() implies m[i] != '\r' by {
        assert(m[i] == s[a + i]);
    }
    assert forall|i: int|
        0 <= i && i + 1 < m.len() implies !((#[trigger] m[i] == ' ' || m[i] == '\t') && m[i + 1]
        == '\n') by {
        assert(m[i] == s[a + i] && m[i + 1] == s[a + i + 1]);
    }
    if m.len() > 0 {
        assert(m.last() == s.last());
    }
    lemma_drop_trailing_nl_prefix(m);
    let t = spec_drop_trailing_nl(m);
    assert(t == spec_trim_nl(s));
    assert forall|i: int| 0 <= i < t.len() implies t[i] != '\r' by {
        assert(t[i] == m[i]);
    }
    assert forall|i: int|
        0 <= i && i + 1 < t.len() implies !((#[trigger] t[i] == ' ' || t[i] == '\t') && t[i + 1]
        == '\n') by {
        assert(t[i] == m[i] && t[i + 1] == m[i + 1]);
    }
    if t.len() > 0 {
        assert(t.last() == m[t.len() - 1]);
        if t.len() < m.len() {
            assert(m[t.len() as int] == '\n');
            assert(!(m[t.len() - 1] == ' ' || m[t.len() - 1] == '\t'));
        } else {
            assert(t.last() == m.last());
        }
        assert(t[0] == m[0]);
    }
}

/// Collapsing keeps the first and last characters.
proof fn lemma_collapse_ends(s: Seq<char>)
    ensures
        spec_collapse(s).len() > 0 <==> s.len() > 0,
        s.len() > 0 ==> spec_collapse(s)[0] == s[0],
        s.len() > 0 ==> spec_collapse(s).last() == s.last(),
    decreases s.len(),
{
    if s.len() >= 3 && s[0] == '\n' && s[1] == '\n' && s[2] == '\n' {
        lemma_nl_run_bounds(s);
        let r = spec_nl_run(s);
        lemma_collapse_ends(s.skip(r));
        if s.skip(r).len() > 0 {
            assert(s.skip(r).last() == s.last());
        } else {
            assert(s.last() == s[r - 1]);
            assert(s.last() == '\n');
        }
    } else if s.len() > 0 {
        lemma_collapse_ends(s.skip(1));
        if s.skip(1).len() > 0 {
            assert(s.skip(1)[0] == s[1]);
            assert(s.skip(1).last() == s.last());
        }
    }
}

/// Collapsing preserves the cleanliness properties and leaves no triple run
/// of line feeds.
proof fn lemma_collapse_form(s: Seq<char>)
    requires
        spec_no_cr(s),
        spec_no_line_end_ws(s),
    ensures
        spec_no_cr(spec_collapse(s)),
        spec_no_line_end_ws(spec_collapse(s)),
        spec_no_triple_nl(spec_collapse(s)),
    decreases s.len(),
{
    let out = spec_collapse(s);
    if s.len() >= 3 && s[0] == '\n' && s[1] == '\n' && s[2] == '\n' {
        lemma_nl_run_bounds(s);
        let r = spec_nl_run(s);
        let rest = s.skip(r);
        assert forall|i: int| 0 <= i < rest.len() implies rest[i] != '\r' by {
            assert(rest[i] == s[r + i]);
        }
        assert forall|i: int|
            0 <= i && i + 1 < rest.len() implies !((#[trigger] rest[i] == ' ' || rest[i]
            == '\t') && rest[i + 1] == '\n') by {
            assert(rest[i] == s[r + i] && rest[i + 1] == s[r + i + 1]);
        }
        if rest.len() > 0 {
            assert(rest.last() == s.last());
        }
        lemma_collapse_form(rest);
        lemma_collapse_ends(rest);
        let ro = spec_collapse(rest);
        assert(out == seq!['\n', '\n'] + ro);
        if rest.len() > 0 {
            assert(rest[0] == s[r] && rest[0] != '\n');
            assert(ro[0] != '\n');
        }
        assert forall|i: int|
            0 <= i && i + 2 < out.len() implies !(#[trigger] out[i] == '\n' && out[i + 1]
            == '\n' && out[i + 2] == '\n') by {
            if i == 0 {
                assert(out[2] == ro[0]);
            } else if i == 1 {
                assert(out[2] == ro[0] && out[3] == ro[1]);
            } else {
                assert(out[i] == ro[i - 2] && out[i + 1] == ro[i - 1] && out[i + 2] == ro[i]);
            }
        }
        assert forall|i: int| 0 <= i < out.len() implies out[i] != '\r' by {
            if i >= 2 {
                assert(out[i] == ro[i - 2]);
            }
        }
        assert forall|i: int|
            0 <= i && i + 1 < out.len() implies !((#[trigger] out[i] == ' ' || out[i] == '\t')
            && out[i + 1] == '\n') by {
            if i >= 2 {
                assert(out[i] == ro[i - 2]);
            }
        }
        if out.len() > 0 {
            if ro.len() > 0 {
                assert(out.last() == ro.last());
            }
        }
    } else if s.len() > 0 {
        let rest = s.skip(1);
        assert forall|i: int| 0 <= i < rest.len() implies rest[i] != '\r' by {
            assert(rest[i] == s[1 + i]);
        }
        assert forall|i: int|
            0 <= i && i + 1 < rest.len() implies !((#[trigger] rest[i] == ' ' || rest[i]
            == '\t') && rest[i + 1] == '\n') by {
            assert(rest[i] == s[1 + i] && rest[i + 1] == s[1 + i + 1]);
        }
        if rest.len() > 0 {
            assert(rest.last() == s.last());
        }
        lemma_collapse_form(rest);
        lemma_collapse_ends(rest);
        let ro = spec_collapse(rest);
        assert(out == seq![s[0]] + ro);
        assert forall|i: int|
            0 <= i && i + 2 < out.len() implies !(#[trigger] out[i] == '\n' && out[i + 1]
            == '\n' && out[i + 2] == '\n') by {
            if i == 0 {
                assert(out[1] == ro[0] && out[2] == ro[1]);
                if s[0] == '\n' && ro[0] == '\n' && ro[1] == '\n' {
                    assert(ro[0] == rest[0]);
                    assert(rest[0] == s[1]);
                    if rest.len() >= 3 && rest[0] == '\n' && rest[1] == '\n' && rest[2]
                        == '\n' {
                        assert(false);
                    } else {
                        assert(ro == seq![rest[0]] + spec_collapse(rest.skip(1)));
                        lemma_collapse_ends(rest.skip(1));
                        assert(ro[1] == spec_collapse(rest.skip(1))[0]);
                        assert(rest.skip(1).len() > 0);
                        assert(spec_collapse(rest.skip(1))[0] == rest.skip(1)[0]);
                        assert(rest.skip(1)[0] == s[2]);
                        assert(s[1] == '\n' && s[2] == '\n');
                        assert(false);
                    }
                }
            } else {
                assert(out[i] == ro[i - 1] && out[i + 1] == ro[i] && out[i + 2] == ro[i + 1]);
            }
        }
        assert forall|i: int| 0 <= i < out.len() implies out[i] != '\r' by {
            if i >= 1 {
                assert(out[i] == ro[i - 1]);
            }
        }
        assert forall|i: int|
            0 <= i && i + 1 < out.len() implies !((#[trigger] out[i] == ' ' || out[i] == '\t')
            && out[i + 1] == '\n') by {
            if i >= 1 {
                assert(out[i] == ro[i - 1] && out[i + 1] == ro[i]);
            } else {
                assert(out[0] == s[0]);
                if ro.len() > 0 {
                    assert(out[1] == ro[0]);
                    assert(ro[0] == rest[0]);
                    assert(rest[0] == s[1]);
                }
            }
        }
        if out.len() > 0 {
            if ro.len() > 0 {
                assert(out.last() == ro.last());
                assert(ro.last() == rest.last());
            } else {
                assert(out.last() == s[0]);
                assert(s.len() == 1);
            }
        }
    }
}

/// A text with no triple run of line feeds collapses to itself.
proof fn lemma_collapse_id(s: Seq<char>)
    requires
        spec_no_triple_nl(s),
    ensures
        spec_collapse(s) == s,
    decreases s.len(),
{
    if s.len() == 0 {
    } else {
        assert(!(s.len() >= 3 && s[0] == '\n' && s[1] == '\n' && s[2] == '\n'));
        let rest = s.skip(1);
        assert forall|i: int|
            0 <= i && i + 2 < rest.len() implies !(#[trigger] rest[i] == '\n' && rest[i + 1]
            == '\n' && rest[i + 2] == '\n') by {
            assert(rest[i] == s[i + 1] && rest[i + 1] == s[i + 2] && rest[i + 2] == s[i + 3]);
        }
        lemma_collapse_id(rest);
        assert(seq![s[0]] + rest =~= s);
    }
}

/// A clean text is a fixed point of the line-end trimming.
proof fn lemma_trim_line_ends_id(s: Seq<char>)
    requires
        spec_no_cr(s),
        spec_no_line_end_ws(s),
        s.len() > 0 ==> s.last() != '\n',
    ensures
        spec_trim_line_ends(s) == s,
{
    let segs = spec_split_nl(s);
    lemma_split_nl_len(s);
    lemma_split_nl_segments(s);
    lemma_split_no_char(s, '\r');
    lemma_split_last_empty(s);
    lemma_segments_clean(s);
    if s.len() == 0 {
        assert(segs.last().len() == 0);
        assert(spec_lines(s) =~~= Seq::<Seq<char>>::empty());
        assert(spec_lines(s).map_values(|l: Seq<char>| spec_drop_trailing_sptab(l))
            =~~= Seq::<Seq<char>>::empty());
        assert(spec_trim_line_ends(s) =~= s);
    } else {
        assert(segs.last().len() > 0);
        let lines = spec_lines(s);
        assert forall|i: int| 0 <= i < lines.len() implies #[trigger] lines[i] == segs[i] by {
            if i < lines.len() - 1 {
                assert(lines[i] == spec_strip_one_cr(segs.drop_last()[i]));
                assert(segs.drop_last()[i] == segs[i]);
            } else {
                assert(lines[i] == segs.last());
            }
        }
        assert(lines =~~= segs);
        let trimmed = lines.map_values(|l: Seq<char>| spec_drop_trailing_sptab(l));
        assert forall|i: int| 0 <= i < trimmed.len() implies #[trigger] trimmed[i]
            == segs[i] by {
            assert(trimmed[i] == spec_drop_trailing_sptab(lines[i]));
        }
        assert(trimmed =~~= segs);
        lemma_join_split(s);
        assert(spec_trim_line_ends(s) == s);
    }
}

/// Under the cleanliness properties, no segment of the split ends with a
/// space, a tab, or a carriage return.
proof fn lemma_segments_clean(s: Seq<char>)
    requires
        spec_no_cr(s),
        spec_no_line_end_ws(s),
    ensures
        forall|i: int|
            0 <= i < spec_split_nl(s).len() ==> spec_drop_trailing_sptab(
                #[trigger] spec_split_nl(s)[i],
            ) == spec_split_nl(s)[i] && spec_strip_one_cr(spec_split_nl(s)[i]) == spec_split_nl(
                s,
            )[i],
    decreases s.len(),
{
    lemma_split_nl_len(s);
    if s.len() == 0 {
        assert(spec_split_nl(s) == seq![Seq::<char>::empty()]);
        assert(spec_drop_trailing_sptab(Seq::<char>::empty()) == Seq::<char>::empty());
        assert(spec_strip_one_cr(Seq::<char>::empty()) == Seq::<char>::empty());
    } else {
        let rest = s.drop_first();
        assert forall|i: int| 0 <= i < rest.len() implies rest[i] != '\r' by {
            assert(rest[i] == s[i + 1]);
        }
        assert forall|i: int|
            0 <= i && i + 1 < rest.len() implies !((#[trigger] rest[i] == ' ' || rest[i]
            == '\t') && rest[i + 1] == '\n') by {
            assert(rest[i] == s[i + 1] && rest[i + 1] == s[i + 2]);
        }
        if rest.len() > 0 {
            assert(rest.last() == s.last());
        }
        lemma_segments_clean(rest);
        lemma_split_nl_len(rest);
        let r = spec_split_nl(rest);
        if s[0] == '\n' {
            assert(spec_split_nl(s) == seq![Seq::<char>::empty()] + r);
            assert forall|i: int|
                0 <= i < spec_split_nl(s).len() implies spec_drop_trailing_sptab(
                #[trigger] spec_split_nl(s)[i],
            ) == spec_split_nl(s)[i] && spec_strip_one_cr(spec_split_nl(s)[i])
                == spec_split_nl(s)[i] by {
                if i == 0 {
                    assert(spec_split_nl(s)[0] =~= Seq::<char>::empty());
                    assert(spec_drop_trailing_sptab(Seq::<char>::empty())
                        == Seq::<char>::empty());
                    assert(spec_strip_one_cr(Seq::<char>::empty()) == Seq::<char>::empty());
                } else {
                    assert(spec_split_nl(s)[i] == r[i - 1]);
                }
            }
        } else {
            let head = seq![s[0]] + r[0];
            assert(spec_split_nl(s) == seq![head] + r.drop_first());
            let hl = head.last();
            if r[0].len() > 0 {
                assert(hl == r[0].last());
                assert(spec_drop_trailing_sptab(r[0]) == r[0]);
                assert(spec_strip_one_cr(r[0]) == r[0]);
                if r[0].len() > 0 && (r[0].last() == ' ' || r[0].last() == '\t') {
                    lemma_drop_trailing_sptab_prefix(r[0].drop_last());
                    assert(spec_drop_trailing_sptab(r[0]) == spec_drop_trailing_sptab(
                        r[0].drop_last(),
                    ));
                    assert(spec_drop_trailing_sptab(r[0]).len() < r[0].len());
                    assert(false);
                }
                assert(!(hl == ' ' || hl == '\t'));
                assert(hl != '\r');
            } else {
                assert(hl == s[0]);
                if s.len() == 1 {
                    assert(s.last() == s[0]);
                    assert(!(hl == ' ' || hl == '\t'));
                } else {
                    if rest[0] == '\n' {
                        assert(s[1] == '\n');
                        assert(!((s[0] == ' ' || s[0] == '\t') && s[1] == '\n'));
                        assert(!(hl == ' ' || hl == '\t'));
                    } else {
                        assert(r[0].len() > 0) by {
                            let rr = spec_split_nl(rest.drop_first());
                            lemma_split_nl_len(rest.drop_first());
                            assert(r[0] == seq![rest[0]] + rr[0]);
                        }
                        assert(false);
                    }
                }
                assert(hl != '\r');
            }
            assert(head.len() > 0);
            assert(spec_drop_trailing_sptab(head) == head);
            assert(spec_strip_one_cr(head) == head);
            assert forall|i: int|
                0 <= i < spec_split_nl(s).len() implies spec_drop_trailing_sptab(
                #[trigger] spec_split_nl(s)[i],
            ) == spec_split_nl(s)[i] && spec_strip_one_cr(spec_split_nl(s)[i])
                == spec_split_nl(s)[i] by {
                if i == 0 {
                    assert(spec_split_nl(s)[0] == head);
                } else {
                    assert(spec_split_nl(s)[i] == r.drop_first()[i - 1]);
                    assert(r.drop_first()[i - 1] == r[i]);
                }
            }
        }
    }
}

/// The plain autofix (without the conventional separators) leaves its output
/// in normal form.
proof fn lemma_autofix_plain_normal(s: Seq<char>)
    ensures
        ({
            let out = spec_collapse(spec_trim_nl(spec_trim_line_ends(spec_normalize(s))));
            spec_no_cr(out) && spec_no_line_end_ws(out) && spec_nl_trimmed_form(out)
                && spec_no_triple_nl(out)
        }),
{
    let s1 = spec_normalize(s);
    lemma_normalize_no_cr(s);
    lemma_trim_line_ends_form(s1);
    let s2 = spec_trim_line_ends(s1);
    lemma_trim_nl_form(s2);
    let s3 = spec_trim_nl(s2);
    lemma_collapse_form(s3);
    lemma_collapse_ends(s3);
    let s4 = spec_collapse(s3);
    if s4.len() > 0 {
        assert(s4[0] == s3[0] && s4.last() == s3.last());
    }
}

/// Rerunning the autofix on its own output returns that output and reports
/// nothing: the whole rewrite is idempotent.
pub proof fn lemma_autofix_idempotent(s: Seq<char>, enforce: bool)
    ensures
        spec_apply_autofix(spec_apply_autofix(s, enforce).0, enforce).0 == spec_apply_autofix(
            s,
            enforce,
        ).0,
        spec_apply_autofix(spec_apply_autofix(s, enforce).0, enforce).1 == Seq::<
            Seq<char>,
        >::empty(),
{
    let s4 = spec_collapse(spec_trim_nl(spec_trim_line_ends(spec_normalize(s))));
    lemma_autofix_plain_normal(s);
    if !enforce {
        let out = s4;
        assert(spec_apply_autofix(s, false).0 == out);
        lemma_normalize_id(out);
        lemma_trim_line_ends_id(out);
        assert(spec_trim_nl(out) == out);
        lemma_collapse_id(out);
        assert(spec_apply_autofix(out, false).1 =~~= Seq::<Seq<char>>::empty());
    } else {
        lemma_insert_separators_normal(s4);
        let out = spec_insert_separators(s4).0;
        assert(spec_apply_autofix(s, true).0 == out);
        lemma_normalize_id(out);
        lemma_trim_line_ends_id(out);
        assert(spec_trim_nl(out) == out);
        lemma_collapse_id(out);
        assert(spec_insert_separators(out) == (out, Seq::<Seq<char>>::empty()));
        assert(spec_apply_autofix(out, true).0 == out);
        assert(spec_apply_autofix(out, true).1 =~~= Seq::<Seq<char>>::empty());
    }
}

/// Joining keeps the first and last lines' edge characters.
proof fn lemma_join_edge_chars(ls: Seq<Seq<char>>)
    requires
        ls.len() > 0,
    ensures
        ls[0].len() > 0 ==> spec_join_nl(ls).len() > 0 && spec_join_nl(ls)[0] == ls[0][0],
        ls.last().len() > 0 ==> spec_join_nl(ls).len() > 0 && spec_join_nl(ls).last()
            == ls.last().last(),
    decreases ls.len(),
{
    if ls.len() > 1 {
        lemma_join_edge_chars(ls.drop_first());
        let rest = spec_join_nl(ls.drop_first());
        assert(spec_join_nl(ls) == ls[0] + seq!['\n'] + rest);
        if ls[0].len() > 0 {
            assert(spec_join_nl(ls)[0] == ls[0][0]);
        }
        if ls.last().len() > 0 {
            assert(ls.drop_first().last() == ls.last());
            assert(rest.len() > 0 && rest.last() == ls.last().last());
            assert(spec_join_nl(ls).last() == rest.last());
        }
    }
}

/// Joining lines without line feeds, no two of them empty side by side and
/// the last one non-empty, yields no triple feed.
proof fn lemma_join_no_triple(ls: Seq<Seq<char>>)
    requires
        ls.len() > 0,
        forall|i: int, j: int| 0 <= i < ls.len() && 0 <= j < ls[i].len() ==> ls[i][j] != '\n',
        forall|i: int|
            0 <= i && i + 1 < ls.len() ==> !((#[trigger] ls[i]).len() == 0 && ls[i + 1].len()
                == 0),
        ls.last().len() > 0,
    ensures
        spec_no_triple_nl(spec_join_nl(ls)),
    decreases ls.len(),
{
    let whole = spec_join_nl(ls);
    if ls.len() == 1 {
        assert forall|i: int|
            0 <= i && i + 2 < whole.len() implies !(#[trigger] whole[i] == '\n' && whole[i + 1]
            == '\n' && whole[i + 2] == '\n') by {
            assert(whole[i] == ls[0][i]);
        }
    } else {
        assert(forall|i: int, j: int|
            0 <= i < ls.drop_first().len() && 0 <= j < ls.drop_first()[i].len()
                ==> #[trigger] ls.drop_first()[i][j] == ls[i + 1][j]);
        assert(forall|i: int|
            0 <= i < ls.drop_first().len() ==> #[trigger] ls.drop_first()[i] == ls[i + 1]);
        assert(ls.drop_first().last() == ls.last());
        lemma_join_no_triple(ls.drop_first());
        lemma_join_edge_chars(ls.drop_first());
        let rest = spec_join_nl(ls.drop_first());
        assert(whole == ls[0] + seq!['\n'] + rest);
        let p = ls[0].len() as int;
        assert forall|k: int|
            0 <= k && k + 2 < whole.len() implies !(#[trigger] whole[k] == '\n' && whole[k + 1]
            == '\n' && whole[k + 2] == '\n') by {
            if k + 2 < p {
                assert(whole[k] == ls[0][k]);
            } else if k + 2 == p {
                assert(whole[k] == ls[0][k]);
            } else if k + 1 == p {
                assert(whole[k] == ls[0][k]);
            } else if k == p {
                assert(whole[k + 1] == rest[0]);
                assert(whole[k + 2] == rest[1]);
                if ls[1].len() > 0 {
                    assert(rest[0] == ls[1][0]);
                    assert(rest[0] != '\n');
                } else {
                    assert(ls.len() >= 3);
                    assert(ls.drop_first().len() >= 2);
                    let rest2 = spec_join_nl(ls.drop_first().drop_first());
                    assert(rest == ls[1] + seq!['\n'] + rest2);
                    assert(rest[0] == '\n');
                    assert(rest[1] == rest2[0]);
                    assert(forall|i: int|
                        0 <= i < ls.drop_first().drop_first().len()
                            ==> #[trigger] ls.drop_first().drop_first()[i] == ls[i + 2]);
                    assert(ls[2].len() > 0);
                    lemma_join_edge_chars(ls.drop_first().drop_first());
                    assert(rest2[0] == ls[2][0]);
                    assert(rest2[0] != '\n');
                }
            } else {
                assert(whole[k] == rest[k - p - 1]);
                assert(whole[k + 1] == rest[k - p]);
                assert(whole[k + 2] == rest[k - p + 1]);
            }
        }
    }
}

/// Under no triple feed and no trailing feed, only the first two segments of
/// a split can be empty side by side, and only after a leading double feed.
proof fn lemma_split_no_adjacent_empty(s: Seq<char>)
    requires
        spec_no_triple_nl(s),
        s.len() > 0 ==> s.last() != '\n',
    ensures
        forall|i: int|
            1 <= i && i + 1 < spec_split_nl(s).len() ==> !((#[trigger] spec_split_nl(s)[i]).len()
                == 0 && spec_split_nl(s)[i + 1].len() == 0),
        (spec_split_nl(s).len() >= 2 && spec_split_nl(s)[0].len() == 0 && spec_split_nl(s)[
            1
        ].len() == 0) ==> (s.len() >= 2 && s[0] == '\n' && s[1] == '\n'),
    decreases s.len(),
{
    lemma_split_nl_len(s);
    if s.len() > 0 {
        let rest = s.drop_first();
        assert forall|i: int|
            0 <= i && i + 2 < rest.len() implies !(#[trigger] rest[i] == '\n' && rest[i + 1]
            == '\n' && rest[i + 2] == '\n') by {
            assert(rest[i] == s[i + 1] && rest[i + 1] == s[i + 2] && rest[i + 2] == s[i + 3]);
        }
        if rest.len() > 0 {
            assert(rest.last() == s.last());
        }
        lemma_split_no_adjacent_empty(rest);
        lemma_split_nl_len(rest);
        let r = spec_split_nl(rest);
        if s[0] == '\n' {
            assert(rest.len() > 0);
            assert(spec_split_nl(s) == seq![Seq::<char>::empty()] + r);
            assert forall|i: int|
                1 <= i && i + 1 < spec_split_nl(s).len() implies !((
            #[trigger] spec_split_nl(s)[i]).len() == 0 && spec_split_nl(s)[i + 1].len()
                == 0) by {
                assert(spec_split_nl(s)[i] == r[i - 1]);
                assert(spec_split_nl(s)[i + 1] == r[i]);
                if i == 1 {
                    if r[0].len() == 0 && r[1].len() == 0 {
                        assert(rest.len() >= 2 && rest[0] == '\n' && rest[1] == '\n');
                        assert(s[0] == '\n' && s[1] == '\n' && s[2] == '\n');
                        assert(false);
                    }
                }
            }
            assert(spec_split_nl(s)[1] == r[0]);
            if r[0].len() == 0 {
                assert(rest[0] == '\n' || rest.len() == 0);
                if rest.len() == 0 {
                } else {
                    assert(s[1] == '\n');
                }
            }
        } else {
            let head = seq![s[0]] + r[0];
            assert(spec_split_nl(s) == seq![head] + r.drop_first());
            assert(head.len() > 0);
            assert forall|i: int|
                1 <= i && i + 1 < spec_split_nl(s).len() implies !((
            #[trigger] spec_split_nl(s)[i]).len() == 0 && spec_split_nl(s)[i + 1].len()
                == 0) by {
                assert(spec_split_nl(s)[i] == r[i]);
                assert(spec_split_nl(s)[i + 1] == r[i + 1]);
                if i == 1 {
                    if r[1].len() == 0 && r[2].len() == 0 {
                        assert(false);
                    }
                } else {
                    assert(i >= 2 || i == 1);
                }
                if r[i].len() == 0 && r[i + 1].len() == 0 {
                    if i == 1 {
                        assert(false);
                    } else {
                        assert(false);
                    }
                }
            }
        }
    }
}



/// Whether a line reads as a footer entry once trailing carriage returns go.
pub open spec fn spec_line_shaped(line: Seq<char>) -> bool {
    crate::parse::spec_is_footer_line(spec_drop_trailing_cr(line))
}

/// On a text in normal form the separator insertions leave normal form
/// behind, and a second application changes nothing and reports nothing.
#[verifier::rlimit(100)]
proof fn lemma_insert_separators_normal(s4: Seq<char>)
    requires
        spec_no_cr(s4),
        spec_no_line_end_ws(s4),
        spec_nl_trimmed_form(s4),
        spec_no_triple_nl(s4),
    ensures
        ({
            let out = spec_insert_separators(s4).0;
            &&& spec_no_cr(out)
            &&& spec_no_line_end_ws(out)
            &&& spec_nl_trimmed_form(out)
            &&& spec_no_triple_nl(out)
            &&& spec_insert_separators(out) == (out, Seq::<Seq<char>>::empty())
        }),
{
    let ls = spec_split_nl(s4);
    lemma_split_nl_len(s4);
    lemma_split_nl_segments(s4);
    lemma_split_no_char(s4, '\r');
    lemma_segments_clean(s4);
    lemma_split_last_empty(s4);
    lemma_split_no_adjacent_empty(s4);
    lemma_join_split(s4);
    let out = spec_insert_separators(s4).0;
    if !spec_has_content_after_first(ls) {
        assert(out == spec_join_nl(ls));
        assert(out == s4);
        assert(spec_insert_separators(out) == (out, Seq::<Seq<char>>::empty()));
    } else {
        // the witness of content sits at an index of one or more
        assert(ls.len() >= 2);
        assert(s4.len() > 0) by {
            if s4.len() == 0 {
                assert(ls =~~= seq![Seq::<char>::empty()]);
            }
        }
        assert(ls[0].len() > 0) by {
            if ls[0].len() == 0 {
                assert(s4[0] == '\n' || s4.len() == 0);
            }
        }
        assert(ls.last().len() > 0);
        let need_body = 1 < ls.len() && !spec_is_blank(ls[1]);
        let l1 = if need_body {
            ls.insert(1, Seq::<char>::empty())
        } else {
            ls
        };
        proof_insert_facts(ls, 1, l1, need_body);
        let fs = crate::parse::spec_detect_footer_start(l1);
        crate::parse::lemma_detect_characterization(l1);
        let need_footer = match fs {
            Some(i) => i > 0 && 0 <= i - 1 < l1.len() && !spec_is_blank(l1[i - 1]),
            None => false,
        };
        let l2 = if need_footer {
            l1.insert(fs->Some_0, Seq::<char>::empty())
        } else {
            l1
        };
        if need_footer {
            proof_insert_facts(l1, fs->Some_0, l2, true);
        }
        assert(out == spec_join_nl(l2));
        // every final line is an original segment or an inserted empty line
        assert(need_footer ==> 0 < fs->Some_0 < l1.len());
        assert forall|i: int|
            0 <= i < l2.len() implies l2[i].len() == 0 || (exists|k: int|
            0 <= k < ls.len() && #[trigger] l2[i] == ls[k]) by {
            let a: int = if need_footer {
                if i == fs->Some_0 {
                    -1
                } else if i > fs->Some_0 {
                    i - 1
                } else {
                    i
                }
            } else {
                i
            };
            if a >= 0 {
                assert(l2[i] == l1[a]);
                let b: int = if need_body {
                    if a == 1 {
                        -1
                    } else if a > 1 {
                        a - 1
                    } else {
                        a
                    }
                } else {
                    a
                };
                if b >= 0 {
                    assert(l1[a] == ls[b]);
                    assert(l2[i] == ls[b]);
                } else {
                    assert(l2[i].len() == 0);
                }
            } else {
                assert(l2[i].len() == 0);
            }
        }
        // facts about the final line list
        assert(l2[0] == ls[0]);
        assert(l2.len() > 0 && l2[l2.len() - 1] == ls[ls.len() - 1]) by {
            let last2 = l2.len() - 1;
            if need_footer {
                assert(l2[last2] == l1[l1.len() - 1]);
            }
            if need_body {
                assert(l1[l1.len() - 1] == ls[ls.len() - 1]);
            }
        }
        assert(l2.last() == ls.last());
        assert forall|i: int, j: int|
            0 <= i < l2.len() && 0 <= j < l2[i].len() implies #[trigger] l2[i][j] != '\n'
            && l2[i][j] != '\r' by {
            if l2[i].len() > 0 {
                let k = choose|k: int| 0 <= k < ls.len() && l2[i] == ls[k];
                assert(l2[i][j] == ls[k][j]);
            }
        }
        assert forall|i: int|
            0 <= i < l2.len() && (#[trigger] l2[i]).len() > 0 implies !(l2[i].last() == ' '
            || l2[i].last() == '\t') by {
            let k = choose|k: int| 0 <= k < ls.len() && l2[i] == ls[k];
            assert(spec_drop_trailing_sptab(ls[k]) == ls[k]);
            if ls[k].len() > 0 && (ls[k].last() == ' ' || ls[k].last() == '\t') {
                lemma_drop_trailing_sptab_prefix(ls[k].drop_last());
                assert(spec_drop_trailing_sptab(ls[k]) == spec_drop_trailing_sptab(
                    ls[k].drop_last(),
                ));
                assert(false);
            }
        }
        assert forall|i: int|
            0 <= i && i + 1 < l2.len() implies !((#[trigger] l2[i]).len() == 0 && l2[i + 1].len()
            == 0) by {
            if need_footer && (i == fs->Some_0 || i + 1 == fs->Some_0) {
                let f = fs->Some_0;
                assert(!spec_is_blank(l1[f - 1]));
                assert(l1[f - 1].len() > 0);
                assert(spec_line_shaped(l1[f]));
                if spec_is_blank(l1[f]) {
                    crate::parse::lemma_blank_unshaped(l1[f]);
                    assert(false);
                }
                assert(l1[f].len() > 0);
                if i == f {
                    assert(l2[i + 1] == l1[f]);
                } else {
                    assert(l2[i] == l1[f - 1]);
                }
            } else {
                let a: int = if need_footer && i > fs->Some_0 {
                    i - 1
                } else {
                    i
                };
                assert(l2[i] == l1[a] && l2[i + 1] == l1[a + 1]);
                if need_body && (a == 1 || a == 0) {
                    if a == 1 {
                        assert(l1[2] == ls[1]);
                        assert(!spec_is_blank(ls[1]));
                        assert(ls[1].len() > 0);
                    } else {
                        assert(l1[0] == ls[0]);
                        assert(ls[0].len() > 0);
                    }
                } else {
                    let b: int = if need_body && a > 1 {
                        a - 1
                    } else {
                        a
                    };
                    assert(l1[a] == ls[b] && l1[a + 1] == ls[b + 1]);
                    if b == 0 {
                        assert(ls[0].len() > 0);
                    } else {
                        assert(!(ls[b].len() == 0 && ls[b + 1].len() == 0));
                    }
                }
            }
        }
        lemma_join_edge_chars(l2);
        lemma_join_no_char(l2, '\r');
        lemma_join_line_end_ws(l2);
        lemma_join_no_triple(l2);
        assert(spec_no_cr(out));
        assert(spec_no_line_end_ws(out));
        assert(spec_nl_trimmed_form(out));
        assert(spec_no_triple_nl(out));
        // the second application sees the same lines again
        lemma_split_join(l2);
        assert(spec_split_nl(out) == l2);
        assert(spec_has_content_after_first(l2)) by {
            let w = choose|i: int| 1 <= i < ls.len() && !spec_is_blank(#[trigger] ls[i]);
            let w1: int = if need_body && w >= 1 {
                w + 1
            } else {
                w
            };
            assert(1 <= w1 < l1.len() && !spec_is_blank(l1[w1]));
            let w2: int = if need_footer && w1 >= fs->Some_0 {
                w1 + 1
            } else {
                w1
            };
            assert(1 <= w2 < l2.len() && !spec_is_blank(l2[w2]));
        }
        // no body separator is missing the second time round
        assert(!(1 < l2.len() && !spec_is_blank(l2[1]))) by {
            if need_body {
                if need_footer && fs->Some_0 <= 1 {
                    assert(l2[1] =~= Seq::<char>::empty());
                } else {
                    assert(l2[1] == l1[1]);
                    assert(l1[1] =~= Seq::<char>::empty());
                }
            } else {
                if need_footer && fs->Some_0 <= 1 {
                    assert(l2[1] =~= Seq::<char>::empty());
                } else {
                    if 1 < l2.len() {
                        assert(l2[1] == l1[1]);
                        assert(l1[1] == ls[1]);
                        assert(spec_is_blank(ls[1]));
                    }
                }
            }
        }
        // no footer separator is missing the second time round
        crate::parse::lemma_detect_characterization(l2);
        let fs2 = crate::parse::spec_detect_footer_start(l2);
        assert(!(match fs2 {
            Some(i) => i > 0 && 0 <= i - 1 < l2.len() && !spec_is_blank(l2[i - 1]),
            None => false,
        })) by {
            if need_footer {
                let f = fs->Some_0;
                assert(spec_line_shaped(l1[f]));
                assert(forall|j: int| f < j < l1.len() ==> !spec_line_shaped(#[trigger] l1[j]));
                assert(l2[f + 1] == l1[f]);
                assert(spec_line_shaped(l2[f + 1]));
                assert(!spec_line_shaped(l2[f])) by {
                    crate::parse::lemma_blank_unshaped(l2[f]);
                }
                assert(forall|j: int|
                    f + 1 < j < l2.len() ==> !spec_line_shaped(#[trigger] l2[j]));
                match fs2 {
                    None => {
                        assert(!spec_line_shaped(l2[f + 1]));
                        assert(false);
                    },
                    Some(i2) => {
                        if i2 < f + 1 {
                            assert(!spec_line_shaped(l2[f + 1]));
                            assert(false);
                        }
                        if i2 > f + 1 {
                            assert(!spec_line_shaped(l2[i2]));
                            assert(false);
                        }
                        assert(i2 == f + 1);
                        assert(spec_is_blank(l2[i2 - 1]));
                    },
                }
            } else {
                assert(l2 == l1);
            }
        }
        assert(spec_insert_separators(out).0 == spec_join_nl(l2));
        assert(spec_insert_separators(out).1 =~~= Seq::<Seq<char>>::empty());
    }
}

/// Inserting one empty line: how the indexes shift.
proof fn proof_insert_facts(base: Seq<Seq<char>>, p: int, inserted: Seq<Seq<char>>, did: bool)
    requires
        0 <= p <= base.len(),
        inserted == if did {
            base.insert(p, Seq::<char>::empty())
        } else {
            base
        },
    ensures
        did ==> inserted.len() == base.len() + 1,
        did ==> forall|i: int| 0 <= i < p ==> #[trigger] inserted[i] == base[i],
        did ==> inserted[p] == Seq::<char>::empty(),
        did ==> forall|i: int| p < i < inserted.len() ==> #[trigger] inserted[i] == base[i - 1],
{
    if did {
        assert(inserted =~~= base.take(p) + seq![Seq::<char>::empty()] + base.skip(p));
    }
}


} // verus!
