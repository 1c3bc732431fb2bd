//! The structural parser: finding the footer block of a message and reading
//! its `token: value` entries.

use vstd::prelude::*;

use crate::chars::{
    copy_range, eq_ci, is_blank, is_space, spec_drop_leading_space, spec_drop_trailing_cr,
    spec_eq_ci, spec_find_pair, spec_is_ascii_alnum, spec_is_blank, spec_is_space, spec_trim,
    find_pair, is_ascii_alnum, lemma_lines_deep_index, trim, trim_end_cr, trim_start,
};

verus! {

/// One footer entry: a token and its (possibly multi-line) value.
pub struct FooterEntry {
    pub token: Vec<char>,
    pub value: Vec<char>,
}

impl View for FooterEntry {
    type V = (Seq<char>, Seq<char>);

    open spec fn view(&self) -> (Seq<char>, Seq<char>) {
        (self.token@, self.value@)
    }
}

impl DeepView for FooterEntry {
    type V = (Seq<char>, Seq<char>);

    open spec fn deep_view(&self) -> (Seq<char>, Seq<char>) {
        (self.token@, self.value@)
    }
}

/// The token spelling `BREAKING CHANGE`.
pub open spec fn spec_breaking_change() -> Seq<char> {
    seq!['B', 'R', 'E', 'A', 'K', 'I', 'N', 'G', ' ', 'C', 'H', 'A', 'N', 'G', 'E']
}

/// Whether a token, with hyphens read as spaces, is `BREAKING CHANGE` up to
/// ASCII case.
pub open spec fn spec_is_breaking_token(token: Seq<char>) -> bool {
    spec_eq_ci(
        token.map_values(|c: char| if c == '-' { ' ' } else { c }),
        spec_breaking_change(),
    )
}

pub fn is_breaking_token(token: &Vec<char>) -> (r: bool)
    ensures
        r == spec_is_breaking_token(token@),
{
    let mut norm: Vec<char> = Vec::new();
    let mut i: usize = 0;
    while i < token.len()
        invariant
            0 <= i <= token@.len(),
            norm@.len() == i,
            forall|j: int|
                0 <= j < i ==> norm@[j] == (if token@[j] == '-' {
                    ' '
                } else {
                    token@[j]
                }),
        decreases token@.len() - i,
    {
        let c = token[i];
        if c == '-' {
            norm.push(' ');
        } else {
            norm.push(c);
        }
        i += 1;
    }
    let target: Vec<char> = vec![
        'B', 'R', 'E', 'A', 'K', 'I', 'N', 'G', ' ', 'C', 'H', 'A', 'N', 'G', 'E',
    ];
    proof {
        assert(norm@ =~= token@.map_values(|c: char| if c == '-' { ' ' } else { c }));
        assert(target@ =~= spec_breaking_change());
    }
    eq_ci(&norm, &target)
}

/// Whether every character of the token is an ASCII letter, digit or hyphen.
pub open spec fn spec_token_shape(token: Seq<char>) -> bool {
    &&& forall|i: int| 0 <= i < token.len() ==> spec_is_ascii_alnum(token[i]) || token[i] == '-'
    &&& !exists|i: int| 0 <= i < token.len() && spec_is_space(token[i])
}

fn token_shape(token: &Vec<char>) -> (r: bool)
    ensures
        r == spec_token_shape(token@),
{
    let mut i: usize = 0;
    while i < token.len()
        invariant
            0 <= i <= token@.len(),
            forall|j: int| 0 <= j < i ==> spec_is_ascii_alnum(token@[j]) || token@[j] == '-',
            forall|j: int| 0 <= j < i ==> !spec_is_space(token@[j]),
        decreases token@.len() - i,
    {
        let c = token[i];
        if !(is_ascii_alnum(c) || c == '-') || is_space(c) {
            return false;
        }
        i += 1;
    }
    true
}

/// How one line is read as a footer entry, if it has the `TOKEN: VALUE` or
/// `TOKEN #VALUE` shape with an acceptable token.
pub open spec fn spec_parse_footer_line(line: Seq<char>) -> Option<(Seq<char>, Seq<char>)> {
    let l = spec_drop_leading_space(line);
    if spec_is_blank(l) {
        None
    } else {
        let sep = if spec_find_pair(l, ':', ' ') is Some {
            spec_find_pair(l, ':', ' ')
        } else {
            spec_find_pair(l, ' ', '#')
        };
        match sep {
            None => None,
            Some(idx) => {
                if idx == 0 {
                    None
                } else {
                    let token = spec_trim(l.take(idx));
                    if token.len() == 0 {
                        None
                    } else if spec_is_breaking_token(token) {
                        Some((token, l.skip(idx + 2)))
                    } else if spec_token_shape(token) {
                        Some((token, l.skip(idx + 2)))
                    } else {
                        None
                    }
                }
            },
        }
    }
}

pub open spec fn spec_is_footer_line(line: Seq<char>) -> bool {
    spec_parse_footer_line(line) is Some
}

pub fn parse_footer_line(line: &Vec<char>) -> (r: Option<FooterEntry>)
    ensures
        r is Some <==> spec_parse_footer_line(line@) is Some,
        r matches Some(e) ==> spec_parse_footer_line(line@) == Some((e.token@, e.value@)),
{
    let l = trim_start(line);
    if is_blank(&l) {
        return None;
    }
    let sep = match find_pair(&l, ':', ' ') {
        Some(i) => Some(i),
        None => find_pair(&l, ' ', '#'),
    };
    match sep {
        None => None,
        Some(idx) => {
            if idx == 0 {
                return None;
            }
            proof {
                crate::chars::lemma_find_pair_props(l@, ':', ' ');
                crate::chars::lemma_find_pair_props(l@, ' ', '#');
                if spec_find_pair(l@, ':', ' ') is Some {
                    assert(spec_find_pair(l@, ':', ' ') == Some(idx as int));
                } else {
                    assert(spec_find_pair(l@, ' ', '#') == Some(idx as int));
                }
                assert(idx as int + 1 < l@.len());
            }
            let raw = copy_range(&l, 0, idx);
            proof {
                assert(raw@ =~= l@.take(idx as int));
            }
            let token = trim(&raw);
            if token.len() == 0 {
                return None;
            }
            let breaking = is_breaking_token(&token);
            let shaped = token_shape(&token);
            if breaking || shaped {
                let n = l.len();
                assert(idx + 2 <= n);
                let value = copy_range(&l, idx + 2, n);
                proof {
                    assert(value@ =~= l@.skip(idx as int + 2));
                }
                Some(FooterEntry { token, value })
            } else {
                None
            }
        },
    }
}

// ------------------------------------------------------------------
// Footer block detection
// ------------------------------------------------------------------

/// Trailing blank lines removed.
pub open spec fn spec_strip_trailing_blanks(lines: Seq<Seq<char>>) -> Seq<Seq<char>>
    decreases lines.len(),
{
    if lines.len() > 0 && spec_is_blank(lines.last()) {
        spec_strip_trailing_blanks(lines.drop_last())
    } else {
        lines
    }
}

pub proof fn lemma_strip_trailing_blanks_len(lines: Seq<Seq<char>>)
    ensures
        spec_strip_trailing_blanks(lines).len() <= lines.len(),
    decreases lines.len(),
{
    if lines.len() > 0 && spec_is_blank(lines.last()) {
        lemma_strip_trailing_blanks_len(lines.drop_last());
    }
}

/// The last line that reads as a footer entry, scanning backward.
pub open spec fn spec_last_footer_idx(lines: Seq<Seq<char>>) -> Option<int>
    decreases lines.len(),
{
    if lines.len() == 0 {
        None
    } else if spec_is_footer_line(spec_drop_trailing_cr(lines.last())) {
        Some(lines.len() - 1)
    } else {
        spec_last_footer_idx(lines.drop_last())
    }
}

/// Where the footer block starts: the last footer-shaped line once trailing
/// blank lines are ignored.  Lines after it are that entry's continuations.
pub open spec fn spec_detect_footer_start(lines: Seq<Seq<char>>) -> Option<int> {
    spec_last_footer_idx(spec_strip_trailing_blanks(lines))
}

pub proof fn lemma_last_footer_idx_bounds(lines: Seq<Seq<char>>)
    ensures
        match spec_last_footer_idx(lines) {
            None => true,
            Some(i) => 0 <= i < lines.len(),
        },
    decreases lines.len(),
{
    if lines.len() > 0 && !spec_is_footer_line(spec_drop_trailing_cr(lines.last())) {
        lemma_last_footer_idx_bounds(lines.drop_last());
    }
}

pub fn detect_footer_start(lines: &Vec<Vec<char>>) -> (r: Option<usize>)
    ensures
        r is Some <==> spec_detect_footer_start(lines.deep_view()) is Some,
        r matches Some(k) ==> spec_detect_footer_start(lines.deep_view()) == Some(k as int),
{
    let ghost dv = lines.deep_view();
    let mut end = lines.len();
    proof {
        assert(dv.take(dv.len() as int) =~~= dv);
    }
    while end > 0 && is_blank(&lines[end - 1])
        invariant
            0 <= end <= lines@.len(),
            lines.deep_view() == dv,
            dv.len() == lines@.len(),
            spec_strip_trailing_blanks(dv) == spec_strip_trailing_blanks(dv.take(end as int)),
        decreases end,
    {
        proof {
            lemma_lines_deep_index(*lines, end as int - 1);
            assert(dv.take(end as int).last() == dv[end - 1]);
            assert(dv.take(end as int).drop_last() =~~= dv.take(end as int - 1));
        }
        end -= 1;
    }
    proof {
        if end > 0 {
            lemma_lines_deep_index(*lines, end as int - 1);
            assert(dv.take(end as int).last() == dv[end - 1]);
            assert(!spec_is_blank(dv.take(end as int).last()));
            assert(spec_strip_trailing_blanks(dv.take(end as int)) == dv.take(end as int));
        } else {
            assert(dv.take(0) =~~= Seq::<Seq<char>>::empty());
            assert(spec_strip_trailing_blanks(dv) =~~= Seq::<Seq<char>>::empty());
        }
    }
    let mut j = end;
    while j > 0
        invariant
            0 <= j <= end <= lines@.len(),
            lines.deep_view() == dv,
            dv.len() == lines@.len(),
            end > 0 ==> spec_strip_trailing_blanks(dv) == dv.take(end as int),
            spec_last_footer_idx(dv.take(end as int)) == spec_last_footer_idx(
                dv.take(j as int),
            ),
        decreases j,
    {
        let stripped = trim_end_cr(&lines[j - 1]);
        proof {
            lemma_lines_deep_index(*lines, j as int - 1);
            assert(stripped@ == spec_drop_trailing_cr(dv[j - 1]));
            assert(dv.take(j as int).last() == dv[j - 1]);
            assert(dv.take(j as int).drop_last() =~~= dv.take(j as int - 1));
        }
        if parse_footer_line(&stripped).is_some() {
            proof {
                assert(spec_is_footer_line(spec_drop_trailing_cr(dv.take(j as int).last())));
                assert(spec_last_footer_idx(dv.take(j as int)) == Some(j as int - 1));
                assert(spec_detect_footer_start(dv) == Some(j as int - 1));
            }
            return Some(j - 1);
        }
        j -= 1;
    }
    proof {
        assert(dv.take(0) =~~= Seq::<Seq<char>>::empty());
    }
    None
}

// ------------------------------------------------------------------
// Body and footer sections
// ------------------------------------------------------------------

/// The body lines, the footer lines, and where the footer starts, of the
/// lines that follow the header.  Trailing blank lines belong to neither.
pub open spec fn spec_split_body_footer(rest: Seq<Seq<char>>) -> (
    Seq<Seq<char>>,
    Seq<Seq<char>>,
    Option<int>,
) {
    let stripped = spec_strip_trailing_blanks(rest);
    match spec_last_footer_idx(stripped) {
        Some(i) => (stripped.take(i), stripped.skip(i), Some(i)),
        None => (stripped, Seq::<Seq<char>>::empty(), None),
    }
}

/// Copies the lines of `v` from `a` (inclusive) to `b` (exclusive).
pub fn copy_lines(v: &Vec<Vec<char>>, a: usize, b: usize) -> (r: Vec<Vec<char>>)
    requires
        a <= b <= v@.len(),
    ensures
        r.deep_view() == v.deep_view().subrange(a as int, b as int),
{
    let mut r: Vec<Vec<char>> = Vec::new();
    let mut i: usize = a;
    while i < b
        invariant
            a <= i <= b <= v@.len(),
            v.deep_view().len() == v@.len(),
            r.deep_view() == v.deep_view().subrange(a as int, i as int),
        decreases b - i,
    {
        let seg = &v[i];
        let line = copy_range(seg, 0, seg.len());
        let ghost old_dv = r.deep_view();
        r.push(line);
        i += 1;
        proof {
            assert(line@ =~= v.deep_view()[i - 1]);
            assert(r.deep_view() =~~= old_dv.push(line@));
            assert(r.deep_view() =~~= v.deep_view().subrange(a as int, i as int));
        }
    }
    r
}

pub fn split_body_and_footer(rest: &Vec<Vec<char>>) -> (r: (
    Vec<Vec<char>>,
    Vec<Vec<char>>,
    Option<usize>,
))
    ensures
        r.0.deep_view() == spec_split_body_footer(rest.deep_view()).0,
        r.1.deep_view() == spec_split_body_footer(rest.deep_view()).1,
        r.2 is Some <==> spec_split_body_footer(rest.deep_view()).2 is Some,
        r.2 matches Some(k) ==> spec_split_body_footer(rest.deep_view()).2 == Some(k as int),
{
    let ghost dv = rest.deep_view();
    let mut end = rest.len();
    proof {
        assert(dv.take(dv.len() as int) =~~= dv);
    }
    while end > 0 && is_blank(&rest[end - 1])
        invariant
            0 <= end <= rest@.len(),
            rest.deep_view() == dv,
            dv.len() == rest@.len(),
            spec_strip_trailing_blanks(dv) == spec_strip_trailing_blanks(dv.take(end as int)),
        decreases end,
    {
        proof {
            lemma_lines_deep_index(*rest, end as int - 1);
            assert(dv.take(end as int).last() == dv[end - 1]);
            assert(dv.take(end as int).drop_last() =~~= dv.take(end as int - 1));
        }
        end -= 1;
    }
    proof {
        if end > 0 {
            lemma_lines_deep_index(*rest, end as int - 1);
            assert(dv.take(end as int).last() == dv[end - 1]);
            assert(!spec_is_blank(dv.take(end as int).last()));
            assert(spec_strip_trailing_blanks(dv.take(end as int)) == dv.take(end as int));
        } else {
            assert(dv.take(0) =~~= Seq::<Seq<char>>::empty());
        }
    }
    let stripped = copy_lines(rest, 0, end);
    proof {
        assert(stripped.deep_view() =~~= spec_strip_trailing_blanks(dv));
    }
    let fs = detect_footer_start(&stripped);
    proof {
        assert(spec_strip_trailing_blanks(stripped.deep_view()) == stripped.deep_view());
        lemma_last_footer_idx_bounds(stripped.deep_view());
    }
    match fs {
        Some(i) => {
            let body = copy_lines(&stripped, 0, i);
            let footer = copy_lines(&stripped, i, stripped.len());
            proof {
                assert(body.deep_view() =~~= stripped.deep_view().take(i as int));
                assert(footer.deep_view() =~~= stripped.deep_view().skip(i as int));
            }
            (body, footer, Some(i))
        },
        None => (stripped, Vec::new(), None),
    }
}

// ------------------------------------------------------------------
// Footer entries
// ------------------------------------------------------------------

/// How the entries accumulate over the footer block's lines.  `None` means a
/// continuation line arrived before any entry, which invalidates the block.
pub open spec fn spec_footer_entries_step(
    lines: Seq<Seq<char>>,
    i: int,
    acc: Seq<(Seq<char>, Seq<char>)>,
    cur: Option<(Seq<char>, Seq<char>)>,
) -> Option<Seq<(Seq<char>, Seq<char>)>>
    decreases lines.len() - i,
{
    if i < 0 || i >= lines.len() {
        Some(
            match cur {
                Some(e) => acc.push(e),
                None => acc,
            },
        )
    } else {
        let line = spec_drop_trailing_cr(lines[i]);
        if spec_is_blank(line) {
            let cur2 = match cur {
                Some((t, v)) => if v.len() > 0 {
                    Some((t, v.push('\n')))
                } else {
                    Some((t, v))
                },
                None => None,
            };
            spec_footer_entries_step(lines, i + 1, acc, cur2)
        } else {
            match spec_parse_footer_line(line) {
                Some(e) => {
                    let acc2 = match cur {
                        Some(p) => acc.push(p),
                        None => acc,
                    };
                    spec_footer_entries_step(lines, i + 1, acc2, Some(e))
                },
                None => match cur {
                    Some((t, v)) => {
                        let v2 = if v.len() > 0 {
                            v + seq!['\n'] + line
                        } else {
                            line
                        };
                        spec_footer_entries_step(lines, i + 1, acc, Some((t, v2)))
                    },
                    None => None,
                },
            }
        }
    }
}

/// The entries of a footer block, or nothing when the block is invalid.
pub open spec fn spec_parse_footer_entries(lines: Seq<Seq<char>>) -> Seq<(Seq<char>, Seq<char>)> {
    match spec_footer_entries_step(lines, 0, Seq::empty(), None) {
        Some(fs) => fs,
        None => Seq::empty(),
    }
}

pub fn parse_footer_entries(lines: &Vec<Vec<char>>) -> (r: Vec<FooterEntry>)
    ensures
        r.deep_view() == spec_parse_footer_entries(lines.deep_view()),
{
    let ghost dv = lines.deep_view();
    let mut acc: Vec<FooterEntry> = Vec::new();
    let mut cur: Option<FooterEntry> = None;
    let mut i: usize = 0;
    proof {
        assert(acc.deep_view() =~~= Seq::<(Seq<char>, Seq<char>)>::empty());
    }
    while i < lines.len()
        invariant
            0 <= i <= lines@.len(),
            lines.deep_view() == dv,
            dv.len() == lines@.len(),
            spec_footer_entries_step(dv, i as int, acc.deep_view(), cur.deep_view())
                == spec_footer_entries_step(dv, 0, Seq::empty(), None),
        decreases lines@.len() - i,
    {
        let line = trim_end_cr(&lines[i]);
        proof {
            lemma_lines_deep_index(*lines, i as int);
            assert(line@ == spec_drop_trailing_cr(dv[i as int]));
        }
        let ghost acc0 = acc.deep_view();
        let ghost cur0: Option<(Seq<char>, Seq<char>)> = cur.deep_view();
        let taken = cur;
        let ghost step0 = spec_footer_entries_step(dv, i as int, acc0, cur0);
        if is_blank(&line) {
            if let Some(mut footer) = taken {
                if footer.value.len() > 0 {
                    footer.value.push('\n');
                    proof {
                        assert(footer.deep_view() == (cur0->Some_0.0, cur0->Some_0.1.push('\n')));
                    }
                } else {
                }
                cur = Some(footer);
            } else {
                cur = None;
            }
            proof {
                assert(spec_footer_entries_step(dv, i as int + 1, acc.deep_view(), cur.deep_view())
                    == step0);
            }
        } else {
            match parse_footer_line(&line) {
                Some(entry) => {
                    match taken {
                        Some(existing) => {
                            acc.push(existing);
                            proof {
                                assert(acc.deep_view() =~~= acc0.push(cur0->Some_0));
                            }
                        },
                        None => {},
                    }
                    cur = Some(entry);
                    proof {
                        assert(spec_footer_entries_step(
                            dv,
                            i as int + 1,
                            acc.deep_view(),
                            cur.deep_view(),
                        ) == step0);
                    }
                },
                None => {
                    match taken {
                        Some(mut footer) => {
                            if footer.value.len() > 0 {
                                footer.value.push('\n');
                            }
                            let mut k: usize = 0;
                            let ghost base = footer.value@;
                            while k < line.len()
                                invariant
                                    0 <= k <= line@.len(),
                                    footer.token@ == cur0->Some_0.0,
                                    footer.value@ == base + line@.take(k as int),
                                decreases line@.len() - k,
                            {
                                footer.value.push(line[k]);
                                k += 1;
                                proof {
                                    assert(base + line@.take(k as int) =~= (base + line@.take(
                                        k as int - 1,
                                    )).push(line@[k as int - 1]));
                                }
                            }
                            proof {
                                assert(line@.take(line@.len() as int) =~= line@);
                                if cur0->Some_0.1.len() > 0 {
                                    assert(footer.value@ =~= cur0->Some_0.1 + seq!['\n']
                                        + line@);
                                } else {
                                    assert(footer.value@ =~= line@);
                                }
                            }
                            cur = Some(footer);
                            proof {
                                assert(acc.deep_view() == acc0);
                                let ghost t0 = cur0->Some_0.0;
                                let ghost v0 = cur0->Some_0.1;
                                let ghost v2 = if v0.len() > 0 {
                                    v0 + seq!['\n'] + line@
                                } else {
                                    line@
                                };
                                assert(cur.deep_view() == Some((t0, v2)));
                                assert(spec_footer_entries_step(
                                    dv,
                                    i as int + 1,
                                    acc.deep_view(),
                                    cur.deep_view(),
                                ) == step0);
                            }
                        },
                        None => {
                            proof {
                                assert(spec_footer_entries_step(
                                    dv,
                                    i as int,
                                    acc0,
                                    cur0,
                                ) is None);
                            }
                            return Vec::new();
                        },
                    }
                },
            }
        }
        i += 1;
    }
    match cur {
        Some(existing) => {
            let ghost ad = acc.deep_view();
            let ghost ev = (existing.token@, existing.value@);
            acc.push(existing);
            proof {
                assert(acc.deep_view() =~~= ad.push(ev));
            }
        },
        None => {},
    }
    acc
}


/// Stripping trailing blanks from all-blank lines leaves nothing.
proof fn lemma_strip_all_blank(lines: Seq<Seq<char>>)
    requires
        forall|i: int| 0 <= i < lines.len() ==> spec_is_blank(#[trigger] lines[i]),
    ensures
        spec_strip_trailing_blanks(lines).len() == 0,
    decreases lines.len(),
{
    if lines.len() > 0 {
        assert(spec_is_blank(lines.last()));
        lemma_strip_all_blank(lines.drop_last());
    }
}

/// Round trip of a bare header: when every line after the header is blank,
/// the message parses to an empty body and an empty footer list.
pub proof fn lemma_header_only_round_trip(rest: Seq<Seq<char>>)
    requires
        forall|i: int| 0 <= i < rest.len() ==> spec_is_blank(#[trigger] rest[i]),
    ensures
        spec_split_body_footer(rest).0 == Seq::<Seq<char>>::empty(),
        spec_split_body_footer(rest).1 == Seq::<Seq<char>>::empty(),
        spec_parse_footer_entries(spec_split_body_footer(rest).1) == Seq::<(
            Seq<char>,
            Seq<char>,
        )>::empty(),
{
    lemma_strip_all_blank(rest);
    let stripped = spec_strip_trailing_blanks(rest);
    assert(stripped =~~= Seq::<Seq<char>>::empty());
    assert(spec_last_footer_idx(stripped) is None);
    assert(spec_footer_entries_step(Seq::<Seq<char>>::empty(), 0, Seq::empty(), None)
        == Some(Seq::<(Seq<char>, Seq<char>)>::empty()));
}


/// A blank line never reads as a footer entry.
pub proof fn lemma_blank_unshaped(line: Seq<char>)
    requires
        spec_is_blank(line),
    ensures
        !spec_is_footer_line(spec_drop_trailing_cr(line)),
{
    crate::chars::lemma_blank_drop_trailing_cr(line);
    let t = spec_drop_trailing_cr(line);
    crate::chars::lemma_blank_drop_leading_space(t);
    let l = crate::chars::spec_drop_leading_space(t);
    assert(l.len() == 0);
    assert(spec_is_blank(l));
}

/// The stripped lines are a prefix; everything beyond it is blank.
pub proof fn lemma_strip_prefix(lines: Seq<Seq<char>>)
    ensures
        spec_strip_trailing_blanks(lines).len() <= lines.len(),
        spec_strip_trailing_blanks(lines) == lines.take(
            spec_strip_trailing_blanks(lines).len() as int,
        ),
        forall|j: int|
            spec_strip_trailing_blanks(lines).len() <= j < lines.len() ==> spec_is_blank(
                #[trigger] lines[j],
            ),
    decreases lines.len(),
{
    if lines.len() > 0 && spec_is_blank(lines.last()) {
        lemma_strip_prefix(lines.drop_last());
        assert(lines.drop_last().take(spec_strip_trailing_blanks(lines).len() as int)
            =~~= lines.take(spec_strip_trailing_blanks(lines).len() as int));
        assert forall|j: int|
            spec_strip_trailing_blanks(lines).len() <= j < lines.len() implies spec_is_blank(
            #[trigger] lines[j],
        ) by {
            if j < lines.len() - 1 {
                assert(lines.drop_last()[j] == lines[j]);
            }
        }
    } else {
        assert(lines.take(lines.len() as int) =~~= lines);
    }
}

/// Where the footer starts, over all the lines: the last line that reads as
/// a footer entry, if any.
pub proof fn lemma_detect_characterization(lines: Seq<Seq<char>>)
    ensures
        match spec_detect_footer_start(lines) {
            None => forall|j: int|
                0 <= j < lines.len() ==> !spec_is_footer_line(
                    spec_drop_trailing_cr(#[trigger] lines[j]),
                ),
            Some(i) => 0 <= i < lines.len() && spec_is_footer_line(
                spec_drop_trailing_cr(lines[i]),
            ) && forall|j: int|
                i < j < lines.len() ==> !spec_is_footer_line(
                    spec_drop_trailing_cr(#[trigger] lines[j]),
                ),
        },
{
    lemma_strip_prefix(lines);
    let p = spec_strip_trailing_blanks(lines);
    lemma_last_footer_char(p);
    assert(forall|j: int| 0 <= j < p.len() ==> #[trigger] p[j] == lines[j]);
    match spec_last_footer_idx(p) {
        None => {
            assert forall|j: int|
                0 <= j < lines.len() implies !spec_is_footer_line(
                spec_drop_trailing_cr(#[trigger] lines[j]),
            ) by {
                if j < p.len() {
                    assert(p[j] == lines[j]);
                } else {
                    lemma_blank_unshaped(lines[j]);
                }
            }
        },
        Some(i) => {
            assert(p[i] == lines[i]);
            assert forall|j: int|
                i < j < lines.len() implies !spec_is_footer_line(
                spec_drop_trailing_cr(#[trigger] lines[j]),
            ) by {
                if j < p.len() {
                    assert(p[j] == lines[j]);
                } else {
                    lemma_blank_unshaped(lines[j]);
                }
            }
        },
    }
}

/// The last footer-shaped line, characterized over the whole list.
proof fn lemma_last_footer_char(lines: Seq<Seq<char>>)
    ensures
        match spec_last_footer_idx(lines) {
            None => forall|j: int|
                0 <= j < lines.len() ==> !spec_is_footer_line(
                    spec_drop_trailing_cr(#[trigger] lines[j]),
                ),
            Some(i) => 0 <= i < lines.len() && spec_is_footer_line(
                spec_drop_trailing_cr(lines[i]),
            ) && forall|j: int|
                i < j < lines.len() ==> !spec_is_footer_line(
                    spec_drop_trailing_cr(#[trigger] lines[j]),
                ),
        },
    decreases lines.len(),
{
    if lines.len() > 0 && !spec_is_footer_line(spec_drop_trailing_cr(lines.last())) {
        lemma_last_footer_char(lines.drop_last());
        assert(forall|j: int|
            0 <= j < lines.drop_last().len() ==> #[trigger] lines.drop_last()[j] == lines[j]);
        match spec_last_footer_idx(lines.drop_last()) {
            None => {
                assert forall|j: int|
                    0 <= j < lines.len() implies !spec_is_footer_line(
                    spec_drop_trailing_cr(#[trigger] lines[j]),
                ) by {
                    if j < lines.len() - 1 {
                        assert(lines.drop_last()[j] == lines[j]);
                    }
                }
            },
            Some(i) => {
                assert(lines.drop_last()[i] == lines[i]);
                assert forall|j: int|
                    i < j < lines.len() implies !spec_is_footer_line(
                    spec_drop_trailing_cr(#[trigger] lines[j]),
                ) by {
                    if j < lines.len() - 1 {
                        assert(lines.drop_last()[j] == lines[j]);
                    }
                }
            },
        }
    }
}

} // verus!
