//! The body-shape policies and the conventional validation rules, over the
//! header decomposition the conventional pattern's captures give.

use vstd::prelude::*;

use crate::casing::{is_disallowed_subject_case, spec_is_disallowed_subject_case};
use crate::chars::{
    chars_to_string, copy_range, dec_str_usize, is_blank, lines_of, lemma_lines_deep_index,
    normalize_newlines, spec_dec_str, spec_is_ascii_alnum, spec_is_blank, spec_lines,
    spec_normalize, spec_split_nl, spec_trim, split_nl, str_to_chars, trim,
};
use crate::lint::BodyPolicy;
use crate::parse::{
    copy_lines, parse_footer_entries, spec_is_breaking_token, is_breaking_token,
    spec_parse_footer_entries, spec_split_body_footer, split_body_and_footer, FooterEntry,
};

verus! {

// ------------------------------------------------------------------
// Small shared helpers
// ------------------------------------------------------------------

/// Pushes one fixed message onto a list of findings.
pub fn push_lit(out: &mut Vec<String>, s: &str)
    ensures
        final(out).deep_view() == old(out).deep_view().push(s@),
{
    out.push(s.to_owned());
    proof {
        assert(out.deep_view() =~~= old(out).deep_view().push(s@));
    }
}

/// The first line of the message, or nothing when the message is empty.
pub open spec fn spec_header_line(msg: Seq<char>) -> Seq<char> {
    let ls = spec_lines(msg);
    if ls.len() > 0 {
        ls[0]
    } else {
        Seq::<char>::empty()
    }
}

pub fn header_line_of(msg: &Vec<char>) -> (r: Vec<char>)
    ensures
        r@ == spec_header_line(msg@),
{
    let lines = lines_of(msg);
    if lines.len() > 0 {
        proof {
            lemma_lines_deep_index(lines, 0);
        }
        let first = &lines[0];
        copy_range(first, 0, first.len())
    } else {
        Vec::new()
    }
}

/// Index of the first non-blank line, if any.
pub open spec fn spec_first_nonblank(ls: Seq<Seq<char>>) -> Option<int>
    decreases ls.len(),
{
    if ls.len() == 0 {
        None
    } else if !spec_is_blank(ls[0]) {
        Some(0int)
    } else {
        match spec_first_nonblank(ls.drop_first()) {
            None => None,
            Some(i) => Some(i + 1),
        }
    }
}

pub proof fn lemma_first_nonblank_props(ls: Seq<Seq<char>>)
    ensures
        match spec_first_nonblank(ls) {
            None => forall|j: int| 0 <= j < ls.len() ==> spec_is_blank(#[trigger] ls[j]),
            Some(i) => 0 <= i < ls.len() && !spec_is_blank(ls[i]) && forall|j: int|
                0 <= j < i ==> spec_is_blank(#[trigger] ls[j]),
        },
    decreases ls.len(),
{
    if ls.len() > 0 && spec_is_blank(ls[0]) {
        lemma_first_nonblank_props(ls.drop_first());
        let t = ls.drop_first();
        match spec_first_nonblank(t) {
            None => {
                assert forall|j: int| 0 <= j < ls.len() implies spec_is_blank(
                    #[trigger] ls[j],
                ) by {
                    if j >= 1 {
                        assert(t[j - 1] == ls[j]);
                    }
                }
            },
            Some(i) => {
                assert(t[i] == ls[i + 1]);
                assert forall|j: int| 0 <= j < i + 1 implies spec_is_blank(#[trigger] ls[j]) by {
                    if j >= 1 {
                        assert(t[j - 1] == ls[j]);
                    }
                }
            },
        }
    }
}

/// Whether some line strictly after the first is not blank.
pub open spec fn spec_has_content_after_first(ls: Seq<Seq<char>>) -> bool {
    exists|i: int| 1 <= i < ls.len() && !spec_is_blank(#[trigger] ls[i])
}

pub(crate) fn has_content_after_first(lines: &Vec<Vec<char>>) -> (r: bool)
    ensures
        r == spec_has_content_after_first(lines.deep_view()),
{
    let mut i: usize = 1;
    while i < lines.len()
        invariant
            1 <= i <= lines@.len() || (i == 1 && lines@.len() == 0),
            lines.deep_view().len() == lines@.len(),
            forall|j: int| 1 <= j < i ==> spec_is_blank(#[trigger] lines.deep_view()[j]),
        decreases lines@.len() - i,
    {
        proof {
            lemma_lines_deep_index(*lines, i as int);
        }
        if !is_blank(&lines[i]) {
            return true;
        }
        i += 1;
    }
    false
}

/// The first non-blank line strictly after the first line, if any.
fn first_nonblank_after_first(lines: &Vec<Vec<char>>) -> (r: Option<usize>)
    ensures
        r is None ==> forall|j: int|
            1 <= j < lines.deep_view().len() ==> spec_is_blank(#[trigger] lines.deep_view()[j]),
        r matches Some(k) ==> 1 <= k < lines.deep_view().len() && !spec_is_blank(
            lines.deep_view()[k as int],
        ) && forall|j: int|
            1 <= j < k ==> spec_is_blank(#[trigger] lines.deep_view()[j]),
{
    let mut i: usize = 1;
    while i < lines.len()
        invariant
            1 <= i,
            i <= lines@.len() || i == 1,
            lines.deep_view().len() == lines@.len(),
            forall|j: int| 1 <= j < i ==> spec_is_blank(#[trigger] lines.deep_view()[j]),
        decreases lines@.len() - i,
    {
        proof {
            lemma_lines_deep_index(*lines, i as int);
        }
        if !is_blank(&lines[i]) {
            return Some(i);
        }
        i += 1;
    }
    None
}

// ------------------------------------------------------------------
// The body-shape policies
// ------------------------------------------------------------------

/// What each policy demands of the lines after the header.
pub open spec fn spec_validate_body_policy(msg: Seq<char>, policy: BodyPolicy) -> Seq<Seq<char>> {
    match policy {
        BodyPolicy::Any => Seq::<Seq<char>>::empty(),
        BodyPolicy::SingleLine => {
            if spec_has_content_after_first(spec_lines(msg)) {
                seq!["Commit message must be a single line"@]
            } else {
                Seq::<Seq<char>>::empty()
            }
        },
        BodyPolicy::RequireBody => {
            let ls = spec_lines(msg);
            let rest = if ls.len() >= 1 {
                ls.skip(1)
            } else {
                ls
            };
            match spec_first_nonblank(rest) {
                None => seq!["Commit message must include a body after a blank line"@],
                Some(i) => {
                    if i == 0 {
                        seq!["Body must begin with a blank line after the description"@]
                    } else {
                        Seq::<Seq<char>>::empty()
                    }
                },
            }
        },
    }
}

pub fn validate_body_policy(msg: &Vec<char>, policy: BodyPolicy) -> (r: Vec<String>)
    ensures
        r.deep_view() == spec_validate_body_policy(msg@, policy),
{
    let mut out: Vec<String> = Vec::new();
    proof {
        assert(out.deep_view() =~~= Seq::<Seq<char>>::empty());
    }
    match policy {
        BodyPolicy::Any => {},
        BodyPolicy::SingleLine => {
            let lines = lines_of(msg);
            if has_content_after_first(&lines) {
                push_lit(&mut out, "Commit message must be a single line");
                proof {
                    assert(out.deep_view() =~~= seq!["Commit message must be a single line"@]);
                }
            }
        },
        BodyPolicy::RequireBody => {
            let lines = lines_of(msg);
            let first_nonblank = first_nonblank_after_first(&lines);
            let ghost ls = lines.deep_view();
            let ghost rest = if ls.len() >= 1 {
                ls.skip(1)
            } else {
                ls
            };
            proof {
                lemma_first_nonblank_props(rest);
                if ls.len() >= 1 {
                    assert(forall|t: int|
                        0 <= t < rest.len() ==> #[trigger] rest[t] == ls[t + 1]);
                }
            }
            match first_nonblank {
                None => {
                    proof {
                        match spec_first_nonblank(rest) {
                            Some(k) => {
                                assert(!spec_is_blank(rest[k]));
                                assert(spec_is_blank(ls[k + 1]));
                                assert(false);
                            },
                            None => {},
                        }
                    }
                    push_lit(&mut out, "Commit message must include a body after a blank line");
                    proof {
                        assert(out.deep_view() =~~= seq![
                            "Commit message must include a body after a blank line"@,
                        ]);
                    }
                },
                Some(idx) => {
                    proof {
                        assert(!spec_is_blank(ls[idx as int]));
                        assert(rest[idx as int - 1] == ls[idx as int]);
                        match spec_first_nonblank(rest) {
                            None => {
                                assert(spec_is_blank(rest[idx as int - 1]));
                                assert(false);
                            },
                            Some(k) => {
                                if k < idx - 1 {
                                    assert(!spec_is_blank(rest[k]));
                                    assert(spec_is_blank(ls[k + 1]));
                                    assert(false);
                                }
                                if k > idx - 1 {
                                    assert(spec_is_blank(rest[idx as int - 1]));
                                    assert(false);
                                }
                            },
                        }
                    }
                    if idx == 1 {
                        push_lit(
                            &mut out,
                            "Body must begin with a blank line after the description",
                        );
                        proof {
                            assert(out.deep_view() =~~= seq![
                                "Body must begin with a blank line after the description"@,
                            ]);
                        }
                    }
                },
            }
        },
    }
    out
}

// ------------------------------------------------------------------
// The conventional validation rules
// ------------------------------------------------------------------

/// The type vocabulary of the conventional rules.
pub open spec fn spec_is_allowed_type(ty: Seq<char>) -> bool {
    ty == "build"@ || ty == "chore"@ || ty == "ci"@ || ty == "docs"@ || ty == "feat"@ || ty
        == "fix"@ || ty == "perf"@ || ty == "refactor"@ || ty == "revert"@ || ty == "style"@ || ty
        == "test"@
}

/// Plain equality of a character vector and a string.
fn eq_lit(v: &Vec<char>, s: &str) -> (r: bool)
    ensures
        r == (v@ == s@),
{
    let w = str_to_chars(s);
    crate::chars::seq_eq(v, &w)
}

fn is_allowed_type(v: &Vec<char>) -> (r: bool)
    ensures
        r == spec_is_allowed_type(v@),
{
    eq_lit(v, "build") || eq_lit(v, "chore") || eq_lit(v, "ci") || eq_lit(v, "docs") || eq_lit(
        v,
        "feat",
    ) || eq_lit(v, "fix") || eq_lit(v, "perf") || eq_lit(v, "refactor") || eq_lit(v, "revert")
        || eq_lit(v, "style") || eq_lit(v, "test")
}

/// Whether some non-blank line is longer than 100 characters.
pub open spec fn spec_line_too_long(lines: Seq<Seq<char>>) -> bool {
    exists|i: int|
        0 <= i < lines.len() && !spec_is_blank(#[trigger] lines[i]) && lines[i].len() > 100
}

fn has_long_line(lines: &Vec<Vec<char>>) -> (r: bool)
    ensures
        r == spec_line_too_long(lines.deep_view()),
{
    let mut i: usize = 0;
    while i < lines.len()
        invariant
            0 <= i <= lines@.len(),
            lines.deep_view().len() == lines@.len(),
            forall|j: int|
                0 <= j < i ==> !(!spec_is_blank(#[trigger] lines.deep_view()[j])
                    && lines.deep_view()[j].len() > 100),
        decreases lines@.len() - i,
    {
        proof {
            lemma_lines_deep_index(*lines, i as int);
        }
        if lines[i].len() > 100 && !is_blank(&lines[i]) {
            return true;
        }
        i += 1;
    }
    false
}

/// Whether some line is not blank.
pub open spec fn spec_has_nonblank(lines: Seq<Seq<char>>) -> bool {
    exists|i: int| 0 <= i < lines.len() && !spec_is_blank(#[trigger] lines[i])
}

fn has_nonblank(lines: &Vec<Vec<char>>) -> (r: bool)
    ensures
        r == spec_has_nonblank(lines.deep_view()),
{
    let mut i: usize = 0;
    while i < lines.len()
        invariant
            0 <= i <= lines@.len(),
            lines.deep_view().len() == lines@.len(),
            forall|j: int| 0 <= j < i ==> spec_is_blank(#[trigger] lines.deep_view()[j]),
        decreases lines@.len() - i,
    {
        proof {
            lemma_lines_deep_index(*lines, i as int);
        }
        if !is_blank(&lines[i]) {
            return true;
        }
        i += 1;
    }
    false
}

/// The header-length violation, with the length written out.
pub open spec fn spec_header_length_message(n: int) -> Seq<char> {
    "header must not be longer than 100 characters, current length is "@ + spec_dec_str(n)
}

/// What one footer entry contributes to the violations.
pub open spec fn spec_footer_entry_errors(token: Seq<char>, value: Seq<char>) -> Seq<Seq<char>> {
    let tt = spec_trim(token);
    if tt.len() == 0 {
        seq!["Footer token must not be empty"@]
    } else if spec_is_breaking_token(tt) {
        (if token != "BREAKING CHANGE"@ && token != "BREAKING-CHANGE"@ {
            seq![
                "BREAKING CHANGE footer token must be uppercase (BREAKING CHANGE or BREAKING-CHANGE)"@,
            ]
        } else {
            Seq::<Seq<char>>::empty()
        }) + (if spec_is_blank(value) {
            seq!["BREAKING CHANGE footer must include a description"@]
        } else {
            Seq::<Seq<char>>::empty()
        })
    } else {
        (if exists|i: int| 0 <= i < tt.len() && crate::chars::spec_is_space(#[trigger] tt[i]) {
            seq!["Footer token `"@ + tt + "` must use hyphen in place of whitespace"@]
        } else {
            Seq::<Seq<char>>::empty()
        }) + (if !(forall|i: int|
            0 <= i < tt.len() ==> spec_is_ascii_alnum(#[trigger] tt[i]) || tt[i] == '-') {
            seq!["Footer token `"@ + tt + "` must use alphanumeric characters or hyphen"@]
        } else {
            Seq::<Seq<char>>::empty()
        })
    }
}

/// What all footer entries contribute, in order.
pub open spec fn spec_footer_errors(entries: Seq<(Seq<char>, Seq<char>)>) -> Seq<Seq<char>>
    decreases entries.len(),
{
    if entries.len() == 0 {
        Seq::<Seq<char>>::empty()
    } else {
        spec_footer_entry_errors(entries[0].0, entries[0].1) + spec_footer_errors(
            entries.drop_first(),
        )
    }
}

pub proof fn lemma_footer_errors_push(entries: Seq<(Seq<char>, Seq<char>)>, e: (Seq<char>, Seq<char>))
    ensures
        spec_footer_errors(entries.push(e)) == spec_footer_errors(entries)
            + spec_footer_entry_errors(e.0, e.1),
    decreases entries.len(),
{
    if entries.len() == 0 {
        assert(entries.push(e).drop_first() =~~= entries);
        assert(entries.push(e)[0] == e);
        assert(spec_footer_errors(entries) == Seq::<Seq<char>>::empty());
        assert(spec_footer_errors(entries.push(e)) == spec_footer_entry_errors(e.0, e.1)
            + spec_footer_errors(entries.push(e).drop_first()));
        assert(spec_footer_errors(entries.push(e)) =~~= spec_footer_errors(entries)
            + spec_footer_entry_errors(e.0, e.1));
    } else {
        assert(entries.push(e).drop_first() =~~= entries.drop_first().push(e));
        lemma_footer_errors_push(entries.drop_first(), e);
        assert(entries.push(e)[0] == entries[0]);
        assert(spec_footer_errors(entries.push(e).drop_first()) == spec_footer_errors(
            entries.drop_first(),
        ) + spec_footer_entry_errors(e.0, e.1));
        assert(spec_footer_errors(entries.push(e)) == spec_footer_entry_errors(
            entries[0].0,
            entries[0].1,
        ) + (spec_footer_errors(entries.drop_first()) + spec_footer_entry_errors(e.0, e.1)));
        assert(spec_footer_errors(entries) == spec_footer_entry_errors(entries[0].0, entries[0].1)
            + spec_footer_errors(entries.drop_first()));
        assert(spec_footer_errors(entries.push(e)) =~~= spec_footer_errors(entries)
            + spec_footer_entry_errors(e.0, e.1));
    }
}

/// Whether some character of the token is whitespace.
fn token_has_space(v: &Vec<char>) -> (r: bool)
    ensures
        r == exists|i: int|
            0 <= i < v@.len() && crate::chars::spec_is_space(#[trigger] v@[i]),
{
    let mut i: usize = 0;
    while i < v.len()
        invariant
            0 <= i <= v@.len(),
            forall|j: int| 0 <= j < i ==> !crate::chars::spec_is_space(#[trigger] v@[j]),
        decreases v@.len() - i,
    {
        if crate::chars::is_space(v[i]) {
            return true;
        }
        i += 1;
    }
    false
}

/// Whether every character of the token is an ASCII letter, digit or hyphen.
fn token_all_alnum_hyphen(v: &Vec<char>) -> (r: bool)
    ensures
        r == forall|i: int|
            0 <= i < v@.len() ==> spec_is_ascii_alnum(#[trigger] v@[i]) || v@[i] == '-',
{
    let mut i: usize = 0;
    while i < v.len()
        invariant
            0 <= i <= v@.len(),
            forall|j: int| 0 <= j < i ==> spec_is_ascii_alnum(#[trigger] v@[j]) || v@[j] == '-',
        decreases v@.len() - i,
    {
        if !(crate::chars::is_ascii_alnum(v[i]) || v[i] == '-') {
            return false;
        }
        i += 1;
    }
    true
}

/// Appends one footer entry's violations.
fn push_footer_entry_errors(out: &mut Vec<String>, entry: &FooterEntry)
    ensures
        final(out).deep_view() == old(out).deep_view() + spec_footer_entry_errors(
            entry.token@,
            entry.value@,
        ),
{
    let ghost base = out.deep_view();
    let tt = trim(&entry.token);
    if tt.len() == 0 {
        push_lit(out, "Footer token must not be empty");
        proof {
            assert(out.deep_view() =~~= base + spec_footer_entry_errors(
                entry.token@,
                entry.value@,
            ));
        }
        return ;
    }
    if is_breaking_token(&tt) {
        if !(eq_lit(&entry.token, "BREAKING CHANGE") || eq_lit(&entry.token, "BREAKING-CHANGE")) {
            push_lit(
                out,
                "BREAKING CHANGE footer token must be uppercase (BREAKING CHANGE or BREAKING-CHANGE)",
            );
        }
        if is_blank(&entry.value) {
            push_lit(out, "BREAKING CHANGE footer must include a description");
        }
        proof {
            assert(out.deep_view() =~~= base + spec_footer_entry_errors(
                entry.token@,
                entry.value@,
            ));
        }
        return ;
    }
    if token_has_space(&tt) {
        let ts = chars_to_string(&tt);
        let mut m = "Footer token `".to_owned();
        m.append(ts.as_str());
        m.append("` must use hyphen in place of whitespace");
        out.push(m);
    }
    if !token_all_alnum_hyphen(&tt) {
        let ts = chars_to_string(&tt);
        let mut m = "Footer token `".to_owned();
        m.append(ts.as_str());
        m.append("` must use alphanumeric characters or hyphen");
        out.push(m);
    }
    proof {
        assert(out.deep_view() =~~= base + spec_footer_entry_errors(entry.token@, entry.value@));
    }
}
/// The violations of the conventional rules, given the decomposed pieces.
pub open spec fn spec_conventional_errors(
    header: Seq<char>,
    ty: Seq<char>,
    subject: Seq<char>,
    body: Seq<Seq<char>>,
    footer: Seq<Seq<char>>,
    policy: BodyPolicy,
) -> Seq<Seq<char>> {
    (if header.len() > 100 {
        seq![spec_header_length_message(header.len() as int)]
    } else {
        Seq::<Seq<char>>::empty()
    }) + spec_subject_errors(subject) + spec_type_errors(ty) + (if policy
        == BodyPolicy::RequireBody && !spec_has_nonblank(body) {
        seq!["Commit message must include a body after a blank line"@]
    } else {
        Seq::<Seq<char>>::empty()
    }) + (if spec_line_too_long(body) {
        seq!["body's lines must not be longer than 100 characters"@]
    } else {
        Seq::<Seq<char>>::empty()
    }) + (if spec_line_too_long(footer) {
        seq!["footer's lines must not be longer than 100 characters"@]
    } else {
        Seq::<Seq<char>>::empty()
    }) + spec_footer_errors(spec_parse_footer_entries(footer))
}

/// The warnings of the conventional rules: missing blank separators.
pub open spec fn spec_conventional_warnings(
    rest: Seq<Seq<char>>,
    body: Seq<Seq<char>>,
    footer: Seq<Seq<char>>,
    fstart: Option<int>,
) -> Seq<Seq<char>> {
    (if spec_has_nonblank(body) && rest.len() > 0 && !spec_is_blank(rest[0]) {
        seq!["body must have leading blank line"@]
    } else {
        Seq::<Seq<char>>::empty()
    }) + (if footer.len() > 0 && !(match fstart {
        Some(i) => i > 0 && 0 <= i - 1 < rest.len() && spec_is_blank(rest[i - 1]),
        None => false,
    }) {
        seq!["footer must have leading blank line"@]
    } else {
        Seq::<Seq<char>>::empty()
    })
}

/// The conventional rules: the header decomposed by the conventional
/// pattern's captures, subject and type shape, body and footer separation,
/// line lengths, and footer-token semantics.  Violations come first,
/// warnings second.
pub open spec fn spec_validate_conventional(msg: Seq<char>, policy: BodyPolicy) -> (
    Seq<Seq<char>>,
    Seq<Seq<char>>,
) {
    let n = spec_normalize(msg);
    let lines = spec_split_nl(n);
    let header = lines[0];
    let rest = lines.drop_first();
    let caps = crate::rx::header_captures(header);
    let ty = caps.0;
    let subject = caps.1;
    let sbf = spec_split_body_footer(rest);
    (
        spec_conventional_errors(header, ty, subject, sbf.0, sbf.1, policy),
        spec_conventional_warnings(rest, sbf.0, sbf.1, sbf.2),
    )
}

/// What the subject contributes to the violations.
pub open spec fn spec_subject_errors(subject: Seq<char>) -> Seq<Seq<char>> {
    let st = spec_trim(subject);
    if st.len() == 0 {
        seq!["subject may not be empty"@]
    } else {
        (if st.last() == '.' {
            seq!["subject may not end with full stop"@]
        } else {
            Seq::<Seq<char>>::empty()
        }) + (if spec_is_disallowed_subject_case(st) {
            seq!["subject must not be sentence-case, start-case, pascal-case, upper-case"@]
        } else {
            Seq::<Seq<char>>::empty()
        })
    }
}

/// What the type contributes to the violations.
pub open spec fn spec_type_errors(ty: Seq<char>) -> Seq<Seq<char>> {
    if spec_trim(ty).len() == 0 {
        seq!["type may not be empty"@]
    } else {
        (if ty != crate::chars::lower_of(ty) {
            seq!["type must be lower-case"@]
        } else {
            Seq::<Seq<char>>::empty()
        }) + (if !spec_is_allowed_type(ty) {
            seq![
                "type must be one of [build, chore, ci, docs, feat, fix, perf, refactor, revert, style, test]"@,
            ]
        } else {
            Seq::<Seq<char>>::empty()
        })
    }
}

/// The violations the conventional rules raise, taking the header and its
/// decomposed type and subject as given: the pieces a caller can hand over
/// directly.
#[verifier::rlimit(60)]
pub fn conventional_errors(
    header: &Vec<char>,
    ty: &Vec<char>,
    subject: &Vec<char>,
    body: &Vec<Vec<char>>,
    footer: &Vec<Vec<char>>,
    policy: BodyPolicy,
) -> (r: Vec<String>)
    ensures
        r.deep_view() == spec_conventional_errors(
            header@,
            ty@,
            subject@,
            body.deep_view(),
            footer.deep_view(),
            policy,
        ),
{
    let mut errors: Vec<String> = Vec::new();
    let ghost p1 = if header@.len() > 100 {
        seq![spec_header_length_message(header@.len() as int)]
    } else {
        Seq::<Seq<char>>::empty()
    };
    if header.len() > 100 {
        let numv = dec_str_usize(header.len());
        let nums = chars_to_string(&numv);
        let mut m = "header must not be longer than 100 characters, current length is ".to_owned();
        m.append(nums.as_str());
        errors.push(m);
    }
    proof {
        assert(errors.deep_view() =~~= p1);
    }
    let ghost p2 = spec_subject_errors(subject@);
    let st = trim(subject);
    if st.len() == 0 {
        push_lit(&mut errors, "subject may not be empty");
    } else {
        if st[st.len() - 1] == '.' {
            push_lit(&mut errors, "subject may not end with full stop");
        }
        if is_disallowed_subject_case(&st) {
            push_lit(
                &mut errors,
                "subject must not be sentence-case, start-case, pascal-case, upper-case",
            );
        }
    }
    proof {
        assert(errors.deep_view() =~~= p1 + p2);
    }
    let ghost p3 = spec_type_errors(ty@);
    let tyt = trim(ty);
    if tyt.len() == 0 {
        push_lit(&mut errors, "type may not be empty");
    } else {
        let ty_text = chars_to_string(ty);
        let ty_lower = crate::chars::lowercase_of(ty_text.as_str());
        if !(ty_text == ty_lower) {
            push_lit(&mut errors, "type must be lower-case");
        }
        if !is_allowed_type(ty) {
            push_lit(
                &mut errors,
                "type must be one of [build, chore, ci, docs, feat, fix, perf, refactor, revert, style, test]",
            );
        }
    }
    proof {
        assert(errors.deep_view() =~~= p1 + p2 + p3);
    }
    let ghost p4 = if policy == BodyPolicy::RequireBody && !spec_has_nonblank(body.deep_view()) {
        seq!["Commit message must include a body after a blank line"@]
    } else {
        Seq::<Seq<char>>::empty()
    };
    let body_has = has_nonblank(body);
    match policy {
        BodyPolicy::RequireBody => {
            if !body_has {
                push_lit(&mut errors, "Commit message must include a body after a blank line");
            }
        },
        _ => {},
    }
    proof {
        assert(errors.deep_view() =~~= p1 + p2 + p3 + p4);
    }
    let ghost p5 = if spec_line_too_long(body.deep_view()) {
        seq!["body's lines must not be longer than 100 characters"@]
    } else {
        Seq::<Seq<char>>::empty()
    };
    if has_long_line(body) {
        push_lit(&mut errors, "body's lines must not be longer than 100 characters");
    }
    proof {
        assert(errors.deep_view() =~~= p1 + p2 + p3 + p4 + p5);
    }
    let ghost p6 = if spec_line_too_long(footer.deep_view()) {
        seq!["footer's lines must not be longer than 100 characters"@]
    } else {
        Seq::<Seq<char>>::empty()
    };
    if has_long_line(footer) {
        push_lit(&mut errors, "footer's lines must not be longer than 100 characters");
    }
    proof {
        assert(errors.deep_view() =~~= p1 + p2 + p3 + p4 + p5 + p6);
    }
    let entries = parse_footer_entries(footer);
    let ghost before_entries = errors.deep_view();
    let mut k: usize = 0;
    proof {
        assert(entries.deep_view().take(0) =~~= Seq::<(Seq<char>, Seq<char>)>::empty());
        assert(spec_footer_errors(entries.deep_view().take(0)) == Seq::<Seq<char>>::empty());
        assert(errors.deep_view() =~~= before_entries + spec_footer_errors(
            entries.deep_view().take(0),
        ));
    }
    while k < entries.len()
        invariant
            0 <= k <= entries@.len(),
            entries.deep_view().len() == entries@.len(),
            errors.deep_view() == before_entries + spec_footer_errors(
                entries.deep_view().take(k as int),
            ),
        decreases entries@.len() - k,
    {
        let entry = &entries[k];
        proof {
            assert(entry.deep_view() == entries.deep_view()[k as int]);
        }
        push_footer_entry_errors(&mut errors, entry);
        proof {
            lemma_footer_errors_push(
                entries.deep_view().take(k as int),
                entries.deep_view()[k as int],
            );
            assert(entries.deep_view().take(k as int).push(entries.deep_view()[k as int])
                =~~= entries.deep_view().take(k as int + 1));
        }
        k += 1;
    }
    proof {
        assert(entries.deep_view().take(entries@.len() as int) =~~= entries.deep_view());
        assert(errors.deep_view() =~~= p1 + p2 + p3 + p4 + p5 + p6 + spec_footer_errors(
            spec_parse_footer_entries(footer.deep_view()),
        ));
    }
    errors
}

/// The warnings the conventional rules raise over the lines after the
/// header and their body/footer split.
pub fn conventional_warnings(
    rest: &Vec<Vec<char>>,
    body: &Vec<Vec<char>>,
    footer: &Vec<Vec<char>>,
    fstart: Option<usize>,
) -> (r: Vec<String>)
    requires
        fstart matches Some(i) ==> i < rest@.len(),
    ensures
        r.deep_view() == spec_conventional_warnings(
            rest.deep_view(),
            body.deep_view(),
            footer.deep_view(),
            match fstart {
                Some(i) => Some(i as int),
                None => None,
            },
        ),
{
    let mut warnings: Vec<String> = Vec::new();
    let ghost w1 = if spec_has_nonblank(body.deep_view()) && rest.deep_view().len() > 0
        && !spec_is_blank(rest.deep_view()[0]) {
        seq!["body must have leading blank line"@]
    } else {
        Seq::<Seq<char>>::empty()
    };
    proof {
        assert(warnings.deep_view() =~~= Seq::<Seq<char>>::empty());
    }
    let body_has = has_nonblank(body);
    if body_has && rest.len() > 0 {
        proof {
            lemma_lines_deep_index(*rest, 0);
        }
        if !is_blank(&rest[0]) {
            push_lit(&mut warnings, "body must have leading blank line");
        }
    }
    proof {
        assert(warnings.deep_view() =~~= w1);
    }
    if footer.len() > 0 {
        let has_leading_blank = match fstart {
            Some(i) => {
                if i > 0 {
                    proof {
                        lemma_lines_deep_index(*rest, i as int - 1);
                    }
                    is_blank(&rest[i - 1])
                } else {
                    false
                }
            },
            None => false,
        };
        if !has_leading_blank {
            push_lit(&mut warnings, "footer must have leading blank line");
        }
    }
    proof {
        assert(warnings.deep_view() =~~= spec_conventional_warnings(
            rest.deep_view(),
            body.deep_view(),
            footer.deep_view(),
            match fstart {
                Some(i) => Some(i as int),
                None => None,
            },
        ));
    }
    warnings
}

pub fn validate_conventional(msg: &Vec<char>, policy: BodyPolicy) -> (r: (Vec<String>, Vec<String>))
    ensures
        r.0.deep_view() == spec_validate_conventional(msg@, policy).0,
        r.1.deep_view() == spec_validate_conventional(msg@, policy).1,
{
    let normalized = normalize_newlines(msg);
    let lines = split_nl(&normalized);
    proof {
        lemma_lines_deep_index(lines, 0);
    }
    let first = &lines[0];
    let header = copy_range(first, 0, first.len());
    let rest = copy_lines(&lines, 1, lines.len());
    proof {
        assert(header@ =~= spec_split_nl(spec_normalize(msg@))[0]);
        assert(rest.deep_view() =~~= spec_split_nl(spec_normalize(msg@)).drop_first());
    }
    let header_text = chars_to_string(&header);
    let caps = crate::rx::capture_header_parts(header_text.as_str());
    let ty = str_to_chars(caps.0.as_str());
    let subject = str_to_chars(caps.1.as_str());
    proof {
        assert(ty@ == crate::rx::header_captures(header@).0);
        assert(subject@ == crate::rx::header_captures(header@).1);
    }
    let sbf = split_body_and_footer(&rest);
    proof {
        crate::parse::lemma_last_footer_idx_bounds(
            crate::parse::spec_strip_trailing_blanks(rest.deep_view()),
        );
        crate::parse::lemma_strip_trailing_blanks_len(rest.deep_view());
    }
    let errors = conventional_errors(&header, &ty, &subject, &sbf.0, &sbf.1, policy);
    let warnings = conventional_warnings(&rest, &sbf.0, &sbf.1, sbf.2);
    (errors, warnings)
}

} // verus!
