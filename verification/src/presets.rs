//! Named rule bundles a caller can start from.

use vstd::prelude::*;

use crate::chars::{eq_ci, spec_eq_ci, str_to_chars};
use crate::lint::BodyPolicy;

verus! {

/// A named bundle: a header pattern, its description, a body policy, and
/// whether the conventional rules are enforced.
#[derive(Debug, Clone)]
pub struct Preset {
    pub message_pattern: &'static str,
    pub description: &'static str,
    pub body_policy: BodyPolicy,
    pub enforce_spec: bool,
}

/// The names that select the conventional preset.
pub open spec fn spec_is_conventional_name(n: Seq<char>) -> bool {
    spec_eq_ci(n, "conventional"@) || spec_eq_ci(n, "default"@)
}

/// The names that select the conventional preset with a required body.
pub open spec fn spec_is_conventional_body_name(n: Seq<char>) -> bool {
    spec_eq_ci(n, "conventional-body"@) || spec_eq_ci(n, "conventional_detailed"@) || spec_eq_ci(
        n,
        "conventional-with-body"@,
    )
}

/// The names that select the single-line preset.
pub open spec fn spec_is_simple_name(n: Seq<char>) -> bool {
    spec_eq_ci(n, "simple"@) || spec_eq_ci(n, "simple-single-line"@)
}

fn name_matches(name: &Vec<char>, lit: &str) -> (r: bool)
    ensures
        r == spec_eq_ci(name@, lit@),
{
    let w = str_to_chars(lit);
    eq_ci(name, &w)
}

fn conventional() -> (p: Preset)
    ensures
        p.message_pattern@ == "^(?P<type>\\w+)(\\((?P<scope>.*)\\))?(?P<breaking>!)?: (?P<description>.+)$"@,
        p.description@ == "Conventional Commits header"@,
        p.body_policy == BodyPolicy::Any,
        p.enforce_spec,
{
    Preset {
        message_pattern: "^(?P<type>\\w+)(\\((?P<scope>.*)\\))?(?P<breaking>!)?: (?P<description>.+)$",
        description: "Conventional Commits header",
        body_policy: BodyPolicy::Any,
        enforce_spec: true,
    }
}

fn conventional_with_body() -> (p: Preset)
    ensures
        p.message_pattern@ == "^(?P<type>\\w+)(\\((?P<scope>.*)\\))?(?P<breaking>!)?: (?P<description>.+)$"@,
        p.description@ == "Conventional Commits header with a required body section"@,
        p.body_policy == BodyPolicy::RequireBody,
        p.enforce_spec,
{
    Preset {
        message_pattern: "^(?P<type>\\w+)(\\((?P<scope>.*)\\))?(?P<breaking>!)?: (?P<description>.+)$",
        description: "Conventional Commits header with a required body section",
        body_policy: BodyPolicy::RequireBody,
        enforce_spec: true,
    }
}

fn simple_single_line() -> (p: Preset)
    ensures
        p.message_pattern@ == "^[A-Za-z][^\\n]+$"@,
        p.description@ == "Single-line summary starting with a letter"@,
        p.body_policy == BodyPolicy::SingleLine,
        !p.enforce_spec,
{
    Preset {
        message_pattern: "^[A-Za-z][^\\n]+$",
        description: "Single-line summary starting with a letter",
        body_policy: BodyPolicy::SingleLine,
        enforce_spec: false,
    }
}

/// Looks a preset up by name, ignoring ASCII case.
pub fn resolve_preset(name: &str) -> (r: Option<Preset>)
    ensures
        r is Some <==> spec_is_conventional_name(name@) || spec_is_conventional_body_name(name@)
            || spec_is_simple_name(name@),
        r matches Some(p) ==> (spec_is_conventional_name(name@) ==> p.message_pattern@
            == "^(?P<type>\\w+)(\\((?P<scope>.*)\\))?(?P<breaking>!)?: (?P<description>.+)$"@
            && p.description@
            == "Conventional Commits header"@
            && p.body_policy == BodyPolicy::Any && p.enforce_spec),
        r matches Some(p) ==> (spec_is_conventional_body_name(name@) ==> p.message_pattern@
            == "^(?P<type>\\w+)(\\((?P<scope>.*)\\))?(?P<breaking>!)?: (?P<description>.+)$"@
            && p.description@ == "Conventional Commits header with a required body section"@
            && p.body_policy == BodyPolicy::RequireBody && p.enforce_spec),
        r matches Some(p) ==> (spec_is_simple_name(name@) ==> p.message_pattern@
            == "^[A-Za-z][^\\n]+$"@ && p.description@
            == "Single-line summary starting with a letter"@
            && p.body_policy == BodyPolicy::SingleLine && !p.enforce_spec),
{
    proof {
        reveal_strlit("conventional");
        reveal_strlit("default");
        reveal_strlit("conventional-body");
        reveal_strlit("conventional_detailed");
        reveal_strlit("conventional-with-body");
        reveal_strlit("simple");
        reveal_strlit("simple-single-line");
    }
    let nv = str_to_chars(name);
    if name_matches(&nv, "conventional") || name_matches(&nv, "default") {
        Some(conventional())
    } else if name_matches(&nv, "conventional-body") || name_matches(&nv, "conventional_detailed")
        || name_matches(&nv, "conventional-with-body") {
        Some(conventional_with_body())
    } else if name_matches(&nv, "simple") || name_matches(&nv, "simple-single-line") {
        Some(simple_single_line())
    } else {
        None
    }
}

} // verus!
