//! The configuration file's shape, the command line's rule arguments, and
//! the merge that resolves one invocation into a ready set of options.

use vstd::prelude::*;

use crate::chars::{
    chars_to_string, copy_range, find_char, find_pair, lemma_find_char_props,
    lemma_find_pair_props, spec_find_char, spec_find_pair, str_to_chars,
};
use crate::cli::LintArgs;
use crate::lint::{
    build_cleanup_rule, build_exclude_rule, build_message_pattern, BodyPolicy, CleanupRule,
    ConfigError, ExcludeRule, LintOptions,
};
use crate::presets::{
    resolve_preset, spec_is_conventional_body_name, spec_is_conventional_name,
    spec_is_simple_name, Preset,
};
use crate::rx::{pattern_compiles, regex_source};

verus! {

/// What a configuration file holds.
#[derive(Debug)]
pub struct FileConfig {
    pub preset: Option<String>,
    pub write: Option<bool>,
    pub rules: RulesConfig,
}

/// The rule section of a configuration file.
#[derive(Debug)]
pub struct RulesConfig {
    pub message: Option<MessageRuleConfig>,
    pub excludes: Vec<ExcludeRuleConfig>,
    pub cleanup: Vec<CleanupRuleConfig>,
    pub single_line: Option<bool>,
    pub require_body: Option<bool>,
    pub exit_nonzero_on_rewrite: Option<bool>,
}

/// A configured header pattern.
#[derive(Debug)]
pub struct MessageRuleConfig {
    pub pattern: String,
    pub description: Option<String>,
}

/// A configured exclude rule, by pattern text.
#[derive(Debug)]
pub struct ExcludeRuleConfig {
    pub pattern: String,
    pub message: Option<String>,
}

/// A configured cleanup rule, by pattern and replacement text.
#[derive(Debug)]
pub struct CleanupRuleConfig {
    pub find: String,
    pub replace: String,
    pub description: Option<String>,
}

impl Default for FileConfig {
    /// An empty configuration: nothing set, no rules.
    fn default() -> (r: Self)
        ensures
            r.preset is None,
            r.write is None,
            r.rules.message is None,
            r.rules.excludes@.len() == 0,
            r.rules.cleanup@.len() == 0,
            r.rules.single_line is None,
            r.rules.require_body is None,
            r.rules.exit_nonzero_on_rewrite is None,
    {
        FileConfig {
            preset: None,
            write: None,
            rules: RulesConfig {
                message: None,
                excludes: Vec::new(),
                cleanup: Vec::new(),
                single_line: None,
                require_body: None,
                exit_nonzero_on_rewrite: None,
            },
        }
    }
}

// ------------------------------------------------------------------
// Rule arguments from the command line
// ------------------------------------------------------------------

/// How an `--exclude` argument is read: the text before the first colon is
/// the pattern, anything non-empty after it the custom message.
pub open spec fn spec_parse_exclude_arg(raw: Seq<char>) -> (Seq<char>, Option<Seq<char>>) {
    match spec_find_char(raw, ':') {
        None => (raw, None),
        Some(i) => (
            raw.take(i),
            if raw.skip(i + 1).len() == 0 {
                None
            } else {
                Some(raw.skip(i + 1))
            },
        ),
    }
}

pub fn parse_exclude_arg(raw: &str) -> (r: (String, Option<String>))
    ensures
        r.0@ == spec_parse_exclude_arg(raw@).0,
        r.1.deep_view() == spec_parse_exclude_arg(raw@).1,
{
    let v = str_to_chars(raw);
    match find_char(&v, ':') {
        None => (raw.to_owned(), None),
        Some(i) => {
            proof {
                lemma_find_char_props(v@, ':');
            }
            let pattern = copy_range(&v, 0, i);
            let msg = copy_range(&v, i + 1, v.len());
            proof {
                assert(pattern@ =~= raw@.take(i as int));
                assert(msg@ =~= raw@.skip(i as int + 1));
            }
            if msg.len() == 0 {
                (chars_to_string(&pattern), None)
            } else {
                (chars_to_string(&pattern), Some(chars_to_string(&msg)))
            }
        },
    }
}

/// How a `--cleanup` argument is read: `find->replace`.
pub open spec fn spec_parse_cleanup_arg(raw: Seq<char>) -> Option<(Seq<char>, Seq<char>)> {
    match spec_find_pair(raw, '-', '>') {
        None => None,
        Some(i) => Some((raw.take(i), raw.skip(i + 2))),
    }
}

pub fn parse_cleanup_arg(raw: &str) -> (r: Result<(String, String), ConfigError>)
    ensures
        r is Ok <==> spec_parse_cleanup_arg(raw@) is Some,
        r matches Ok(p) ==> spec_parse_cleanup_arg(raw@) == Some((p.0@, p.1@)),
        r matches Err(e) ==> e matches ConfigError::InvalidCleanupArgument { argument: a }
            && a@ == raw@,
{
    let v = str_to_chars(raw);
    match find_pair(&v, '-', '>') {
        None => Err(ConfigError::InvalidCleanupArgument { argument: raw.to_owned() }),
        Some(i) => {
            proof {
                lemma_find_pair_props(v@, '-', '>');
            }
            let find = copy_range(&v, 0, i);
            let replace = copy_range(&v, i + 2, v.len());
            proof {
                assert(find@ =~= raw@.take(i as int));
                assert(replace@ =~= raw@.skip(i as int + 2));
            }
            Ok((chars_to_string(&find), chars_to_string(&replace)))
        },
    }
}


// ------------------------------------------------------------------
// Resolving one invocation into options
// ------------------------------------------------------------------

/// Everything a lint run needs once an invocation is resolved.
#[derive(Debug)]
pub struct ResolvedLint {
    pub options: LintOptions,
    pub write: bool,
    pub exit_nonzero_on_rewrite: bool,
}

/// The preset name an invocation asks for: the flag, else the configuration
/// file, else the conventional preset.
pub open spec fn spec_effective_preset_name(args: LintArgs, config: Option<FileConfig>) -> Seq<
    char,
> {
    match args.preset {
        Some(p) => p@,
        None => match config {
            Some(c) => match c.preset {
                Some(p) => p@,
                None => "conventional"@,
            },
            None => "conventional"@,
        },
    }
}

pub open spec fn spec_preset_known(n: Seq<char>) -> bool {
    spec_is_conventional_name(n) || spec_is_conventional_body_name(n) || spec_is_simple_name(n)
}

pub open spec fn spec_preset_policy(n: Seq<char>) -> BodyPolicy {
    if spec_is_conventional_name(n) {
        BodyPolicy::Any
    } else if spec_is_conventional_body_name(n) {
        BodyPolicy::RequireBody
    } else {
        BodyPolicy::SingleLine
    }
}

pub open spec fn spec_preset_enforce(n: Seq<char>) -> bool {
    spec_is_conventional_name(n) || spec_is_conventional_body_name(n)
}

pub open spec fn spec_preset_pattern(n: Seq<char>) -> Seq<char> {
    if spec_is_conventional_name(n) || spec_is_conventional_body_name(n) {
        "^(?P<type>\\w+)(\\((?P<scope>.*)\\))?(?P<breaking>!)?: (?P<description>.+)$"@
    } else {
        "^[A-Za-z][^\\n]+$"@
    }
}

pub open spec fn spec_preset_description(n: Seq<char>) -> Seq<char> {
    if spec_is_conventional_name(n) {
        "Conventional Commits header"@
    } else if spec_is_conventional_body_name(n) {
        "Conventional Commits header with a required body section"@
    } else {
        "Single-line summary starting with a letter"@
    }
}

/// Whether the configuration demands both exclusive body rules.
pub open spec fn spec_policy_conflict(config: Option<FileConfig>) -> bool {
    match config {
        Some(c) => c.rules.single_line == Some(true) && c.rules.require_body == Some(true),
        None => false,
    }
}

/// The body policy after the configuration and the flags have spoken.
pub open spec fn spec_config_policy(rules: RulesConfig, preset: BodyPolicy) -> BodyPolicy {
    if rules.single_line == Some(true) {
        BodyPolicy::SingleLine
    } else if rules.require_body == Some(true) {
        BodyPolicy::RequireBody
    } else {
        let p1 = if rules.single_line == Some(false) && preset == BodyPolicy::SingleLine {
            BodyPolicy::Any
        } else {
            preset
        };
        if rules.require_body == Some(false) && p1 == BodyPolicy::RequireBody {
            BodyPolicy::Any
        } else {
            p1
        }
    }
}

pub open spec fn spec_effective_policy(
    args: LintArgs,
    config: Option<FileConfig>,
    preset: BodyPolicy,
) -> BodyPolicy {
    if args.single_line {
        BodyPolicy::SingleLine
    } else if args.require_body {
        BodyPolicy::RequireBody
    } else {
        match config {
            Some(c) => spec_config_policy(c.rules, preset),
            None => preset,
        }
    }
}

/// Whether the conventional rules stay on: a custom pattern, from the flags
/// or the configuration, turns them off.
pub open spec fn spec_effective_enforce(
    args: LintArgs,
    config: Option<FileConfig>,
    n: Seq<char>,
) -> bool {
    if args.msg_pattern is Some {
        false
    } else if match config {
        Some(c) => c.rules.message is Some,
        None => false,
    } {
        false
    } else {
        spec_preset_enforce(n)
    }
}

/// The header pattern and its description: the flag, else the configured
/// rule, else the preset, with the description flag overriding either.
pub open spec fn spec_effective_pattern(
    args: LintArgs,
    config: Option<FileConfig>,
    n: Seq<char>,
) -> (Seq<char>, Option<Seq<char>>) {
    match args.msg_pattern {
        Some(p) => (
            p@,
            match args.msg_pattern_description {
                Some(d) => Some(d@),
                None => Some("Commit message must match pattern `"@ + p@ + "`"@),
            },
        ),
        None => {
            let base: (Seq<char>, Option<Seq<char>>) = match config {
                Some(c) => match c.rules.message {
                    Some(m) => (m.pattern@, m.description.deep_view()),
                    None => (spec_preset_pattern(n), Some(spec_preset_description(n))),
                },
                None => (spec_preset_pattern(n), Some(spec_preset_description(n))),
            };
            match args.msg_pattern_description {
                Some(d) => (base.0, Some(d@)),
                None => base,
            }
        },
    }
}

/// The exclude rules, in order: the configuration's, the flags', then the
/// built-in table's.
pub open spec fn spec_exclude_pairs(
    args: LintArgs,
    config: Option<FileConfig>,
    builtins: Seq<ExcludeRuleConfig>,
) -> Seq<(Seq<char>, Option<Seq<char>>)> {
    (match config {
        Some(c) => c.rules.excludes@.map_values(
            |e: ExcludeRuleConfig| (e.pattern@, e.message.deep_view()),
        ),
        None => Seq::<(Seq<char>, Option<Seq<char>>)>::empty(),
    }) + args.exclude@.map_values(|raw: String| spec_parse_exclude_arg(raw@))
        + builtins.map_values(|e: ExcludeRuleConfig| (e.pattern@, e.message.deep_view()))
}

/// The cleanup rules, in order: the configuration's, the flags', the
/// sanitize pattern, then the built-in table's.
pub open spec fn spec_cleanup_triples(
    args: LintArgs,
    config: Option<FileConfig>,
    builtins: Seq<CleanupRuleConfig>,
) -> Seq<(Seq<char>, Seq<char>, Option<Seq<char>>)> {
    (match config {
        Some(c) => c.rules.cleanup@.map_values(
            |e: CleanupRuleConfig| (e.find@, e.replace@, e.description.deep_view()),
        ),
        None => Seq::<(Seq<char>, Seq<char>, Option<Seq<char>>)>::empty(),
    }) + args.cleanup@.map_values(
        |raw: String|
            (
                spec_parse_cleanup_arg(raw@)->Some_0.0,
                spec_parse_cleanup_arg(raw@)->Some_0.1,
                Option::<Seq<char>>::None,
            ),
    ) + (match args.cleanup_pattern {
        Some(p) => seq![
            (
                p@,
                match args.cleanup_replacement {
                    Some(rr) => rr@,
                    None => Seq::<char>::empty(),
                },
                args.cleanup_description.deep_view(),
            ),
        ],
        None => Seq::<(Seq<char>, Seq<char>, Option<Seq<char>>)>::empty(),
    }) + builtins.map_values(
        |e: CleanupRuleConfig| (e.find@, e.replace@, e.description.deep_view()),
    )
}

pub open spec fn spec_all_excludes_compile(ps: Seq<(Seq<char>, Option<Seq<char>>)>) -> bool {
    forall|i: int| 0 <= i < ps.len() ==> pattern_compiles(#[trigger] ps[i].0)
}

pub open spec fn spec_all_cleanups_compile(ts: Seq<(Seq<char>, Seq<char>, Option<Seq<char>>)>) -> bool {
    forall|i: int| 0 <= i < ts.len() ==> pattern_compiles(#[trigger] ts[i].0)
}

pub open spec fn spec_all_cleanup_args_parse(args: LintArgs) -> bool {
    forall|i: int|
        0 <= i < args.cleanup@.len() ==> spec_parse_cleanup_arg(#[trigger] args.cleanup@[i]@)
            is Some
}

/// The compiled exclude rules carry exactly the given pattern/message pairs.
pub open spec fn spec_exclude_rules_match(
    rules: Seq<ExcludeRule>,
    ps: Seq<(Seq<char>, Option<Seq<char>>)>,
) -> bool {
    &&& rules.len() == ps.len()
    &&& forall|i: int|
        0 <= i < ps.len() ==> regex_source(#[trigger] rules[i].regex) == ps[i].0
            && rules[i].pattern_source@ == ps[i].0 && rules[i].message.deep_view() == ps[i].1
}

/// The compiled cleanup rules carry exactly the given triples.
pub open spec fn spec_cleanup_rules_match(
    rules: Seq<CleanupRule>,
    ts: Seq<(Seq<char>, Seq<char>, Option<Seq<char>>)>,
) -> bool {
    &&& rules.len() == ts.len()
    &&& forall|i: int|
        0 <= i < ts.len() ==> regex_source(#[trigger] rules[i].regex) == ts[i].0
            && rules[i].pattern_source@ == ts[i].0 && rules[i].replace@ == ts[i].1
            && rules[i].description.deep_view() == ts[i].2
}

/// One compiled exclude rule per pair, in order.
fn compile_exclude_pairs(pairs: &Vec<(String, Option<String>)>) -> (r: Result<
    Vec<ExcludeRule>,
    ConfigError,
>)
    ensures
        r is Ok <==> forall|i: int|
            0 <= i < pairs@.len() ==> pattern_compiles(#[trigger] pairs@[i].0@),
        r matches Ok(rules) ==> rules@.len() == pairs@.len() && forall|i: int|
            0 <= i < pairs@.len() ==> regex_source(#[trigger] rules@[i].regex) == pairs@[i].0@
                && rules@[i].pattern_source@ == pairs@[i].0@ && rules@[i].message.deep_view()
                == pairs@[i].1.deep_view(),
        r matches Err(e) ==> e matches ConfigError::InvalidPattern { pattern: p, detail: _ }
            && !pattern_compiles(p@),
{
    let mut rules: Vec<ExcludeRule> = Vec::new();
    let mut i: usize = 0;
    while i < pairs.len()
        invariant
            0 <= i <= pairs@.len(),
            rules@.len() == i,
            forall|j: int|
                0 <= j < i ==> regex_source(#[trigger] rules@[j].regex) == pairs@[j].0@
                    && rules@[j].pattern_source@ == pairs@[j].0@ && rules@[j].message.deep_view()
                    == pairs@[j].1.deep_view(),
            forall|j: int| 0 <= j < i ==> pattern_compiles(#[trigger] pairs@[j].0@),
        decreases pairs@.len() - i,
    {
        let pair = &pairs[i];
        let msg: Option<String> = match &pair.1 {
            Some(m) => Some(m.clone()),
            None => None,
        };
        proof {
            assert(msg.deep_view() == pairs@[i as int].1.deep_view());
        }
        match build_exclude_rule(pair.0.as_str(), msg) {
            Ok(rule) => {
                rules.push(rule);
            },
            Err(e) => {
                return Err(e);
            },
        }
        i += 1;
    }
    Ok(rules)
}

/// One compiled cleanup rule per triple, in order.
fn compile_cleanup_triples(triples: &Vec<(String, String, Option<String>)>) -> (r: Result<
    Vec<CleanupRule>,
    ConfigError,
>)
    ensures
        r is Ok <==> forall|i: int|
            0 <= i < triples@.len() ==> pattern_compiles(#[trigger] triples@[i].0@),
        r matches Ok(rules) ==> rules@.len() == triples@.len() && forall|i: int|
            0 <= i < triples@.len() ==> regex_source(#[trigger] rules@[i].regex)
                == triples@[i].0@ && rules@[i].pattern_source@ == triples@[i].0@
                && rules@[i].replace@ == triples@[i].1@ && rules@[i].description.deep_view()
                == triples@[i].2.deep_view(),
        r matches Err(e) ==> e matches ConfigError::InvalidPattern { pattern: p, detail: _ }
            && !pattern_compiles(p@),
{
    let mut rules: Vec<CleanupRule> = Vec::new();
    let mut i: usize = 0;
    while i < triples.len()
        invariant
            0 <= i <= triples@.len(),
            rules@.len() == i,
            forall|j: int|
                0 <= j < i ==> regex_source(#[trigger] rules@[j].regex) == triples@[j].0@
                    && rules@[j].pattern_source@ == triples@[j].0@ && rules@[j].replace@
                    == triples@[j].1@ && rules@[j].description.deep_view()
                    == triples@[j].2.deep_view(),
            forall|j: int| 0 <= j < i ==> pattern_compiles(#[trigger] triples@[j].0@),
        decreases triples@.len() - i,
    {
        let t = &triples[i];
        let desc: Option<String> = match &t.2 {
            Some(d) => Some(d.clone()),
            None => None,
        };
        proof {
            assert(desc.deep_view() == triples@[i as int].2.deep_view());
        }
        match build_cleanup_rule(t.0.as_str(), t.1.as_str(), desc) {
            Ok(rule) => {
                rules.push(rule);
            },
            Err(e) => {
                return Err(e);
            },
        }
        i += 1;
    }
    Ok(rules)
}

/// When resolving succeeds: the preset is known, nothing conflicts, every
/// pattern compiles, and every cleanup argument parses.
pub open spec fn spec_resolve_succeeds(
    args: LintArgs,
    config: Option<FileConfig>,
    bex: Seq<ExcludeRuleConfig>,
    bcl: Seq<CleanupRuleConfig>,
) -> bool {
    let n = spec_effective_preset_name(args, config);
    &&& spec_preset_known(n)
    &&& !spec_policy_conflict(config)
    &&& pattern_compiles(spec_effective_pattern(args, config, n).0)
    &&& spec_all_cleanup_args_parse(args)
    &&& spec_all_excludes_compile(spec_exclude_pairs(args, config, bex))
    &&& spec_all_cleanups_compile(spec_cleanup_triples(args, config, bcl))
}

/// What a resolved invocation holds.
pub open spec fn spec_resolved_fields(
    args: LintArgs,
    config: Option<FileConfig>,
    bex: Seq<ExcludeRuleConfig>,
    bcl: Seq<CleanupRuleConfig>,
    res: ResolvedLint,
) -> bool {
    let n = spec_effective_preset_name(args, config);
    let pairs = spec_exclude_pairs(args, config, bex);
    let triples = spec_cleanup_triples(args, config, bcl);
    let pat = spec_effective_pattern(args, config, n);
    &&& res.options.message_pattern is Some
    &&& regex_source(res.options.message_pattern->Some_0.regex) == pat.0
    &&& res.options.message_pattern->Some_0.description.deep_view() == pat.1
    &&& res.options.enforce_conventional_spec == spec_effective_enforce(args, config, n)
    &&& res.options.body_policy == spec_effective_policy(args, config, spec_preset_policy(n))
    &&& !res.options.autofix
    &&& spec_exclude_rules_match(res.options.exclude_rules@, pairs)
    &&& spec_cleanup_rules_match(res.options.cleanup_rules@, triples)
    &&& res.write == (args.write || (match config {
        Some(c) => c.write == Some(true),
        None => false,
    }))
    &&& res.exit_nonzero_on_rewrite == (args.exit_nonzero_on_rewrite || (match config {
        Some(c) => c.rules.exit_nonzero_on_rewrite == Some(true),
        None => false,
    }))
}

/// What each error means.
pub open spec fn spec_resolve_error(
    args: LintArgs,
    config: Option<FileConfig>,
    e: ConfigError,
) -> bool {
    let n = spec_effective_preset_name(args, config);
    match e {
        ConfigError::UnknownPreset { name } => name@ == n && !spec_preset_known(n),
        ConfigError::ConflictingBodyRules => spec_policy_conflict(config),
        ConfigError::InvalidPattern { pattern, detail: _ } => !pattern_compiles(pattern@),
        ConfigError::InvalidCleanupArgument { argument } => spec_parse_cleanup_arg(argument@)
            is None,
    }
}

proof fn lemma_fields_assemble(
    args: LintArgs,
    config: Option<FileConfig>,
    bex: Seq<ExcludeRuleConfig>,
    bcl: Seq<CleanupRuleConfig>,
    pairs: Seq<(Seq<char>, Option<Seq<char>>)>,
    triples: Seq<(Seq<char>, Seq<char>, Option<Seq<char>>)>,
    res: ResolvedLint,
)
    requires
        pairs == spec_exclude_pairs(args, config, bex),
        triples == spec_cleanup_triples(args, config, bcl),
        res.options.message_pattern is Some,
        regex_source(res.options.message_pattern->Some_0.regex) == spec_effective_pattern(
            args,
            config,
            spec_effective_preset_name(args, config),
        ).0,
        res.options.message_pattern->Some_0.description.deep_view() == spec_effective_pattern(
            args,
            config,
            spec_effective_preset_name(args, config),
        ).1,
        res.options.enforce_conventional_spec == spec_effective_enforce(
            args,
            config,
            spec_effective_preset_name(args, config),
        ),
        res.options.body_policy == spec_effective_policy(
            args,
            config,
            spec_preset_policy(spec_effective_preset_name(args, config)),
        ),
        !res.options.autofix,
        spec_exclude_rules_match(res.options.exclude_rules@, pairs),
        spec_cleanup_rules_match(res.options.cleanup_rules@, triples),
        res.write == (args.write || (match config {
            Some(c) => c.write == Some(true),
            None => false,
        })),
        res.exit_nonzero_on_rewrite == (args.exit_nonzero_on_rewrite || (match config {
            Some(c) => c.rules.exit_nonzero_on_rewrite == Some(true),
            None => false,
        })),
    ensures
        spec_resolved_fields(args, config, bex, bcl, res),
{
}


/// Compiles the full exclude-rule list of one invocation, in order.
fn build_exclude_set(
    args: &LintArgs,
    config: &Option<FileConfig>,
    builtin_excludes: &Vec<ExcludeRuleConfig>,
) -> (r: Result<Vec<ExcludeRule>, ConfigError>)
    ensures
        r is Ok <==> spec_all_excludes_compile(
            spec_exclude_pairs(*args, *config, builtin_excludes@),
        ),
        r matches Ok(rules) ==> spec_exclude_rules_match(
            rules@,
            spec_exclude_pairs(*args, *config, builtin_excludes@),
        ),
        r matches Err(e) ==> e matches ConfigError::InvalidPattern { pattern: p, detail: _ }
            && !pattern_compiles(p@),
{
    let ghost pairs = spec_exclude_pairs(*args, *config, builtin_excludes@);
    let mut exclude_pairs: Vec<(String, Option<String>)> = Vec::new();
    match config {
        Some(c) => {
            let mut i: usize = 0;
            while i < c.rules.excludes.len()
                invariant
                    0 <= i <= c.rules.excludes@.len(),
                    exclude_pairs@.len() == i,
                    forall|j: int|
                        0 <= j < i ==> (#[trigger] exclude_pairs@[j]).0@
                            == c.rules.excludes@[j].pattern@ && exclude_pairs@[j].1.deep_view()
                            == c.rules.excludes@[j].message.deep_view(),
                decreases c.rules.excludes@.len() - i,
            {
                let e = &c.rules.excludes[i];
                let m: Option<String> = match &e.message {
                    Some(m) => Some(m.clone()),
                    None => None,
                };
                exclude_pairs.push((e.pattern.clone(), m));
                i += 1;
            }
        },
        None => {},
    }
    let ghost n_cfg_ex = exclude_pairs@.len();
    proof {
        assert forall|j: int|
            0 <= j < n_cfg_ex implies ((#[trigger] exclude_pairs@[j]).0@, exclude_pairs@[
            j
        ].1.deep_view()) == pairs[j] by {
            match *config {
                Some(c) => {
                    let a = c.rules.excludes@.map_values(
                        |e: ExcludeRuleConfig| (e.pattern@, e.message.deep_view()),
                    );
                    assert(pairs[j] == a[j]);
                },
                None => {},
            }
        }
    }
    let mut i: usize = 0;
    while i < args.exclude.len()
        invariant
            0 <= i <= args.exclude@.len(),
            exclude_pairs@.len() == n_cfg_ex + i,
            forall|j: int|
                0 <= j < n_cfg_ex ==> ((#[trigger] exclude_pairs@[j]).0@, exclude_pairs@[
                    j
                ].1.deep_view()) == pairs[j],
            forall|j: int|
                0 <= j < i ==> ((#[trigger] exclude_pairs@[n_cfg_ex + j]).0@, exclude_pairs@[
                    n_cfg_ex + j
                ].1.deep_view()) == spec_parse_exclude_arg(args.exclude@[j]@),
        decreases args.exclude@.len() - i,
    {
        let parsed = parse_exclude_arg(args.exclude[i].as_str());
        exclude_pairs.push(parsed);
        i += 1;
    }
    let ghost n_arg_ex = exclude_pairs@.len();
    proof {
        let b = args.exclude@.map_values(|raw: String| spec_parse_exclude_arg(raw@));
        assert forall|j: int|
            0 <= j < n_arg_ex implies ((#[trigger] exclude_pairs@[j]).0@, exclude_pairs@[
            j
        ].1.deep_view()) == pairs[j] by {
            if j >= n_cfg_ex {
                let k = j - n_cfg_ex;
                assert(((exclude_pairs@[n_cfg_ex + k]).0@, exclude_pairs@[n_cfg_ex
                    + k].1.deep_view()) == spec_parse_exclude_arg(args.exclude@[k]@));
                assert(pairs[j] == b[k]);
            }
        }
    }
    let mut i2: usize = 0;
    while i2 < builtin_excludes.len()
        invariant
            0 <= i2 <= builtin_excludes@.len(),
            exclude_pairs@.len() == n_arg_ex + i2,
            forall|j: int|
                0 <= j < n_arg_ex ==> ((#[trigger] exclude_pairs@[j]).0@, exclude_pairs@[
                    j
                ].1.deep_view()) == pairs[j],
            forall|j: int|
                0 <= j < i2 ==> (#[trigger] exclude_pairs@[n_arg_ex + j]).0@
                    == builtin_excludes@[j].pattern@ && exclude_pairs@[n_arg_ex
                    + j].1.deep_view() == builtin_excludes@[j].message.deep_view(),
        decreases builtin_excludes@.len() - i2,
    {
        let e = &builtin_excludes[i2];
        let m: Option<String> = match &e.message {
            Some(m) => Some(m.clone()),
            None => None,
        };
        exclude_pairs.push((e.pattern.clone(), m));
        i2 += 1;
    }
    proof {
        let cmap = builtin_excludes@.map_values(
            |e: ExcludeRuleConfig| (e.pattern@, e.message.deep_view()),
        );
        assert(exclude_pairs@.len() == pairs.len());
        assert forall|j: int|
            0 <= j < pairs.len() implies ((#[trigger] exclude_pairs@[j]).0@, exclude_pairs@[
            j
        ].1.deep_view()) == pairs[j] by {
            if j >= n_arg_ex {
                let k = j - n_arg_ex;
                assert((exclude_pairs@[n_arg_ex + k]).0@ == builtin_excludes@[k].pattern@
                    && exclude_pairs@[n_arg_ex + k].1.deep_view()
                    == builtin_excludes@[k].message.deep_view());
                assert(pairs[j] == cmap[k]);
            }
        }
    }
    let exclude_rules = match compile_exclude_pairs(&exclude_pairs) {
        Ok(rules) => rules,
        Err(e) => {
            proof {
                assert(!(forall|i: int|
                    0 <= i < exclude_pairs@.len() ==> pattern_compiles(
                        #[trigger] exclude_pairs@[i].0@,
                    )));
                let k = choose|k: int|
                    0 <= k < exclude_pairs@.len() && !pattern_compiles(
                        #[trigger] exclude_pairs@[k].0@,
                    );
                assert(((exclude_pairs@[k]).0@, exclude_pairs@[k].1.deep_view()) == pairs[k]);
                assert(!pattern_compiles(pairs[k].0));
                assert(!spec_all_excludes_compile(pairs));
            }
            return Err(e);
        },
    };
    proof {
        assert forall|i: int| 0 <= i < pairs.len() implies pattern_compiles(
            #[trigger] pairs[i].0,
        ) by {
            assert(((exclude_pairs@[i]).0@, exclude_pairs@[i].1.deep_view()) == pairs[i]);
            assert(pattern_compiles(exclude_pairs@[i].0@));
        }
        assert forall|i: int|
            0 <= i < pairs.len() implies regex_source(#[trigger] exclude_rules@[i].regex)
            == pairs[i].0 && exclude_rules@[i].pattern_source@ == pairs[i].0 && exclude_rules@[
            i
        ].message.deep_view() == pairs[i].1 by {
            assert(((exclude_pairs@[i]).0@, exclude_pairs@[i].1.deep_view()) == pairs[i]);
            assert(regex_source(exclude_rules@[i].regex) == exclude_pairs@[i].0@);
        }
        assert(spec_exclude_rules_match(exclude_rules@, pairs));
    }
    Ok(exclude_rules)
}

/// Compiles the full cleanup-rule list of one invocation, in order.
fn build_cleanup_set(
    args: &LintArgs,
    config: &Option<FileConfig>,
    builtin_cleanups: &Vec<CleanupRuleConfig>,
) -> (r: Result<Vec<CleanupRule>, ConfigError>)
    ensures
        r is Ok <==> spec_all_cleanup_args_parse(*args) && spec_all_cleanups_compile(
            spec_cleanup_triples(*args, *config, builtin_cleanups@),
        ),
        r matches Ok(rules) ==> spec_cleanup_rules_match(
            rules@,
            spec_cleanup_triples(*args, *config, builtin_cleanups@),
        ),
        r matches Err(e) ==> match e {
            ConfigError::InvalidPattern { pattern, detail: _ } => !pattern_compiles(pattern@),
            ConfigError::InvalidCleanupArgument { argument } => spec_parse_cleanup_arg(argument@)
                is None,
            _ => false,
        },
{
    let ghost triples = spec_cleanup_triples(*args, *config, builtin_cleanups@);
    let mut cleanup_triples: Vec<(String, String, Option<String>)> = Vec::new();
    match config {
        Some(c) => {
            let mut i3: usize = 0;
            while i3 < c.rules.cleanup.len()
                invariant
                    0 <= i3 <= c.rules.cleanup@.len(),
                    cleanup_triples@.len() == i3,
                    forall|j: int|
                        0 <= j < i3 ==> (#[trigger] cleanup_triples@[j]).0@
                            == c.rules.cleanup@[j].find@ && cleanup_triples@[j].1@
                            == c.rules.cleanup@[j].replace@ && cleanup_triples@[j].2.deep_view()
                            == c.rules.cleanup@[j].description.deep_view(),
                decreases c.rules.cleanup@.len() - i3,
            {
                let e = &c.rules.cleanup[i3];
                let d: Option<String> = match &e.description {
                    Some(d) => Some(d.clone()),
                    None => None,
                };
                cleanup_triples.push((e.find.clone(), e.replace.clone(), d));
                i3 += 1;
            }
        },
        None => {},
    }
    let ghost n_cfg_cl = cleanup_triples@.len();
    proof {
        assert forall|j: int|
            0 <= j < n_cfg_cl implies ((#[trigger] cleanup_triples@[j]).0@, cleanup_triples@[
            j
        ].1@, cleanup_triples@[j].2.deep_view()) == triples[j] by {
            match *config {
                Some(c) => {
                    let a = c.rules.cleanup@.map_values(
                        |e: CleanupRuleConfig| (e.find@, e.replace@, e.description.deep_view()),
                    );
                    assert(triples[j] == a[j]);
                },
                None => {},
            }
        }
    }
    let mut i4: usize = 0;
    while i4 < args.cleanup.len()
        invariant
            0 <= i4 <= args.cleanup@.len(),
            cleanup_triples@.len() == n_cfg_cl + i4,
            forall|j: int|
                0 <= j < n_cfg_cl ==> ((#[trigger] cleanup_triples@[j]).0@, cleanup_triples@[
                    j
                ].1@, cleanup_triples@[j].2.deep_view()) == triples[j],
            forall|j: int| 0 <= j < i4 ==> spec_parse_cleanup_arg(args.cleanup@[j]@) is Some,
            forall|j: int|
                0 <= j < i4 ==> ((#[trigger] cleanup_triples@[n_cfg_cl + j]).0@,
                cleanup_triples@[n_cfg_cl + j].1@, cleanup_triples@[n_cfg_cl
                    + j].2.deep_view()) == (
                    spec_parse_cleanup_arg(args.cleanup@[j]@)->Some_0.0,
                    spec_parse_cleanup_arg(args.cleanup@[j]@)->Some_0.1,
                    Option::<Seq<char>>::None,
                ),
        decreases args.cleanup@.len() - i4,
    {
        match parse_cleanup_arg(args.cleanup[i4].as_str()) {
            Ok(fr) => {
                cleanup_triples.push((fr.0, fr.1, None));
            },
            Err(e) => {
                proof {
                    assert(spec_parse_cleanup_arg(args.cleanup@[i4 as int]@) is None);
                    assert(!spec_all_cleanup_args_parse(*args));
                }
                return Err(e);
            },
        }
        i4 += 1;
    }
    match &args.cleanup_pattern {
        Some(p) => {
            let rr: String = match &args.cleanup_replacement {
                Some(x) => x.clone(),
                None => "".to_owned(),
            };
            let d: Option<String> = match &args.cleanup_description {
                Some(d) => Some(d.clone()),
                None => None,
            };
            proof {
                reveal_strlit("");
                assert(rr@ == (match args.cleanup_replacement {
                    Some(x) => x@,
                    None => Seq::<char>::empty(),
                }));
            }
            cleanup_triples.push((p.clone(), rr, d));
        },
        None => {},
    }
    let ghost n_arg_cl = cleanup_triples@.len();
    proof {
        let b = args.cleanup@.map_values(
            |raw: String|
                (
                    spec_parse_cleanup_arg(raw@)->Some_0.0,
                    spec_parse_cleanup_arg(raw@)->Some_0.1,
                    Option::<Seq<char>>::None,
                ),
        );
        let n_args_only = n_cfg_cl + args.cleanup@.len();
        assert forall|j: int|
            0 <= j < n_arg_cl implies ((#[trigger] cleanup_triples@[j]).0@, cleanup_triples@[
            j
        ].1@, cleanup_triples@[j].2.deep_view()) == triples[j] by {
            if j >= n_cfg_cl && j < n_args_only {
                let k = j - n_cfg_cl;
                assert(((cleanup_triples@[n_cfg_cl + k]).0@, cleanup_triples@[n_cfg_cl + k].1@,
                cleanup_triples@[n_cfg_cl + k].2.deep_view()) == (
                    spec_parse_cleanup_arg(args.cleanup@[k]@)->Some_0.0,
                    spec_parse_cleanup_arg(args.cleanup@[k]@)->Some_0.1,
                    Option::<Seq<char>>::None,
                ));
                assert(triples[j] == b[k]);
            } else if j >= n_args_only {
                match args.cleanup_pattern {
                    Some(p) => {
                        assert(j == n_args_only);
                    },
                    None => {
                        assert(false);
                    },
                }
            }
        }
    }
    let mut i5: usize = 0;
    while i5 < builtin_cleanups.len()
        invariant
            0 <= i5 <= builtin_cleanups@.len(),
            cleanup_triples@.len() == n_arg_cl + i5,
            forall|j: int|
                0 <= j < n_arg_cl ==> ((#[trigger] cleanup_triples@[j]).0@, cleanup_triples@[
                    j
                ].1@, cleanup_triples@[j].2.deep_view()) == triples[j],
            forall|j: int|
                0 <= j < i5 ==> (#[trigger] cleanup_triples@[n_arg_cl + j]).0@
                    == builtin_cleanups@[j].find@ && cleanup_triples@[n_arg_cl + j].1@
                    == builtin_cleanups@[j].replace@ && cleanup_triples@[n_arg_cl
                    + j].2.deep_view() == builtin_cleanups@[j].description.deep_view(),
        decreases builtin_cleanups@.len() - i5,
    {
        let e = &builtin_cleanups[i5];
        let d: Option<String> = match &e.description {
            Some(d) => Some(d.clone()),
            None => None,
        };
        cleanup_triples.push((e.find.clone(), e.replace.clone(), d));
        i5 += 1;
    }
    proof {
        let cmap = builtin_cleanups@.map_values(
            |e: CleanupRuleConfig| (e.find@, e.replace@, e.description.deep_view()),
        );
        assert(cleanup_triples@.len() == triples.len());
        assert forall|j: int|
            0 <= j < triples.len() implies ((#[trigger] cleanup_triples@[j]).0@,
        cleanup_triples@[j].1@, cleanup_triples@[j].2.deep_view()) == triples[j] by {
            if j >= n_arg_cl {
                let k = j - n_arg_cl;
                assert((cleanup_triples@[n_arg_cl + k]).0@ == builtin_cleanups@[k].find@
                    && cleanup_triples@[n_arg_cl + k].1@ == builtin_cleanups@[k].replace@
                    && cleanup_triples@[n_arg_cl + k].2.deep_view()
                    == builtin_cleanups@[k].description.deep_view());
                assert(triples[j] == cmap[k]);
            }
        }
    }
    let cleanup_rules = match compile_cleanup_triples(&cleanup_triples) {
        Ok(rules) => rules,
        Err(e) => {
            proof {
                assert(!(forall|i: int|
                    0 <= i < cleanup_triples@.len() ==> pattern_compiles(
                        #[trigger] cleanup_triples@[i].0@,
                    )));
                let k = choose|k: int|
                    0 <= k < cleanup_triples@.len() && !pattern_compiles(
                        #[trigger] cleanup_triples@[k].0@,
                    );
                assert(((cleanup_triples@[k]).0@, cleanup_triples@[k].1@, cleanup_triples@[
                    k
                ].2.deep_view()) == triples[k]);
                assert(!pattern_compiles(triples[k].0));
                assert(!spec_all_cleanups_compile(triples));
            }
            return Err(e);
        },
    };
    proof {
        assert forall|i: int| 0 <= i < triples.len() implies pattern_compiles(
            #[trigger] triples[i].0,
        ) by {
            assert(((cleanup_triples@[i]).0@, cleanup_triples@[i].1@, cleanup_triples@[
                i
            ].2.deep_view()) == triples[i]);
            assert(pattern_compiles(cleanup_triples@[i].0@));
        }
        assert forall|i: int|
            0 <= i < triples.len() implies regex_source(#[trigger] cleanup_rules@[i].regex)
            == triples[i].0 && cleanup_rules@[i].pattern_source@ == triples[i].0
            && cleanup_rules@[i].replace@ == triples[i].1 && cleanup_rules@[
            i
        ].description.deep_view() == triples[i].2 by {
            assert(((cleanup_triples@[i]).0@, cleanup_triples@[i].1@, cleanup_triples@[
                i
            ].2.deep_view()) == triples[i]);
            assert(regex_source(cleanup_rules@[i].regex) == cleanup_triples@[i].0@);
        }
        assert(spec_cleanup_rules_match(cleanup_rules@, triples));
    }
    Ok(cleanup_rules)
}

/// Resolves one invocation, a loaded configuration, and the built-in rule
/// tables into the options of a lint run, or the first configuration error.
/// The built-in tables are injected here so the rest of the library stays a
/// pure function of its arguments.
#[verifier::rlimit(100)]
pub fn resolve_options(
    args: &LintArgs,
    config: &Option<FileConfig>,
    builtin_excludes: &Vec<ExcludeRuleConfig>,
    builtin_cleanups: &Vec<CleanupRuleConfig>,
) -> (r: Result<ResolvedLint, ConfigError>)
    ensures
        r is Ok <==> spec_resolve_succeeds(*args, *config, builtin_excludes@, builtin_cleanups@),
        r matches Ok(res) ==> spec_resolved_fields(
            *args,
            *config,
            builtin_excludes@,
            builtin_cleanups@,
            res,
        ),
        r matches Err(e) ==> spec_resolve_error(*args, *config, e),
{
    let ghost n = spec_effective_preset_name(*args, *config);
    let preset_name: String = match &args.preset {
        Some(p) => p.clone(),
        None => match config {
            Some(c) => match &c.preset {
                Some(p) => p.clone(),
                None => "conventional".to_owned(),
            },
            None => "conventional".to_owned(),
        },
    };
    proof {
        assert(preset_name@ == n);
    }
    let preset: Preset = match resolve_preset(preset_name.as_str()) {
        Some(p) => p,
        None => {
            proof {
                assert(!spec_preset_known(n));
                assert(!spec_resolve_succeeds(
                    *args,
                    *config,
                    builtin_excludes@,
                    builtin_cleanups@,
                ));
            }
            return Err(ConfigError::UnknownPreset { name: preset_name });
        },
    };
    match config {
        Some(c) => {
            let sl = match c.rules.single_line {
                Some(b) => b,
                None => false,
            };
            let rb = match c.rules.require_body {
                Some(b) => b,
                None => false,
            };
            if sl && rb {
                proof {
                    assert(spec_policy_conflict(*config));
                    assert(!spec_resolve_succeeds(
                        *args,
                        *config,
                        builtin_excludes@,
                        builtin_cleanups@,
                    ));
                }
                return Err(ConfigError::ConflictingBodyRules);
            }
        },
        None => {},
    }
    let mut enforce = preset.enforce_spec;
    let pat_pair: (String, Option<String>) = match &args.msg_pattern {
        Some(p) => {
            enforce = false;
            let d: Option<String> = match &args.msg_pattern_description {
                Some(d) => Some(d.clone()),
                None => {
                    let mut m = "Commit message must match pattern `".to_owned();
                    m.append(p.as_str());
                    m.append("`");
                    Some(m)
                },
            };
            (p.clone(), d)
        },
        None => {
            let base: (String, Option<String>) = match config {
                Some(c) => match &c.rules.message {
                    Some(m) => {
                        enforce = false;
                        let d: Option<String> = match &m.description {
                            Some(d) => Some(d.clone()),
                            None => None,
                        };
                        (m.pattern.clone(), d)
                    },
                    None => (preset.message_pattern.to_owned(), Some(
                        preset.description.to_owned(),
                    )),
                },
                None => (preset.message_pattern.to_owned(), Some(preset.description.to_owned())),
            };
            match &args.msg_pattern_description {
                Some(d) => (base.0, Some(d.clone())),
                None => base,
            }
        },
    };
    proof {
        assert(enforce == spec_effective_enforce(*args, *config, n));
        assert(pat_pair.0@ == spec_effective_pattern(*args, *config, n).0);
        assert(pat_pair.1.deep_view() == spec_effective_pattern(*args, *config, n).1);
    }
    let ghost pat_src_view = pat_pair.0@;
    let mp = match build_message_pattern(pat_pair.0.as_str(), pat_pair.1) {
        Ok(mp) => mp,
        Err(e) => {
            proof {
                assert(!pattern_compiles(pat_src_view));
                assert(!spec_resolve_succeeds(
                    *args,
                    *config,
                    builtin_excludes@,
                    builtin_cleanups@,
                ));
            }
            return Err(e);
        },
    };
    let ghost pairs = spec_exclude_pairs(*args, *config, builtin_excludes@);
    let ghost triples = spec_cleanup_triples(*args, *config, builtin_cleanups@);
    let exclude_rules = match build_exclude_set(args, config, builtin_excludes) {
        Ok(rules) => rules,
        Err(e) => {
            proof {
                assert(!spec_resolve_succeeds(
                    *args,
                    *config,
                    builtin_excludes@,
                    builtin_cleanups@,
                ));
            }
            return Err(e);
        },
    };
    let cleanup_rules = match build_cleanup_set(args, config, builtin_cleanups) {
        Ok(rules) => rules,
        Err(e) => {
            proof {
                assert(!spec_resolve_succeeds(
                    *args,
                    *config,
                    builtin_excludes@,
                    builtin_cleanups@,
                ));
            }
            return Err(e);
        },
    };
    let body_policy = if args.single_line {
        BodyPolicy::SingleLine
    } else if args.require_body {
        BodyPolicy::RequireBody
    } else {
        match config {
            Some(c) => {
                if match c.rules.single_line {
                    Some(b) => b,
                    None => false,
                } {
                    BodyPolicy::SingleLine
                } else if match c.rules.require_body {
                    Some(b) => b,
                    None => false,
                } {
                    BodyPolicy::RequireBody
                } else {
                    let mut p = preset.body_policy;
                    if matches!(c.rules.single_line, Some(false)) && matches!(
                        p,
                        BodyPolicy::SingleLine,
                    ) {
                        p = BodyPolicy::Any;
                    }
                    if matches!(c.rules.require_body, Some(false)) && matches!(
                        p,
                        BodyPolicy::RequireBody,
                    ) {
                        p = BodyPolicy::Any;
                    }
                    p
                }
            },
            None => preset.body_policy,
        }
    };
    let write = if args.write {
        true
    } else {
        match config {
            Some(c) => match c.write {
                Some(b) => b,
                None => false,
            },
            None => false,
        }
    };
    let exit_nonzero_on_rewrite = if args.exit_nonzero_on_rewrite {
        true
    } else {
        match config {
            Some(c) => match c.rules.exit_nonzero_on_rewrite {
                Some(b) => b,
                None => false,
            },
            None => false,
        }
    };
    proof {
        assert(body_policy == spec_effective_policy(*args, *config, spec_preset_policy(n)));
    }
    let ghost exr = exclude_rules@;
    let ghost clr = cleanup_rules@;
    let res = ResolvedLint {
        options: LintOptions {
            message_pattern: Some(mp),
            exclude_rules,
            cleanup_rules,
            body_policy,
            enforce_conventional_spec: enforce,
            autofix: false,
        },
        write,
        exit_nonzero_on_rewrite,
    };
    proof {
        assert(spec_resolve_succeeds(*args, *config, builtin_excludes@, builtin_cleanups@));
        assert(res.options.exclude_rules@ == exr);
        assert(res.options.cleanup_rules@ == clr);
        assert(spec_exclude_rules_match(res.options.exclude_rules@, pairs));
        assert(spec_cleanup_rules_match(res.options.cleanup_rules@, triples));
        lemma_fields_assemble(
            *args,
            *config,
            builtin_excludes@,
            builtin_cleanups@,
            pairs,
            triples,
            res,
        );
    }
    Ok(res)
}

} // verus!
