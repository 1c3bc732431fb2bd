//! Rule types, the option set of one lint run, and the outcome.

use vstd::prelude::*;

use crate::chars::{chars_to_string, spec_is_blank, spec_lines, spec_trim, str_to_chars, trim};
use crate::conventional::{
    header_line_of, push_lit, spec_validate_body_policy, spec_validate_conventional,
    validate_body_policy, validate_conventional,
};
use crate::rx::{
    compile_regex, pattern_compiles, regex_error_text, regex_is_match, regex_match, regex_replace,
    regex_replace_all, regex_source,
};

verus! {

/// A compiled pattern the header line must match, with an optional
/// description used as the violation message.
#[derive(Debug)]
pub struct MessagePattern {
    pub regex: regex::Regex,
    pub description: Option<String>,
}

/// A compiled pattern no message may match, with an optional custom message
/// and the pattern text it was built from.
#[derive(Debug)]
pub struct ExcludeRule {
    pub regex: regex::Regex,
    pub message: Option<String>,
    pub pattern_source: String,
}

/// A compiled rewrite: every match of the pattern is replaced by the literal
/// replacement text.
#[derive(Debug)]
pub struct CleanupRule {
    pub regex: regex::Regex,
    pub replace: String,
    pub description: Option<String>,
    pub pattern_source: String,
}

/// The shape the lines after the header must have.
#[derive(Debug, Clone, Copy, PartialEq, Eq, Structural)]
pub enum BodyPolicy {
    Any,
    SingleLine,
    RequireBody,
}

impl Default for BodyPolicy {
    fn default() -> (r: Self)
        ensures
            r == BodyPolicy::Any,
    {
        BodyPolicy::Any
    }
}

/// Everything one lint run goes by, compiled once and reusable.
#[derive(Debug)]
pub struct LintOptions {
    pub message_pattern: Option<MessagePattern>,
    pub exclude_rules: Vec<ExcludeRule>,
    pub cleanup_rules: Vec<CleanupRule>,
    pub body_policy: BodyPolicy,
    pub enforce_conventional_spec: bool,
    pub autofix: bool,
}

impl Default for LintOptions {
    fn default() -> (r: Self)
        ensures
            r.message_pattern is None,
            r.exclude_rules@.len() == 0,
            r.cleanup_rules@.len() == 0,
            r.body_policy == BodyPolicy::Any,
            !r.enforce_conventional_spec,
            !r.autofix,
    {
        LintOptions {
            message_pattern: None,
            exclude_rules: Vec::new(),
            cleanup_rules: Vec::new(),
            body_policy: BodyPolicy::Any,
            enforce_conventional_spec: false,
            autofix: false,
        }
    }
}

/// What one lint run reports: findings on the message as given, the rewritten
/// message, what each rewrite step did, and findings on the rewritten text.
#[derive(Debug)]
pub struct LintOutcome {
    pub violations_before: Vec<String>,
    pub violations_after: Vec<String>,
    pub warnings_before: Vec<String>,
    pub warnings_after: Vec<String>,
    pub cleaned_message: String,
    pub cleanup_summaries: Vec<String>,
}

/// Why rules could not be built.
#[derive(Debug)]
pub enum ConfigError {
    /// A pattern the regex crate refused, with the engine's explanation.
    InvalidPattern { pattern: String, detail: String },
    /// A preset name nothing resolves to.
    UnknownPreset { name: String },
    /// Both the single-line and the require-body rule were requested.
    ConflictingBodyRules,
    /// A cleanup argument without a `find->replace` separator.
    InvalidCleanupArgument { argument: String },
}

impl ConfigError {
    /// A human-readable account of the error.
    pub fn message(&self) -> String {
        match self {
            ConfigError::InvalidPattern { pattern, detail } => {
                let mut m = "invalid regex `".to_owned();
                m.append(pattern.as_str());
                m.append("`: ");
                m.append(detail.as_str());
                m
            },
            ConfigError::UnknownPreset { name } => {
                let mut m = "unknown preset `".to_owned();
                m.append(name.as_str());
                m.append("`");
                m
            },
            ConfigError::ConflictingBodyRules => {
                "configuration cannot enable both `single_line` and `require_body` rules".to_owned()
            },
            ConfigError::InvalidCleanupArgument { argument } => {
                let mut m = "cleanup argument must use `find->replace` format (got `".to_owned();
                m.append(argument.as_str());
                m.append("`)");
                m
            },
        }
    }
}

/// Compiles the header pattern.
pub fn build_message_pattern(pattern: &str, description: Option<String>) -> (r: Result<
    MessagePattern,
    ConfigError,
>)
    ensures
        r is Ok <==> pattern_compiles(pattern@),
        r matches Ok(mp) ==> regex_source(mp.regex) == pattern@ && mp.description == description,
        r matches Err(e) ==> e matches ConfigError::InvalidPattern { pattern: p, detail: _ }
            && p@ == pattern@,
{
    match compile_regex(pattern) {
        Ok(regex) => Ok(MessagePattern { regex, description }),
        Err(e) => Err(
            ConfigError::InvalidPattern {
                pattern: pattern.to_owned(),
                detail: regex_error_text(&e),
            },
        ),
    }
}

/// Compiles an exclude rule.
pub fn build_exclude_rule(pattern: &str, message: Option<String>) -> (r: Result<
    ExcludeRule,
    ConfigError,
>)
    ensures
        r is Ok <==> pattern_compiles(pattern@),
        r matches Ok(rule) ==> regex_source(rule.regex) == pattern@ && rule.message == message
            && rule.pattern_source@ == pattern@,
        r matches Err(e) ==> e matches ConfigError::InvalidPattern { pattern: p, detail: _ }
            && p@ == pattern@,
{
    match compile_regex(pattern) {
        Ok(regex) => Ok(
            ExcludeRule { regex, message, pattern_source: pattern.to_owned() },
        ),
        Err(e) => Err(
            ConfigError::InvalidPattern {
                pattern: pattern.to_owned(),
                detail: regex_error_text(&e),
            },
        ),
    }
}

/// Compiles a cleanup rule.
pub fn build_cleanup_rule(find: &str, replace: &str, description: Option<String>) -> (r: Result<
    CleanupRule,
    ConfigError,
>)
    ensures
        r is Ok <==> pattern_compiles(find@),
        r matches Ok(rule) ==> regex_source(rule.regex) == find@ && rule.replace@ == replace@
            && rule.description == description && rule.pattern_source@ == find@,
        r matches Err(e) ==> e matches ConfigError::InvalidPattern { pattern: p, detail: _ }
            && p@ == find@,
{
    match compile_regex(find) {
        Ok(regex) => Ok(
            CleanupRule {
                regex,
                replace: replace.to_owned(),
                description,
                pattern_source: find.to_owned(),
            },
        ),
        Err(e) => Err(
            ConfigError::InvalidPattern { pattern: find.to_owned(), detail: regex_error_text(&e) },
        ),
    }
}


// ------------------------------------------------------------------
// Evaluation: one pass of all validators
// ------------------------------------------------------------------

/// The message an exclude rule reports when it matches.
pub open spec fn spec_exclude_violation(rule: ExcludeRule) -> Seq<char> {
    match rule.message {
        Some(m) => m@,
        None => "Commit message matches excluded pattern `"@ + rule.pattern_source@ + "`"@,
    }
}

/// The violations of the exclude rules, in rule order.
pub open spec fn spec_exclude_violations(rules: Seq<ExcludeRule>, msg: Seq<char>) -> Seq<Seq<char>>
    decreases rules.len(),
{
    if rules.len() == 0 {
        Seq::<Seq<char>>::empty()
    } else {
        (if regex_is_match(regex_source(rules[0].regex), msg) {
            seq![spec_exclude_violation(rules[0])]
        } else {
            Seq::<Seq<char>>::empty()
        }) + spec_exclude_violations(rules.drop_first(), msg)
    }
}

proof fn lemma_exclude_violations_push(rules: Seq<ExcludeRule>, r: ExcludeRule, msg: Seq<char>)
    ensures
        spec_exclude_violations(rules.push(r), msg) == spec_exclude_violations(rules, msg) + (
        if regex_is_match(regex_source(r.regex), msg) {
            seq![spec_exclude_violation(r)]
        } else {
            Seq::<Seq<char>>::empty()
        }),
    decreases rules.len(),
{
    let tailpart = if regex_is_match(regex_source(r.regex), msg) {
        seq![spec_exclude_violation(r)]
    } else {
        Seq::<Seq<char>>::empty()
    };
    if rules.len() == 0 {
        assert(rules.push(r).drop_first() =~~= rules);
        assert(rules.push(r)[0] == r);
        assert(spec_exclude_violations(rules, msg) == Seq::<Seq<char>>::empty());
        assert(spec_exclude_violations(rules.push(r), msg) == tailpart + spec_exclude_violations(
            rules.push(r).drop_first(),
            msg,
        ));
        assert(spec_exclude_violations(rules.push(r), msg) =~~= spec_exclude_violations(
            rules,
            msg,
        ) + tailpart);
    } else {
        assert(rules.push(r).drop_first() =~~= rules.drop_first().push(r));
        lemma_exclude_violations_push(rules.drop_first(), r, msg);
        assert(rules.push(r)[0] == rules[0]);
        assert(spec_exclude_violations(rules.push(r), msg) =~~= spec_exclude_violations(
            rules,
            msg,
        ) + tailpart);
    }
}

/// The violation when the header misses the configured pattern.
pub open spec fn spec_pattern_violation(p: MessagePattern) -> Seq<char> {
    match p.description {
        Some(d) => d@,
        None => "Commit message does not match required pattern"@,
    }
}

/// One validation pass: exclude rules over the whole text, then the header
/// checks, then either the conventional rules or the plain body policy.
/// The single-line policy applies under the conventional rules too, which
/// otherwise only know the required-body policy.  Violations come first,
/// warnings second.  An empty header ends the pass.
pub open spec fn spec_evaluate(msg: Seq<char>, options: LintOptions) -> (
    Seq<Seq<char>>,
    Seq<Seq<char>>,
) {
    let ex = spec_exclude_violations(options.exclude_rules@, msg);
    let header = crate::conventional::spec_header_line(msg);
    if spec_is_blank(header) {
        (ex.push("Commit message header must not be empty"@), Seq::<Seq<char>>::empty())
    } else if options.enforce_conventional_spec {
        let c = spec_validate_conventional(msg, options.body_policy);
        let sl = if options.body_policy == BodyPolicy::SingleLine {
            spec_validate_body_policy(msg, options.body_policy)
        } else {
            Seq::<Seq<char>>::empty()
        };
        (ex + c.0 + sl, c.1)
    } else {
        let pv = match options.message_pattern {
            Some(p) => if !regex_is_match(regex_source(p.regex), spec_trim(header)) {
                seq![spec_pattern_violation(p)]
            } else {
                Seq::<Seq<char>>::empty()
            },
            None => Seq::<Seq<char>>::empty(),
        };
        (
            ex + pv + spec_validate_body_policy(msg, options.body_policy),
            Seq::<Seq<char>>::empty(),
        )
    }
}

fn evaluate_message(message: &str, options: &LintOptions) -> (r: (Vec<String>, Vec<String>))
    ensures
        r.0.deep_view() == spec_evaluate(message@, *options).0,
        r.1.deep_view() == spec_evaluate(message@, *options).1,
{
    let msg_chars = str_to_chars(message);
    let mut violations: Vec<String> = Vec::new();
    let mut i: usize = 0;
    proof {
        assert(options.exclude_rules@.take(0) =~= Seq::<ExcludeRule>::empty());
        assert(violations.deep_view() =~~= spec_exclude_violations(
            options.exclude_rules@.take(0),
            message@,
        ));
    }
    while i < options.exclude_rules.len()
        invariant
            0 <= i <= options.exclude_rules@.len(),
            violations.deep_view() == spec_exclude_violations(
                options.exclude_rules@.take(i as int),
                message@,
            ),
        decreases options.exclude_rules@.len() - i,
    {
        let rule = &options.exclude_rules[i];
        let ghost base = violations.deep_view();
        if regex_match(&rule.regex, message) {
            let m: String = match &rule.message {
                Some(m) => m.clone(),
                None => {
                    let mut d = "Commit message matches excluded pattern `".to_owned();
                    d.append(rule.pattern_source.as_str());
                    d.append("`");
                    d
                },
            };
            proof {
                assert(m@ == spec_exclude_violation(*rule));
            }
            violations.push(m);
            proof {
                assert(violations.deep_view() =~~= base.push(spec_exclude_violation(*rule)));
            }
        }
        proof {
            lemma_exclude_violations_push(
                options.exclude_rules@.take(i as int),
                options.exclude_rules@[i as int],
                message@,
            );
            assert(options.exclude_rules@.take(i as int).push(options.exclude_rules@[i as int])
                =~~= options.exclude_rules@.take(i as int + 1));
            assert(violations.deep_view() =~~= spec_exclude_violations(
                options.exclude_rules@.take(i as int + 1),
                message@,
            ));
        }
        i += 1;
    }
    proof {
        assert(options.exclude_rules@.take(options.exclude_rules@.len() as int)
            =~= options.exclude_rules@);
    }
    let header = header_line_of(&msg_chars);
    let header_trimmed = trim(&header);
    proof {
        crate::chars::lemma_blank_iff_trim_empty(header@);
    }
    if header_trimmed.len() == 0 {
        push_lit(&mut violations, "Commit message header must not be empty");
        return (violations, Vec::new());
    }
    if options.enforce_conventional_spec {
        let c = validate_conventional(&msg_chars, options.body_policy);
        let mut errs = c.0;
        let ghost base = violations.deep_view();
        violations.append(&mut errs);
        proof {
            assert(violations.deep_view() =~~= base + spec_validate_conventional(
                message@,
                options.body_policy,
            ).0);
        }
        let mut single: Vec<String> = match options.body_policy {
            BodyPolicy::SingleLine => validate_body_policy(&msg_chars, options.body_policy),
            _ => Vec::new(),
        };
        let ghost base2 = violations.deep_view();
        proof {
            if options.body_policy != BodyPolicy::SingleLine {
                assert(single.deep_view() =~~= Seq::<Seq<char>>::empty());
            }
        }
        violations.append(&mut single);
        proof {
            assert(violations.deep_view() =~~= spec_evaluate(message@, *options).0);
        }
        (violations, c.1)
    } else {
        match &options.message_pattern {
            Some(p) => {
                let ht = chars_to_string(&header_trimmed);
                if !regex_match(&p.regex, ht.as_str()) {
                    let d: String = match &p.description {
                        Some(d) => d.clone(),
                        None => "Commit message does not match required pattern".to_owned(),
                    };
                    let ghost base = violations.deep_view();
                    proof {
                        assert(d@ == spec_pattern_violation(options.message_pattern->Some_0));
                    }
                    violations.push(d);
                    proof {
                        assert(violations.deep_view() =~~= base.push(
                            spec_pattern_violation(options.message_pattern->Some_0),
                        ));
                    }
                }
            },
            None => {},
        }
        let mut pol = validate_body_policy(&msg_chars, options.body_policy);
        let ghost base = violations.deep_view();
        violations.append(&mut pol);
        proof {
            assert(violations.deep_view() =~~= base + spec_validate_body_policy(
                message@,
                options.body_policy,
            ));
            assert(violations.deep_view() =~~= spec_evaluate(message@, *options).0);
        }
        (violations, Vec::new())
    }
}

// ------------------------------------------------------------------
// The cleanup pipeline
// ------------------------------------------------------------------

/// The summary a cleanup rule records when it changed the text.
pub open spec fn spec_cleanup_summary(rule: CleanupRule) -> Seq<char> {
    match rule.description {
        Some(d) => d@,
        None => "Applied cleanup `"@ + rule.pattern_source@ + "`"@,
    }
}

/// The rules applied in order, each a replace-all over the current text; a
/// rule contributes a summary exactly when it changed the text.
pub open spec fn spec_apply_cleanup(input: Seq<char>, rules: Seq<CleanupRule>) -> (
    Seq<char>,
    Seq<Seq<char>>,
)
    decreases rules.len(),
{
    if rules.len() == 0 {
        (input, Seq::<Seq<char>>::empty())
    } else {
        let replaced = regex_replace_all(regex_source(rules[0].regex), input, rules[0].replace@);
        let cur = if replaced != input {
            replaced
        } else {
            input
        };
        let sums = if replaced != input {
            seq![spec_cleanup_summary(rules[0])]
        } else {
            Seq::<Seq<char>>::empty()
        };
        let rest = spec_apply_cleanup(cur, rules.drop_first());
        (rest.0, sums + rest.1)
    }
}

fn apply_cleanup(input: &str, rules: &Vec<CleanupRule>) -> (r: (String, Vec<String>))
    ensures
        r.0@ == spec_apply_cleanup(input@, rules@).0,
        r.1.deep_view() == spec_apply_cleanup(input@, rules@).1,
{
    let mut current: String = input.to_owned();
    let mut summaries: Vec<String> = Vec::new();
    let mut i: usize = 0;
    proof {
        assert(rules@.skip(0) =~= rules@);
        assert(summaries.deep_view() =~~= Seq::<Seq<char>>::empty());
    }
    while i < rules.len()
        invariant
            0 <= i <= rules@.len(),
            spec_apply_cleanup(input@, rules@).0 == spec_apply_cleanup(
                current@,
                rules@.skip(i as int),
            ).0,
            spec_apply_cleanup(input@, rules@).1 == summaries.deep_view() + spec_apply_cleanup(
                current@,
                rules@.skip(i as int),
            ).1,
        decreases rules@.len() - i,
    {
        let ghost rem = rules@.skip(i as int);
        proof {
            assert(rem[0] == rules@[i as int]);
            assert(rem.drop_first() =~= rules@.skip(i as int + 1));
        }
        let rule = &rules[i];
        let replaced = regex_replace(&rule.regex, current.as_str(), rule.replace.as_str());
        let changed = !(replaced == current);
        if changed {
            let m: String = match &rule.description {
                Some(d) => d.clone(),
                None => {
                    let mut d = "Applied cleanup `".to_owned();
                    d.append(rule.pattern_source.as_str());
                    d.append("`");
                    d
                },
            };
            proof {
                assert(m@ == spec_cleanup_summary(*rule));
            }
            let ghost base = summaries.deep_view();
            summaries.push(m);
            current = replaced;
            proof {
                assert(summaries.deep_view() =~~= base.push(spec_cleanup_summary(*rule)));
                assert(spec_apply_cleanup(input@, rules@).1 =~~= summaries.deep_view()
                    + spec_apply_cleanup(current@, rules@.skip(i as int + 1)).1);
            }
        } else {
            proof {
                assert(spec_apply_cleanup(input@, rules@).1 =~~= summaries.deep_view()
                    + spec_apply_cleanup(current@, rules@.skip(i as int + 1)).1);
            }
        }
        i += 1;
    }
    proof {
        assert(rules@.skip(rules@.len() as int) =~= Seq::<CleanupRule>::empty());
    }
    (current, summaries)
}

// ------------------------------------------------------------------
// The full lint run
// ------------------------------------------------------------------

/// The whole rewrite pipeline: the cleanup rules, then, when autofix is on,
/// the structural autofix.
pub open spec fn spec_cleanup_pipeline(msg: Seq<char>, options: LintOptions) -> (
    Seq<char>,
    Seq<Seq<char>>,
) {
    let c = spec_apply_cleanup(msg, options.cleanup_rules@);
    if options.autofix {
        let f = crate::autofix::spec_apply_autofix(c.0, options.enforce_conventional_spec);
        (f.0, c.1 + f.1)
    } else {
        c
    }
}

/// Lints one message: evaluates it, rewrites it, and evaluates the rewritten
/// text again.  The outcome carries both passes, the rewritten message, and
/// one summary per rewrite step that changed the text.
pub fn lint_message(message: &str, options: &LintOptions) -> (outcome: LintOutcome)
    ensures
        outcome.violations_before.deep_view() == spec_evaluate(message@, *options).0,
        outcome.warnings_before.deep_view() == spec_evaluate(message@, *options).1,
        outcome.cleaned_message@ == spec_cleanup_pipeline(message@, *options).0,
        outcome.cleanup_summaries.deep_view() == spec_cleanup_pipeline(message@, *options).1,
        outcome.violations_after.deep_view() == spec_evaluate(
            spec_cleanup_pipeline(message@, *options).0,
            *options,
        ).0,
        outcome.warnings_after.deep_view() == spec_evaluate(
            spec_cleanup_pipeline(message@, *options).0,
            *options,
        ).1,
{
    let before = evaluate_message(message, options);
    let cleaned_pair = apply_cleanup(message, &options.cleanup_rules);
    let mut cleaned_message = cleaned_pair.0;
    let mut cleanup_summaries = cleaned_pair.1;
    if options.autofix {
        let fixed = crate::autofix::apply_autofix(
            cleaned_message.as_str(),
            options.enforce_conventional_spec,
        );
        let formatted = fixed.0;
        let mut format_summaries = fixed.1;
        cleaned_message = formatted;
        let ghost base = cleanup_summaries.deep_view();
        cleanup_summaries.append(&mut format_summaries);
        proof {
            assert(cleanup_summaries.deep_view() =~~= spec_cleanup_pipeline(
                message@,
                *options,
            ).1);
        }
    }
    let after = evaluate_message(cleaned_message.as_str(), options);
    LintOutcome {
        violations_before: before.0,
        violations_after: after.0,
        warnings_before: before.1,
        warnings_after: after.1,
        cleaned_message,
        cleanup_summaries,
    }
}


// ------------------------------------------------------------------
// Laws of the linter
// ------------------------------------------------------------------

/// When the single-line policy is active and the header is not blank, an
/// evaluation that reports no single-line violation means every line after
/// the header is blank, whether or not the conventional rules are enforced.
/// (A blank header stops evaluation before the policy runs, so it is
/// excluded here.)
pub proof fn lemma_single_line_is_enforced(msg: Seq<char>, options: LintOptions)
    requires
        options.body_policy == BodyPolicy::SingleLine,
        !spec_is_blank(crate::conventional::spec_header_line(msg)),
        !spec_evaluate(msg, options).0.contains("Commit message must be a single line"@),
    ensures
        forall|i: int|
            1 <= i < spec_lines(msg).len() ==> spec_is_blank(#[trigger] spec_lines(msg)[i]),
{
    let ex = spec_exclude_violations(options.exclude_rules@, msg);
    let pol = spec_validate_body_policy(msg, options.body_policy);
    if crate::conventional::spec_has_content_after_first(spec_lines(msg)) {
        assert(pol == seq!["Commit message must be a single line"@]);
        if options.enforce_conventional_spec {
            let c = spec_validate_conventional(msg, options.body_policy);
            assert(spec_evaluate(msg, options).0 == ex + c.0 + pol);
            let k = ex.len() + c.0.len();
            assert((ex + c.0 + pol)[k as int] == "Commit message must be a single line"@);
        } else {
            let pv = match options.message_pattern {
                Some(p) => if !regex_is_match(
                    regex_source(p.regex),
                    spec_trim(crate::conventional::spec_header_line(msg)),
                ) {
                    seq![spec_pattern_violation(p)]
                } else {
                    Seq::<Seq<char>>::empty()
                },
                None => Seq::<Seq<char>>::empty(),
            };
            assert(spec_evaluate(msg, options).0 == ex + pv + pol);
            let k = ex.len() + pv.len();
            assert((ex + pv + pol)[k as int] == "Commit message must be a single line"@);
        }
        assert(spec_evaluate(msg, options).0.contains(
            "Commit message must be a single line"@,
        ));
        assert(false);
    }
}


/// A rewrite pipeline with no cleanup rules is idempotent: rerunning it on
/// its own output returns the same text and an empty summary list.
/// (Idempotence cannot hold of arbitrary cleanup rules: a rule may
/// reintroduce its own pattern.)
pub proof fn lemma_cleanup_pipeline_idempotent(msg: Seq<char>, options: LintOptions)
    requires
        options.cleanup_rules@.len() == 0,
    ensures
        spec_cleanup_pipeline(spec_cleanup_pipeline(msg, options).0, options).0
            == spec_cleanup_pipeline(msg, options).0,
        spec_cleanup_pipeline(spec_cleanup_pipeline(msg, options).0, options).1 == Seq::<
            Seq<char>,
        >::empty(),
{
    let out = spec_cleanup_pipeline(msg, options).0;
    assert(spec_apply_cleanup(msg, options.cleanup_rules@) == (
        msg,
        Seq::<Seq<char>>::empty(),
    ));
    assert(spec_apply_cleanup(out, options.cleanup_rules@) == (
        out,
        Seq::<Seq<char>>::empty(),
    ));
    if options.autofix {
        crate::autofix::lemma_autofix_idempotent(msg, options.enforce_conventional_spec);
        assert(out == crate::autofix::spec_apply_autofix(
            msg,
            options.enforce_conventional_spec,
        ).0);
        assert(spec_cleanup_pipeline(out, options).1 =~~= Seq::<Seq<char>>::empty());
    } else {
        assert(spec_cleanup_pipeline(out, options).1 =~~= Seq::<Seq<char>>::empty());
    }
}


/// The exit code a lint run earns.  The violations that count are those
/// found after the rewrite when the rewrite is written back, else those
/// found before; a written rewrite can itself demand a non-zero exit.
pub open spec fn spec_exit_code(
    outcome: LintOutcome,
    original: Seq<char>,
    write_requested: bool,
    exit_nonzero_on_rewrite: bool,
) -> int {
    let active = if write_requested {
        outcome.violations_after@
    } else {
        outcome.violations_before@
    };
    if active.len() == 0 {
        if write_requested && outcome.cleaned_message@ != original && exit_nonzero_on_rewrite {
            1
        } else {
            0
        }
    } else {
        1
    }
}

pub fn lint_exit_code(
    outcome: &LintOutcome,
    original: &str,
    write_requested: bool,
    exit_nonzero_on_rewrite: bool,
) -> (code: i32)
    ensures
        code as int == spec_exit_code(*outcome, original@, write_requested, exit_nonzero_on_rewrite),
{
    let active_len = if write_requested {
        outcome.violations_after.len()
    } else {
        outcome.violations_before.len()
    };
    if active_len == 0 {
        let cleaned = crate::chars::str_to_chars(outcome.cleaned_message.as_str());
        let orig = crate::chars::str_to_chars(original);
        let unchanged = crate::chars::seq_eq(&cleaned, &orig);
        if write_requested && !unchanged && exit_nonzero_on_rewrite {
            1
        } else {
            0
        }
    } else {
        1
    }
}

} // verus!
