use gitfluff::casing::{
    is_disallowed_subject_case, is_pascal_case, is_sentence_case, is_start_case, is_upper_case,
    words_of,
};
use gitfluff::cli::LintArgs;
use gitfluff::config::{
    parse_cleanup_arg, parse_exclude_arg, resolve_options, CleanupRuleConfig, ExcludeRuleConfig,
    FileConfig,
};
use gitfluff::hooks::{hook_filename, hook_label, hook_script, parse_gitdir_pointer, HookKind};
use gitfluff::lint::{
    build_cleanup_rule, build_exclude_rule, build_message_pattern, lint_exit_code, lint_message,
    BodyPolicy, ConfigError, LintOptions,
};
use gitfluff::conventional::conventional_errors;
use gitfluff::parse::{detect_footer_start, parse_footer_entries, split_body_and_footer};
use gitfluff::presets::resolve_preset;

fn chars(s: &str) -> Vec<char> {
    s.chars().collect()
}

fn lines(ls: &[&str]) -> Vec<Vec<char>> {
    ls.iter().map(|l| chars(l)).collect()
}

#[test]
fn empty_message_reports_exactly_the_header_violation() {
    let options = LintOptions::default();
    let outcome = lint_message("", &options);
    assert_eq!(
        outcome.violations_before,
        vec!["Commit message header must not be empty"]
    );
    assert!(outcome.warnings_before.is_empty());
}

#[test]
fn custom_exclude_message_is_the_only_violation() {
    let exclude = build_exclude_rule("(?i)wip", Some("WIP commits disallowed".into())).unwrap();
    let mut options = LintOptions::default();
    options.exclude_rules.push(exclude);
    let outcome = lint_message("WIP: quick fix", &options);
    assert_eq!(outcome.violations_before, vec!["WIP commits disallowed"]);
}

#[test]
fn exclude_without_message_reports_the_pattern() {
    let exclude = build_exclude_rule("fixup!", None).unwrap();
    let mut options = LintOptions::default();
    options.exclude_rules.push(exclude);
    let outcome = lint_message("fixup! earlier work", &options);
    assert_eq!(
        outcome.violations_before,
        vec!["Commit message matches excluded pattern `fixup!`"]
    );
}

#[test]
fn invalid_pattern_is_rejected_eagerly() {
    assert!(matches!(
        build_message_pattern("(", None),
        Err(ConfigError::InvalidPattern { .. })
    ));
    assert!(matches!(
        build_exclude_rule("(", None),
        Err(ConfigError::InvalidPattern { .. })
    ));
    assert!(matches!(
        build_cleanup_rule("(", "", None),
        Err(ConfigError::InvalidPattern { .. })
    ));
}

#[test]
fn autofix_is_idempotent_on_its_own_output() {
    let mut options = LintOptions::default();
    options.autofix = true;
    let message = "feat: demo   \r\nline two\t\n\n\n\n\nend  \n\n\n";
    let first = lint_message(message, &options);
    let second = lint_message(first.cleaned_message.as_str(), &options);
    assert_eq!(second.cleaned_message, first.cleaned_message);
    assert!(second.cleanup_summaries.is_empty());
    assert_eq!(first.cleaned_message, "feat: demo\nline two\n\nend");
}

#[test]
fn autofix_separator_insertions_are_idempotent() {
    let mut options = LintOptions::default();
    options.autofix = true;
    options.enforce_conventional_spec = true;
    let message = "feat: demo
body right away
Refs: 7


";
    let first = lint_message(message, &options);
    assert_eq!(
        first.cleaned_message,
        "feat: demo

body right away

Refs: 7"
    );
    assert_eq!(
        first.cleanup_summaries,
        vec![
            "Trim trailing whitespace",
            "Trim leading/trailing blank lines",
            "Insert blank line before body",
            "Insert blank line before footers"
        ]
    );
    let second = lint_message(first.cleaned_message.as_str(), &options);
    assert_eq!(second.cleaned_message, first.cleaned_message);
    assert!(second.cleanup_summaries.is_empty());
}

#[test]
fn header_only_message_parses_to_empty_body_and_footer() {
    let (body, footer, start) = split_body_and_footer(&lines(&[]));
    assert!(body.is_empty());
    assert!(footer.is_empty());
    assert!(start.is_none());

    let (body, footer, start) = split_body_and_footer(&lines(&["", "   "]));
    assert!(body.is_empty());
    assert!(footer.is_empty());
    assert!(start.is_none());
}

#[test]
fn footer_block_starts_at_the_last_token_line() {
    let rest = lines(&["", "Add parsing for foo | bar", "", "Refs: 123"]);
    assert_eq!(detect_footer_start(&rest), Some(3));
    let (body, footer, start) = split_body_and_footer(&rest);
    assert_eq!(start, Some(3));
    assert_eq!(body.len(), 3);
    assert_eq!(footer.len(), 1);
    let entries = parse_footer_entries(&footer);
    assert_eq!(entries.len(), 1);
    assert_eq!(entries[0].token, chars("Refs"));
    assert_eq!(entries[0].value, chars("123"));
}

#[test]
fn footer_values_may_wrap_onto_continuation_lines() {
    let footer = lines(&["BREAKING CHANGE: the endpoint", "  moved elsewhere"]);
    let entries = parse_footer_entries(&footer);
    assert_eq!(entries.len(), 1);
    assert_eq!(entries[0].token, chars("BREAKING CHANGE"));
    assert_eq!(entries[0].value, chars("the endpoint\n  moved elsewhere"));
}

#[test]
fn bullet_lines_are_not_footer_tokens() {
    let rest = lines(&["- Note: keep API stable"]);
    assert_eq!(detect_footer_start(&rest), None);
}

#[test]
fn single_line_policy_holds_under_conventional_rules() {
    let mut options = LintOptions::default();
    options.enforce_conventional_spec = true;
    options.body_policy = BodyPolicy::SingleLine;
    let outcome = lint_message("feat: ok\n\nbody line", &options);
    assert!(
        outcome
            .violations_before
            .contains(&"Commit message must be a single line".to_string()),
        "got {:?}",
        outcome.violations_before
    );
    let clean = lint_message("feat: ok", &options);
    assert!(
        clean.violations_before.is_empty(),
        "got {:?}",
        clean.violations_before
    );
}

#[test]
fn hash_separated_footers_are_recognized() {
    let mut options = LintOptions::default();
    options.enforce_conventional_spec = true;
    let outcome = lint_message("feat: add api\n\nCloses #123", &options);
    assert!(
        outcome.violations_before.is_empty(),
        "got {:?}",
        outcome.violations_before
    );
    assert!(outcome.warnings_before.is_empty());
}

#[test]
fn long_header_reports_its_length() {
    let mut options = LintOptions::default();
    options.enforce_conventional_spec = true;
    let subject = "x".repeat(95);
    let message = format!("feat: {subject}");
    assert_eq!(message.chars().count(), 101);
    let outcome = lint_message(&message, &options);
    assert!(outcome.violations_before.iter().any(|m| m
        == "header must not be longer than 100 characters, current length is 101"),
        "got {:?}", outcome.violations_before);
}

#[test]
fn unknown_type_and_casing_are_reported() {
    let mut options = LintOptions::default();
    options.enforce_conventional_spec = true;
    let outcome = lint_message("wip: Fix The Login Flow", &options);
    assert!(outcome
        .violations_before
        .contains(&"type must be one of [build, chore, ci, docs, feat, fix, perf, refactor, revert, style, test]".to_string()));
    assert!(outcome.violations_before.contains(
        &"subject must not be sentence-case, start-case, pascal-case, upper-case".to_string()
    ));
}

#[test]
fn unicode_word_types_reach_the_type_check() {
    let mut options = LintOptions::default();
    options.enforce_conventional_spec = true;
    let outcome = lint_message("f\u{e9}at: add accents", &options);
    assert_eq!(
        outcome.violations_before,
        vec!["type must be one of [build, chore, ci, docs, feat, fix, perf, refactor, revert, style, test]"]
    );
}

#[test]
fn decomposed_pieces_feed_the_conventional_checks() {
    let errors = conventional_errors(
        &chars("feat: Add Login Flow."),
        &chars("feat"),
        &chars("Add Login Flow."),
        &lines(&[]),
        &lines(&[]),
        BodyPolicy::Any,
    );
    assert_eq!(
        errors,
        vec![
            "subject may not end with full stop",
            "subject must not be sentence-case, start-case, pascal-case, upper-case"
        ]
    );
}

#[test]
fn subject_full_stop_and_empty_type_are_reported() {
    let mut options = LintOptions::default();
    options.enforce_conventional_spec = true;
    let outcome = lint_message(": fix login.", &options);
    assert!(outcome
        .violations_before
        .contains(&"type may not be empty".to_string()));
    assert!(outcome
        .violations_before
        .contains(&"subject may not end with full stop".to_string()));
}

#[test]
fn casing_predicates_classify_subjects() {
    assert!(is_upper_case(&chars("FIX ALL THE THINGS")));
    assert!(!is_upper_case(&chars("fix all")));
    assert!(!is_upper_case(&chars("1234")));

    assert!(is_pascal_case(&chars("FixBug")));
    assert!(!is_pascal_case(&chars("Fix Bug")));
    assert!(!is_pascal_case(&chars("fixBug")));
    assert!(!is_pascal_case(&chars("FIX")));

    assert!(is_sentence_case(&chars("Fix the login flow")));
    assert!(!is_sentence_case(&chars("fix the login flow")));
    assert!(!is_sentence_case(&chars("Fix the LOGIN flow")));
    assert!(!is_sentence_case(&chars("Fix")));

    assert!(is_start_case(&chars("Fix The Login Flow")));
    assert!(!is_start_case(&chars("Fix the login flow")));

    assert!(!is_disallowed_subject_case(&chars("add login flow")));
    assert!(is_disallowed_subject_case(&chars("Add Login Flow")));
}

#[test]
fn words_split_on_whitespace_runs() {
    let ws = words_of(&chars("  add  the\tflow "));
    assert_eq!(ws, vec![chars("add"), chars("the"), chars("flow")]);
}

#[test]
fn presets_resolve_by_name_and_case() {
    let p = resolve_preset("conventional").unwrap();
    assert_eq!(p.body_policy, BodyPolicy::Any);
    assert!(p.enforce_spec);

    let p = resolve_preset("Conventional-Body").unwrap();
    assert_eq!(p.body_policy, BodyPolicy::RequireBody);
    assert!(p.enforce_spec);

    let p = resolve_preset("SIMPLE").unwrap();
    assert_eq!(p.body_policy, BodyPolicy::SingleLine);
    assert!(!p.enforce_spec);
    assert_eq!(p.message_pattern, "^[A-Za-z][^\\n]+$");

    assert!(resolve_preset("unheard-of").is_none());
}

#[test]
fn hook_texts_are_fixed() {
    assert_eq!(hook_filename(HookKind::CommitMsg), "commit-msg");
    assert_eq!(hook_label(HookKind::CommitMsg), "commit-msg");
    assert_eq!(
        hook_script(HookKind::CommitMsg, false),
        "#!/bin/sh\nexec gitfluff lint --from-file \"$1\"\n"
    );
    assert_eq!(
        hook_script(HookKind::CommitMsg, true),
        "#!/bin/sh\nexec gitfluff lint --from-file \"$1\" --write\n"
    );
}

#[test]
fn gitdir_pointer_files_are_read() {
    assert_eq!(
        parse_gitdir_pointer("gitdir: ../actual/.git\n"),
        Some("../actual/.git".to_string())
    );
    assert_eq!(parse_gitdir_pointer("ref: refs/heads/main"), None);
}

#[test]
fn rule_arguments_are_parsed() {
    assert_eq!(
        parse_exclude_arg("(?i)wip:no work in progress"),
        ("(?i)wip".to_string(), Some("no work in progress".to_string()))
    );
    assert_eq!(parse_exclude_arg("plain"), ("plain".to_string(), None));
    assert_eq!(parse_exclude_arg("tail:"), ("tail".to_string(), None));

    assert_eq!(
        parse_cleanup_arg("^TEMP: ->feat: ").unwrap(),
        ("^TEMP: ".to_string(), "feat: ".to_string())
    );
    assert!(matches!(
        parse_cleanup_arg("no separator"),
        Err(ConfigError::InvalidCleanupArgument { .. })
    ));
}

#[test]
fn resolving_defaults_to_the_conventional_preset() {
    let args = LintArgs::default();
    let builtin_excludes = vec![ExcludeRuleConfig {
        pattern: "(?mi)^(?:fixup|squash)! ".to_string(),
        message: Some("Remove fixup/squash markers before publishing".to_string()),
    }];
    let builtin_cleanups = vec![CleanupRuleConfig {
        find: "\\n{3,}".to_string(),
        replace: "\n\n".to_string(),
        description: Some("Collapse excessive blank lines".to_string()),
    }];
    let resolved = resolve_options(&args, &None, &builtin_excludes, &builtin_cleanups).unwrap();
    assert!(resolved.options.enforce_conventional_spec);
    assert_eq!(resolved.options.body_policy, BodyPolicy::Any);
    assert_eq!(resolved.options.exclude_rules.len(), 1);
    assert_eq!(resolved.options.cleanup_rules.len(), 1);
    assert!(!resolved.write);
    assert!(!resolved.exit_nonzero_on_rewrite);
}

#[test]
fn resolving_rejects_unknown_presets_and_conflicts() {
    let mut args = LintArgs::default();
    args.preset = Some("mystery".to_string());
    let err = resolve_options(&args, &None, &Vec::new(), &Vec::new()).unwrap_err();
    assert!(matches!(err, ConfigError::UnknownPreset { .. }));

    let args = LintArgs::default();
    let mut config = FileConfig::default();
    config.rules.single_line = Some(true);
    config.rules.require_body = Some(true);
    let err = resolve_options(&args, &Some(config), &Vec::new(), &Vec::new()).unwrap_err();
    assert!(matches!(err, ConfigError::ConflictingBodyRules));

    let mut args = LintArgs::default();
    args.exclude = vec!["(".to_string()];
    let err = resolve_options(&args, &None, &Vec::new(), &Vec::new()).unwrap_err();
    assert!(matches!(err, ConfigError::InvalidPattern { .. }));
}

#[test]
fn custom_pattern_turns_the_conventional_rules_off() {
    let mut args = LintArgs::default();
    args.msg_pattern = Some("^JIRA-[0-9]+ .+$".to_string());
    args.msg_pattern_description = Some("Ticket prefix required".to_string());
    let resolved = resolve_options(&args, &None, &Vec::new(), &Vec::new()).unwrap();
    assert!(!resolved.options.enforce_conventional_spec);
    let outcome = lint_message("update docs", &resolved.options);
    assert_eq!(outcome.violations_before, vec!["Ticket prefix required"]);
    let ok = lint_message("JIRA-123 Fix login flow", &resolved.options);
    assert!(ok.violations_before.is_empty());
}

#[test]
fn exit_codes_follow_the_active_violations() {
    let options = LintOptions::default();
    let clean = lint_message("feat: ok", &options);
    assert_eq!(lint_exit_code(&clean, "feat: ok", false, false), 0);

    let broken = lint_message("", &options);
    assert_eq!(lint_exit_code(&broken, "", false, false), 1);

    let cleanup = build_cleanup_rule("\\s+$", "", None).unwrap();
    let mut options = LintOptions::default();
    options.cleanup_rules.push(cleanup);
    let rewritten = lint_message("feat: demo   \n", &options);
    assert_eq!(lint_exit_code(&rewritten, "feat: demo   \n", true, true), 1);
    assert_eq!(lint_exit_code(&rewritten, "feat: demo   \n", true, false), 0);
}

#[test]
fn config_error_messages_name_the_cause() {
    let err = build_message_pattern("(", None).unwrap_err();
    assert!(err.message().starts_with("invalid regex `(`"));
    let err = parse_cleanup_arg("oops").unwrap_err();
    assert_eq!(
        err.message(),
        "cleanup argument must use `find->replace` format (got `oops`)"
    );
}
