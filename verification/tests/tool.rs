//! Options, explanations, the commit hook and the pieces that they are made of.

use silicon::bits::{range_mask_of, range_value_of, width_mask};
use silicon::command::{answer_directly, answer_exit, check_exit, Command, Exit};
use silicon::explain::{explain, find_explanation, wrap_text};
use silicon::hook::{hook_message, not_a_repository, plan_hook, HookPlan};
use silicon::options::{
    is_source_file, require_files, resolve, svd_path, use_color, Args, Config, FailOn, Format, OptionsError,
};
use silicon::project::{baseline_message, suppressed_message};
use silicon::report::{digits, SourceCache};
use silicon::text::{
    find_text, join_text, lines_text, pad_left_text, pad_right_text, trim_end_text, trim_text, words_text,
};
use silicon::watch::{watch_message, watch_step, WatchAction, WatchEvent};

fn no_args() -> Args {
    Args {
        check: false,
        paths: vec![],
        svd: None,
        format: None,
        fail_on: None,
        output: None,
        notes: false,
        scan_headers: false,
        no_color: false,
    }
}

fn no_config() -> Config {
    Config { paths: None, svd: None, format: None, fail_on: None, output: None, notes: None, scan_headers: None }
}

fn full_config() -> Config {
    Config {
        paths: Some(vec!["src".to_string(), "include".to_string()]),
        svd: Some("config.svd".to_string()),
        format: Some(Format::Sarif),
        fail_on: Some(FailOn::Warning),
        output: Some("config.sarif".to_string()),
        notes: Some(true),
        scan_headers: Some(true),
    }
}

// ── Options ──────────────────────────────────────────────────────────────────

#[test]
fn defaults_hold_where_nothing_is_given() {
    let mut args = no_args();
    args.paths = vec!["main.c".to_string()];
    let settings = resolve(&args, &no_config()).expect("a path is given");
    assert_eq!(settings.paths, vec!["main.c".to_string()]);
    assert_eq!(settings.format, Format::Text);
    assert_eq!(settings.fail_on, FailOn::Error);
    assert_eq!(settings.output, None);
    assert!(!settings.notes);
    assert!(!settings.scan_headers);
    assert_eq!(svd_path(&args, &no_config()), None);
}

#[test]
fn the_configuration_is_used() {
    let settings = resolve(&no_args(), &full_config()).expect("the configuration has paths");
    assert_eq!(settings.paths, vec!["src".to_string(), "include".to_string()]);
    assert_eq!(settings.format, Format::Sarif);
    assert_eq!(settings.fail_on, FailOn::Warning);
    assert_eq!(settings.output, Some("config.sarif".to_string()));
    assert!(settings.notes);
    assert!(settings.scan_headers);
    assert_eq!(svd_path(&no_args(), &full_config()), Some("config.svd".to_string()));
}

#[test]
fn the_command_line_overrides_the_configuration() {
    let args = Args {
        check: false,
        paths: vec!["main.c".to_string()],
        svd: Some("mine.svd".to_string()),
        format: Some(Format::Text),
        fail_on: Some(FailOn::Never),
        output: Some("mine.txt".to_string()),
        notes: false,
        scan_headers: false,
        no_color: false,
    };
    let settings = resolve(&args, &full_config()).expect("a path is given");
    assert_eq!(settings.paths, vec!["main.c".to_string()]);
    assert_eq!(settings.format, Format::Text);
    assert_eq!(settings.fail_on, FailOn::Never);
    assert_eq!(settings.output, Some("mine.txt".to_string()));
    assert_eq!(svd_path(&args, &full_config()), Some("mine.svd".to_string()));
}

#[test]
fn a_check_needs_paths() {
    let error = resolve(&no_args(), &no_config()).expect_err("no paths");
    assert_eq!(error, OptionsError::NoPaths);
    assert_eq!(
        error.message(),
        "no paths given — pass paths on the command line or set `paths` in .silicon.toml"
    );
    assert_eq!(require_files(1), Ok(()));
    assert_eq!(require_files(0), Err(OptionsError::NoFiles));
    assert_eq!(OptionsError::NoFiles.message(), "no .c/.h files found in the given paths");
    // Asked for by its name, it checks the current directory.
    let mut args = no_args();
    args.check = true;
    assert_eq!(resolve(&args, &no_config()).unwrap().paths, vec![".".to_string()]);
    assert_eq!(resolve(&args, &full_config()).unwrap().paths.len(), 2);
}

#[test]
fn color_is_for_terminals() {
    let mut args = no_args();
    assert!(use_color(&args, true));
    assert!(!use_color(&args, false));
    args.no_color = true;
    assert!(!use_color(&args, true));
    args.no_color = false;
    args.output = Some("report.txt".to_string());
    assert!(!use_color(&args, true));
}

#[test]
fn headers_are_checked_only_if_asked_for() {
    assert!(is_source_file(Some("c"), false));
    assert!(is_source_file(Some("c"), true));
    assert!(!is_source_file(Some("h"), false));
    assert!(is_source_file(Some("h"), true));
    assert!(!is_source_file(Some("cpp"), true));
    assert!(!is_source_file(None, true));
}

#[test]
fn counts_are_in_singular_or_plural() {
    assert_eq!(baseline_message(1, "b.json"), "silicon: wrote 1 finding to baseline b.json");
    assert_eq!(baseline_message(0, "b.json"), "silicon: wrote 0 findings to baseline b.json");
    assert_eq!(suppressed_message(0), None);
    assert_eq!(suppressed_message(1), Some("silicon: suppressed 1 baseline finding".to_string()));
    assert_eq!(suppressed_message(2), Some("silicon: suppressed 2 baseline findings".to_string()));
}

// ── Explanations ─────────────────────────────────────────────────────────────

const RULES: [&str; 11] = [
    "field-value-not-in-enum",
    "nonexistent-register",
    "address-not-a-register",
    "value-exceeds-register-width",
    "value-sets-undefined-bits",
    "write-to-read-only-register",
    "write-to-read-only-field",
    "hal-call-pin-out-of-range",
    "hal-call-funcsel-not-in-enum",
    "hal-call-index-out-of-range",
    "hal-call-instance-not-in-svd",
];

#[test]
fn every_rule_is_explained() {
    for rule in RULES {
        assert_eq!(find_explanation(rule).expect("must be explained").rule_id, rule);
        let text = explain(rule, false).expect("must be explained");
        assert!(text.starts_with(&format!("\n ⓘ  {rule}\n\n What it checks\n   ")));
        assert!(text.contains("\n\n SVD fact\n   "));
        assert!(text.contains("\n\n Example — triggers this rule\n   "));
        assert!(text.contains("\n\n Example — passes\n   "));
        assert!(!text.contains('\x1b'));
        assert!(explain(rule, true).unwrap().contains("\x1b[36m"));
    }
}

#[test]
fn an_explanation_is_laid_out() {
    assert_eq!(
        explain("write-to-read-only-register", false),
        Ok("\n ⓘ  write-to-read-only-register\n\n \
            What it checks\n   \
            The SVD marks the entire register as read-only, but firmware writes to\n   \
            it.\n\n \
            SVD fact\n   \
            Checked against the SVD <access>read-only</access> annotation on the\n   \
            register element.\n\n \
            Example — triggers this rule\n   \
            sio_hw->cpuid = 5;  // CPUID is read-only in the SVD\n\n \
            Example — passes\n   \
            uint32_t id = sio_hw->cpuid;  // read is fine\n\n"
            .to_string())
    );
    let colored = explain("write-to-read-only-register", true).unwrap();
    assert!(colored.starts_with("\n \x1b[1mⓘ  write-to-read-only-register\x1b[0m\n\n \x1b[1mWhat it checks\x1b[0m\n   The"));
    assert!(colored.contains("   \x1b[36mregister element.\x1b[0m\n"));
    assert!(colored.contains("   \x1b[31msio_hw->cpuid = 5;"));
    assert!(colored.ends_with("   \x1b[32muint32_t id = sio_hw->cpuid;  // read is fine\x1b[0m\n\n"));
}

#[test]
fn an_unknown_rule_is_answered_with_the_known_ones() {
    assert_eq!(
        explain("no-such-rule", false),
        Err(format!("silicon: unknown rule 'no-such-rule'\nknown rules: {}\n", RULES.join(", ")))
    );
}

#[test]
fn commands_are_answered_with_what_they_need() {
    let known = Command::Explain { rule_id: "nonexistent-register".to_string() };
    let answer = answer_directly(&known, false).expect("needs nothing else");
    assert_eq!(answer, explain("nonexistent-register", false));
    assert_eq!(answer_exit(&answer), Exit::Success);
    let unknown = Command::Explain { rule_id: "x".to_string() };
    let answer = answer_directly(&unknown, false).expect("needs nothing else");
    assert_eq!(answer_exit(&answer), Exit::Misused);
    for command in [Command::Check, Command::ListPeripherals, Command::InstallHook] {
        assert!(answer_directly(&command, false).is_none());
    }
    assert_eq!(Exit::Success.code(), 0);
    assert_eq!(check_exit(true).code(), 1);
    assert_eq!(check_exit(false), Exit::Success);
    assert_eq!(Exit::Misused.code(), 2);
}

#[test]
fn text_is_wrapped_at_words() {
    assert_eq!(wrap_text("aa bb cc", 5), vec!["aa bb".to_string(), "cc".to_string()]);
    assert_eq!(wrap_text("  aa\n bb\t", 2), vec!["aa".to_string(), "bb".to_string()]);
    assert_eq!(wrap_text("aa longword b", 4), vec!["aa".to_string(), "longword".to_string(), "b".to_string()]);
    assert!(wrap_text(" \n", 4).is_empty());
    // An umlaut has two bytes.
    assert_eq!(wrap_text("aä b", 4), vec!["aä".to_string(), "b".to_string()]);
    let text = "the quick brown fox jumps over the lazy dog";
    assert_eq!(wrap_text(text, 10).join(" "), text);
    assert!(wrap_text(text, 10).iter().all(|l| l.len() <= 10));
}

// ── The commit hook ──────────────────────────────────────────────────────────

const HOOK: &str = "#!/bin/sh
# silicon: RP2040 register-correctness pre-commit check
# Generated by 'silicon install-hook'. Remove this file to disable.
if ! silicon check 2>/dev/null; then
    silicon check
    echo ''
    echo 'silicon: pre-commit check failed — fix register violations before committing'
    exit 1
fi
";

#[test]
fn a_hook_is_created_where_there_is_none() {
    assert_eq!(plan_hook(None), HookPlan::Create(HOOK.to_string()));
    assert_eq!(
        hook_message(&plan_hook(None), ".git/hooks/pre-commit"),
        "silicon: installed pre-commit hook at .git/hooks/pre-commit"
    );
}

#[test]
fn an_existing_hook_is_kept() {
    let plan = plan_hook(Some("#!/bin/sh\nmake test\n\n"));
    assert_eq!(plan, HookPlan::Append(format!("#!/bin/sh\nmake test\n{HOOK}")));
    assert_eq!(hook_message(&plan, "p"), "silicon: appended silicon check to existing hook at p");
}

#[test]
fn installing_twice_changes_nothing() {
    assert_eq!(plan_hook(Some(HOOK)), HookPlan::AlreadyInstalled);
    match plan_hook(Some("make test")) {
        HookPlan::Append(text) => assert_eq!(plan_hook(Some(&text)), HookPlan::AlreadyInstalled),
        other => panic!("expected Append, got {other:?}"),
    }
    assert_eq!(hook_message(&HookPlan::AlreadyInstalled, "p"), "silicon: pre-commit hook already installed at p");
}

#[test]
fn a_directory_without_hooks_is_no_repository() {
    assert_eq!(not_a_repository("."), ". is not a git repository (no .git/hooks directory)");
}

// ── Watching ─────────────────────────────────────────────────────────────────

#[test]
fn a_change_leads_to_a_check() {
    let banner = "─── re-checking ───────────────────────────────────────────────\n";
    assert!(matches!(watch_step(&WatchEvent::Changed, false), WatchAction::Recheck(s) if s == banner));
    assert!(matches!(
        watch_step(&WatchEvent::Changed, true),
        WatchAction::Recheck(s) if s == format!("\x1b[2m{banner}\x1b[0m")
    ));
    assert!(matches!(
        watch_step(&WatchEvent::Failed("gone".to_string()), false),
        WatchAction::Complain(s) if s == "silicon: watch error: gone"
    ));
    assert!(matches!(watch_step(&WatchEvent::Closed, false), WatchAction::Stop));
    assert_eq!(watch_message(2), "silicon: watching 2 path(s) — press Ctrl-C to stop");
}

// ── Pieces ───────────────────────────────────────────────────────────────────

#[test]
fn masks_cover_their_range() {
    assert_eq!(width_mask(0), 0);
    assert_eq!(width_mask(12), 0xfff);
    assert_eq!(width_mask(63), u64::MAX >> 1);
    assert_eq!(width_mask(64), u64::MAX);
    assert_eq!(width_mask(100), u64::MAX);
    assert_eq!(range_mask_of(5, 4), 0x1e0);
    assert_eq!(range_mask_of(63, 4), 1 << 63);
    assert_eq!(range_mask_of(64, 4), 0);
    assert_eq!(range_value_of(12 << 5 | 3, 5, 4), 12);
    assert_eq!(range_value_of(u64::MAX, 64, 4), 0);
}

#[test]
fn texts_are_cut_as_the_standard_library_cuts_them() {
    for s in ["", " a b ", "\u{2003}x\u{a0}", "a\r\nb\n\nc", "a\n", "\n", "a\r", "\r\n\r\n", "  ", "a\rb\n"] {
        assert_eq!(trim_text(s), s.trim());
        assert_eq!(trim_end_text(s), s.trim_end());
        assert_eq!(lines_text(s), s.lines().map(String::from).collect::<Vec<_>>());
        assert_eq!(words_text(s), s.split_whitespace().map(String::from).collect::<Vec<_>>());
    }
    assert_eq!(find_text("abcabc", "ca"), Some(2));
    assert_eq!(find_text("abc", ""), Some(0));
    assert_eq!(find_text("abc", "abcd"), None);
    assert_eq!(find_text("äbc", "c"), Some(2));
}

#[test]
fn texts_are_padded_and_joined() {
    assert_eq!(pad_left_text("7", 3, ' '), format!("{:>3}", 7));
    assert_eq!(pad_right_text("äb", 4), format!("{:<4}", "äb"));
    assert_eq!(pad_right_text("abc", 2), "abc");
    assert_eq!(join_text(&[], ", "), "");
    assert_eq!(join_text(&vec!["a".to_string(), "b".to_string(), "".to_string()], ", "), "a, b, ");
}

#[test]
fn digits_are_counted() {
    assert_eq!(digits(0), 1);
    assert_eq!(digits(9), 1);
    assert_eq!(digits(10), 2);
    assert_eq!(digits(12345), 5);
}

#[test]
fn source_lines_are_found_by_number() {
    let mut cache = SourceCache::new();
    cache.add_file("a.c", "one\r\ntwo\nthree");
    assert_eq!(cache.line("a.c", 1), Some("one".to_string()));
    assert_eq!(cache.line("a.c", 3), Some("three".to_string()));
    assert_eq!(cache.line("a.c", 0), Some("one".to_string()));
    assert_eq!(cache.line("a.c", 4), None);
    assert_eq!(cache.line("b.c", 1), None);
    cache.add_file("a.c", "new");
    assert_eq!(cache.line("a.c", 1), Some("new".to_string()));
}
