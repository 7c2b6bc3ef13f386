use smart_rg::args::{
    capture_command_args, parse_rg_invocation, rewrite_short_token, strip_shim_flags, RgInvocation,
};
use smart_rg::flags::{
    is_output_mode_long, is_output_mode_short, long_takes_value, short_takes_value,
    unsupported_long, unsupported_short,
};

fn words(v: &[&str]) -> Vec<String> {
    v.iter().map(|s| s.to_string()).collect()
}

fn read(v: &[&str]) -> RgInvocation {
    parse_rg_invocation(&words(v))
}

#[test]
fn nothing_given_is_a_call_without_a_pattern() {
    let inv = read(&[]);
    assert_eq!(inv.pattern, None);
    assert_eq!(inv.path, ".");
    assert!(!inv.has_path);
    assert!(inv.capture_argv.is_empty());
}

#[test]
fn a_flag_at_the_end_waits_for_its_value_in_vain() {
    assert_eq!(read(&["-e"]).pattern.as_deref(), Some(""));
    assert_eq!(read(&["--regexp"]).pattern, None);
    assert_eq!(read(&["p", "-t"]).file_type.as_deref(), Some(""));
    assert_eq!(read(&["p", "--type"]).file_type, None);
    assert_eq!(read(&["p", "-g"]).globs, words(&[""]));
    assert!(read(&["p", "--glob"]).globs.is_empty());
}

#[test]
fn the_type_given_last_counts() {
    assert_eq!(read(&["-trust", "p", "--type=ts"]).file_type.as_deref(), Some("ts"));
    assert_eq!(read(&["--type", "ts", "p", "-t", "rust"]).file_type.as_deref(), Some("rust"));
}

#[test]
fn the_pattern_given_first_counts() {
    let inv = read(&["-e", "one", "--regexp=two", "src"]);
    assert_eq!(inv.pattern.as_deref(), Some("one"));
    assert_eq!(inv.unsupported.as_deref(), Some("-e (multiple patterns)"));
    assert_eq!(inv.paths, words(&["src"]));
}

#[test]
fn the_first_thing_that_cannot_be_honoured_is_named() {
    assert_eq!(read(&["--replace", "x", "-v", "p"]).unsupported.as_deref(), Some("--replace"));
    assert_eq!(read(&["-f", "a", "-v", "p"]).unsupported.as_deref(), Some("-f"));
    assert_eq!(read(&["--file=a", "p"]).unsupported.as_deref(), Some("-f"));
    assert_eq!(read(&["-vf", "a", "p"]).unsupported.as_deref(), Some("-v"));
}

#[test]
fn the_last_line_number_flag_wins() {
    assert_eq!(read(&["-n", "-N", "p"]).line_numbers, Some(false));
    assert_eq!(read(&["-Nn", "p"]).line_numbers, Some(true));
    assert_eq!(read(&["-N", "--line-number", "p"]).line_numbers, Some(true));
}

#[test]
fn an_empty_token_is_positional() {
    let inv = read(&["", "src"]);
    assert_eq!(inv.pattern.as_deref(), Some(""));
    assert_eq!(inv.paths, words(&["src"]));
}

#[test]
fn a_value_may_hold_an_equals_sign() {
    assert_eq!(read(&["--regexp=a=b", "src"]).pattern.as_deref(), Some("a=b"));
    assert_eq!(read(&["--=x", "p"]).pattern.as_deref(), Some("p"));
}

#[test]
fn letters_beyond_ascii_are_switches() {
    let inv = read(&["-né", "p"]);
    assert_eq!(inv.line_numbers, Some(true));
    assert_eq!(inv.capture_argv, words(&["-é", "p"]));
}

#[test]
fn a_bundle_is_rewritten_up_to_its_value() {
    assert_eq!(rewrite_short_token("-nc"), None);
    assert_eq!(rewrite_short_token("-tcpp").as_deref(), Some("-tcpp"));
    assert_eq!(rewrite_short_token("-cgln").as_deref(), Some("-gln"));
    assert_eq!(rewrite_short_token("-nwl").as_deref(), Some("-w"));
    assert_eq!(rewrite_short_token("-"), None);
    assert_eq!(rewrite_short_token(""), None);
}

#[test]
fn stripping_the_shims_flag_keeps_the_call() {
    let line = words(&["-n", "--no-smart", "-e", "--no-smart", "--no-smart=1", "src", "--", "x"]);
    let before = parse_rg_invocation(&line);
    assert_eq!(before.shim_flag_indices, vec![1, 4]);
    let stripped = strip_shim_flags(&line, &before.shim_flag_indices);
    assert_eq!(stripped, words(&["-n", "-e", "--no-smart", "src", "--", "x"]));
    let after = parse_rg_invocation(&stripped);
    assert!(!after.no_smart);
    assert!(after.shim_flag_indices.is_empty());
    assert_eq!(after.pattern, before.pattern);
    assert_eq!(after.paths, before.paths);
    assert_eq!(after.line_numbers, before.line_numbers);
    assert_eq!(after.capture_argv, before.capture_argv);
}

#[test]
fn stripping_nothing_changes_nothing() {
    let line = words(&["-n", "p", "src"]);
    assert_eq!(strip_shim_flags(&line, &[]), line);
    assert_eq!(strip_shim_flags(&line, &[7]), line);
}

#[test]
fn the_capture_run_searches_for_the_same() {
    let call = read(&["-cnl", "--no-smart", "-twc", "-g", "!a", "foo(", "src", "-", "--", "-c"]);
    let run = parse_rg_invocation(&call.capture_argv);
    assert_eq!(run.pattern, call.pattern);
    assert_eq!(run.paths, call.paths);
    assert_eq!(run.globs, call.globs);
    assert_eq!(run.file_type, call.file_type);
    assert_eq!(run.reads_stdin, call.reads_stdin);
    assert!(call.count && call.files_with_matches && call.no_smart);
    assert!(!run.count && !run.files_with_matches && !run.no_smart);
    assert_eq!(run.line_numbers, None);
    assert_eq!(run.capture_argv, call.capture_argv);
    assert_eq!(capture_command_args(&[]), words(&["--json"]));
}

#[test]
fn a_bundle_may_read_as_a_long_flag_without_its_switches() {
    let call = read(&["-c-", "foo(", "src"]);
    assert_eq!(call.pattern.as_deref(), Some("foo("));
    assert_eq!(call.capture_argv, words(&["--", "foo(", "src"]));
}

#[test]
fn everything_behind_two_dashes_is_positional() {
    let inv = read(&["-c", "p", "--", "-v", "--no-smart", "--", "-"]);
    assert_eq!(inv.unsupported, None);
    assert!(!inv.no_smart);
    assert_eq!(inv.paths, words(&["-v", "--no-smart", "--"]));
    assert!(inv.reads_stdin);
    assert_eq!(inv.capture_argv, words(&["p", "--", "-v", "--no-smart", "--", "-"]));
}

#[test]
fn an_unknown_long_flag_changes_nothing_else() {
    let with = read(&["-n", "--brand-new=1", "p", "src"]);
    let without = read(&["-n", "p", "src"]);
    assert_eq!(with.pattern, without.pattern);
    assert_eq!(with.paths, without.paths);
    assert_eq!(with.line_numbers, without.line_numbers);
    assert_eq!(with.unsupported, None);
    assert_eq!(with.capture_argv, words(&["--brand-new=1", "p", "src"]));
}

#[test]
fn an_unknown_long_flag_moves_the_shims_flags_behind_it() {
    let without = read(&["--no-smart", "p", "--no-smart", "src"]);
    let with = read(&["--no-smart", "--brand-new", "p", "--no-smart", "src"]);
    assert_eq!(without.shim_flag_indices, vec![0, 2]);
    assert_eq!(with.shim_flag_indices, vec![0, 3]);
    assert!(with.no_smart && without.no_smart);
}

#[test]
fn the_tables_of_flags_tell_case_apart() {
    assert!(unsupported_short('C') && !unsupported_short('c'));
    assert!(unsupported_long("json") && !unsupported_long("jsonl"));
    assert!(short_takes_value('M') && short_takes_value('m') && !short_takes_value('n'));
    assert!(long_takes_value("hostname-bin") && !long_takes_value("hidden"));
    assert!(is_output_mode_short('N') && !is_output_mode_short('w'));
    assert!(is_output_mode_long("type-list") && !is_output_mode_long("type"));
}

#[test]
fn a_call_with_a_pattern_is_captured_with_it() {
    for line in [
        vec!["p"], vec!["-ce", "p"], vec!["--regexp=p"], vec!["-c", "--", "-n"], vec!["-lfx"],
        vec!["--no-smart", "-nc", ""],
    ] {
        let inv = read(&line);
        assert!(inv.pattern.is_some(), "{line:?}");
        assert!(!inv.capture_argv.is_empty(), "{line:?}");
    }
}

#[test]
fn a_bundle_that_turns_into_an_unknown_long_flag_says_as_little() {
    let call = read(&["-c-x", "foo(", "src"]);
    assert_eq!(call.capture_argv, words(&["--x", "foo(", "src"]));
    let run = parse_rg_invocation(&call.capture_argv);
    assert_eq!(run.pattern, call.pattern);
    assert_eq!(run.paths, call.paths);
    assert_eq!(run.capture_argv, call.capture_argv);
    assert_eq!(run.unsupported, None);
}
