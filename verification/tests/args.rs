use smart_rg::args::{
    capture_command_args, is_stream_filter, parse_rg_invocation, strip_shim_flags, RgInvocation,
};

fn parse(tokens: &[&str]) -> RgInvocation {
    parse_rg_invocation(&strs(tokens))
}

fn strs(v: &[&str]) -> Vec<String> {
    v.iter().map(|s| s.to_string()).collect()
}

#[test]
fn explicit_e_flag_is_the_pattern_and_positionals_are_paths() {
    let inv = parse(&["-e", "useState(", "--type", "ts", "."]);
    assert_eq!(inv.pattern.as_deref(), Some("useState("));
    assert_eq!(inv.file_type.as_deref(), Some("ts"));
    assert_eq!(inv.path, ".");
}

#[test]
fn claude_code_canonical_call_finds_pattern_past_value_flags() {
    let inv = parse(&[
        "--no-ignore", "--sort", "path", "--no-heading",
        "--color", "never", "-g", "!.git", "useState(", "./src",
    ]);
    assert_eq!(inv.pattern.as_deref(), Some("useState("));
    assert_eq!(inv.path, "./src");
    assert_eq!(inv.file_type, None);
}

#[test]
fn first_positional_is_pattern_rest_is_path() {
    let inv = parse(&["foo(", "./src"]);
    assert_eq!(inv.pattern.as_deref(), Some("foo("));
    assert_eq!(inv.path, "./src");
}

#[test]
fn has_path_set_only_when_a_positional_path_is_given() {
    assert!(parse(&["foo(", "./src"]).has_path);
    assert!(!parse(&["foo("]).has_path);
    assert!(!parse(&["-l", "pattern"]).has_path);
}

#[test]
fn dash_positional_is_stdin_not_a_path() {
    let inv = parse(&["PATTERN", "-"]);
    assert_eq!(inv.pattern.as_deref(), Some("PATTERN"));
    assert!(inv.reads_stdin, "trailing - marks explicit stdin");
    assert!(!inv.has_path, "- is stdin, not a real path");
}

#[test]
fn dash_plus_real_path_keeps_the_real_path() {
    let inv = parse(&["PATTERN", "-", "src/"]);
    assert!(inv.reads_stdin, "- still marks stdin");
    assert!(inv.has_path, "src/ is a real path");
    assert_eq!(inv.path, "src/");
}

#[test]
fn no_dash_means_no_stdin() {
    let inv = parse(&["foo(", "./src"]);
    assert!(!inv.reads_stdin);
    assert!(inv.has_path);
    assert_eq!(inv.path, "./src");
}

#[test]
fn stream_filter_only_for_piped_stdin_without_a_path() {
    assert!(is_stream_filter(false, false));
    assert!(!is_stream_filter(true, false));
    assert!(!is_stream_filter(false, true));
    assert!(!is_stream_filter(true, true));
}

#[test]
fn short_value_and_boolean_flags() {
    let inv = parse(&["-c", "-t", "rs", "Command::new(", "."]);
    assert!(inv.count);
    assert_eq!(inv.file_type.as_deref(), Some("rs"));
    assert_eq!(inv.pattern.as_deref(), Some("Command::new("));
    assert_eq!(inv.path, ".");
}

#[test]
fn files_with_matches_short_flag_and_default_path() {
    let inv = parse(&["-l", "pattern"]);
    assert!(inv.files_with_matches);
    assert_eq!(inv.pattern.as_deref(), Some("pattern"));
    assert_eq!(inv.path, ".");
}

#[test]
fn inline_equals_value_does_not_consume_next_token() {
    let inv = parse(&["--type=ts", "useState(", "."]);
    assert_eq!(inv.file_type.as_deref(), Some("ts"));
    assert_eq!(inv.pattern.as_deref(), Some("useState("));
    assert_eq!(inv.path, ".");
}

#[test]
fn bundled_boolean_short_flags_do_not_eat_the_pattern() {
    let inv = parse(&["-ni", "fn main("]);
    assert!(!inv.count);
    assert_eq!(inv.pattern.as_deref(), Some("fn main("));
}

#[test]
fn unknown_flag_is_treated_as_boolean_not_an_abort() {
    let inv = parse(&["--some-future-flag", "useState(", "."]);
    assert_eq!(inv.pattern.as_deref(), Some("useState("));
    assert_eq!(inv.path, ".");
}

#[test]
fn double_dash_forces_remaining_as_positionals() {
    let inv = parse(&["-n", "--", "-weird-pattern", "src"]);
    assert_eq!(inv.pattern.as_deref(), Some("-weird-pattern"));
    assert_eq!(inv.path, "src");
}

#[test]
fn only_flags_no_pattern() {
    let inv = parse(&["--version"]);
    assert_eq!(inv.pattern, None);
}

#[test]
fn files_mode_positional_is_a_path_not_a_pattern() {
    let inv = parse(&["--files", "/Users/x/.config/plugins/cache"]);
    assert_eq!(inv.pattern, None);
    assert_eq!(inv.path, "/Users/x/.config/plugins/cache");
}

#[test]
fn files_mode_with_value_flags_still_pattern_less() {
    let inv = parse(&["--files", "-g", "*.md", "docs"]);
    assert_eq!(inv.pattern, None);
    assert_eq!(inv.path, "docs");
}

#[test]
fn type_list_mode_is_pattern_less() {
    let inv = parse(&["--type-list"]);
    assert_eq!(inv.pattern, None);
}

#[test]
fn invert_match_is_unsupported() {
    assert_eq!(parse(&["-v", "deviceId", "src"]).unsupported.as_deref(), Some("-v"));
    assert_eq!(parse(&["--invert-match", "deviceId"]).unsupported.as_deref(), Some("--invert-match"));
}

#[test]
fn context_flags_are_unsupported() {
    assert_eq!(parse(&["-A2", "deviceId", "src"]).unsupported.as_deref(), Some("-A"));
    assert_eq!(parse(&["-C", "2", "deviceId"]).unsupported.as_deref(), Some("-C"));
    assert_eq!(parse(&["--context=2", "deviceId"]).unsupported.as_deref(), Some("--context"));
}

#[test]
fn case_insensitivity_is_unsupported_because_ast_grep_is_case_sensitive() {
    assert_eq!(parse(&["-i", "deviceId", "src"]).unsupported.as_deref(), Some("-i"));
    assert_eq!(parse(&["-S", "deviceId"]).unsupported.as_deref(), Some("-S"));
}

#[test]
fn max_count_and_only_matching_are_unsupported() {
    assert_eq!(parse(&["-m1", "deviceId"]).unsupported.as_deref(), Some("-m"));
    assert_eq!(parse(&["-o", "deviceId"]).unsupported.as_deref(), Some("-o"));
}

#[test]
fn unsupported_short_flag_inside_a_bundle_is_detected() {
    assert_eq!(parse(&["-nv", "deviceId"]).unsupported.as_deref(), Some("-v"));
}

#[test]
fn ordinary_flags_are_not_marked_unsupported() {
    assert_eq!(parse(&["-n", "-l", "--no-heading", "--color", "never", "deviceId", "src"]).unsupported, None);
    assert_eq!(parse(&["-c", "--type", "ts", "deviceId"]).unsupported, None);
}

#[test]
fn a_flags_value_is_never_mistaken_for_a_flag() {
    let inv = parse(&["-e", "-v", "src"]);
    assert_eq!(inv.pattern.as_deref(), Some("-v"));
    assert_eq!(inv.unsupported, None);
}

#[test]
fn nothing_after_double_dash_counts_as_a_flag() {
    let inv = parse(&["--", "-v", "src"]);
    assert_eq!(inv.pattern.as_deref(), Some("-v"));
    assert_eq!(inv.unsupported, None);
}

#[test]
fn multiple_patterns_force_passthrough() {
    assert!(parse(&["-e", "alphaCall\\(", "-e", "betaCall\\(", "f.py"]).unsupported.is_some());
    assert!(parse(&["--regexp", "a", "--regexp", "b", "f.py"]).unsupported.is_some());
}

#[test]
fn a_single_pattern_still_redirects() {
    assert_eq!(parse(&["-e", "alphaCall\\(", "f.py"]).unsupported, None);
}

#[test]
fn a_patterns_file_forces_passthrough() {
    assert!(parse(&["-f", "queries.txt", "b.js"]).unsupported.is_some());
    assert!(parse(&["--file", "queries.txt", "b.js"]).unsupported.is_some());
}

#[test]
fn a_patterns_file_still_consumes_its_value() {
    let inv = parse(&["-f", "queries.txt", "b.js"]);
    assert_eq!(inv.paths, strs(&["b.js"]), "queries.txt is -f's value, not a path");
}

#[test]
fn every_positional_path_is_captured_not_just_the_first() {
    let inv = parse(&["deviceId", "src", "other"]);
    assert_eq!(inv.paths, vec!["src".to_string(), "other".to_string()]);
    assert_eq!(inv.path, "src", "path stays the first path for language inference");
}

#[test]
fn stdin_dash_is_not_collected_as_a_path() {
    assert_eq!(parse(&["deviceId", "-", "src"]).paths, vec!["src".to_string()]);
}

#[test]
fn globs_are_captured_for_forwarding() {
    let inv = parse(&["-g", "*.ts", "--glob=!test/**", "deviceId", "src"]);
    assert_eq!(inv.globs, vec!["*.ts".to_string(), "!test/**".to_string()]);
    assert_eq!(inv.unsupported, None, "globs are forwarded, not a passthrough reason");
    assert_eq!(inv.pattern.as_deref(), Some("deviceId"));
}

#[test]
fn line_number_preference_is_tracked() {
    assert_eq!(parse(&["-n", "deviceId", "src"]).line_numbers, Some(true));
    assert_eq!(parse(&["--line-number", "deviceId"]).line_numbers, Some(true));
    assert_eq!(parse(&["-N", "deviceId"]).line_numbers, Some(false));
    assert_eq!(parse(&["--no-line-number", "deviceId"]).line_numbers, Some(false));
    assert_eq!(parse(&["deviceId", "src"]).line_numbers, None);
}

#[test]
fn no_smart_is_detected_without_eating_the_pattern() {
    let inv = parse(&["--no-smart", "deviceId", "src"]);
    assert!(inv.no_smart);
    assert_eq!(inv.pattern.as_deref(), Some("deviceId"));
    assert_eq!(inv.path, "src");
}

#[test]
fn no_smart_defaults_off() {
    assert!(!parse(&["deviceId", "src"]).no_smart);
}

#[test]
fn strip_shim_flags_removes_only_our_flag() {
    let inv = parse(&["-n", "--no-smart", "deviceId", "src"]);
    let args = strs(&["-n", "--no-smart", "deviceId", "src"]);
    assert_eq!(
        strip_shim_flags(&args, &inv.shim_flag_indices),
        strs(&["-n", "deviceId", "src"]),
        "rg would reject --no-smart"
    );
}

#[test]
fn no_smart_after_double_dash_is_a_pattern_not_a_flag() {
    let inv = parse(&["--", "--no-smart", "src"]);
    assert_eq!(inv.pattern.as_deref(), Some("--no-smart"));
    assert!(!inv.no_smart);
    let args = strs(&["--", "--no-smart", "src"]);
    assert_eq!(strip_shim_flags(&args, &inv.shim_flag_indices), args,
        "nothing after -- may be stripped");
}

#[test]
fn no_smart_as_a_flag_value_is_not_stripped() {
    let inv = parse(&["-e", "--no-smart", "src"]);
    assert_eq!(inv.pattern.as_deref(), Some("--no-smart"));
    assert!(!inv.no_smart);
    let args = strs(&["-e", "--no-smart", "src"]);
    assert_eq!(strip_shim_flags(&args, &inv.shim_flag_indices), args,
        "-e's value must survive");
}

#[test]
fn no_smart_with_an_inline_value_is_stripped() {
    let inv = parse(&["--no-smart=true", "deviceId", "src"]);
    assert!(inv.no_smart);
    let args = strs(&["--no-smart=true", "deviceId", "src"]);
    assert_eq!(strip_shim_flags(&args, &inv.shim_flag_indices),
        strs(&["deviceId", "src"]), "the =value spelling must strip too");
}

#[test]
fn capture_argv_strips_output_modes_and_keeps_filters() {
    let inv = parse(&["-c", "-n", "--heading", "-g", "*.ts", "deviceId", "src"]);
    for stripped in ["-c", "-n", "--heading"] {
        assert!(!inv.capture_argv.contains(&stripped.to_string()), "{stripped} must be stripped");
    }
    assert!(inv.capture_argv.windows(2).any(|w| w == ["-g".to_string(), "*.ts".to_string()]));
    assert!(inv.capture_argv.contains(&"deviceId".to_string()));
    assert!(inv.capture_argv.contains(&"src".to_string()));
}

#[test]
fn capture_argv_keeps_the_type_filter_adjacent_to_its_value() {
    let inv = parse(&["--type", "ts", "deviceId", "src"]);
    assert!(inv.capture_argv.windows(2).any(|w| w == ["--type".to_string(), "ts".to_string()]));
}

#[test]
fn capture_argv_strips_bundled_short_output_flags() {
    let inv = parse(&["-nc", "deviceId", "src"]);
    assert!(!inv.capture_argv.iter().any(|a| a == "-nc"), "bundled -nc must be stripped");
    assert!(inv.capture_argv.contains(&"deviceId".to_string()));
    assert!(inv.capture_argv.contains(&"src".to_string()));
}

#[test]
fn capture_argv_strips_bundled_cl() {
    let inv = parse(&["-cl", "deviceId", "src"]);
    assert!(!inv.capture_argv.iter().any(|a| a == "-cl"), "bundled -cl must be stripped");
}

#[test]
fn capture_argv_keeps_a_bare_dash_stdin_marker() {
    let inv = parse(&["deviceId", "-"]);
    assert!(inv.capture_argv.contains(&"-".to_string()), "a bare - is stdin, not a flag");
}

#[test]
fn vimgrep_and_passthru_force_passthrough() {
    assert_eq!(parse(&["--vimgrep", "deviceId", "src"]).unsupported.as_deref(), Some("--vimgrep"));
    assert_eq!(parse(&["--passthru", "deviceId", "src"]).unsupported.as_deref(), Some("--passthru"));
}

#[test]
fn capture_argv_keeps_a_bundled_type_value() {
    let inv = parse(&["-tcpp", "deviceId", "src"]);
    assert!(inv.capture_argv.contains(&"-tcpp".to_string()), "-t's bundled value must survive");
}

#[test]
fn capture_argv_keeps_a_bundled_glob_value() {
    let inv = parse(&["-g*.c", "deviceId", "src"]);
    assert!(inv.capture_argv.contains(&"-g*.c".to_string()), "-g's bundled value must survive");
}

#[test]
fn capture_argv_keeps_a_bundled_pattern_value() {
    let inv = parse(&["-eDeviceId", "src"]);
    assert!(inv.capture_argv.contains(&"-eDeviceId".to_string()), "-e's bundled pattern must survive");
}

#[test]
fn capture_argv_still_strips_output_mode_before_a_value_flag() {
    let inv = parse(&["-cg", "*.ts", "deviceId", "src"]);
    assert!(!inv.capture_argv.iter().any(|a| a == "-cg"), "bundled -cg token must be rewritten");
    assert!(inv.capture_argv.contains(&"-g".to_string()), "-g must survive so *.ts stays its value");
    assert!(inv.capture_argv.contains(&"*.ts".to_string()));
}

#[test]
fn capture_argv_keeps_the_glob_flag_from_a_mixed_bundle() {
    let inv = parse(&["-cg", "*.ts", "deviceId", "src"]);
    assert!(inv.capture_argv.contains(&"-g".to_string()), "-g must survive so *.ts stays its value");
    assert!(!inv.capture_argv.iter().any(|a| a == "-cg"));
    assert!(inv.capture_argv.contains(&"*.ts".to_string()));
}

#[test]
fn capture_argv_keeps_an_inline_value_from_a_mixed_bundle() {
    let inv = parse(&["-ntrust", "deviceId", "src"]);
    assert!(inv.capture_argv.contains(&"-trust".to_string()), "the type filter must survive");
}

#[test]
fn capture_argv_keeps_the_pattern_flag_from_a_mixed_bundle() {
    let inv = parse(&["src", "-ce", "DeviceId"]);
    assert_eq!(inv.capture_argv, strs(&["src", "-e", "DeviceId"]));
}

#[test]
fn capture_argv_keeps_a_non_output_filter_from_a_bundle() {
    let inv = parse(&["-nw", "deviceId", "src"]);
    assert!(inv.capture_argv.contains(&"-w".to_string()), "-w must survive");
}

#[test]
fn capture_argv_drops_a_token_that_is_only_output_modes() {
    let inv = parse(&["-nc", "deviceId", "src"]);
    assert!(!inv.capture_argv.iter().any(|a| a.starts_with('-')),
        "-nc is purely output modes and must vanish entirely");
}

#[test]
fn capture_argv_treats_everything_after_double_dash_as_positional() {
    let inv = parse(&["pattern", "--", "-c"]);
    assert_eq!(inv.capture_argv, strs(&["pattern", "--", "-c"]));
}

#[test]
fn capture_argv_never_mangles_a_post_double_dash_filename() {
    let inv = parse(&["pattern", "--", "-count.log"]);
    assert_eq!(inv.capture_argv, strs(&["pattern", "--", "-count.log"]));
}

#[test]
fn capture_argv_does_not_reinterpret_a_dash_prefixed_flag_value() {
    let inv = parse(&["-e", "-c", "src"]);
    assert_eq!(inv.capture_argv, strs(&["-e", "-c", "src"]));
}

#[test]
fn capture_argv_omits_the_shim_own_flag() {
    let inv = parse(&["--no-smart", "deviceId", "src"]);
    assert_eq!(inv.capture_argv, strs(&["deviceId", "src"]));
}

#[test]
fn capture_command_args_prepends_json() {
    assert_eq!(
        capture_command_args(&strs(&["deviceId", "src"])),
        strs(&["--json", "deviceId", "src"])
    );
}

#[test]
fn capture_argv_excludes_ripgreps_own_top_level_modes() {
    assert_eq!(parse(&["--files", "src"]).capture_argv, strs(&["src"]));
    assert!(parse(&["--type-list"]).capture_argv.is_empty());
}

#[test]
fn capture_command_args_composes_with_the_parsers_argv() {
    let inv = parse(&["-c", "-n", "--heading", "-g", "*.ts", "deviceId", "src"]);
    assert_eq!(
        capture_command_args(&inv.capture_argv),
        strs(&["--json", "-g", "*.ts", "deviceId", "src"])
    );
}
