use smart_rg::filter::{filter_matches, PathSet};
use smart_rg::found::{AgMatch, RgCapture, RgMatch};
use smart_rg::pipeline::{
    after_capture, ast_grep_args, conclude, plan_search, route, AfterCapture, Ending, Route, Step,
};
use smart_rg::render::{output_mode, OutputMode};

const PLAIN: OutputMode = OutputMode::Content { line_numbers: true };

fn words(v: &[&str]) -> Vec<String> {
    v.iter().map(|s| s.to_string()).collect()
}

fn hit(file: &str, line: u64) -> RgMatch {
    RgMatch { file: file.to_string(), line, text: format!("text {line}") }
}

fn node(file: &str, line: u64, end_line: u64) -> AgMatch {
    AgMatch { file: file.to_string(), line, end_line, text: String::new() }
}

fn paths(v: &[&str]) -> PathSet {
    let mut set = PathSet::new();
    for p in v {
        set.insert(p);
    }
    set
}

fn reason(args: &[&str], on_tty: bool) -> String {
    match plan_search(&words(args), on_tty).next {
        Step::Forward(Some(e)) => {
            assert_eq!(e.event, "passthrough");
            assert_eq!((e.lang.as_str(), e.matches), ("", 0));
            e.reason
        }
        Step::Forward(None) => "nothing".to_string(),
        Step::Capture(p) => format!("capture {p}"),
    }
}

fn confirm(hits: &[RgMatch], ag: Vec<AgMatch>, searched: &[&str], langs: &[&str]) -> Ending {
    conclude("foo(", "foo($$$)", &hits.to_vec(), (ag, paths(searched), words(langs)), PLAIN)
}

#[test]
fn a_command_line_is_routed() {
    for (line, expected) in [
        (vec!["rg"], Route::Forward),
        (vec!["smart-rg"], Route::Help),
        (vec!["rg", "stats"], Route::Manage),
        (vec!["smart-rg", "report", "-o", "x"], Route::Manage),
        (vec!["smart-rg", "prune"], Route::Manage),
        (vec!["rg", "reset", "--help"], Route::Manage),
        (vec!["smart-rg", "foo", "-h"], Route::Help),
        (vec!["smart-rg", "help"], Route::Help),
        (vec!["rg", "help"], Route::Search),
        (vec!["rg", "--help"], Route::Forward),
        (vec!["rg", "foo", "-h"], Route::Forward),
        (vec!["/bin/smart-rg", "--version"], Route::Version),
        (vec!["smart-rg", "-V"], Route::Version),
        (vec!["smart-rg", "version"], Route::Version),
        (vec!["smart-rg", "--version", "--help"], Route::Help),
        (vec!["rg", "--version"], Route::Search),
        (vec!["rg", "foo"], Route::Search),
        (vec!["smart-rg", "foo", "stats"], Route::Search),
        (vec![], Route::Forward),
    ] {
        assert_eq!(route(&words(&line)), expected, "{line:?}");
    }
}

#[test]
fn every_reason_to_hand_a_search_on_is_logged() {
    assert_eq!(reason(&["--files", "src"], true), "nothing");
    assert_eq!(reason(&["fooBar(", "-"], true), "stdin_dash");
    assert_eq!(reason(&["fooBar(", "-", "src"], true), "stdin_dash");
    assert_eq!(reason(&["fooBar("], false), "stream_stdin");
    assert_eq!(reason(&["-v", "fooBar("], false), "stream_stdin");
    assert_eq!(reason(&["-v", "fooBar("], true), "unsupported_flag_-v");
    assert_eq!(reason(&["--json", "fooBar(", "src"], false), "unsupported_flag_--json");
    assert_eq!(
        reason(&["-e", "a", "-e", "b", "src"], false),
        "unsupported_flag_-e (multiple patterns)"
    );
    assert_eq!(reason(&["--no-smart", "fooBar(", "src"], false), "no_smart");
    assert_eq!(reason(&["error", "src"], false), "not_structural");
    assert_eq!(reason(&["fooBar(", "src"], false), "capture fooBar(");
    assert_eq!(reason(&["fooBar("], true), "capture fooBar(");
}

#[test]
fn a_search_that_is_handed_on_loses_the_shims_flag() {
    let plan = plan_search(&words(&["--no-smart", "-n", "fooBar(", "src"]), true);
    assert_eq!(plan.rg_args, words(&["-n", "fooBar(", "src"]));
    assert!(plan.inv.no_smart);
}

#[test]
fn a_failed_capture_hands_the_search_on() {
    match after_capture("fooBar(", RgCapture::Failed, PLAIN) {
        AfterCapture::Forward(e) => {
            assert_eq!((e.event.as_str(), e.reason.as_str()), ("passthrough", "rg_failed"))
        }
        _ => panic!("forward"),
    }
    match after_capture("fooBar(", RgCapture::Unparseable, PLAIN) {
        AfterCapture::Forward(e) => assert_eq!(e.reason, "rg_json_unparseable"),
        _ => panic!("forward"),
    }
}

#[test]
fn too_many_matches_are_printed_as_they_are() {
    match after_capture("fooBar(", RgCapture::OverCap(vec![hit("a.py", 1)]), PLAIN) {
        AfterCapture::Stop(end) => {
            assert_eq!(end.output, "a.py:1:text 1\n");
            assert_eq!(end.code, 0);
            assert_eq!(end.entry.event, "fallback");
            assert_eq!((end.entry.reason.as_str(), end.entry.matches), ("over_cap", 1));
            assert!(end.figures.is_none() && end.notice.is_none());
        }
        _ => panic!("stop"),
    }
}

#[test]
fn no_match_ends_with_code_one() {
    match after_capture("fooBar(", RgCapture::Matches(vec![]), PLAIN) {
        AfterCapture::Stop(end) => {
            assert_eq!((end.output.as_str(), end.code), ("", 1));
            assert_eq!((end.entry.event.as_str(), end.entry.reason.as_str()), ("no_match", "rg_empty"));
        }
        _ => panic!("stop"),
    }
}

#[test]
fn files_in_no_language_are_printed_as_they_are() {
    match after_capture("fooBar(", RgCapture::Matches(vec![hit("a.md", 4)]), PLAIN) {
        AfterCapture::Stop(end) => {
            assert_eq!(end.output, "a.md:4:text 4\n");
            assert_eq!(end.entry.reason, "no_searchable_language");
        }
        _ => panic!("stop"),
    }
}

#[test]
fn files_in_a_language_go_to_ast_grep() {
    let hits = vec![hit("b.py", 1), hit("a.py", 1), hit("b.py", 2), hit("x.md", 1)];
    match after_capture("foo_bar\\(", RgCapture::Matches(hits), PLAIN) {
        AfterCapture::Confirm { hits, by_lang, sg_pattern } => {
            assert_eq!(hits.len(), 4);
            assert_eq!(by_lang.get("python"), Some(&words(&["a.py", "b.py"])));
            assert_eq!(by_lang.len(), 1);
            assert_eq!(sg_pattern, "foo_bar($$$)");
            assert_eq!(
                ast_grep_args(&sg_pattern, "python", by_lang.get("python").unwrap()),
                words(&["run", "-p", "foo_bar($$$)", "-l", "python", "a.py", "b.py", "--json=stream"])
            );
        }
        _ => panic!("confirm"),
    }
}

#[test]
fn nothing_confirmed_shows_everything() {
    let hits = vec![hit("a.py", 1), hit("b.md", 2)];
    let end = confirm(&hits, vec![], &[], &[]);
    assert_eq!(end.output, "a.py:1:text 1\nb.md:2:text 2\n");
    assert_eq!(end.code, 0);
    assert_eq!((end.entry.event.as_str(), end.entry.reason.as_str()), ("fallback", "ast_grep_empty"));
    assert_eq!((end.entry.pattern.as_str(), end.entry.matches), ("foo(", 2));
    assert!(end.figures.is_none());
    let end = confirm(&hits, vec![node("a.py", 9, 9)], &["a.py"], &["python"]);
    assert_eq!(end.output, "a.py:1:text 1\nb.md:2:text 2\n");
    assert_eq!(end.entry.lang, "python");
}

#[test]
fn confirmed_matches_are_shown_and_the_others_counted() {
    let hits = vec![
        hit("./a.py", 1), hit("./a.py", 5), hit("./b.py", 1), hit("c.ts", 7), hit("d.sql", 3),
    ];
    let ag = vec![node("a.py", 1, 2), node("c.ts", 7, 7)];
    let end = confirm(&hits, ag, &["a.py", "b.py", "c.ts"], &["python", "typescript"]);
    assert_eq!(end.output, "./a.py:1:text 1\nc.ts:7:text 7\nd.sql:3:text 3\n");
    assert_eq!(
        end.notice.as_deref(),
        Some("\x1b[36msmart-rg: 2 matches not confirmed as structural by ast-grep — rerun with --no-smart\x1b[0m")
    );
    assert_eq!(end.entry.event, "structural");
    assert_eq!(end.entry.pattern, "foo($$$)");
    assert_eq!(end.entry.reason, "filtered");
    assert_eq!(end.entry.lang, "python,typescript");
    assert_eq!(end.entry.matches, 2);
    let figures = end.figures.unwrap();
    assert_eq!(figures.pattern, "foo(");
    assert_eq!((figures.ag_matches, figures.rg_results), (2, 4));
    assert_eq!((figures.ag_files, figures.rg_files), (2, 3));
}

#[test]
fn one_hidden_match_is_one_match() {
    let hits = vec![hit("a.py", 1), hit("a.py", 5)];
    let end = confirm(&hits, vec![node("a.py", 1, 1)], &["a.py"], &["python"]);
    assert_eq!(
        end.notice.as_deref(),
        Some("\x1b[36msmart-rg: 1 match not confirmed as structural by ast-grep — rerun with --no-smart\x1b[0m")
    );
    let end = confirm(&hits, vec![node("a.py", 1, 5)], &["a.py"], &["python"]);
    assert_eq!(end.notice, None);
}

#[test]
fn the_filter_accounts_for_every_match() {
    let hits = vec![hit("a.py", 1), hit("a.py", 2), hit("a.py", 3), hit("b.md", 1)];
    let out = filter_matches(&hits, &[node("./a.py", 2, 3)], &paths(&["a.py"]));
    assert_eq!(out.kept, vec![hit("a.py", 2), hit("a.py", 3), hit("b.md", 1)]);
    assert_eq!((out.searched_hits, out.confirmed_hits, out.suppressed), (3, 2, 1));
    assert_eq!(out.kept.len() + out.suppressed, hits.len());
}

#[test]
fn the_output_mode_is_what_was_asked_for() {
    let mode = |args: &[&str], file: bool, tty: bool| {
        output_mode(&plan_search(&words(args), true).inv, file, tty)
    };
    assert_eq!(mode(&["-c", "p", "a"], true, false), OutputMode::Count { show_filename: false });
    assert_eq!(mode(&["-c", "p", "a"], false, false), OutputMode::Count { show_filename: true });
    assert_eq!(mode(&["-c", "p", "a", "b"], true, false), OutputMode::Count { show_filename: true });
    assert_eq!(mode(&["-cl", "p"], false, false), OutputMode::Count { show_filename: true });
    assert_eq!(mode(&["-l", "p"], false, false), OutputMode::FilesWithMatches);
    assert_eq!(mode(&["p"], false, true), OutputMode::Content { line_numbers: true });
    assert_eq!(mode(&["p"], false, false), OutputMode::Content { line_numbers: false });
    assert_eq!(mode(&["-N", "p"], false, true), OutputMode::Content { line_numbers: false });
    assert_eq!(mode(&["-n", "p"], false, false), OutputMode::Content { line_numbers: true });
}
