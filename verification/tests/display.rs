use smart_rg::found::RgMatch;
use smart_rg::render::{render_output, OutputMode};
use smart_rg::report::{escape_for_script, fill_template};
use smart_rg::savings::ComparisonRow;
use smart_rg::stats::{compute_stats, empty_stats, EventRow};
use smart_rg::table::stats_table;

fn event(agent: &str, event: &str, pattern: &str, lang: &str, matches: i64) -> EventRow {
    EventRow {
        agent: agent.to_string(),
        event: event.to_string(),
        pattern: pattern.to_string(),
        lang: lang.to_string(),
        matches,
        day: Some("2025-06-15".to_string()),
        at: None,
    }
}

fn comparison() -> ComparisonRow {
    ComparisonRow {
        pattern: "foo(".to_string(),
        lang: "python".to_string(),
        ag_matches: 2,
        ag_files: 1,
        ag_time_ms: 1,
        rg_results: 5,
        rg_files: 3,
        rg_time_ms: 1,
        files_saved: 2,
        estimated_tokens_saved: 45,
        text_tokens: 75,
        ast_tokens: 30,
    }
}

fn bar() -> String {
    format!("\x1b[1;36m{}\x1b[0m", "━".repeat(47))
}

fn rule() -> String {
    format!("  {}", "─".repeat(41))
}

#[test]
fn the_table_of_nothing_says_so() {
    let lines = stats_table(&empty_stats(), "0.0");
    let expected = vec![
        String::new(),
        bar(),
        "\x1b[1;36m  🪶  smart-rg  —  Shim Stats\x1b[0m".to_string(),
        bar(),
        String::new(),
        "\x1b[1m  Overview\x1b[0m".to_string(),
        rule(),
        format!("  Total intercepted:    {:>6}", 0),
        format!("  Structural redirects: {:>6}  ({:.1}% of searches with something to redirect)", 0, 0.0),
        format!("  Passed through (text):{:>6}", 0),
        format!("  No match (rg empty):  {:>6}", 0),
        format!("  Errors/fallbacks:     {:>6}", 0),
        format!("  Total matches found:  {:>6}", 0),
        String::new(),
        "\x1b[33m  No data yet. Start using smart-rg to see stats.\x1b[0m".to_string(),
        String::new(),
    ];
    assert_eq!(lines, expected);
}

#[test]
fn the_table_has_a_part_for_everything() {
    let rows = vec![
        event("zed", "structural", "foo($$$)", "python,rust", 4),
        event("zed", "structural", "bar", "rust", 1_234_567),
        event("cursor", "passthrough", "text", "", 0),
    ];
    let runs: Vec<ComparisonRow> = (0..51).map(|_| comparison()).collect();
    let lines = stats_table(&compute_stats(&rows, &runs), "66.7");
    let mut expected = vec![
        String::new(),
        bar(),
        "\x1b[1;36m  🪶  smart-rg  —  Shim Stats\x1b[0m".to_string(),
        bar(),
        String::new(),
        "\x1b[1m  Overview\x1b[0m".to_string(),
        rule(),
        format!("  Total intercepted:    {:>6}", 3),
        format!("  Structural redirects: {:>6}  ({}% of searches with something to redirect)", 2, "66.7"),
        format!("  Passed through (text):{:>6}", 1),
        format!("  No match (rg empty):  {:>6}", 0),
        format!("  Errors/fallbacks:     {:>6}", 0),
        format!("  Total matches found:  {:>6}", 1_234_571),
        String::new(),
        "\x1b[1m  By Agent\x1b[0m".to_string(),
        rule(),
        format!("  {:<20} {:>6} {:>10} {:>6}", "AGENT", "TOTAL", "STRUCTURAL", "PASS"),
        format!("  {:-<46}", ""),
        format!("  {:<20} {:>6} {:>10} {:>6}", "zed", 2, 2, 0),
        format!("  {:<20} {:>6} {:>10} {:>6}", "cursor", 1, 0, 1),
        String::new(),
        "\x1b[1m  By Language (structural redirects)\x1b[0m".to_string(),
        rule(),
        format!("  {:<20} {:>6}", "rust", 2),
        format!("  {:<20} {:>6}", "python", 1),
        String::new(),
        "\x1b[1m  By Day\x1b[0m".to_string(),
        rule(),
        format!("  {:<12} {:>6} {:>10}", "DAY", "TOTAL", "REDIRECTS"),
        format!("  {:-<32}", ""),
        format!("  {:<12} {:>6} {:>10}", "2025-06-15", 3, 2),
        String::new(),
        "\x1b[1m  Top Redirected Patterns\x1b[0m".to_string(),
        rule(),
        format!("  {:<30} {:>3}x{}", "bar", 1, " [rust]"),
        format!("  {:<30} {:>3}x{}", "foo($$$)", 1, " [python]"),
        format!("  {:<30} {:>3}x{}", "foo($$$)", 1, " [rust]"),
        String::new(),
        "\x1b[1m  rg vs ag — File Savings\x1b[0m".to_string(),
        rule(),
        format!("  {:<25} {:>10} {:>10} {:>10} {:>10}", "PATTERN", "AG FILES", "RG FILES", "SAVED", "EST. TOKENS"),
        format!("  {:-<70}", ""),
    ];
    for _ in 0..50 {
        expected.push(format!("  {:<25} {:>10} {:>10} {:>10} {:>10}", "foo(", 1, 3, 2, 45));
    }
    expected.push(String::new());
    expected.push("  (showing the 50 most recent of 51 runs)".to_string());
    expected.push(format!("  Total files saved:  {:>10}", 102));
    expected.push(format!("  Total tokens saved: {:>10}", 51 * 45));
    expected.push(String::new());
    assert_eq!(lines, expected);
}

#[test]
fn a_page_that_shows_all_runs_does_not_say_how_many() {
    let rows = vec![event("zed", "passthrough", "text", "", 0)];
    let lines = stats_table(&compute_stats(&rows, &[comparison()]), "0.0");
    assert!(!lines.iter().any(|l| l.contains("most recent of")));
    assert!(!lines.iter().any(|l| l.contains("Top Redirected")));
    assert!(lines.iter().any(|l| l == "  Total files saved:           2"));
}

#[test]
fn data_cannot_end_the_script_it_stands_in() {
    assert_eq!(escape_for_script("{\"p\":\"</script>\"}"), "{\"p\":\"<\\/script>\"}");
    assert!(!escape_for_script("<</<//</").contains("</"));
    assert_eq!(escape_for_script("a < b / c"), "a < b / c");
}

#[test]
fn a_page_holds_the_data_and_the_version() {
    let page = fill_template("<a>__SHIM_DATA__</a><b>__SHIM_VERSION__</b>__SHIM_DATA__", "</x>", "1.2");
    assert_eq!(page, "<a><\\/x></a><b>1.2</b><\\/x>");
    assert_eq!(fill_template("__SHIM_DATA__", "__SHIM_VERSION__", "9"), "9");
}

#[test]
fn files_are_printed_in_order_whatever_order_they_come_in() {
    let hit = |file: &str| RgMatch { file: file.to_string(), line: 1, text: "x".to_string() };
    let one = vec![hit("b"), hit("a"), hit("c"), hit("a")];
    let other = vec![hit("a"), hit("c"), hit("b"), hit("b")];
    let mode = OutputMode::FilesWithMatches;
    assert_eq!(render_output(&one, mode), render_output(&other, mode));
    assert_eq!(render_output(&one, OutputMode::Count { show_filename: true }), "a:2\nb:1\nc:1\n");
}

#[test]
fn matches_are_printed_in_the_order_of_their_files() {
    let hit = |file: &str, line: u64, text: &str| RgMatch {
        file: file.to_string(),
        line,
        text: text.to_string(),
    };
    let two = vec![hit("src/b.ts", 1, "x"), hit("src/a.ts", 2, "y")];
    let numbered = OutputMode::Content { line_numbers: true };
    let bare = OutputMode::Content { line_numbers: false };
    assert_eq!(render_output(&two, numbered), "src/a.ts:2:y\nsrc/b.ts:1:x\n");
    assert_eq!(render_output(&two, bare), "src/a.ts:y\nsrc/b.ts:x\n");
    let more = vec![
        hit("b.rs", 9, "late"),
        hit("c.rs", 4, "same"),
        hit("a.rs", 7, "only"),
        hit("b.rs", 3, "early"),
        hit("c.rs", 4, "same"),
    ];
    assert_eq!(
        render_output(&more, numbered),
        "a.rs:7:only\nb.rs:9:late\nb.rs:3:early\nc.rs:4:same\nc.rs:4:same\n"
    );
    assert_eq!(
        render_output(&more, bare),
        "a.rs:only\nb.rs:late\nb.rs:early\nc.rs:same\nc.rs:same\n"
    );
}

#[test]
fn the_order_in_which_files_are_found_does_not_show() {
    let hit = |file: &str, line: u64| RgMatch {
        file: file.to_string(),
        line,
        text: "x".to_string(),
    };
    let one = vec![hit("b", 1), hit("a", 1), hit("a", 2), hit("b", 2)];
    let other = vec![hit("a", 1), hit("a", 2), hit("b", 1), hit("b", 2)];
    for mode in [
        OutputMode::Content { line_numbers: true },
        OutputMode::Content { line_numbers: false },
        OutputMode::Count { show_filename: true },
        OutputMode::Count { show_filename: false },
        OutputMode::FilesWithMatches,
    ] {
        assert_eq!(render_output(&one, mode), render_output(&other, mode));
    }
}

#[test]
fn no_matches_print_nothing_but_a_bare_count() {
    assert_eq!(render_output(&[], OutputMode::Content { line_numbers: true }), "");
    assert_eq!(render_output(&[], OutputMode::FilesWithMatches), "");
    assert_eq!(render_output(&[], OutputMode::Count { show_filename: true }), "");
    assert_eq!(render_output(&[], OutputMode::Count { show_filename: false }), "0\n");
}
