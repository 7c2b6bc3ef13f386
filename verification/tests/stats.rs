use smart_rg::savings::{
    checked_totals, comparison_page, comparison_totals, prune_cutoff, reckon, ComparisonRow,
    ComparisonTotals, Savings, COMPARISON_PAGE,
};
use smart_rg::stats::{
    agent_counts, compute_stats, day_counts, empty_stats, event_counts, is_error_event,
    language_counts, recent_redirects, redirect_ratio, top_pattern_stats, EventRow,
};

fn comparison(pattern: &str, figures: [i64; 10]) -> ComparisonRow {
    ComparisonRow {
        pattern: pattern.to_string(),
        lang: "typescript".to_string(),
        ag_matches: figures[0],
        ag_files: figures[1],
        ag_time_ms: figures[2],
        rg_results: figures[3],
        rg_files: figures[4],
        rg_time_ms: figures[5],
        files_saved: figures[6],
        estimated_tokens_saved: figures[7],
        text_tokens: figures[8],
        ast_tokens: figures[9],
    }
}

fn seeded(rows: usize) -> Vec<ComparisonRow> {
    (0..rows).map(|_| comparison("p", [2, 1, 1, 5, 2, 1, 1, 45, 75, 30])).collect()
}

fn event(event: &str, pattern: &str, lang: &str, matches: i64) -> EventRow {
    EventRow {
        agent: "first-agent".to_string(),
        event: event.to_string(),
        pattern: pattern.to_string(),
        lang: lang.to_string(),
        matches,
        day: Some("2025-06-15".to_string()),
        at: Some("2025-06-15 15:06:40".to_string()),
    }
}

fn counted<'a>(list: &'a [(String, u64)], name: &str) -> Option<&'a u64> {
    list.iter().find(|e| e.0 == name).map(|e| &e.1)
}

fn redirect_rate(total: u64, structural: u64, no_match: u64) -> f64 {
    let (part, whole) = redirect_ratio(total, structural, no_match);
    if whole > 0 {
        part as f64 / whole as f64 * 100.0
    } else {
        0.0
    }
}

#[test]
fn comparison_runs_counts_every_row_not_just_the_displayed_page() {
    let totals = comparison_totals(&seeded(60));
    assert_eq!(totals.runs, 60, "must not saturate at the 50-row display page");
}

#[test]
fn savings_totals_cover_every_row_not_just_the_displayed_page() {
    let totals = comparison_totals(&seeded(60));
    assert_eq!(totals.files_saved, 60);
    assert_eq!(totals.false_positives, 180, "60 rows x (5 rg - 2 ag)");
    assert_eq!(totals.tokens_saved, 2700, "60 rows x 45");
}

#[test]
fn totals_fall_back_to_text_minus_ast_when_no_estimate_is_stored() {
    let rows = vec![comparison("p", [2, 1, 1, 5, 2, 1, 3, 0, 500, 200])];
    let totals = comparison_totals(&rows);
    assert_eq!(totals.tokens_saved, 300, "text 500 - ast 200");
}

#[test]
fn a_negative_saving_is_floored_at_zero_never_reported_as_a_loss() {
    let rows = vec![comparison("p", [9, 1, 1, 2, 1, 1, 0, 0, 30, 135])];
    let totals = comparison_totals(&rows);
    assert_eq!(totals.false_positives, 0, "ag > rg is not negative noise");
    assert_eq!(totals.tokens_saved, 0);
}

#[test]
fn empty_table_totals_are_zero() {
    let totals = comparison_totals(&seeded(0));
    assert_eq!(totals.runs, 0);
    assert_eq!(totals.files_saved, 0);
    assert_eq!(totals.tokens_saved, 0);
}

#[test]
fn polyglot_lang_label_is_split_across_its_languages_not_its_own_bucket() {
    let rows = vec![
        event("structural", "armingSnapshot($$$)", "python,typescript", 2),
        event("structural", "otherCall($$$)", "python", 3),
        event("structural", "thirdCall($$$)", "python", 1),
    ];
    let counts = language_counts(&rows);
    assert_eq!(counted(&counts, "python"), Some(&3), "2 python-only events + 1 from the polyglot row");
    assert_eq!(counted(&counts, "typescript"), Some(&1), "only the polyglot row touched typescript");
    assert_eq!(counted(&counts, "python,typescript"), None, "must not survive as its own bucket");
}

#[test]
fn top_patterns_also_splits_the_comma_joined_lang() {
    let rows = vec![
        event("structural", "armingSnapshot($$$)", "python,typescript", 1),
        event("structural", "armingSnapshot($$$)", "python", 1),
    ];
    let top = top_pattern_stats(&rows);
    let python_count: u64 = top
        .iter()
        .filter(|p| p.pattern == "armingSnapshot($$$)" && p.lang == "python")
        .map(|p| p.count)
        .sum();
    assert_eq!(python_count, 2, "the polyglot row's count must fold into python too");
    assert!(top.iter().all(|p| p.lang != "python,typescript"), "no composite bucket");
}

#[test]
fn redirect_rate_excludes_no_match_from_the_denominator() {
    assert_eq!(redirect_rate(4, 1, 3), 100.0);
}

#[test]
fn redirect_rate_is_zero_when_everything_is_a_no_match() {
    assert_eq!(redirect_rate(3, 0, 3), 0.0, "0/0 after excluding no_match must not divide by zero");
}

#[test]
fn day_counts_carries_no_match_as_its_own_column() {
    let rows = vec![
        event("structural", "p", "python", 1),
        event("no_match", "p2", "", 0),
        event("no_match", "p3", "", 0),
    ];
    let days = day_counts(&rows);
    assert_eq!(days.len(), 1);
    assert_eq!(days[0].total, 3);
    assert_eq!(days[0].structural, 1);
    assert_eq!(days[0].no_match, 2);
}

#[test]
fn a_sum_that_does_not_fit_gives_no_totals() {
    let rows = vec![
        comparison("p", [0, 0, 0, 0, 0, 0, i64::MAX, 0, 0, 0]),
        comparison("p", [0, 0, 0, 0, 0, 0, 1, 0, 0, 0]),
    ];
    assert_eq!(checked_totals(&rows), None);
    let zeros = ComparisonTotals { runs: 0, files_saved: 0, false_positives: 0, tokens_saved: 0 };
    assert_eq!(comparison_totals(&rows), zeros);
}

#[test]
fn a_sum_below_zero_gives_no_totals() {
    let rows = vec![comparison("p", [0, 0, 0, 0, 0, 0, -1, 0, 0, 0])];
    assert_eq!(checked_totals(&rows), None);
}

#[test]
fn a_difference_that_does_not_fit_gives_no_totals() {
    let rows = vec![comparison("p", [i64::MIN, 0, 0, i64::MAX, 0, 0, 0, 0, 0, 0])];
    assert_eq!(checked_totals(&rows), None);
    let rows = vec![comparison("p", [i64::MAX, 0, 0, i64::MIN, 0, 0, 0, 0, 0, 0])];
    assert_eq!(checked_totals(&rows).map(|t| t.false_positives), Some(0));
}

#[test]
fn a_stored_estimate_wins_over_the_difference() {
    let rows = vec![comparison("p", [2, 1, 1, 5, 2, 1, 3, 45, 500, 200])];
    assert_eq!(comparison_totals(&rows).tokens_saved, 45);
}

#[test]
fn the_page_holds_the_latest_comparisons_first() {
    let mut rows = seeded(60);
    rows[59].pattern = "last".to_string();
    let page = comparison_page(&rows);
    assert_eq!(page.len(), COMPARISON_PAGE);
    assert_eq!(page[0].pattern, "last");
    assert_eq!(page[0].row, 59);
    assert_eq!(page[49].row, 10);
}

#[test]
fn a_comparison_below_zero_is_left_out_of_the_page() {
    let mut rows = seeded(3);
    rows[1].ag_time_ms = -1;
    let page = comparison_page(&rows);
    assert_eq!(page.iter().map(|c| c.row).collect::<Vec<_>>(), vec![2, 0]);
}

#[test]
fn savings_are_reckoned_by_match_and_never_below_zero() {
    assert_eq!(
        reckon(2, 1, 5, 4),
        Savings { files_saved: 3, ast_tokens: 30, text_tokens: 75, estimated_tokens_saved: 45 }
    );
    assert_eq!(
        reckon(9, 4, 2, 1),
        Savings { files_saved: 0, ast_tokens: 135, text_tokens: 30, estimated_tokens_saved: 0 }
    );
    assert_eq!(reckon(0, 0, u64::MAX, 0).text_tokens, u64::MAX);
}

#[test]
fn pruning_goes_back_whole_days() {
    assert_eq!(prune_cutoff(1_750_000_000, 30), 1_750_000_000 - 30 * 86_400);
    assert_eq!(prune_cutoff(100, 1), 0);
    assert_eq!(prune_cutoff(u64::MAX, u64::MAX), 0);
}

#[test]
fn errors_and_fallbacks_count_as_failures() {
    assert!(is_error_event("error"));
    assert!(is_error_event("Parse_ERROR_2"));
    assert!(is_error_event("fallback"));
    assert!(is_error_event("untranslatable"));
    assert!(!is_error_event("structural"));
    assert!(!is_error_event("Fallback"));
    assert!(!is_error_event("erro"));
}

#[test]
fn agents_are_ranked_by_their_searches() {
    let mut rows = vec![
        event("structural", "a", "python", 1),
        event("passthrough", "b", "", 0),
        event("passthrough", "c", "", 0),
    ];
    rows[0].agent = "zed".to_string();
    let agents = agent_counts(&rows);
    assert_eq!(agents.len(), 2);
    assert_eq!(agents[0].agent, "first-agent");
    assert_eq!((agents[0].total, agents[0].structural, agents[0].passthrough), (2, 0, 2));
    assert_eq!(agents[1].agent, "zed");
    assert_eq!((agents[1].total, agents[1].structural, agents[1].passthrough), (1, 1, 0));
}

#[test]
fn agents_with_as_many_searches_come_in_the_order_of_their_names() {
    let mut rows = vec![event("no_match", "a", "", 0), event("no_match", "b", "", 0)];
    rows[0].agent = "zed".to_string();
    rows[1].agent = "cursor".to_string();
    let names: Vec<String> = agent_counts(&rows).into_iter().map(|a| a.agent).collect();
    assert_eq!(names, vec!["cursor", "zed"]);
}

#[test]
fn the_counts_by_event_add_up() {
    let rows = vec![
        event("structural", "a", "python", 1),
        event("no_match", "b", "", 0),
        event("structural", "c", "rust", 1),
    ];
    assert_eq!(
        event_counts(&rows),
        vec![("no_match".to_string(), 1), ("structural".to_string(), 2)]
    );
}

#[test]
fn days_come_in_order_and_rows_without_a_day_in_none() {
    let mut rows = vec![
        event("structural", "a", "python", 1),
        event("passthrough", "b", "", 0),
        event("passthrough", "c", "", 0),
    ];
    rows[1].day = Some("2025-06-14".to_string());
    rows[2].day = None;
    let days = day_counts(&rows);
    assert_eq!(days.len(), 2);
    assert_eq!((days[0].day.as_str(), days[0].total, days[0].structural), ("2025-06-14", 1, 0));
    assert_eq!((days[1].day.as_str(), days[1].total, days[1].structural), ("2025-06-15", 1, 1));
}

#[test]
fn the_ten_most_frequent_patterns_are_listed() {
    let mut rows = Vec::new();
    for i in 0..12 {
        rows.push(event("structural", &format!("p{i:02}"), "python", 1));
    }
    rows.push(event("structural", "p11", "python", 1));
    rows.push(event("passthrough", "p00", "python", 0));
    let top = top_pattern_stats(&rows);
    assert_eq!(top.len(), 10);
    assert_eq!((top[0].pattern.as_str(), top[0].count), ("p11", 2));
    assert_eq!((top[1].pattern.as_str(), top[1].count), ("p00", 1));
    assert_eq!(top[9].pattern, "p08");
}

#[test]
fn empty_language_names_are_not_credited() {
    let rows = vec![event("structural", "a", ",rust,,", 1), event("structural", "b", "", 1)];
    assert_eq!(language_counts(&rows), vec![("rust".to_string(), 1)]);
}

#[test]
fn the_latest_redirects_come_first() {
    let mut rows = Vec::new();
    for i in 0..20 {
        rows.push(event("structural", &format!("p{i}"), "python", i));
        rows.push(event("passthrough", "text", "", 0));
    }
    let recent = recent_redirects(&rows);
    assert_eq!(recent.len(), 15);
    assert_eq!(recent[0].pattern, "p19");
    assert_eq!(recent[0].matches, 19);
    assert_eq!(recent[14].pattern, "p5");
}

#[test]
fn a_redirect_that_cannot_be_shown_still_takes_its_place() {
    let mut rows = Vec::new();
    for i in 0..16 {
        rows.push(event("structural", &format!("p{i}"), "python", 1));
    }
    rows[15].at = None;
    rows[14].matches = -1;
    let recent = recent_redirects(&rows);
    assert_eq!(recent.len(), 13);
    assert_eq!(recent[0].pattern, "p13");
    assert_eq!(recent[12].pattern, "p1");
}

#[test]
fn statistics_of_nothing_are_empty() {
    let none = compute_stats(&[], &seeded(3));
    assert_eq!(none.total_intercepted, 0);
    assert_eq!(none.totals.runs, 0);
    assert!(none.comparisons.is_empty());
    assert_eq!(empty_stats().redirects, (0, 0));
}

#[test]
fn statistics_gather_every_figure() {
    let rows = vec![
        event("structural", "a($$$)", "python", 4),
        event("structural", "b", "rust,python", 3),
        event("passthrough", "text", "", 0),
        event("fallback", "c", "", 7),
        event("no_match", "d", "", 0),
    ];
    let stats = compute_stats(&rows, &seeded(51));
    assert_eq!(stats.total_intercepted, 5);
    assert_eq!(stats.structural, 2);
    assert_eq!(stats.passthrough, 1);
    assert_eq!(stats.errors, 1);
    assert_eq!(stats.no_match, 1);
    assert_eq!(stats.redirects, (2, 4));
    assert_eq!(stats.total_matches_found, 7);
    assert_eq!(stats.totals.runs, 51);
    assert_eq!(stats.totals.tokens_saved, 51 * 45);
    assert_eq!(stats.comparisons.len(), 50);
    assert_eq!(stats.by_language, vec![("python".to_string(), 2), ("rust".to_string(), 1)]);
    assert_eq!(stats.by_agent.len(), 1);
    assert_eq!(stats.by_day.len(), 1);
    assert_eq!(stats.top_patterns.len(), 3);
    assert_eq!(stats.recent_redirects[0].pattern, "b");
    assert_eq!(stats.by_event.iter().map(|e| e.1).sum::<u64>(), 5);
}

#[test]
fn a_number_of_matches_below_zero_is_none() {
    let rows = vec![event("structural", "a", "python", -4)];
    assert_eq!(compute_stats(&rows, &[]).total_matches_found, 0);
}

#[test]
fn redirects_are_never_more_than_the_searches_that_matched() {
    let rows = vec![
        event("no_match", "a", "", 0),
        event("structural", "b", "python", 1),
        event("other", "c", "", 0),
    ];
    let stats = compute_stats(&rows, &[]);
    assert!(stats.redirects.0 <= stats.redirects.1);
    assert!(stats.by_day[0].structural + stats.by_day[0].no_match <= stats.by_day[0].total);
}
