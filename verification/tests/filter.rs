use smart_rg::filter::{
    confirm_by_language, confirmed_spans, filter_matches, is_confirmed, PathSet,
};
use smart_rg::found::{parse_ag_matches, RgMatch};
use smart_rg::lang::LangGroups;
use smart_rg::paths::norm_path;

fn strs(v: &[&str]) -> Vec<String> {
    v.iter().map(|s| s.to_string()).collect()
}

fn rg_hit(file: &str, line: u64, text: &str) -> RgMatch {
    RgMatch { file: file.into(), line, text: text.into() }
}

fn ag_json(file: &str, line: u64, text: &str) -> String {
    ag_json_span(file, line, line, text)
}

fn ag_json_span(file: &str, start: u64, end: u64, text: &str) -> String {
    format!(
        r#"{{"file":"{file}","range":{{"start":{{"line":{start}}},"end":{{"line":{end}}}}},"lines":"{text}"}}"#
    )
}

fn searched_set(files: &[&str]) -> PathSet {
    let mut set = PathSet::new();
    for f in files {
        set.insert(norm_path(f));
    }
    set
}

#[test]
fn a_dot_slash_rg_path_matches_ast_greps_normalised_path() {
    let ag = parse_ag_matches(&ag_json("src/a.ts", 0, "const deviceId = 1;"));
    let spans = confirmed_spans(&ag);
    let hit = RgMatch {
        file: "./src/a.ts".into(),
        line: 1,
        text: "const deviceId = 1;".into(),
    };
    assert!(is_confirmed(&hit, &spans), "leading ./ must not defeat the lookup");
}

#[test]
fn a_hit_on_a_continuation_line_is_confirmed() {
    let ag = parse_ag_matches(&ag_json_span("a.py", 0, 2, "bypass_rls("));
    let spans = confirmed_spans(&ag);
    let hit = RgMatch { file: "a.py".into(), line: 2, text: "  session, tenant_id".into() };
    assert!(is_confirmed(&hit, &spans), "line 2 is inside the node span 1..=3");
}

#[test]
fn a_hit_outside_every_span_is_dropped() {
    let ag = parse_ag_matches(&ag_json_span("a.py", 0, 2, "bypass_rls("));
    let spans = confirmed_spans(&ag);
    let hit = RgMatch { file: "a.py".into(), line: 9, text: "# bypass_rls in a comment".into() };
    assert!(!is_confirmed(&hit, &spans));
}

#[test]
fn a_hit_in_an_unconfirmed_file_is_dropped() {
    let ag = parse_ag_matches(&ag_json_span("a.py", 0, 2, "bypass_rls("));
    let spans = confirmed_spans(&ag);
    let hit = RgMatch { file: "other.sql".into(), line: 1, text: "-- bypass_rls".into() };
    assert!(!is_confirmed(&hit, &spans));
}

#[test]
fn hits_in_an_unsearched_file_are_never_suppressed() {
    let hits = vec![
        rg_hit("db.py", 1, "bypass_rls(conn)"),
        rg_hit("db.py", 7, "# bypass_rls in a comment"),
        rg_hit("schema.sql", 3, "-- bypass_rls policy"),
    ];
    let ag = parse_ag_matches(&ag_json("db.py", 0, "bypass_rls(conn)"));
    let searched = searched_set(&["db.py"]);
    let out = filter_matches(&hits, &ag, &searched);
    assert_eq!(
        out.kept,
        vec![rg_hit("db.py", 1, "bypass_rls(conn)"), rg_hit("schema.sql", 3, "-- bypass_rls policy")],
        "the SQL hit must survive: ast-grep never looked at that file"
    );
    assert_eq!(out.suppressed, 1, "only the searched-but-unconfirmed comment");
}

#[test]
fn filter_keeps_confirmed_hits_and_counts_the_rest() {
    let hits = vec![
        rg_hit("a.py", 1, "bypass_rls(conn)"),
        rg_hit("a.py", 7, "# bypass_rls is used above"),
        rg_hit("a.py", 9, "SQL = 'select bypass_rls'"),
    ];
    let ag = parse_ag_matches(&ag_json("a.py", 0, "bypass_rls(conn)"));
    let out = filter_matches(&hits, &ag, &searched_set(&["a.py"]));
    assert_eq!(out.kept, vec![rg_hit("a.py", 1, "bypass_rls(conn)")]);
    assert_eq!(out.suppressed, 2, "the comment and the SQL string");
}

#[test]
fn filter_with_no_confirmations_keeps_nothing_from_searched_files() {
    let hits = vec![rg_hit("a.py", 1, "tenant_id = 1")];
    let out = filter_matches(&hits, &[], &searched_set(&["a.py"]));
    assert!(out.kept.is_empty());
    assert_eq!(out.suppressed, 1);
}

#[test]
fn a_dot_slash_hit_matches_a_normalised_searched_path() {
    let hits = vec![rg_hit("./db.py", 1, "bypass_rls(conn)")];
    let ag = parse_ag_matches(&ag_json("db.py", 0, "bypass_rls(conn)"));
    let out = filter_matches(&hits, &ag, &searched_set(&["db.py"]));
    assert_eq!(out.kept.len(), 1, "leading ./ must not defeat the searched lookup");
    assert_eq!(out.suppressed, 0);
}

#[test]
fn a_language_that_confirms_nothing_is_treated_as_unsearched() {
    let hits = vec![
        rg_hit("app.py", 2, "    render_chart(data)"),
        rg_hit("page.html", 2, "  render_chart(data);"),
    ];
    let ag = parse_ag_matches(&ag_json("app.py", 1, "    render_chart(data)"));
    let out = filter_matches(&hits, &ag, &searched_set(&["app.py"]));
    assert_eq!(out.kept.len(), 2, "the .html hit must survive: html confirmed nothing");
    assert_eq!(out.suppressed, 0);
}

#[test]
fn a_language_that_confirms_nothing_is_excluded_from_searched() {
    let mut by_lang = LangGroups::new();
    by_lang.insert("python", strs(&["app.py"]));
    by_lang.insert("html", strs(&["page.html"]));

    let (ag, searched, confirming) = confirm_by_language(&by_lang, |lang, _files| {
        if lang == "python" {
            parse_ag_matches(&ag_json("app.py", 1, "    render_chart(d)"))
        } else {
            Vec::new()
        }
    });

    assert_eq!(ag.len(), 1);
    assert!(searched.contains("app.py"));
    assert!(!searched.contains("page.html"), "html confirmed nothing => not searched");
    assert_eq!(confirming, vec!["python"], "only confirming languages are credited");
}

#[test]
fn comparison_counts_exclude_unsearched_files() {
    let hits = vec![
        rg_hit("a.py", 1, "bypass_rls(conn)"),
        rg_hit("a.py", 7, "# bypass_rls"),
        rg_hit("notes.md", 2, "bypass_rls docs"),
    ];
    let ag = parse_ag_matches(&ag_json("a.py", 0, "bypass_rls(conn)"));
    let out = filter_matches(&hits, &ag, &searched_set(&["a.py"]));
    assert_eq!(out.searched_hits, 2, "only the two a.py hits");
    assert_eq!(out.confirmed_hits, 1);
}
