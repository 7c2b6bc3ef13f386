use smart_rg::found::{parse_ag_matches, parse_rg_json};

fn ag_json(file: &str, line: u64, text: &str) -> String {
    ag_json_span(file, line, line, text)
}

fn ag_json_span(file: &str, start: u64, end: u64, text: &str) -> String {
    format!(
        r#"{{"file":"{file}","range":{{"start":{{"line":{start}}},"end":{{"line":{end}}}}},"lines":"{text}"}}"#
    )
}

fn rg_json_match(file: &str, line: u64, text: &str) -> String {
    format!(
        r#"{{"type":"match","data":{{"path":{{"text":"{file}"}},"lines":{{"text":"{text}\n"}},"line_number":{line},"absolute_offset":0,"submatches":[]}}}}"#
    )
}

#[test]
fn parses_a_match_record_with_one_based_line() {
    let (m, _) = parse_rg_json(&rg_json_match("src/a.ts", 1, "const deviceId = 1;"));
    assert_eq!(m.len(), 1);
    assert_eq!(m[0].file, "src/a.ts");
    assert_eq!(m[0].line, 1, "ripgrep line_number is already 1-based");
    assert_eq!(m[0].text, "const deviceId = 1;", "trailing newline stripped");
}

#[test]
fn parse_rg_json_reports_records_it_cannot_parse() {
    let stream = format!(
        "{}\n{}",
        rg_json_match("a.py", 2, "render_chart(b)"),
        r#"{"type":"match","data":{"path":{"text":"a.py"},"lines":{"bytes":"cmVuZGVy"},"line_number":1,"absolute_offset":0,"submatches":[]}}"#
    );
    let (matches, unparseable) = parse_rg_json(&stream);
    assert_eq!(matches.len(), 1);
    assert_eq!(unparseable, 1, "the bytes-only record must be counted");
}

#[test]
fn parse_rg_json_reports_zero_unparseable_for_clean_input() {
    let (matches, unparseable) = parse_rg_json(&rg_json_match("a.py", 1, "hit"));
    assert_eq!(matches.len(), 1);
    assert_eq!(unparseable, 0);
}

#[test]
fn ignores_non_match_records() {
    let stream = format!(
        "{}\n{}\n{}",
        r#"{"type":"begin","data":{"path":{"text":"src/a.ts"}}}"#,
        rg_json_match("src/a.ts", 3, "hit"),
        r#"{"type":"end","data":{"path":{"text":"src/a.ts"}}}"#
    );
    let (m, _) = parse_rg_json(&stream);
    assert_eq!(m.len(), 1);
    assert_eq!(m[0].line, 3);
}

#[test]
fn empty_stream_yields_no_matches() {
    assert!(parse_rg_json("").0.is_empty());
}

#[test]
fn crlf_line_endings_leave_no_stray_carriage_return() {
    let stream = format!(
        r#"{{"type":"match","data":{{"path":{{"text":"win.ts"}},"lines":{{"text":"const deviceId = 1;\r\n"}},"line_number":1,"absolute_offset":0,"submatches":[]}}}}"#
    );
    let (m, _) = parse_rg_json(&stream);
    assert_eq!(m.len(), 1);
    assert_eq!(m[0].text, "const deviceId = 1;", "no trailing \\r");
}

#[test]
fn ast_grep_end_line_is_normalised_to_one_based() {
    let m = parse_ag_matches(&ag_json_span("a.py", 0, 2, "bypass_rls("));
    assert_eq!(m[0].line, 1);
    assert_eq!(m[0].end_line, 3);
}

#[test]
fn ast_grep_line_zero_becomes_ripgrep_line_one() {
    let m = parse_ag_matches(&ag_json("src/a.ts", 0, "const deviceId = 1;"));
    assert_eq!(m[0].line, 1);
    assert_eq!(m[0].file, "src/a.ts");
}
