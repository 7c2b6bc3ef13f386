use smart_rg::found::{
    checked_ag_matches, gather_records, judge_capture, parse_ag_matches, parse_rg_json, read_ag_record,
    read_capture, read_rg_record, AgMatch, Finished, RgCapture, RgMatch, RgRecord, MATCH_CAP,
};

fn hit(line: u64) -> RgMatch {
    RgMatch { file: "a.py".to_string(), line, text: "x".to_string() }
}

fn owned(s: &str) -> Option<String> {
    Some(s.to_string())
}

#[test]
fn a_record_without_all_its_fields_cannot_be_read() {
    let record = read_rg_record(owned("match"), owned("a"), Some(1), None);
    assert!(matches!(record, RgRecord::Unreadable));
    let record = read_rg_record(owned("match"), owned("a"), None, owned("x"));
    assert!(matches!(record, RgRecord::Unreadable));
    let record = read_rg_record(owned("match"), None, Some(1), owned("x"));
    assert!(matches!(record, RgRecord::Unreadable));
    let record = read_rg_record(owned("begin"), None, None, None);
    assert!(matches!(record, RgRecord::Other));
    let record = read_rg_record(None, owned("a"), Some(1), owned("x"));
    assert!(matches!(record, RgRecord::Other));
}

#[test]
fn a_line_loses_its_ending_and_nothing_else() {
    match read_rg_record(owned("match"), owned("a"), Some(9), owned(" x \r\r\n\n")) {
        RgRecord::Match(m) => {
            assert_eq!(m, RgMatch { file: "a".to_string(), line: 9, text: " x ".to_string() })
        }
        _ => panic!("a match"),
    }
}

#[test]
fn lines_that_are_no_json_are_counted() {
    let (found, unreadable) = parse_rg_json("{\n\n{\"type\":\"summary\"}\n[1]\n");
    assert!(found.is_empty());
    assert_eq!(unreadable, 2, "the open brace and the empty line");
}

#[test]
fn numbers_of_lines_are_whole() {
    for number in ["1.0", "-1", "\"1\"", "1e2", "null", "[]", "18446744073709551616"] {
        let line = format!(
            "{{\"type\":\"match\",\"data\":{{\"path\":{{\"text\":\"a\"}},\"lines\":{{\"text\":\"x\"}},\"line_number\":{number}}}}}"
        );
        assert_eq!(parse_rg_json(&line).1, 1, "{number}");
    }
    let line = "  {\"line_number\":0,\"type\":\"match\",\"data\":{\"line_number\":18446744073709551615,\"lines\":{\"text\":\"x\"},\"path\":{\"text\":\"a\"}}}  ";
    let (found, unreadable) = parse_rg_json(line);
    assert_eq!(unreadable, 0);
    assert_eq!(found[0].line, u64::MAX);
}

#[test]
fn texts_in_json_are_unescaped() {
    let line = "{\"type\":\"match\",\"data\":{\"path\":{\"text\":\"\\u00e9.py\"},\"lines\":{\"text\":\"a\\tb\\n\"},\"line_number\":3}}";
    let (found, _) = parse_rg_json(line);
    assert_eq!(found[0].file, "é.py");
    assert_eq!(found[0].text, "a\tb");
}

#[test]
fn data_that_is_no_object_has_no_members() {
    let (found, unreadable) = parse_rg_json("{\"type\":\"match\",\"data\":[1]}\n\"match\"\n7");
    assert!(found.is_empty());
    assert_eq!(unreadable, 1);
}

#[test]
fn a_capture_is_judged_by_code_then_reading_then_number() {
    assert!(matches!(judge_capture(None, vec![], 0), RgCapture::Failed));
    assert!(matches!(judge_capture(Some(2), vec![hit(1)], 0), RgCapture::Failed));
    assert!(matches!(judge_capture(Some(0), vec![hit(1)], 1), RgCapture::Unparseable));
    assert!(matches!(judge_capture(Some(1), vec![], 0), RgCapture::Matches(m) if m.is_empty()));
    assert!(matches!(judge_capture(Some(-1), vec![hit(1)], 0), RgCapture::Matches(m) if m.len() == 1));
    let full: Vec<RgMatch> = (0..MATCH_CAP as u64).map(hit).collect();
    assert!(matches!(judge_capture(Some(0), full, 0), RgCapture::Matches(_)));
    let over: Vec<RgMatch> = (0..=MATCH_CAP as u64).map(hit).collect();
    assert!(matches!(judge_capture(Some(0), over, 0), RgCapture::OverCap(m) if m.len() == MATCH_CAP + 1));
}

#[test]
fn a_capture_run_is_read_to_its_matches() {
    assert!(matches!(read_capture(None), RgCapture::Failed));
    let line = "{\"type\":\"match\",\"data\":{\"path\":{\"text\":\"a\"},\"lines\":{\"text\":\"x\\n\"},\"line_number\":3}}\n";
    let run = Finished { code: Some(0), stdout: line.to_string() };
    assert!(matches!(read_capture(Some(run)), RgCapture::Matches(m) if m[0].line == 3));
    let run = Finished { code: Some(0), stdout: format!("{line}plain text\n") };
    assert!(matches!(read_capture(Some(run)), RgCapture::Unparseable));
    let run = Finished { code: Some(2), stdout: line.to_string() };
    assert!(matches!(read_capture(Some(run)), RgCapture::Failed));
}

#[test]
fn an_ast_grep_record_fills_in_what_is_missing() {
    assert_eq!(
        read_ag_record(None, None, None, None, None),
        AgMatch { file: String::new(), line: 1, end_line: 1, text: String::new() }
    );
    let m = read_ag_record(owned("a"), Some(4), Some(6), owned("lines"), owned("text"));
    assert_eq!((m.line, m.end_line, m.text.as_str()), (5, 7, "lines"));
    assert_eq!(read_ag_record(None, None, None, None, owned("text")).text, "text");
}

#[test]
fn unreadable_lines_of_ast_grep_are_passed_over() {
    let found = parse_ag_matches("\n  \nno json\n{\"file\":\"a.py\",\"text\":\"t\"}\n[]\n");
    assert_eq!(found.len(), 2);
    assert_eq!(found[0].file, "a.py");
    assert_eq!(found[0].text, "t");
    assert_eq!(found[1].file, "");
}

#[test]
fn a_line_that_cannot_be_counted_is_told() {
    let last = "{\"range\":{\"start\":{\"line\":18446744073709551615},\"end\":{\"line\":0}}}";
    assert!(checked_ag_matches(last).is_none());
    let last = "{}\n{\"range\":{\"end\":{\"line\":18446744073709551615}}}";
    assert!(checked_ag_matches(last).is_none());
    let fits = "{\"range\":{\"start\":{\"line\":18446744073709551614},\"end\":{\"line\":0}}}";
    assert_eq!(checked_ag_matches(fits).unwrap()[0].line, u64::MAX);
}

#[test]
fn records_are_gathered_in_order() {
    let list = vec![
        RgRecord::Match(hit(3)),
        RgRecord::Other,
        RgRecord::Unreadable,
        RgRecord::Match(hit(1)),
        RgRecord::Unreadable,
    ];
    let (found, unreadable) = gather_records(list);
    assert_eq!(found, vec![hit(3), hit(1)]);
    assert_eq!(unreadable, 2);
}
