use smart_rg::lang::group_files_by_lang;

fn strs(v: &[&str]) -> Vec<String> {
    v.iter().map(|s| s.to_string()).collect()
}

#[test]
fn polyglot_hits_split_into_one_group_per_language() {
    let groups = group_files_by_lang(&strs(&["svc/a.py", "web/b.ts", "svc/c.py"]));
    assert_eq!(groups.get("python"), Some(&strs(&["svc/a.py", "svc/c.py"])));
    assert_eq!(groups.get("typescript"), Some(&strs(&["web/b.ts"])));
    assert_eq!(groups.len(), 2);
}

#[test]
fn files_with_no_known_language_are_dropped() {
    let groups = group_files_by_lang(&strs(&["README.md", "data.csv", "a.py"]));
    assert_eq!(groups.len(), 1);
    assert!(groups.contains_key("python"));
}

#[test]
fn grouping_is_deterministic() {
    let groups = group_files_by_lang(&strs(&["b.ts", "a.py"]));
    let langs: Vec<&str> = groups.keys();
    assert_eq!(langs, vec!["python", "typescript"], "ordered by language");
}
