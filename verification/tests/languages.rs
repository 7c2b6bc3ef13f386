use smart_rg::filter::{merge_confirmations, PathSet};
use smart_rg::found::AgMatch;
use smart_rg::lang::{ext_to_lang, group_files_by_lang, LangGroups};

fn list(v: &[&str]) -> Vec<String> {
    v.iter().map(|s| s.to_string()).collect()
}

fn node(file: &str) -> AgMatch {
    AgMatch { file: file.to_string(), line: 1, end_line: 2, text: String::new() }
}

#[test]
fn extensions_have_languages() {
    for (ext, lang) in [
        ("ts", "typescript"), ("tsx", "tsx"), ("js", "javascript"), ("mjs", "javascript"),
        ("cjs", "javascript"), ("jsx", "jsx"), ("py", "python"), ("rs", "rust"), ("go", "go"),
        ("rb", "ruby"), ("java", "java"), ("c", "c"), ("h", "c"), ("cpp", "c"), ("cc", "c"),
        ("cxx", "c"), ("hpp", "c"), ("hh", "c"), ("css", "css"), ("html", "html"),
        ("htm", "html"), ("swift", "swift"), ("kt", "kotlin"), ("scala", "scala"),
        ("php", "php"), ("sh", "bash"), ("bash", "bash"),
    ] {
        assert_eq!(ext_to_lang(ext), Some(lang));
    }
    assert_eq!(ext_to_lang("TS"), None, "case counts");
    assert_eq!(ext_to_lang(""), None);
    assert_eq!(ext_to_lang("md"), None);
}

#[test]
fn a_file_is_in_the_group_of_its_language_alone() {
    let groups = group_files_by_lang(&list(&["./b.ts", "a.py", "x.TS", "c.py", "noext", ".py"]));
    assert_eq!(groups.keys(), vec!["python", "typescript"]);
    assert_eq!(groups.get("python"), Some(&list(&["a.py", "c.py"])));
    assert_eq!(groups.get("typescript"), Some(&list(&["./b.ts"])));
    assert_eq!(groups.get("rust"), None);
    assert!(!groups.contains_key("TS"));
    assert_eq!(groups.at(1).lang, "typescript");
    assert!(group_files_by_lang(&[]).is_empty());
}

#[test]
fn a_group_entered_again_takes_the_place_of_the_first() {
    let mut groups = LangGroups::new();
    groups.insert("rust", list(&["a.rs"]));
    groups.insert("go", list(&["a.go"]));
    groups.insert("rust", list(&["b.rs"]));
    assert_eq!(groups.keys(), vec!["go", "rust"]);
    assert_eq!(groups.get("rust"), Some(&list(&["b.rs"])));
    assert_eq!(groups.len(), 2);
}

#[test]
fn only_languages_with_findings_count_as_searched() {
    let groups = group_files_by_lang(&list(&["./a.py", "b.rs", "c.html"]));
    let found = vec![vec![], vec![node("a.py"), node("a.py")], vec![node("b.rs")]];
    let (ag, searched, langs) = merge_confirmations(&groups, found);
    assert_eq!(langs, vec!["python", "rust"]);
    assert_eq!(ag.len(), 3);
    assert_eq!(ag[2].file, "b.rs");
    assert!(searched.contains("a.py") && searched.contains("b.rs"));
    assert!(!searched.contains("c.html") && !searched.contains("./a.py"));
}

#[test]
fn a_set_holds_each_path_once() {
    let mut set = PathSet::new();
    assert!(!set.contains("a"));
    set.insert("b");
    set.insert("a");
    set.insert("b");
    assert!(set.contains("a") && set.contains("b") && !set.contains("c"));
}
