use smart_rg::pattern::{classify, literal_form, translate_pattern};

#[test]
fn absolute_path_is_not_structural() {
    assert!(!classify("/Users/user/.config/plugins/cache"));
}

#[test]
fn relative_path_is_not_structural() {
    assert!(!classify("src/main.rs"));
}

#[test]
fn regex_with_slash_alternation_is_not_structural() {
    assert!(!classify("from.*invites/(AgentPicker|ModeSelector)"));
}

#[test]
fn real_structural_patterns_still_classify() {
    assert!(classify("useState("));
    assert!(classify("Command::new("));
    assert!(classify("verify_aud"));
}

#[test]
fn escaped_paren_call_is_structural() {
    assert!(classify(r"store_mls_message\("));
    assert!(classify(r"bypass_rls\("));
}

#[test]
fn escaped_dot_is_structural() {
    assert!(classify(r"app\.current_tenant_id"));
}

#[test]
fn a_leading_dot_literal_is_not_structural() {
    assert!(!classify(r"\.env"));
    assert!(!classify(r"\.gitignore"));
    assert!(!classify(r"\.log"));
}

#[test]
fn a_trailing_dot_literal_is_not_structural() {
    assert!(!classify(r"env\."));
}

#[test]
fn an_interior_dot_is_still_structural() {
    assert!(classify(r"app\.current_tenant_id"));
    assert!(classify("app.current_tenant_id"));
}

#[test]
fn regex_assertions_are_not_structural() {
    assert!(!classify(r"\btext\("));
    assert!(!classify(r"\d+"));
}

#[test]
fn escaped_alternation_is_still_a_regex() {
    assert!(!classify(r"a\(|b\("));
}

#[test]
fn literal_form_unescapes_punctuation_only() {
    assert_eq!(literal_form(r"store_mls_message\("), Some("store_mls_message(".into()));
    assert_eq!(literal_form(r"\btext"), None, "word-boundary assertion");
    assert_eq!(literal_form(r"a|b"), None, "unescaped alternation");
    assert_eq!(literal_form(r"trailing\"), None, "dangling backslash");
}

#[test]
fn rust_fn_definition_becomes_bare_signature() {
    assert_eq!(translate_pattern("fn main("), "fn main");
}

#[test]
fn ts_function_definition_becomes_bare_signature() {
    assert_eq!(translate_pattern("function useEffect("), "function useEffect");
}

#[test]
fn go_func_definition_becomes_bare_signature() {
    assert_eq!(translate_pattern("func Handler("), "func Handler");
}

#[test]
fn rust_fn_with_modifiers_keeps_them() {
    assert_eq!(translate_pattern("pub async fn run("), "pub async fn run");
}

#[test]
fn call_expressions_stay_call_form() {
    assert_eq!(translate_pattern("useState("), "useState($$$)");
    assert_eq!(translate_pattern("Command::new("), "Command::new($$$)");
}

#[test]
fn python_def_stays_paren_only_no_braces() {
    assert_eq!(translate_pattern("def foo("), "def foo($$$)");
}

#[test]
fn call_to_thing_named_func_is_not_a_definition() {
    assert_eq!(translate_pattern("func("), "func($$$)");
}
