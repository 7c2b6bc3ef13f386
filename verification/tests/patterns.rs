use smart_rg::pattern::{classify, is_fn_definition, literal_form, translate_pattern};

#[test]
fn letters_beyond_ascii_are_letters() {
    assert_eq!(literal_form("\\é"), None, "an escaped letter is no literal");
    assert_eq!(literal_form("\\–").as_deref(), Some("–"), "an escaped dash is one");
    assert!(classify("ÉtatCivil"), "upper and lower case");
    assert!(classify("aÉ"), "upper case beyond ASCII");
    assert!(classify("Aé"), "lower case beyond ASCII");
    assert!(!classify("éa"), "lower case alone");
    assert!(!classify("ÉA"), "upper case alone");
    assert!(classify("é.è"), "a dot between letters");
    assert!(!classify("–.–"), "a dot between dashes");
}

#[test]
fn every_escaped_mark_stands_for_itself() {
    assert_eq!(literal_form("a\\.b\\*c\\\\\\ ").as_deref(), Some("a.b*c\\ "));
    for c in ['|', '[', ']', '*', '+', '?', '{', '}', '^', '$'] {
        assert_eq!(literal_form(&format!("a{c}b")), None);
        assert_eq!(literal_form(&format!("a\\{c}b")), Some(format!("a{c}b")));
        assert!(!classify(&format!("fooBar{c}(")));
    }
    assert_eq!(literal_form("").as_deref(), Some(""));
}

#[test]
fn a_slash_is_never_code() {
    assert!(!classify("fooBar(a/b)"));
    assert!(!classify("fooBar\\/"));
}

#[test]
fn short_and_generic_texts_are_no_code() {
    assert!(!classify(""));
    assert!(!classify("  "));
    assert!(!classify("_"));
    assert!(!classify("("));
    assert!(!classify("error"));
    assert!(!classify("ERROR"));
    assert!(!classify("fooBar baz"));
    assert!(classify("a_"));
}

#[test]
fn operators_make_code() {
    assert!(classify("a::b"));
    assert!(classify("a->b"));
    assert!(classify("foo bar(x)"));
    assert!(classify("foo)"));
    assert!(!classify("foo(bar"));
    assert!(classify("foo.(bar"));
    assert!(classify("let x = a::b;"));
}

#[test]
fn a_name_with_other_marks_is_no_code() {
    assert!(!classify("foo_bar-baz"));
    assert!(!classify("fooBar=1"));
    assert!(classify("foo_bar.baz"));
}

#[test]
fn escaped_brackets_leave_a_call_to_the_operators() {
    assert!(classify("fooBar(a\\[0"));
    assert!(classify("fooBar(a\\|b"));
}

#[test]
fn a_definition_needs_a_name_behind_its_keyword() {
    assert!(is_fn_definition("fn main"));
    assert!(is_fn_definition("  export   function\tx "));
    assert!(!is_fn_definition("fn"));
    assert!(!is_fn_definition("main fn"));
    assert!(!is_fn_definition("fnord x"));
    assert!(!is_fn_definition(""));
}

#[test]
fn escapes_are_dropped_from_a_translation() {
    assert_eq!(translate_pattern("store_mls_message\\("), "store_mls_message($$$)");
    assert_eq!(translate_pattern("store_mls_message("), "store_mls_message($$$)");
    assert_eq!(translate_pattern("app\\.current_tenant_id"), "app.current_tenant_id");
}

#[test]
fn other_texts_translate_by_their_shape() {
    assert_eq!(translate_pattern("pub struct"), "pub struct $$$($$$) { $$$ }");
    assert_eq!(translate_pattern(" fooBar "), "fooBar");
    assert_eq!(translate_pattern("a::b"), "a::b");
    assert_eq!(translate_pattern("foo\\(x\\)"), "foo\\(x\\)");
    assert_eq!(translate_pattern(""), "");
    assert_eq!(translate_pattern("("), "($$$)");
    assert_eq!(translate_pattern("É "), "É");
}

#[test]
fn a_call_of_a_name_is_code_escaped_or_not() {
    for name in ["f", "foo", "obj.method", "_x9", "Größe", "a..b"] {
        for call in [format!("{name}("), format!("{name}\\(")] {
            assert!(classify(&call), "{call}");
            assert_eq!(translate_pattern(&call), format!("{name}($$$)"));
        }
        assert_eq!(translate_pattern(name), name);
    }
}
