use smart_rg::paths::norm_path;

#[test]
fn norm_path_strips_repeated_leading_dot_slash() {
    assert_eq!(norm_path("./src/a.ts"), "src/a.ts");
    assert_eq!(norm_path("././src/a.ts"), "src/a.ts");
    assert_eq!(norm_path("src/a.ts"), "src/a.ts");
    assert_eq!(norm_path("/abs/src/a.ts"), "/abs/src/a.ts");
}

#[test]
fn a_normal_path_stays_as_it_is() {
    for p in ["", ".", "./", "a", "././a/./b", "../a", ".//a", "/./a", "é/./"] {
        let normal = norm_path(p);
        assert!(!normal.starts_with("./"));
        assert_eq!(norm_path(normal), normal);
        assert_eq!(norm_path(&format!("./{p}")), normal);
    }
}
