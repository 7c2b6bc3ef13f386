use smart_rg::home::{
    agent_name, bin_path, called_by_own_name, db_path, is_executable, join_path, passed_on,
    real_rg_path, shim_home, Candidate, OwnFiles, RealRg,
};

fn some(s: &str) -> Option<String> {
    Some(s.to_string())
}

fn parts(path: &str) -> Option<Vec<Vec<u8>>> {
    Some(std::path::Path::new(path).components().map(|c| {
        c.as_os_str().to_str().unwrap().as_bytes().to_vec()
    }).collect())
}

fn candidate(executable: bool, resolved: Option<Vec<Vec<u8>>>) -> Candidate {
    Candidate { executable, resolved }
}

#[test]
fn the_home_that_is_set_wins() {
    assert_eq!(shim_home(some("/opt/shim"), some("/home/u")), "/opt/shim");
    assert_eq!(shim_home(None, some("/home/u")), "/home/u/.smart-rg");
    assert_eq!(shim_home(None, None), "./.smart-rg");
    assert_eq!(shim_home(some(""), None), "");
}

#[test]
fn paths_are_joined_as_path_joins_them() {
    for base in ["", "/", "a", "a/", "/home/u", "./"] {
        let expected = std::path::Path::new(base).join("stats.db");
        assert_eq!(join_path(base, "stats.db"), expected.to_str().unwrap());
        assert_eq!(db_path(base), expected.to_str().unwrap());
    }
    assert_eq!(bin_path("/home/u/.smart-rg"), "/home/u/.smart-rg/bin");
}

#[test]
fn an_agent_without_a_name_is_unknown() {
    assert_eq!(agent_name(None), "unknown");
    assert_eq!(agent_name(some("cursor")), "cursor");
}

#[test]
fn the_name_of_the_program_decides_who_is_called() {
    for (name, own) in [
        ("smart-rg", true), ("/usr/bin/smart-rg", true), ("rg", false), ("smart-rg/", true),
        ("smart-rg/..", false), ("xsmart-rg", false), ("", false),
    ] {
        assert_eq!(called_by_own_name(&[name.to_string()]), own, "{name}");
    }
    assert!(!called_by_own_name(&[]));
}

#[test]
fn a_program_is_a_file_that_someone_may_run() {
    assert!(is_executable(true, 0o100755));
    assert!(is_executable(true, 0o100001));
    assert!(!is_executable(true, 0o100644));
    assert!(!is_executable(false, 0o040755));
}

#[test]
fn an_exit_code_is_passed_on() {
    assert_eq!(passed_on(Some(0)), 0);
    assert_eq!(passed_on(Some(127)), 127);
    assert_eq!(passed_on(None), 2);
}

#[test]
fn the_noted_ripgrep_wins() {
    let own = OwnFiles { program: None, bin: None };
    let found = [candidate(true, parts("/usr/bin/rg"))];
    assert_eq!(real_rg_path(true, &found, &own), RealRg::Noted);
    assert_eq!(real_rg_path(false, &found, &own), RealRg::Found(0));
    assert_eq!(real_rg_path(false, &[], &own), RealRg::Missing);
}

#[test]
fn the_shim_is_never_taken_for_ripgrep() {
    let own = OwnFiles {
        program: parts("/opt/shim/smart-rg"),
        bin: parts("/home/u/.smart-rg/bin"),
    };
    let found = [
        candidate(true, parts("/opt/shim/smart-rg")),
        candidate(true, parts("/home/u/.smart-rg/bin/rg")),
        candidate(true, parts("/home/u/.smart-rg/bin")),
        candidate(false, parts("/usr/local/bin/rg")),
        candidate(true, None),
        candidate(true, parts("/home/u/.smart-rg/bin2/rg")),
        candidate(true, parts("/usr/bin/rg")),
    ];
    assert_eq!(real_rg_path(false, &found, &own), RealRg::Found(5));
    assert_eq!(real_rg_path(false, &found[..5], &own), RealRg::Missing);
}

#[test]
fn only_the_whole_path_is_the_programs() {
    let own = OwnFiles { program: parts("/opt/rg"), bin: None };
    let found = [candidate(true, parts("/opt/rg/rg"))];
    assert_eq!(real_rg_path(false, &found, &own), RealRg::Found(0));
}
