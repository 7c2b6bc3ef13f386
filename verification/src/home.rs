//! Where the shim lives, and which program is the real ripgrep.
//!
//! The shim stands in the search path under the name of `rg`. Running whatever `rg` is found there
//! would run the shim again, and again from there. So the real ripgrep is either the one that was
//! noted when the shim was installed, or an `rg` that is shown to be a different program.

use crate::paths;
use crate::paths::name_of;
use crate::text;
use crate::text::same_text;
use vstd::prelude::*;
use vstd::string::*;

verus! {

/// A path with a name behind it.
pub open spec fn joined(base: Seq<char>, name: Seq<char>) -> Seq<char> {
    if base.len() == 0 || base.last() == '/' {
        base + name
    } else {
        base + "/"@ + name
    }
}

/// The directory of the shim: the one that is set for it, or `.smart-rg` in the user's own.
pub open spec fn home_of(own: Option<Seq<char>>, user: Option<Seq<char>>) -> Seq<char> {
    match own {
        Some(h) => h,
        None => joined(
            match user {
                Some(h) => h,
                None => "."@,
            },
            ".smart-rg"@,
        ),
    }
}

/// A path with a name behind it.
pub fn join_path(base: &str, name: &str) -> (r: String)
    ensures
        r@ == joined(base@, name@),
{
    let mut out: String = base.to_string();
    let total: usize = base.unicode_len();
    if total > 0 && base.get_char(total - 1) != '/' {
        out.append("/");
    }
    out.append(name);
    out
}

/// The directory of the shim, by the values of `SMART_RG_HOME` and `HOME`.
pub fn shim_home(own: Option<String>, user: Option<String>) -> (r: String)
    ensures
        r@ == home_of(text::text_of(own), text::text_of(user)),
{
    match own {
        Some(h) => h,
        None => match user {
            Some(h) => join_path(h.as_str(), ".smart-rg"),
            None => join_path(".", ".smart-rg"),
        },
    }
}

/// The database of the statistics, in the directory of the shim.
pub fn db_path(home: &str) -> (r: String)
    ensures
        r@ == joined(home@, "stats.db"@),
{
    join_path(home, "stats.db")
}

/// The directory of the programs, in the directory of the shim.
pub fn bin_path(home: &str) -> (r: String)
    ensures
        r@ == joined(home@, "bin"@),
{
    join_path(home, "bin")
}

/// The agent that searches are logged for, by the value of `SMART_RG_AGENT`.
pub fn agent_name(set: Option<String>) -> (r: String)
    ensures
        r@ == match set {
            Some(a) => a@,
            None => "unknown"@,
        },
{
    match set {
        Some(a) => a,
        None => "unknown".to_string(),
    }
}

/// Whether the shim was called by its own name, and not by ripgrep's.
pub open spec fn by_own_name(argv: Seq<Seq<char>>) -> bool {
    argv.len() > 0 && paths::file_name(argv[0]) == Some("smart-rg"@)
}

/// Whether the shim was called by its own name, and not by ripgrep's.
pub fn called_by_own_name(args: &[String]) -> (r: bool)
    ensures
        r == by_own_name(text::texts(args@)),
{
    if args.len() == 0 {
        return false;
    }
    assert(text::texts(args@)[0] == args@[0]@);
    match name_of(args[0].as_str()) {
        Some(name) => same_text(name.as_str(), "smart-rg"),
        None => false,
    }
}

/// Whether a file can be run: a regular file that someone may execute.
pub fn is_executable(is_file: bool, mode: u32) -> (r: bool)
    ensures
        r == (is_file && mode & 0o111 != 0),
{
    is_file && mode & 0o111 != 0
}

/// The exit code that stands for a program that a signal ended.
pub const ENDED_BY_SIGNAL: i32 = 2;

/// The exit code where there is no ripgrep to run.
pub const NO_RIPGREP: i32 = 127;

/// The exit code that is passed on for a program.
pub fn passed_on(code: Option<i32>) -> (r: i32)
    ensures
        r == match code {
            Some(c) => c,
            None => ENDED_BY_SIGNAL,
        },
{
    match code {
        Some(c) => c,
        None => ENDED_BY_SIGNAL,
    }
}

/// The components of a path, each as its bytes.
pub open spec fn parts(path: Seq<Vec<u8>>) -> Seq<Seq<u8>> {
    Seq::new(path.len(), |i: int| path[i]@)
}

/// Whether a path is `dir` or lies under it.
pub open spec fn lies_under(path: Seq<Seq<u8>>, dir: Seq<Seq<u8>>) -> bool {
    dir.len() <= path.len() && path.take(dir.len() as int) == dir
}

/// A file called `rg` in the search path: whether it can be run, and the components of its path
/// with every symbolic link resolved, where that can be told.
#[derive(Debug)]
pub struct Candidate {
    pub executable: bool,
    pub resolved: Option<Vec<Vec<u8>>>,
}

/// What is known of the shim's own files: the components of the path of the running program and of
/// the directory of its programs, with every symbolic link resolved, where that can be told.
#[derive(Debug)]
pub struct OwnFiles {
    pub program: Option<Vec<Vec<u8>>>,
    pub bin: Option<Vec<Vec<u8>>>,
}

/// Whether a path is that of the shim, or lies in the directory of its programs.
pub open spec fn is_own(path: Seq<Seq<u8>>, own: OwnFiles) -> bool {
    ||| own.program matches Some(p) && path == parts(p@)
    ||| own.bin matches Some(b) && lies_under(path, parts(b@))
}

/// Whether a candidate is a ripgrep to run: it can be run, and is not the shim.
pub open spec fn usable(c: Candidate, own: OwnFiles) -> bool {
    c.executable && (c.resolved matches Some(p) && !is_own(parts(p@), own))
}

/// Which program is the real ripgrep.
#[derive(Debug, PartialEq)]
pub enum RealRg {
    /// The one that was noted when the shim was installed.
    Noted,
    /// The candidate at this place.
    Found(usize),
    /// There is none.
    Missing,
}

/// Whether two byte strings are the same.
fn same_bytes(a: &Vec<u8>, b: &Vec<u8>) -> (r: bool)
    ensures
        r == (a@ == b@),
{
    if a.len() != b.len() {
        return false;
    }
    let mut i: usize = 0;
    while i < a.len()
        invariant
            a@.len() == b@.len(),
            i <= a@.len(),
            forall|j: int| 0 <= j < i ==> a@[j] == b@[j],
        decreases a@.len() - i,
    {
        if a[i] != b[i] {
            return false;
        }
        i += 1;
    }
    assert(a@ =~= b@);
    true
}

/// Whether a path is `dir` or lies under it.
fn is_under(path: &Vec<Vec<u8>>, dir: &Vec<Vec<u8>>) -> (r: bool)
    ensures
        r == lies_under(parts(path@), parts(dir@)),
{
    if dir.len() > path.len() {
        return false;
    }
    let ghost front = parts(path@).take(dir@.len() as int);
    let mut i: usize = 0;
    while i < dir.len()
        invariant
            dir@.len() <= path@.len(),
            front == parts(path@).take(dir@.len() as int),
            i <= dir@.len(),
            forall|j: int| 0 <= j < i ==> #[trigger] front[j] == parts(dir@)[j],
        decreases dir@.len() - i,
    {
        assert(front[i as int] == path@[i as int]@);
        assert(parts(dir@)[i as int] == dir@[i as int]@);
        if !same_bytes(&path[i], &dir[i]) {
            return false;
        }
        i += 1;
    }
    assert(front =~= parts(dir@));
    true
}

/// Whether a path is that of the shim, or lies in the directory of its programs.
fn belongs_to_shim(path: &Vec<Vec<u8>>, own: &OwnFiles) -> (r: bool)
    ensures
        r == is_own(parts(path@), *own),
{
    if let Some(p) = &own.program {
        if path.len() == p.len() && is_under(path, p) {
            assert(parts(path@).take(p@.len() as int) =~= parts(path@));
            return true;
        }
        assert(parts(path@) != parts(p@)) by {
            if parts(path@) == parts(p@) {
                assert(parts(path@).len() == parts(p@).len());
                assert(parts(path@).take(p@.len() as int) =~= parts(path@));
            }
        }
    }
    match &own.bin {
        Some(b) => is_under(path, b),
        None => false,
    }
}

/// The real ripgrep: the one that was noted when the shim was installed, where it can be run, or
/// the first usable candidate.
pub fn real_rg_path(noted_executable: bool, candidates: &[Candidate], own: &OwnFiles) -> (r: RealRg)
    ensures
        match r {
            RealRg::Noted => noted_executable,
            RealRg::Found(n) => !noted_executable && n < candidates@.len() && usable(
                candidates@[n as int],
                *own,
            ) && forall|i: int| 0 <= i < n ==> !usable(#[trigger] candidates@[i], *own),
            RealRg::Missing => !noted_executable && forall|i: int|
                0 <= i < candidates@.len() ==> !usable(#[trigger] candidates@[i], *own),
        },
{
    if noted_executable {
        return RealRg::Noted;
    }
    let mut i: usize = 0;
    while i < candidates.len()
        invariant
            !noted_executable,
            i <= candidates@.len(),
            forall|j: int| 0 <= j < i ==> !usable(#[trigger] candidates@[j], *own),
        decreases candidates@.len() - i,
    {
        let c: &Candidate = &candidates[i];
        if c.executable {
            if let Some(p) = &c.resolved {
                if !belongs_to_shim(p, own) {
                    return RealRg::Found(i);
                }
            }
        }
        i += 1;
    }
    RealRg::Missing
}

} // verus!
