//! What holds of the shim's own place, and of the ripgrep that it runs.

use crate::home;
use crate::home::{Candidate, OwnFiles};
use crate::paths;
use vstd::prelude::*;

verus! {

/// A name behind a path has one slash before it: the path's own where it ends with one. Behind no
/// path it stands alone.
pub proof fn one_slash_stands_between(base: Seq<char>, name: Seq<char>)
    ensures
        base.len() > 0 && base.last() != '/' ==> home::joined(base, name) == base + seq!['/'] + name,
        base.len() > 0 && base.last() == '/' ==> home::joined(base, name) == base + name,
        base.len() == 0 ==> home::joined(base, name) == name,
{
    reveal_strlit("/");
    assert("/"@ =~= seq!['/']);
    if base.len() == 0 {
        assert(base + name =~= name);
    }
}

/// The directory of the shim is the one that is set for it, whatever else is set; or `.smart-rg` in
/// the user's own, or in the current one.
pub proof fn the_home_that_is_set_counts(own: Option<Seq<char>>, user: Option<Seq<char>>)
    ensures
        own is Some ==> home::home_of(own, user) == own->0,
        own is None && user is Some ==> home::home_of(own, user) == home::joined(
            user->0,
            ".smart-rg"@,
        ),
        own is None && user is None ==> home::home_of(own, user) == "./.smart-rg"@,
{
    reveal_strlit(".");
    reveal_strlit("/");
    reveal_strlit(".smart-rg");
    reveal_strlit("./.smart-rg");
    assert("."@.last() == '.');
    assert("."@ + "/"@ + ".smart-rg"@ =~= "./.smart-rg"@);
}

/// The shim goes by its own name where the program's name is `smart-rg`, in whatever directory.
pub proof fn the_own_name_is_smart_rg(argv: Seq<Seq<char>>)
    ensures
        home::by_own_name(argv) <==> argv.len() > 0 && paths::file_name(argv[0]) == Some(
            "smart-rg"@,
        ),
{
}

/// A path lies under a directory where its components begin with all of the directory's.
pub proof fn paths_lie_under_their_beginnings(path: Seq<Seq<u8>>, dir: Seq<Seq<u8>>)
    ensures
        home::lies_under(path, dir) <==> dir.len() <= path.len() && forall|i: int|
            0 <= i < dir.len() ==> #[trigger] path[i] == dir[i],
{
    if dir.len() <= path.len() {
        let front = path.take(dir.len() as int);
        if forall|i: int| 0 <= i < dir.len() ==> #[trigger] path[i] == dir[i] {
            assert(front =~= dir);
        }
        if front == dir {
            assert forall|i: int| 0 <= i < dir.len() implies #[trigger] path[i] == dir[i] by {
                assert(front[i] == path[i]);
            }
        }
    }
}

/// The shim is never run as ripgrep: neither the running program, nor anything in the directory of
/// its programs, nor a file whose real place cannot be told, nor one that cannot be run. Anything
/// else is a ripgrep to run.
pub proof fn the_shim_is_never_run_as_ripgrep(c: Candidate, own: OwnFiles)
    ensures
        home::usable(c, own) <==> {
            &&& c.executable
            &&& c.resolved is Some
            &&& own.program is Some ==> home::parts(c.resolved->0@) != home::parts(own.program->0@)
            &&& own.bin is Some ==> !home::lies_under(
                home::parts(c.resolved->0@),
                home::parts(own.bin->0@),
            )
        },
{
}

/// A program that a signal ended counts as one that ended with 2, and without a ripgrep the code is
/// 127.
pub proof fn exit_codes_of_failures()
    ensures
        home::ENDED_BY_SIGNAL == 2,
        home::NO_RIPGREP == 127,
{
}

} // verus!
