//! What each piece of a command line adds to what is known of the call.

use crate::args;
use crate::args::Unit;
use crate::args_laws;
use crate::flags;
use crate::pattern;
use crate::pipeline;
use crate::pipeline::{Entry, Next};
use crate::text;
use vstd::prelude::*;

verus! {

/// What one more piece of a command line says of how matches are printed, and of plain ripgrep:
/// each of these is asked for once a piece of the command line asks for it, and stays asked for.
pub proof fn switches_add_up(us: Seq<Unit>, u: Unit)
    ensures
        ({
            let before = args::described(us);
            let after = args::described(us.push(u));
            let letter = |c: char|
                u is Short && (u->Short_switches.contains(c) || (u->Short_flag is Some && (
                u->Short_flag->0).0 == c));
            let name = |n: Seq<char>| u is Long && u->Long_name == n;
            &&& after.count == (before.count || letter('c') || name("count"@))
            &&& after.files_with_matches == (before.files_with_matches || letter('l') || name(
                "files-with-matches"@,
            ))
            &&& after.pattern_less == (before.pattern_less || name("files"@) || name("type-list"@))
            &&& after.no_smart == (before.no_smart || name("no-smart"@))
        }),
{
    let all = us.push(u);
    assert(all.drop_last() =~= us);
    args_laws::lemma_some_last(
        all,
        |u: Unit| args::is_long(u, "count"@) || args::letters(u).contains('c'),
    );
    args_laws::lemma_some_last(
        all,
        |u: Unit| args::is_long(u, "files-with-matches"@) || args::letters(u).contains('l'),
    );
    args_laws::lemma_some_last(
        all,
        |u: Unit| args::is_long(u, "files"@) || args::is_long(u, "type-list"@),
    );
    args_laws::lemma_some_last(all, |u: Unit| args::is_long(u, "no-smart"@));
    lemma_letters(u, 'c');
    lemma_letters(u, 'l');
}

/// The letters of a bundle are its switches and the flag with the value.
proof fn lemma_letters(u: Unit, c: char)
    ensures
        args::letters(u).contains(c) <==> u is Short && (u->Short_switches.contains(c) || (
        u->Short_flag is Some && (u->Short_flag->0).0 == c)),
{
    if u is Short && u->Short_flag is Some {
        let ls = args::letters(u);
        assert(ls.drop_last() =~= u->Short_switches);
        text::lemma_contains_last(ls, c);
    }
}

/// Of an empty command line nothing is known: it asks for nothing, and the search is in the current
/// directory.
pub proof fn nothing_is_asked_for()
    ensures
        ({
            let call = args::invocation(Seq::empty());
            &&& call.pattern is None
            &&& call.path == "."@
            &&& call.file_type is None
            &&& !call.count
            &&& !call.files_with_matches
            &&& !call.pattern_less
            &&& !call.has_path
            &&& !call.reads_stdin
            &&& call.paths.len() == 0
            &&& call.globs.len() == 0
            &&& call.unsupported is None
            &&& !call.no_smart
            &&& call.shim_flag_indices.len() == 0
            &&& call.line_numbers is None
            &&& call.capture_argv.len() == 0
        }),
{
    reveal_strlit(".");
    assert("."@ =~= seq!['.']);
}

/// The type asked for last counts, and every glob counts, in the order in which they are given.
pub proof fn types_and_globs_add_up(us: Seq<Unit>, u: Unit)
    ensures
        ({
            let before = args::described(us);
            let after = args::described(us.push(u));
            &&& after.file_type == match u {
                Unit::Long { name, value: Some(v), .. } => if name == "type"@ {
                    Some(v)
                } else {
                    before.file_type
                },
                Unit::Short { flag: Some((c, v)), .. } => if c == 't' {
                    Some(v)
                } else {
                    before.file_type
                },
                _ => before.file_type,
            }
            &&& after.globs == match u {
                Unit::Long { name, value: Some(v), .. } => if name == "glob"@ {
                    before.globs.push(v)
                } else {
                    before.globs
                },
                Unit::Short { flag: Some((c, v)), .. } => if c == 'g' {
                    before.globs.push(v)
                } else {
                    before.globs
                },
                _ => before.globs,
            }
        }),
{
    let all = us.push(u);
    assert(all.drop_last() =~= us);
    let f = |u: Unit| args::unit_type(u);
    assert(args::last_said(all, f) == match f(u) {
        Some(a) => Some(a),
        None => args::last_said(us, f),
    });
    let before = args::globs(us);
    assert(args::globs(all) == before + args::unit_globs(u));
    if args::unit_globs(u).len() == 0 {
        assert(before + args::unit_globs(u) =~= before);
    } else {
        assert(before + args::unit_globs(u) =~= before.push(args::unit_globs(u)[0]));
    }
}

/// Whether lines are numbered is what the last flag on it says, in long form or as the last such
/// letter of a bundle; `ls` are the letters of the bundle, the flag with the value among them.
pub proof fn the_last_numbering_counts(us: Seq<Unit>, u: Unit, ls: Seq<char>, k: int)
    requires
        u is Short ==> ls == (if u->Short_flag is Some {
            u->Short_switches.push((u->Short_flag->0).0)
        } else {
            u->Short_switches
        }),
    ensures
        ({
            let before = args::described(us).line_numbers;
            let after = args::described(us.push(u)).line_numbers;
            match u {
                Unit::Long { name, .. } => after == if name == "line-number"@ {
                    Some(true)
                } else if name == "no-line-number"@ {
                    Some(false)
                } else {
                    before
                },
                Unit::Short { .. } => {
                    &&& 0 <= k < ls.len() && (ls[k] == 'n' || ls[k] == 'N') && (forall|j: int|
                        k < j < ls.len() ==> #[trigger] ls[j] != 'n' && ls[j] != 'N') ==> after
                        == Some(ls[k] == 'n')
                    &&& (forall|j: int|
                        0 <= j < ls.len() ==> #[trigger] ls[j] != 'n' && ls[j] != 'N') ==> after
                        == before
                },
                _ => after == before,
            }
        }),
{
    let all = us.push(u);
    assert(all.drop_last() =~= us);
    let f = |u: Unit| args::unit_numbering(u);
    assert(args::last_said(all, f) == match f(u) {
        Some(a) => Some(a),
        None => args::last_said(us, f),
    });
    reveal_strlit("line-number");
    reveal_strlit("no-line-number");
    assert("line-number"@.len() == 11);
    assert("no-line-number"@.len() == 14);
    if u is Short {
        if 0 <= k < ls.len() && (ls[k] == 'n' || ls[k] == 'N') && (forall|j: int|
            k < j < ls.len() ==> #[trigger] ls[j] != 'n' && ls[j] != 'N') {
            lemma_numbering(ls, k);
        }
        if forall|j: int| 0 <= j < ls.len() ==> #[trigger] ls[j] != 'n' && ls[j] != 'N' {
            lemma_no_numbering(ls);
        }
    }
}

proof fn lemma_numbering(ls: Seq<char>, k: int)
    requires
        0 <= k < ls.len(),
        ls[k] == 'n' || ls[k] == 'N',
        forall|j: int| k < j < ls.len() ==> #[trigger] ls[j] != 'n' && ls[j] != 'N',
    ensures
        args::letters_numbering(ls) == Some(ls[k] == 'n'),
    decreases ls.len(),
{
    if k < ls.len() - 1 {
        assert(ls[ls.len() - 1] != 'n');
        lemma_numbering(ls.drop_last(), k);
    }
}

proof fn lemma_no_numbering(ls: Seq<char>)
    requires
        forall|j: int| 0 <= j < ls.len() ==> #[trigger] ls[j] != 'n' && ls[j] != 'N',
    ensures
        args::letters_numbering(ls) is None,
    decreases ls.len(),
{
    if ls.len() > 0 {
        assert(ls[ls.len() - 1] != 'n');
        lemma_no_numbering(ls.drop_last());
    }
}

/// The positional tokens come in the order in which they are given, and the first flag that gives a
/// pattern, of `-e`, `--regexp`, `-f` and `--file`, gives it.
pub proof fn positionals_and_patterns_add_up(us: Seq<Unit>, u: Unit)
    ensures
        args::positionals(us.push(u)) == args::positionals(us) + match u {
            Unit::Positional { token } => seq![token],
            Unit::Rest { tokens } => tokens,
            _ => Seq::empty(),
        },
        args::positionals(Seq::empty()) == Seq::<Seq<char>>::empty(),
        args::explicit_pattern(us.push(u)) == if args::explicit_pattern(us) is Some {
            args::explicit_pattern(us)
        } else {
            match u {
                Unit::Long { name, value, .. } => if name == "regexp"@ || name == "file"@ {
                    value
                } else {
                    None
                },
                Unit::Short { flag: Some((c, v)), .. } => if c == 'e' || c == 'f' {
                    Some(v)
                } else {
                    None
                },
                _ => None,
            }
        },
        args::explicit_pattern(Seq::empty()) is None,
{
    let all = us.push(u);
    assert(all.drop_last() =~= us);
    let f = |u: Unit| args::unit_positionals(u);
    assert(args::gathered(all, f) == args::gathered(us, f) + f(u));
    let g = |u: Unit| args::unit_pattern(u);
    assert(args::first_said(all, g) == match args::first_said(us, g) {
        Some(a) => Some(a),
        None => g(u),
    });
}

/// What is searched for, and where. A flag gives the pattern, or else the first positional token is
/// it, and a call that lists files or types has none. The other positional tokens are the targets:
/// a dash among them is standard input, and the rest are the paths, in order. Without a path the
/// search is in the current directory.
pub proof fn the_pattern_comes_first_and_paths_follow(us: Seq<Unit>)
    ensures
        ({
            let call = args::described(us);
            let given = args::explicit_pattern(us);
            let tokens = args::positionals(us);
            let targets = if call.pattern_less || given is Some || tokens.len() == 0 {
                tokens
            } else {
                tokens.skip(1)
            };
            &&& call.pattern_less ==> call.pattern is None
            &&& !call.pattern_less && given is Some ==> call.pattern == given
            &&& !call.pattern_less && given is None && tokens.len() > 0 ==> call.pattern == Some(
                tokens[0],
            )
            &&& !call.pattern_less && given is None && tokens.len() == 0 ==> call.pattern is None
            &&& call.reads_stdin <==> targets.contains("-"@)
            &&& call.paths == args::real_paths(targets)
            &&& call.has_path <==> call.paths.len() > 0
            &&& call.has_path ==> call.path == call.paths[0]
            &&& !call.has_path ==> call.path == "."@
        }),
{
    reveal_strlit("-");
    reveal_strlit(".");
    assert("-"@ =~= seq!['-']);
    assert("."@ =~= seq!['.']);
    let tokens = args::positionals(us);
    if tokens.len() > 0 {
        assert(tokens.skip(1) =~= tokens.drop_first());
    }
}

/// The paths are the targets in order, without the dashes.
pub proof fn a_dash_is_no_path(targets: Seq<Seq<char>>, t: Seq<char>)
    ensures
        args::real_paths(targets.push(t)) == if t == "-"@ {
            args::real_paths(targets)
        } else {
            args::real_paths(targets).push(t)
        },
        args::real_paths(Seq::empty()) == Seq::<Seq<char>>::empty(),
{
    reveal_strlit("-");
    assert("-"@ =~= seq!['-']);
    assert(targets.push(t).drop_last() =~= targets);
}

/// A plain command line: tokens that do not begin with a dash are the pattern and then the paths,
/// all of them and in order, and it asks for nothing else.
pub proof fn a_plain_command_line(p: Seq<char>, targets: Seq<Seq<char>>)
    requires
        p.len() == 0 || p[0] != '-',
        forall|i: int|
            0 <= i < targets.len() ==> (#[trigger] targets[i]).len() == 0 || targets[i][0] != '-',
    ensures
        ({
            let call = args::invocation(seq![p] + targets);
            &&& call.pattern == Some(p)
            &&& call.paths == targets
            &&& call.has_path == (targets.len() > 0)
            &&& call.path == if targets.len() > 0 {
                targets[0]
            } else {
                "."@
            }
            &&& !call.reads_stdin
            &&& call.unsupported is None
            &&& !call.no_smart
            &&& !call.count
            &&& !call.files_with_matches
            &&& !call.pattern_less
            &&& call.line_numbers is None
            &&& call.file_type is None
            &&& call.globs.len() == 0
            &&& call.shim_flag_indices.len() == 0
            &&& call.capture_argv == seq![p] + targets
        }),
{
    let argv = seq![p] + targets;
    assert forall|i: int| 0 <= i < argv.len() implies (#[trigger] argv[i]).len() == 0 || argv[i][0]
        != '-' by {
        if i > 0 {
            assert(argv[i] == targets[i - 1]);
        }
    }
    lemma_all_positional(argv);
    let us = args::units(argv);
    lemma_positional_units(us, argv);
    assert(argv.drop_first() =~= targets);
    lemma_no_dashes(targets);
    reveal_strlit(".");
    assert("."@ =~= seq!['.']);
    if targets.contains(seq!['-']) {
        let k = choose|k: int| 0 <= k < targets.len() && targets[k] == seq!['-'];
        assert(targets[k][0] == '-');
    }
}

proof fn lemma_no_dashes(targets: Seq<Seq<char>>)
    requires
        forall|i: int|
            0 <= i < targets.len() ==> (#[trigger] targets[i]).len() == 0 || targets[i][0] != '-',
    ensures
        args::real_paths(targets) == targets,
    decreases targets.len(),
{
    if targets.len() > 0 {
        let t = targets[targets.len() - 1];
        assert(t.len() == 0 || t[0] != '-');
        assert(t != seq!['-']) by {
            if t == seq!['-'] {
                assert(t[0] == '-');
            }
        }
        lemma_no_dashes(targets.drop_last());
        assert(targets.drop_last().push(targets.last()) =~= targets);
    }
}

proof fn lemma_all_positional(argv: Seq<Seq<char>>)
    requires
        forall|i: int|
            0 <= i < argv.len() ==> (#[trigger] argv[i]).len() == 0 || argv[i][0] != '-' || argv[i]
                == seq!['-'],
    ensures
        args::units(argv) == Seq::new(argv.len(), |i: int| Unit::Positional { token: argv[i] }),
    decreases argv.len(),
{
    let all = Seq::new(argv.len(), |i: int| Unit::Positional { token: argv[i] });
    if argv.len() > 0 {
        let rest = argv.skip(1);
        assert(argv[0].len() == 0 || argv[0][0] != '-' || argv[0] == seq!['-']);
        assert(args::first_unit(argv) == Unit::Positional { token: argv[0] });
        assert forall|i: int| 0 <= i < rest.len() implies (#[trigger] rest[i]).len() == 0
            || rest[i][0] != '-' || rest[i] == seq!['-'] by {
            assert(rest[i] == argv[i + 1]);
        }
        lemma_all_positional(rest);
        assert(args::units(argv) =~= all);
    } else {
        assert(args::units(argv) =~= all);
    }
}

/// Positional tokens say nothing but themselves.
proof fn lemma_positional_units(us: Seq<Unit>, argv: Seq<Seq<char>>)
    requires
        us == Seq::new(argv.len(), |i: int| Unit::Positional { token: argv[i] }),
    ensures
        args::positionals(us) == argv,
        args::capture(us) == argv,
        args::explicit_pattern(us) is None,
        args::source_count(us) == 0,
        args::file_type(us) is None,
        args::globs(us) == Seq::<Seq<char>>::empty(),
        args::numbering(us) is None,
        args::first_obstacle(us) is None,
        !args::asks_count(us),
        !args::asks_files(us),
        !args::takes_no_pattern(us),
        !args::asks_plain(us),
        args::shim_positions(us) == Seq::<int>::empty(),
    decreases argv.len(),
{
    if argv.len() > 0 {
        let front = argv.drop_last();
        let u = Unit::Positional { token: argv.last() };
        let shorter = us.drop_last();
        assert(shorter =~= Seq::new(front.len(), |i: int| Unit::Positional { token: front[i] }));
        assert(us.last() == u);
        lemma_positional_units(shorter, front);
        assert(args::letters(u) =~= Seq::<char>::empty());
        assert(front + seq![argv.last()] =~= argv);
        assert(args::globs(shorter) + args::unit_globs(u) =~= Seq::<Seq<char>>::empty());
        args_laws::lemma_some_last(
            us,
            |u: Unit| args::is_long(u, "count"@) || args::letters(u).contains('c'),
        );
        args_laws::lemma_some_last(
            us,
            |u: Unit| args::is_long(u, "files-with-matches"@) || args::letters(u).contains('l'),
        );
        args_laws::lemma_some_last(
            us,
            |u: Unit| args::is_long(u, "files"@) || args::is_long(u, "type-list"@),
        );
        args_laws::lemma_some_last(us, |u: Unit| args::is_long(u, "no-smart"@));
    } else {
        assert(args::positionals(us) =~= argv);
        assert(args::capture(us) =~= argv);
    }
}

/// The capture run gets every piece of the command line, in order, but for the long flags that
/// choose how matches are printed, and the shim's own.
pub proof fn the_capture_run_gets_the_rest(us: Seq<Unit>, u: Unit)
    ensures
        ({
            let before = args::described(us).capture_argv;
            let after = args::described(us.push(u)).capture_argv;
            match u {
                Unit::Positional { token } => after == before.push(token),
                Unit::Rest { tokens } => after == before.push("--"@) + tokens,
                Unit::Long { token, name, value, spans } => after == if name == "count"@ || name
                    == "count-matches"@ || name == "files-with-matches"@ || name == "line-number"@
                    || name == "no-line-number"@ || name == "heading"@ || name == "no-heading"@
                    || name == "json"@ || name == "files"@ || name == "type-list"@ || name
                    == "no-smart"@ {
                    before
                } else if spans {
                    before.push(token).push(value->0)
                } else {
                    before.push(token)
                },
                Unit::Short { token, flag, spans, .. } => match args::without_output_modes(token) {
                    Some(t) => after == if spans {
                        before.push(t).push((flag->0).1)
                    } else {
                        before.push(t)
                    },
                    None => after == before,
                },
            }
        }),
{
    let all = us.push(u);
    assert(all.drop_last() =~= us);
    let before = args::capture(us);
    reveal_strlit("--");
    assert("--"@ =~= seq!['-', '-']);
    assert(args::capture(all) == before + args::unit_capture(u));
    match u {
        Unit::Positional { token } => {
            assert(args::capture(all) =~= before.push(token));
        },
        Unit::Rest { tokens } => {
            assert(args::capture(all) =~= before.push("--"@) + tokens);
        },
        Unit::Long { token, value, spans, .. } => {
            if args::unit_capture(u).len() == 0 {
                assert(args::capture(all) =~= before);
            } else if spans {
                assert(args::capture(all) =~= before.push(token).push(value->0));
            } else {
                assert(args::capture(all) =~= before.push(token));
            }
        },
        Unit::Short { token, flag, spans, .. } => {
            match args::without_output_modes(token) {
                Some(t) => {
                    if spans {
                        assert(args::capture(all) =~= before.push(t).push((flag->0).1));
                    } else {
                        assert(args::capture(all) =~= before.push(t));
                    }
                },
                None => {
                    assert(args::capture(all) =~= before);
                },
            }
        },
    }
}

/// A bundle loses the switches `c`, `l`, `n` and `N` on its way into the capture run, wherever they
/// stand among its switches, and nothing else: a flag with a value, and the value, stay as they are,
/// whatever letters the value holds.
pub proof fn bundles_lose_their_output_switches(switches: Seq<char>, tail: Seq<char>)
    requires
        forall|j: int|
            0 <= j < switches.len() ==> {
                let s = #[trigger] switches[j];
                !(s == 'e' || s == 't' || s == 'T' || s == 'g' || s == 'm' || s == 'A' || s == 'B'
                    || s == 'C' || s == 'M' || s == 'j' || s == 'f' || s == 'r' || s == 'E' || s
                    == 'd')
            },
        tail.len() > 0 ==> {
            let c = tail[0];
            c == 'e' || c == 't' || c == 'T' || c == 'g' || c == 'm' || c == 'A' || c == 'B' || c
                == 'C' || c == 'M' || c == 'j' || c == 'f' || c == 'r' || c == 'E' || c == 'd'
        },
    ensures
        ({
            let left = text::without(
                text::without(text::without(text::without(switches, 'c'), 'l'), 'n'),
                'N',
            );
            args::without_output_modes(seq!['-'] + switches + tail) == if left.len() + tail.len()
                == 0 {
                None
            } else {
                Some(seq!['-'] + left + tail)
            }
        }),
{
    let token = seq!['-'] + switches + tail;
    let body = token.skip(1);
    let n = switches.len() as int;
    assert(body =~= switches + tail);
    assert forall|j: int| 0 <= j < switches.len() implies !flags::letter_takes_value(
        #[trigger] switches[j],
    ) by {}
    args_laws::lemma_switch_len_of(switches, tail);
    assert(body.take(n) =~= switches);
    assert(body.skip(n) =~= tail);
    lemma_without_modes_of(switches);
    let left = args::without_modes(switches);
    assert(seq!['-'] + (left + tail) =~= seq!['-'] + left + tail);
}

proof fn lemma_without_modes_of(s: Seq<char>)
    ensures
        args::without_modes(s) == text::without(
            text::without(text::without(text::without(s, 'c'), 'l'), 'n'),
            'N',
        ),
    decreases s.len(),
{
    if s.len() > 0 {
        let t = s.drop_last();
        let c = s.last();
        lemma_without_modes_of(t);
        let a = text::without(t, 'c');
        assert(a.push(c).drop_last() =~= a);
        let b = text::without(a, 'l');
        assert(b.push(c).drop_last() =~= b);
        let d = text::without(b, 'n');
        assert(d.push(c).drop_last() =~= d);
    }
}

/// The shim's own flag is noted at the place of its token, counted over all the tokens before it.
/// The pieces of a command line cover all its tokens.
pub proof fn the_shims_flag_is_noted(us: Seq<Unit>, u: Unit, argv: Seq<Seq<char>>)
    ensures
        args::shim_positions(us.push(u)) == if u is Long && u->Long_name == "no-smart"@ {
            args::shim_positions(us).push(args::total_width(us) as int)
        } else {
            args::shim_positions(us)
        },
        args::total_width(us.push(u)) == args::total_width(us) + match u {
            Unit::Positional { .. } => 1int,
            Unit::Long { spans, .. } => if spans {
                2int
            } else {
                1int
            },
            Unit::Short { spans, .. } => if spans {
                2int
            } else {
                1int
            },
            Unit::Rest { tokens } => 1int + tokens.len(),
        },
        args::total_width(args::units(argv)) == argv.len(),
{
    assert(us.push(u).drop_last() =~= us);
    args_laws::lemma_shim_positions_inside(argv);
}

/// Stripping takes out the tokens at the listed places, and leaves the others in order.
pub proof fn listed_tokens_are_stripped(
    argv: Seq<Seq<char>>,
    t: Seq<char>,
    listed: Seq<int>,
)
    ensures
        args::unlisted(argv.push(t), listed) == if listed.contains(argv.len() as int) {
            args::unlisted(argv, listed)
        } else {
            args::unlisted(argv, listed).push(t)
        },
        args::unlisted(Seq::empty(), listed) == Seq::<Seq<char>>::empty(),
{
    assert(argv.push(t).drop_last() =~= argv);
}

/// What is done with a call, by what is known of it, the first reason that holds counting: without a
/// pattern it goes to ripgrep unlogged; a call that reads standard input, by name or because it
/// names no path and standard input is no terminal, one with a flag that ast-grep cannot honour, one
/// that asks for plain ripgrep, and one whose pattern is no code go to ripgrep and are logged as
/// passed through, with the pattern and the reason. Any other call is captured, with its pattern.
pub proof fn every_call_is_planned_for(call: args::Invocation, on_tty: bool)
    ensures
        ({
            let next = pipeline::planned(call, on_tty);
            let because = |reason: Seq<char>|
                Next::Forward(
                    Some(
                        Entry {
                            event: "passthrough"@,
                            pattern: call.pattern->0,
                            reason,
                            lang: Seq::empty(),
                            matches: 0,
                        },
                    ),
                );
            let stream = !call.has_path && !on_tty;
            let supported = call.unsupported is None;
            &&& call.pattern is None <==> next == Next::Forward(None)
            &&& call.pattern is Some ==> {
                &&& call.reads_stdin ==> next == because("stdin_dash"@)
                &&& !call.reads_stdin && stream ==> next == because("stream_stdin"@)
                &&& !call.reads_stdin && !stream && !supported ==> next == because(
                    "unsupported_flag_"@ + call.unsupported->0,
                )
                &&& !call.reads_stdin && !stream && supported && call.no_smart ==> next == because(
                    "no_smart"@,
                )
                &&& !call.reads_stdin && !stream && supported && !call.no_smart
                    && !pattern::structural(call.pattern->0) ==> next == because("not_structural"@)
                &&& !call.reads_stdin && !stream && supported && !call.no_smart
                    && pattern::structural(call.pattern->0) ==> next == Next::Capture(
                    call.pattern->0,
                )
            }
        }),
{
}

/// A search for code in named files, or from a terminal, is answered with ast-grep's help; one for
/// anything else goes to ripgrep.
pub proof fn plain_searches_for_code_are_captured(
    p: Seq<char>,
    targets: Seq<Seq<char>>,
    on_tty: bool,
)
    requires
        p.len() == 0 || p[0] != '-',
        forall|i: int|
            0 <= i < targets.len() ==> (#[trigger] targets[i]).len() == 0 || targets[i][0] != '-',
    ensures
        ({
            let next = pipeline::planned(args::invocation(seq![p] + targets), on_tty);
            next == Next::Capture(p) <==> pattern::structural(p) && (targets.len() > 0 || on_tty)
        }),
{
    a_plain_command_line(p, targets);
}

/// A dash among the targets, wherever it stands, is standard input: the search goes to ripgrep, and
/// the other targets are the paths.
pub proof fn a_dash_reads_standard_input(
    p: Seq<char>,
    a: Seq<Seq<char>>,
    b: Seq<Seq<char>>,
    on_tty: bool,
)
    requires
        p.len() == 0 || p[0] != '-',
        forall|i: int| 0 <= i < a.len() ==> (#[trigger] a[i]).len() == 0 || a[i][0] != '-',
        forall|i: int| 0 <= i < b.len() ==> (#[trigger] b[i]).len() == 0 || b[i][0] != '-',
    ensures
        ({
            let call = args::invocation(seq![p] + (a + (seq![seq!['-']] + b)));
            &&& call.pattern == Some(p)
            &&& call.reads_stdin
            &&& call.paths == a + b
            &&& pipeline::planned(call, on_tty) == Next::Forward(
                Some(
                    Entry {
                        event: "passthrough"@,
                        pattern: p,
                        reason: "stdin_dash"@,
                        lang: Seq::empty(),
                        matches: 0,
                    },
                ),
            )
        }),
{
    let targets = a + (seq![seq!['-']] + b);
    let argv = seq![p] + targets;
    assert forall|i: int| 0 <= i < argv.len() implies (#[trigger] argv[i]).len() == 0 || argv[i][0]
        != '-' || argv[i] == seq!['-'] by {
        if 0 < i <= a.len() {
            assert(argv[i] == a[i - 1]);
        } else if i > a.len() + 1 {
            assert(argv[i] == b[i - a.len() - 2]);
        }
    }
    lemma_all_positional(argv);
    lemma_positional_units(args::units(argv), argv);
    assert(argv.drop_first() =~= targets);
    assert(targets[a.len() as int] == seq!['-']);
    lemma_paths_around_a_dash(a, b);
}

proof fn lemma_paths_around_a_dash(a: Seq<Seq<char>>, b: Seq<Seq<char>>)
    requires
        forall|i: int| 0 <= i < a.len() ==> (#[trigger] a[i]).len() == 0 || a[i][0] != '-',
        forall|i: int| 0 <= i < b.len() ==> (#[trigger] b[i]).len() == 0 || b[i][0] != '-',
    ensures
        args::real_paths(a + (seq![seq!['-']] + b)) == a + b,
    decreases b.len(),
{
    let all = a + (seq![seq!['-']] + b);
    if b.len() == 0 {
        assert(all.last() == seq!['-']);
        assert(all.drop_last() =~= a);
        lemma_no_dashes(a);
        assert(a + b =~= a);
    } else {
        let t = b[b.len() - 1];
        assert(t.len() == 0 || t[0] != '-');
        assert(all.last() == t);
        assert(t != seq!['-']) by {
            if t == seq!['-'] {
                assert(t[0] == '-');
            }
        }
        assert(all.drop_last() =~= a + (seq![seq!['-']] + b.drop_last()));
        lemma_paths_around_a_dash(a, b.drop_last());
        assert((a + b.drop_last()).push(t) =~= a + b);
    }
}

/// Two patterns at once are an obstacle of their own, which is named where no flag is one.
pub proof fn several_patterns_are_named(us: Seq<Unit>)
    requires
        args::first_obstacle(us) is None,
    ensures
        args::described(us).unsupported is Some ==> args::described(us).unsupported == Some(
            "-e (multiple patterns)"@,
        ),
{
}

} // verus!
