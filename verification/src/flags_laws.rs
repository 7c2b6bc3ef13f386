//! What every flag does, wherever it stands in a command line.

use crate::args;
use crate::args::Unit;
use crate::args_laws;
use crate::flags;
use crate::pipeline;
use crate::pipeline::Next;
use crate::text;
use vstd::prelude::*;

verus! {

/// A token that does not begin with a dash is positional, and so is a lone dash. Behind two dashes
/// every token is.
pub proof fn tokens_without_a_dash_are_positional(t: Seq<char>, back: Seq<Seq<char>>)
    ensures
        t.len() == 0 || t[0] != '-' || t == seq!['-'] ==> args::units(seq![t] + back) == seq![
            Unit::Positional { token: t },
        ] + args::units(back),
        args::units(seq![seq!['-', '-']] + back) == seq![Unit::Rest { tokens: back }],
        args::units(Seq::empty()) == Seq::<Unit>::empty(),
{
    let argv = seq![t] + back;
    assert(argv[0] == t);
    assert(argv.skip(1) =~= back);
    let dashes = seq![seq!['-', '-']] + back;
    assert(dashes[0] == seq!['-', '-']);
    assert(dashes.skip(1) =~= back);
    let u = args::first_unit(dashes);
    assert(u == Unit::Rest { tokens: back });
    assert(dashes.skip(args::width(u) as int) =~= Seq::<Seq<char>>::empty());
    assert(args::units(dashes.skip(args::width(u) as int)) =~= Seq::<Unit>::empty());
    assert(args::units(dashes) =~= seq![u]);
}

/// A long flag with `=` in it has what stands behind the `=` for its value. Without one, the flags
/// that take a value, and no others, take the token behind them for it, whatever that token looks
/// like; at the end of the command line they have none.
pub proof fn long_flags_take_their_values(
    name: Seq<char>,
    value: Seq<char>,
    back: Seq<Seq<char>>,
)
    requires
        !name.contains('='),
    ensures
        ({
            let dashed = seq!['-', '-'] + name;
            let given = dashed + seq!['='] + value;
            let takes = {
                ||| name == "regexp"@ || name == "type"@ || name == "type-not"@
                ||| name == "type-add"@ || name == "type-clear"@ || name == "glob"@
                ||| name == "iglob"@ || name == "max-count"@ || name == "max-depth"@
                ||| name == "maxdepth"@ || name == "max-filesize"@ || name == "max-columns"@
                ||| name == "after-context"@ || name == "before-context"@ || name == "context"@
                ||| name == "sort"@ || name == "sortr"@ || name == "color"@ || name == "colors"@
                ||| name == "encoding"@ || name == "threads"@ || name == "field-match-separator"@
                ||| name == "field-context-separator"@ || name == "context-separator"@
                ||| name == "path-separator"@ || name == "line-separator"@
                ||| name == "ignore-file"@ || name == "file"@ || name == "replace"@
                ||| name == "pre"@ || name == "pre-glob"@ || name == "engine"@
                ||| name == "dfa-size-limit"@ || name == "regex-size-limit"@
                ||| name == "hostname-bin"@
            };
            &&& args::units(seq![given] + back) == seq![
                Unit::Long { token: given, name, value: Some(value), spans: false },
            ] + args::units(back)
            &&& name.len() > 0 && takes ==> args::units(seq![dashed, value] + back) == seq![
                Unit::Long { token: dashed, name, value: Some(value), spans: true },
            ] + args::units(back)
            &&& name.len() > 0 && takes ==> args::units(seq![dashed]) == seq![
                Unit::Long { token: dashed, name, value: None, spans: false },
            ]
            &&& name.len() > 0 && !takes ==> args::units(seq![dashed] + back) == seq![
                Unit::Long { token: dashed, name, value: None, spans: false },
            ] + args::units(back)
        }),
{
    let dashed = seq!['-', '-'] + name;
    let given = dashed + seq!['='] + value;
    assert forall|j: int| 0 <= j < name.len() implies name[j] != '=' by {
        assert(name.contains(name[j]));
    }
    assert(given.skip(2) =~= name + seq!['='] + value);
    text::lemma_find_unique(given.skip(2), '=', name.len() as int);
    assert(given.skip(2).take(name.len() as int) =~= name);
    assert(given.skip(2).skip(name.len() as int + 1) =~= value);
    let a = seq![given] + back;
    assert(a[0] == given);
    assert(a.skip(1) =~= back);
    assert(dashed.skip(2) =~= name);
    text::lemma_find_unique(name, '=', name.len() as int);
    assert(name.take(name.len() as int) =~= name);
    let b = seq![dashed, value] + back;
    assert(b[0] == dashed);
    assert(b[1] == value);
    assert(b.skip(2) =~= back);
    let c = seq![dashed];
    assert(c[0] == dashed);
    assert(c.skip(1) =~= Seq::<Seq<char>>::empty());
    assert(args::units(c.skip(1)) =~= Seq::<Unit>::empty());
    if name.len() > 0 && flags::name_takes_value(name) {
        assert(args::units(c) =~= seq![
            Unit::Long { token: dashed, name, value: None, spans: false },
        ]);
    }
    let d = seq![dashed] + back;
    assert(d[0] == dashed);
    assert(d.skip(1) =~= back);
}

/// A bundle of short flags is read up to the first letter that takes a value. What stands behind
/// that letter in the token is the value, or else the next token is, whatever it looks like; at the
/// end of the command line the value is empty.
pub proof fn bundles_end_at_the_first_value(
    switches: Seq<char>,
    c: char,
    value: Seq<char>,
    back: Seq<Seq<char>>,
)
    requires
        forall|j: int|
            0 <= j < switches.len() ==> {
                let s = #[trigger] switches[j];
                !(s == 'e' || s == 't' || s == 'T' || s == 'g' || s == 'm' || s == 'A' || s == 'B'
                    || s == 'C' || s == 'M' || s == 'j' || s == 'f' || s == 'r' || s == 'E' || s
                    == 'd')
            },
        switches.len() > 0 ==> switches[0] != '-',
        c == 'e' || c == 't' || c == 'T' || c == 'g' || c == 'm' || c == 'A' || c == 'B' || c == 'C'
            || c == 'M' || c == 'j' || c == 'f' || c == 'r' || c == 'E' || c == 'd',
    ensures
        ({
            let plain = seq!['-'] + switches;
            let open = plain + seq![c];
            let closed = open + value;
            &&& switches.len() > 0 ==> args::units(seq![plain] + back) == seq![
                Unit::Short { token: plain, switches, flag: None, spans: false },
            ] + args::units(back)
            &&& value.len() > 0 ==> args::units(seq![closed] + back) == seq![
                Unit::Short { token: closed, switches, flag: Some((c, value)), spans: false },
            ] + args::units(back)
            &&& args::units(seq![open, value] + back) == seq![
                Unit::Short { token: open, switches, flag: Some((c, value)), spans: true },
            ] + args::units(back)
            &&& args::units(seq![open]) == seq![
                Unit::Short {
                    token: open,
                    switches,
                    flag: Some((c, Seq::empty())),
                    spans: false,
                },
            ]
        }),
{
    let plain = seq!['-'] + switches;
    let open = plain + seq![c];
    let closed = open + value;
    let n = switches.len() as int;
    assert(plain.skip(1) =~= switches);
    assert(open.skip(1) =~= switches + seq![c]);
    assert(closed.skip(1) =~= switches + (seq![c] + value));
    assert forall|j: int| 0 <= j < switches.len() implies !flags::letter_takes_value(
        #[trigger] switches[j],
    ) by {}
    assert(switches =~= switches + Seq::<char>::empty());
    args_laws::lemma_switch_len_of(switches, Seq::empty());
    args_laws::lemma_switch_len_of(switches, seq![c]);
    assert((seq![c] + value)[0] == c);
    args_laws::lemma_switch_len_of(switches, seq![c] + value);
    assert(switches.take(n) =~= switches);
    assert(open.skip(1).take(n) =~= switches);
    assert(closed.skip(1).take(n) =~= switches);
    assert(closed.skip(1).skip(n + 1) =~= value);
    assert(open.skip(1)[n] == c);
    assert(closed.skip(1)[n] == c);
    assert(switches.len() > 0 ==> plain[1] == switches[0]);
    assert(open[1] == if n > 0 {
        switches[0]
    } else {
        c
    });
    assert(closed[1] == open[1]);
    let a1 = seq![plain] + back;
    assert(a1[0] == plain);
    assert(a1.skip(1) =~= back);
    let a2 = seq![closed] + back;
    assert(a2[0] == closed);
    assert(a2.skip(1) =~= back);
    let a3 = seq![open, value] + back;
    assert(a3[0] == open);
    assert(a3[1] == value);
    assert(a3.skip(2) =~= back);
    let a4 = seq![open];
    assert(a4[0] == open);
    assert(a4.skip(1) =~= Seq::<Seq<char>>::empty());
    assert(args::units(a4.skip(1)) =~= Seq::<Unit>::empty());
    assert(args::units(a4) =~= seq![
        Unit::Short { token: open, switches, flag: Some((c, Seq::empty())), spans: false },
    ]);
}

/// A command line is read from front to back: where no token of its beginning waits for another,
/// more tokens add what they say by themselves.
pub proof fn command_lines_are_read_in_order(front: Seq<Seq<char>>, back: Seq<Seq<char>>)
    requires
        forall|i: int|
            0 <= i < args::units(front).len() ==> !args_laws::ends(#[trigger] args::units(front)[i]),
    ensures
        args::units(front + back) == args::units(front) + args::units(back),
{
    args_laws::lemma_units_behind(front, back);
}

/// Whether some unit stands for a flag that ast-grep cannot honour.
proof fn lemma_obstacle(us: Seq<Unit>, i: int)
    requires
        0 <= i < us.len(),
        args::unit_obstacle(us[i]) is Some,
    ensures
        args::described(us).unsupported is Some,
{
    let said = |u: Unit| args::unit_obstacle(u);
    if args::first_said(us, said) is None {
        args_laws::lemma_no_one_said(us, said);
        assert(said(us[i]) is None);
    }
}

/// The long flags whose meaning ast-grep cannot reproduce, with a value or without, keep a call away
/// from it, wherever they stand among the flags: the call goes to ripgrep as it is.
pub proof fn denied_long_flags_go_to_ripgrep(argv: Seq<Seq<char>>, i: int, on_tty: bool)
    requires
        0 <= i < args::units(argv).len(),
        args::units(argv)[i] is Long,
        ({
            let name = args::units(argv)[i]->Long_name;
            ||| name == "invert-match"@ || name == "files-without-match"@
            ||| name == "after-context"@ || name == "before-context"@ || name == "context"@
            ||| name == "only-matching"@ || name == "max-count"@ || name == "ignore-case"@
            ||| name == "smart-case"@ || name == "iglob"@ || name == "fixed-strings"@
            ||| name == "replace"@ || name == "quiet"@ || name == "json"@ || name == "vimgrep"@
            ||| name == "passthru"@ || name == "file"@
        }),
    ensures
        args::invocation(argv).unsupported is Some,
        !(pipeline::planned(args::invocation(argv), on_tty) is Capture),
{
    lemma_obstacle(args::units(argv), i);
}

/// So do the short flags with such a meaning, alone or in a bundle, as a switch or with a value.
pub proof fn denied_short_flags_go_to_ripgrep(
    argv: Seq<Seq<char>>,
    i: int,
    c: char,
    on_tty: bool,
)
    requires
        0 <= i < args::units(argv).len(),
        args::units(argv)[i] is Short,
        args::units(argv)[i]->Short_switches.contains(c) || (
        args::units(argv)[i]->Short_flag matches Some((f, _)) && f == c),
        c == 'v' || c == 'A' || c == 'B' || c == 'C' || c == 'o' || c == 'm' || c == 'i' || c == 'S'
            || c == 'F' || c == 'r' || c == 'q' || c == 'f',
    ensures
        args::invocation(argv).unsupported is Some,
        !(pipeline::planned(args::invocation(argv), on_tty) is Capture),
{
    let u = args::units(argv)[i];
    let ls = args::letters(u);
    let k = if u->Short_switches.contains(c) {
        let k = choose|k: int|
            0 <= k < u->Short_switches.len() && u->Short_switches[k] == c;
        assert(ls[k] == c);
        k
    } else {
        u->Short_switches.len() as int
    };
    assert(ls[k] == c);
    lemma_letters_obstacle(ls, k);
    lemma_obstacle(args::units(argv), i);
}

proof fn lemma_letters_obstacle(ls: Seq<char>, k: int)
    requires
        0 <= k < ls.len(),
        flags::letter_denied(ls[k]) || ls[k] == 'f',
    ensures
        args::letters_obstacle(ls) is Some,
    decreases ls.len(),
{
    if k < ls.len() - 1 {
        lemma_letters_obstacle(ls.drop_last(), k);
    }
}

/// At the level of the tokens: a command line with one of these long flags in it, as a token of its
/// own or with its value behind an `=`, is not answered with ast-grep's help, whatever stands behind
/// the flag.
pub proof fn a_denied_token_is_never_captured(
    front: Seq<Seq<char>>,
    name: Seq<char>,
    value: Seq<char>,
    back: Seq<Seq<char>>,
    on_tty: bool,
)
    requires
        forall|i: int|
            0 <= i < args::units(front).len() ==> !args_laws::ends(#[trigger] args::units(front)[i]),
        ({
            ||| name == "invert-match"@ || name == "files-without-match"@
            ||| name == "after-context"@ || name == "before-context"@ || name == "context"@
            ||| name == "only-matching"@ || name == "max-count"@ || name == "ignore-case"@
            ||| name == "smart-case"@ || name == "iglob"@ || name == "fixed-strings"@
            ||| name == "replace"@ || name == "quiet"@ || name == "json"@ || name == "vimgrep"@
            ||| name == "passthru"@
        }),
    ensures
        ({
            let bare = args::invocation(front + (seq![seq!['-', '-'] + name] + back));
            let given = args::invocation(
                front + (seq![seq!['-', '-'] + name + seq!['='] + value] + back),
            );
            &&& bare.unsupported is Some
            &&& given.unsupported is Some
            &&& !(pipeline::planned(bare, on_tty) is Capture)
            &&& !(pipeline::planned(given, on_tty) is Capture)
        }),
{
    lemma_denied_names(name);
    let us = args::units(front);
    let n = us.len() as int;
    let dashed = seq!['-', '-'] + name;
    let a = seq![dashed] + back;
    let b = seq![dashed + seq!['='] + value] + back;
    args_laws::lemma_units_behind(front, a);
    args_laws::lemma_units_behind(front, b);
    long_flags_take_their_values(name, value, back);
    assert(b.len() > 0);
    assert(args::units(front + b)[n] == args::units(b)[0]);
    denied_long_flags_go_to_ripgrep(front + b, n, on_tty);
    assert(args::units(front + a)[n] == args::units(a)[0]);
    assert(a[0] == dashed);
    assert(dashed.skip(2) =~= name);
    assert forall|j: int| 0 <= j < name.len() implies name[j] != '=' by {
        assert(name.contains(name[j]));
    }
    text::lemma_find_unique(name, '=', name.len() as int);
    assert(name.take(name.len() as int) =~= name);
    assert(args::units(a)[0] == args::first_unit(a));
    assert(args::first_unit(a) is Long);
    assert(args::first_unit(a)->Long_name == name);
    denied_long_flags_go_to_ripgrep(front + a, n, on_tty);
}

/// The names of these flags are not empty, and hold no `=`.
proof fn lemma_denied_names(name: Seq<char>)
    requires
        ({
            ||| name == "invert-match"@ || name == "files-without-match"@
            ||| name == "after-context"@ || name == "before-context"@ || name == "context"@
            ||| name == "only-matching"@ || name == "max-count"@ || name == "ignore-case"@
            ||| name == "smart-case"@ || name == "iglob"@ || name == "fixed-strings"@
            ||| name == "replace"@ || name == "quiet"@ || name == "json"@ || name == "vimgrep"@
            ||| name == "passthru"@
        }),
    ensures
        name.len() > 0,
        !name.contains('='),
{
    reveal_strlit("invert-match");
    reveal_strlit("files-without-match");
    reveal_strlit("after-context");
    reveal_strlit("before-context");
    reveal_strlit("context");
    reveal_strlit("only-matching");
    reveal_strlit("max-count");
    reveal_strlit("ignore-case");
    reveal_strlit("smart-case");
    reveal_strlit("iglob");
    reveal_strlit("fixed-strings");
    reveal_strlit("replace");
    reveal_strlit("quiet");
    reveal_strlit("json");
    reveal_strlit("vimgrep");
    reveal_strlit("passthru");
}

/// A long flag and its short form are treated alike: either of them is denied, or neither is.
pub proof fn short_and_long_forms_are_denied_alike(name: Seq<char>, c: char)
    requires
        ({
            ||| name == "invert-match"@ && c == 'v'
            ||| name == "after-context"@ && c == 'A'
            ||| name == "before-context"@ && c == 'B'
            ||| name == "context"@ && c == 'C'
            ||| name == "only-matching"@ && c == 'o'
            ||| name == "max-count"@ && c == 'm'
            ||| name == "ignore-case"@ && c == 'i'
            ||| name == "smart-case"@ && c == 'S'
            ||| name == "fixed-strings"@ && c == 'F'
            ||| name == "replace"@ && c == 'r'
            ||| name == "quiet"@ && c == 'q'
        }),
    ensures
        flags::name_denied(name) && flags::letter_denied(c),
{
}

/// The letters of flags that ast-grep cannot honour are denied, and no others.
proof fn lemma_no_letters_obstacle(ls: Seq<char>)
    requires
        forall|k: int|
            0 <= k < ls.len() ==> !flags::letter_denied(#[trigger] ls[k]) && ls[k] != 'f',
    ensures
        args::letters_obstacle(ls) is None,
    decreases ls.len(),
{
    if ls.len() > 0 {
        assert(!flags::letter_denied(ls[ls.len() - 1]));
        lemma_no_letters_obstacle(ls.drop_last());
    }
}

/// Whether two flags each give a pattern.
proof fn lemma_one_source(us: Seq<Unit>)
    ensures
        args::source_count(us) > 0 <==> exists|i: int|
            0 <= i < us.len() && args::is_source(#[trigger] us[i]),
        args::source_count(us) > 1 <==> exists|i: int, j: int|
            0 <= i < j < us.len() && args::is_source(#[trigger] us[i]) && args::is_source(
                #[trigger] us[j],
            ),
    decreases us.len(),
{
    if us.len() > 0 {
        let shorter = us.drop_last();
        let n = us.len() - 1;
        lemma_one_source(shorter);
        assert(us[n] == us.last());
        if args::source_count(shorter) > 0 {
            let i = choose|i: int| 0 <= i < shorter.len() && args::is_source(#[trigger] shorter[i]);
            assert(args::is_source(us[i]));
        }
        if args::source_count(shorter) > 1 {
            let (i, j) = choose|i: int, j: int|
                0 <= i < j < shorter.len() && args::is_source(#[trigger] shorter[i])
                    && args::is_source(#[trigger] shorter[j]);
            assert(args::is_source(us[i]) && args::is_source(us[j]));
        }
        if exists|i: int| 0 <= i < us.len() && args::is_source(#[trigger] us[i]) {
            let i = choose|i: int| 0 <= i < us.len() && args::is_source(#[trigger] us[i]);
            if i < n {
                assert(args::is_source(shorter[i]));
            }
        }
        if exists|i: int, j: int|
            0 <= i < j < us.len() && args::is_source(#[trigger] us[i]) && args::is_source(
                #[trigger] us[j],
            ) {
            let (i, j) = choose|i: int, j: int|
                0 <= i < j < us.len() && args::is_source(#[trigger] us[i]) && args::is_source(
                    #[trigger] us[j],
                );
            assert(args::is_source(shorter[i]));
            if j < n {
                assert(args::is_source(shorter[j]));
            }
        }
        assert(args::source_count(us) == args::source_count(shorter) + if args::is_source(
            us.last(),
        ) {
            1nat
        } else {
            0nat
        });
    }
}

/// A call can be answered with ast-grep's help exactly where no flag of it is one that ast-grep
/// cannot honour, none names a file of patterns, and no two of them give a pattern each.
pub proof fn only_denied_flags_are_obstacles(us: Seq<Unit>)
    ensures
        ({
            let denied = |u: Unit|
                match u {
                    Unit::Long { name, .. } => {
                        ||| name == "invert-match"@ || name == "files-without-match"@
                        ||| name == "after-context"@ || name == "before-context"@
                        ||| name == "context"@ || name == "only-matching"@ || name == "max-count"@
                        ||| name == "ignore-case"@ || name == "smart-case"@ || name == "iglob"@
                        ||| name == "fixed-strings"@ || name == "replace"@ || name == "quiet"@
                        ||| name == "json"@ || name == "vimgrep"@ || name == "passthru"@
                        ||| name == "file"@
                    },
                    Unit::Short { switches, flag: None, .. } => exists|k: int|
                        0 <= k < switches.len() && ({
                            let c = #[trigger] switches[k];
                            c == 'v' || c == 'A' || c == 'B' || c == 'C' || c == 'o' || c == 'm'
                                || c == 'i' || c == 'S' || c == 'F' || c == 'r' || c == 'q' || c
                                == 'f'
                        }),
                    Unit::Short { switches, flag: Some((f, _)), .. } => (exists|k: int|
                        0 <= k < switches.len() && ({
                            let c = #[trigger] switches[k];
                            c == 'v' || c == 'A' || c == 'B' || c == 'C' || c == 'o' || c == 'm'
                                || c == 'i' || c == 'S' || c == 'F' || c == 'r' || c == 'q' || c
                                == 'f'
                        })) || f == 'v' || f == 'A' || f == 'B' || f == 'C' || f == 'o' || f == 'm'
                        || f == 'i' || f == 'S' || f == 'F' || f == 'r' || f == 'q' || f == 'f',
                    _ => false,
                };
            let gives = |u: Unit|
                match u {
                    Unit::Long { name, .. } => name == "regexp"@ || name == "file"@,
                    Unit::Short { flag: Some((c, _)), .. } => c == 'e' || c == 'f',
                    _ => false,
                };
            args::described(us).unsupported is None <==> {
                &&& forall|i: int| 0 <= i < us.len() ==> !denied(#[trigger] us[i])
                &&& !exists|i: int, j: int|
                    0 <= i < j < us.len() && gives(#[trigger] us[i]) && gives(#[trigger] us[j])
            }
        }),
{
    let denied = |u: Unit|
        match u {
            Unit::Long { name, .. } => {
                ||| name == "invert-match"@ || name == "files-without-match"@
                ||| name == "after-context"@ || name == "before-context"@
                ||| name == "context"@ || name == "only-matching"@ || name == "max-count"@
                ||| name == "ignore-case"@ || name == "smart-case"@ || name == "iglob"@
                ||| name == "fixed-strings"@ || name == "replace"@ || name == "quiet"@
                ||| name == "json"@ || name == "vimgrep"@ || name == "passthru"@
                ||| name == "file"@
            },
            Unit::Short { switches, flag: None, .. } => exists|k: int|
                0 <= k < switches.len() && ({
                    let c = #[trigger] switches[k];
                    c == 'v' || c == 'A' || c == 'B' || c == 'C' || c == 'o' || c == 'm'
                        || c == 'i' || c == 'S' || c == 'F' || c == 'r' || c == 'q' || c
                        == 'f'
                }),
            Unit::Short { switches, flag: Some((f, _)), .. } => (exists|k: int|
                0 <= k < switches.len() && ({
                    let c = #[trigger] switches[k];
                    c == 'v' || c == 'A' || c == 'B' || c == 'C' || c == 'o' || c == 'm'
                        || c == 'i' || c == 'S' || c == 'F' || c == 'r' || c == 'q' || c
                        == 'f'
                })) || f == 'v' || f == 'A' || f == 'B' || f == 'C' || f == 'o' || f == 'm'
                || f == 'i' || f == 'S' || f == 'F' || f == 'r' || f == 'q' || f == 'f',
            _ => false,
        };
    let gives = |u: Unit|
        match u {
            Unit::Long { name, .. } => name == "regexp"@ || name == "file"@,
            Unit::Short { flag: Some((c, _)), .. } => c == 'e' || c == 'f',
            _ => false,
        };
    lemma_one_source(us);
    assert forall|u: Unit| #[trigger] denied(u) <==> args::unit_obstacle(u) is Some by {
        lemma_denied_unit(u);
    }
    assert forall|u: Unit| #[trigger] gives(u) <==> args::is_source(u) by {}
    let said = |u: Unit| args::unit_obstacle(u);
    if args::first_obstacle(us) is None {
        args_laws::lemma_no_one_said(us, said);
        assert forall|i: int| 0 <= i < us.len() implies !denied(#[trigger] us[i]) by {
            assert(said(us[i]) is None);
        }
    } else {
        let i = args_laws::lemma_someone_said(us, said);
        assert(denied(us[i]));
    }
    if args::source_count(us) > 1 {
        let (i, j) = choose|i: int, j: int|
            0 <= i < j < us.len() && args::is_source(#[trigger] us[i]) && args::is_source(
                #[trigger] us[j],
            );
        assert(gives(us[i]) && gives(us[j]));
    }
    if exists|i: int, j: int|
        0 <= i < j < us.len() && gives(#[trigger] us[i]) && gives(#[trigger] us[j]) {
        let (i, j) = choose|i: int, j: int|
            0 <= i < j < us.len() && gives(#[trigger] us[i]) && gives(#[trigger] us[j]);
        assert(args::is_source(us[i]) && args::is_source(us[j]));
    }
}

proof fn lemma_denied_unit(u: Unit)
    ensures
        u is Short ==> (args::unit_obstacle(u) is Some <==> (exists|k: int|
            0 <= k < u->Short_switches.len() && (flags::letter_denied(
                #[trigger] u->Short_switches[k],
            ) || u->Short_switches[k] == 'f')) || (u->Short_flag is Some && (flags::letter_denied(
            (u->Short_flag->0).0,
        ) || (u->Short_flag->0).0 == 'f'))),
        !(u is Short) && !(u is Long) ==> args::unit_obstacle(u) is None,
{
    let ls = args::letters(u);
    if u is Short {
        let switches = u->Short_switches;
        if exists|k: int|
            0 <= k < switches.len() && (flags::letter_denied(#[trigger] switches[k]) || switches[k]
                == 'f') {
            let k = choose|k: int|
                0 <= k < switches.len() && (flags::letter_denied(#[trigger] switches[k])
                    || switches[k] == 'f');
            assert(ls[k] == switches[k]);
            lemma_letters_obstacle(ls, k);
        } else if u->Short_flag is Some && (flags::letter_denied((u->Short_flag->0).0) || (
        u->Short_flag->0).0 == 'f') {
            lemma_letters_obstacle(ls, switches.len() as int);
        } else {
            assert forall|k: int| 0 <= k < ls.len() implies !flags::letter_denied(
                #[trigger] ls[k],
            ) && ls[k] != 'f' by {
                if k < switches.len() {
                    assert(ls[k] == switches[k]);
                }
            }
            lemma_no_letters_obstacle(ls);
        }
    } else if !(u is Long) {
        assert(ls.len() == 0);
        lemma_no_letters_obstacle(ls);
    }
}

/// The first obstacle is the one that is named, as it is written: a long flag with two dashes, a
/// short one with one, and a file of patterns always as `-f`.
pub proof fn the_first_obstacle_is_named(
    us: Seq<Unit>,
    u: Unit,
    more: Seq<Unit>,
    ls: Seq<char>,
    k: int,
)
    requires
        args::first_obstacle(us) is None,
        u is Short ==> ls == (if u->Short_flag is Some {
            u->Short_switches.push((u->Short_flag->0).0)
        } else {
            u->Short_switches
        }),
    ensures
        ({
            let call = args::described(us.push(u) + more);
            match u {
                Unit::Long { name, .. } => {
                    &&& (name == "invert-match"@ || name == "files-without-match"@ || name
                        == "after-context"@ || name == "before-context"@ || name == "context"@
                        || name == "only-matching"@ || name == "max-count"@ || name
                        == "ignore-case"@ || name == "smart-case"@ || name == "iglob"@ || name
                        == "fixed-strings"@ || name == "replace"@ || name == "quiet"@ || name
                        == "json"@ || name == "vimgrep"@ || name == "passthru"@)
                        ==> call.unsupported == Some(seq!['-', '-'] + name)
                    &&& name == "file"@ ==> call.unsupported == Some(seq!['-', 'f'])
                },
                Unit::Short { .. } => {
                    0 <= k < ls.len() && (ls[k] == 'v' || ls[k] == 'A' || ls[k] == 'B' || ls[k]
                        == 'C' || ls[k] == 'o' || ls[k] == 'm' || ls[k] == 'i' || ls[k] == 'S'
                        || ls[k] == 'F' || ls[k] == 'r' || ls[k] == 'q' || ls[k] == 'f') && (
                    forall|j: int|
                        0 <= j < k ==> !flags::letter_denied(#[trigger] ls[j]) && ls[j] != 'f')
                        ==> call.unsupported == Some(seq!['-', ls[k]])
                },
                _ => true,
            }
        }),
{
    let said = |u: Unit| args::unit_obstacle(u);
    lemma_first_said(us, u, more, said);
    reveal_strlit("file");
    lemma_file_is_not_denied();
    if u is Short && 0 <= k < ls.len() && (flags::letter_denied(ls[k]) || ls[k] == 'f') && (forall|j: int|
        0 <= j < k ==> !flags::letter_denied(#[trigger] ls[j]) && ls[j] != 'f') {
        lemma_letters_first(ls, k);
    }
}

proof fn lemma_file_is_not_denied()
    ensures
        !flags::name_denied("file"@),
{
    reveal_strlit("file");
    reveal_strlit("invert-match");
    reveal_strlit("files-without-match");
    reveal_strlit("after-context");
    reveal_strlit("before-context");
    reveal_strlit("context");
    reveal_strlit("only-matching");
    reveal_strlit("max-count");
    reveal_strlit("ignore-case");
    reveal_strlit("smart-case");
    reveal_strlit("iglob");
    reveal_strlit("fixed-strings");
    reveal_strlit("replace");
    reveal_strlit("quiet");
    reveal_strlit("json");
    reveal_strlit("vimgrep");
    reveal_strlit("passthru");
    assert("file"@.len() == 4);
    assert("file"@[0] == 'f');
    assert("json"@[0] == 'j');
}

proof fn lemma_letters_first(ls: Seq<char>, k: int)
    requires
        0 <= k < ls.len(),
        flags::letter_denied(ls[k]) || ls[k] == 'f',
        forall|j: int| 0 <= j < k ==> !flags::letter_denied(#[trigger] ls[j]) && ls[j] != 'f',
    ensures
        args::letters_obstacle(ls) == Some(seq!['-', ls[k]]),
    decreases ls.len(),
{
    if k < ls.len() - 1 {
        lemma_letters_first(ls.drop_last(), k);
    } else {
        lemma_no_letters_obstacle(ls.drop_last());
    }
}

/// What is said first is said whatever follows.
proof fn lemma_first_said<A>(
    us: Seq<Unit>,
    u: Unit,
    more: Seq<Unit>,
    f: spec_fn(Unit) -> Option<A>,
)
    requires
        args::first_said(us, f) is None,
    ensures
        f(u) is Some ==> args::first_said(us.push(u) + more, f) == f(u),
    decreases more.len(),
{
    if more.len() == 0 {
        assert(us.push(u) + more =~= us.push(u));
        assert(us.push(u).drop_last() =~= us);
    } else {
        lemma_first_said(us, u, more.drop_last(), f);
        assert((us.push(u) + more).drop_last() =~= us.push(u) + more.drop_last());
    }
}

} // verus!
