//! What holds of every command line.
//!
//! Taking the shim's own flag out, and preparing the command line of the capture run, both leave a
//! command line that reads as the caller's did. Neither mistakes a value for a flag, or a token
//! behind `--` for anything but a positional one.

use crate::args;
use crate::args::{Invocation, Unit};
use crate::flags;
use crate::text;
use vstd::prelude::*;

verus! {

/// The tokens of a unit, as they stand in the command line.
pub open spec fn tokens(u: Unit) -> Seq<Seq<char>> {
    match u {
        Unit::Positional { token } => seq![token],
        Unit::Rest { tokens } => seq![seq!['-', '-']] + tokens,
        Unit::Long { token, value, spans, .. } => if spans {
            seq![token, value->0]
        } else {
            seq![token]
        },
        Unit::Short { token, flag, spans, .. } => if spans {
            seq![token, (flag->0).1]
        } else {
            seq![token]
        },
    }
}

/// Whether a unit can only stand at the end: `--`, or a flag that waits for a value.
pub open spec fn ends(u: Unit) -> bool {
    match u {
        Unit::Positional { .. } => false,
        Unit::Rest { .. } => true,
        Unit::Long { name, value, .. } => flags::name_takes_value(name) && value is None,
        Unit::Short { token, switches, flag, spans } => flag is Some && !spans && token.len()
            == switches.len() + 2,
    }
}

pub(crate) proof fn lemma_switch_bounds(s: Seq<char>)
    ensures
        0 <= args::switch_len(s) <= s.len(),
        forall|j: int|
            0 <= j < args::switch_len(s) ==> !flags::letter_takes_value(#[trigger] s[j]),
        args::switch_len(s) < s.len() ==> flags::letter_takes_value(s[args::switch_len(s)]),
    decreases s.len(),
{
    if s.len() > 0 && !flags::letter_takes_value(s[0]) {
        let t = s.drop_first();
        lemma_switch_bounds(t);
        assert forall|j: int| 0 <= j < args::switch_len(s) implies !flags::letter_takes_value(
            #[trigger] s[j],
        ) by {
            if j > 0 {
                assert(s[j] == t[j - 1]);
            }
        }
    }
}

/// A unit is read back from its tokens, whatever stands behind them; only a unit that ends the
/// command line needs nothing behind it.
proof fn lemma_read_back(argv: Seq<Seq<char>>, more: Seq<Seq<char>>)
    requires
        argv.len() > 0,
        ends(args::first_unit(argv)) ==> more.len() == 0,
    ensures
        args::first_unit(tokens(args::first_unit(argv)) + more) == args::first_unit(argv),
        tokens(args::first_unit(argv)).len() == args::width(args::first_unit(argv)),
        argv == tokens(args::first_unit(argv)) + argv.skip(
            args::width(args::first_unit(argv)) as int,
        ),
        ends(args::first_unit(argv)) ==> args::width(args::first_unit(argv)) == argv.len(),
{
    let u = args::first_unit(argv);
    let again = tokens(u) + more;
    assert(again[0] == argv[0]);
    match u {
        Unit::Positional { .. } => {},
        Unit::Rest { tokens } => {
            assert(again.skip(1) =~= tokens);
            assert(argv[0] =~= seq!['-', '-']);
        },
        Unit::Long { token, name, value, spans } => {
            text::lemma_find(token.skip(2), '=');
            if spans {
                assert(again[1] == argv[1]);
            }
        },
        Unit::Short { token, switches, flag, spans } => {
            lemma_switch_bounds(token.skip(1));
            if spans {
                assert(again[1] == argv[1]);
            }
        },
    }
    assert(argv =~= tokens(u) + argv.skip(args::width(u) as int));
}


/// Whether `v` is read back from its tokens wherever `u` may stand.
spec fn reads_back(u: Unit, v: Unit) -> bool {
    forall|more: Seq<Seq<char>>|
        (ends(u) ==> more.len() == 0) ==> #[trigger] args::first_unit(tokens(v) + more) == v
}

/// The first unit gives its share first.
pub(crate) proof fn lemma_gathered_front<A>(u: Unit, us: Seq<Unit>, f: spec_fn(Unit) -> Seq<A>)
    ensures
        args::gathered(seq![u] + us, f) == f(u) + args::gathered(us, f),
    decreases us.len(),
{
    let all = seq![u] + us;
    if us.len() == 0 {
        assert(all.drop_last() =~= us);
        assert(args::gathered(us, f) =~= Seq::<A>::empty());
        assert(all.last() == u);
    } else {
        assert(all.last() == us.last());
        assert(all.drop_last() =~= seq![u] + us.drop_last());
        lemma_gathered_front(u, us.drop_last(), f);
    }
}

/// Every unit of a command line is read back from its tokens.
proof fn lemma_units_read_back(argv: Seq<Seq<char>>)
    ensures
        forall|i: int|
            0 <= i < args::units(argv).len() ==> reads_back(
                #[trigger] args::units(argv)[i],
                args::units(argv)[i],
            ),
        argv == args::gathered(args::units(argv), |u: Unit| tokens(u)),
    decreases argv.len(),
{
    let us = args::units(argv);
    if argv.len() > 0 {
        let u = args::first_unit(argv);
        lemma_read_back(argv, Seq::empty());
        let rest = argv.skip(args::width(u) as int);
        lemma_units_read_back(rest);
        lemma_gathered_front(u, args::units(rest), |u: Unit| tokens(u));
        assert forall|i: int| 0 <= i < us.len() implies reads_back(#[trigger] us[i], us[i]) by {
            if i == 0 {
                assert forall|more: Seq<Seq<char>>| (ends(u) ==> more.len() == 0) implies (
                #[trigger] args::first_unit(tokens(u) + more)) == u by {
                    lemma_read_back(argv, more);
                }
            } else {
                assert(us[i] == args::units(rest)[i - 1]);
            }
        }
    }
}

/// Where each unit is given up or replaced by one that reads back, the command line of what is
/// left reads as what is left.
proof fn lemma_reread(
    argv: Seq<Seq<char>>,
    g: spec_fn(Unit) -> Seq<Unit>,
    f: spec_fn(Unit) -> Seq<Seq<char>>,
)
    requires
        forall|i: int|
            0 <= i < args::units(argv).len() ==> {
                let u = #[trigger] args::units(argv)[i];
                ||| g(u).len() == 0 && f(u).len() == 0
                ||| g(u).len() == 1 && f(u) == tokens(g(u)[0]) && reads_back(u, g(u)[0])
            },
    ensures
        args::units(args::gathered(args::units(argv), f)) == args::gathered(args::units(argv), g),
    decreases argv.len(),
{
    let us = args::units(argv);
    if argv.len() > 0 {
        let u = args::first_unit(argv);
        lemma_read_back(argv, Seq::empty());
        let rest = argv.skip(args::width(u) as int);
        let tail = args::units(rest);
        assert(us[0] == u);
        assert forall|i: int| 0 <= i < tail.len() implies {
            let u = #[trigger] tail[i];
            ||| g(u).len() == 0 && f(u).len() == 0
            ||| g(u).len() == 1 && f(u) == tokens(g(u)[0]) && reads_back(u, g(u)[0])
        } by {
            assert(us[i + 1] == tail[i]);
        }
        lemma_reread(rest, g, f);
        lemma_gathered_front(u, tail, g);
        lemma_gathered_front(u, tail, f);
        let more = args::gathered(tail, f);
        if ends(u) {
            assert(rest.len() == 0);
        }
        if g(u).len() == 0 {
            assert(f(u) + more =~= more);
            assert(g(u) + args::gathered(tail, g) =~= args::gathered(tail, g));
        } else {
            let v = g(u)[0];
            let again = tokens(v) + more;
            assert(args::first_unit(again) == v);
            assert(tokens(v).len() == args::width(v));
            assert(again.skip(args::width(v) as int) =~= more);
            assert(g(u) =~= seq![v]);
        }
    }
}


/// Whether `g` keeps what `f` takes from a unit.
spec fn keeps<A>(g: spec_fn(Unit) -> Seq<Unit>, f: spec_fn(Unit) -> A, nothing: A, u: Unit) -> bool {
    ||| g(u).len() == 0 && f(u) == nothing
    ||| g(u).len() == 1 && f(g(u)[0]) == f(u)
}

proof fn lemma_keeps_gathered<A>(
    us: Seq<Unit>,
    g: spec_fn(Unit) -> Seq<Unit>,
    f: spec_fn(Unit) -> Seq<A>,
)
    requires
        forall|i: int| 0 <= i < us.len() ==> keeps(g, f, Seq::empty(), #[trigger] us[i]),
    ensures
        args::gathered(args::gathered(us, g), f) == args::gathered(us, f),
    decreases us.len(),
{
    if us.len() > 0 {
        let shorter = us.drop_last();
        let u = us.last();
        assert(keeps(g, f, Seq::empty(), us[us.len() - 1]));
        lemma_keeps_gathered(shorter, g, f);
        let before = args::gathered(shorter, g);
        if g(u).len() == 0 {
            assert(before + g(u) =~= before);
            assert(args::gathered(shorter, f) + f(u) =~= args::gathered(shorter, f));
        } else {
            assert((before + g(u)).drop_last() =~= before);
            assert((before + g(u)).last() == g(u)[0]);
        }
    }
}

proof fn lemma_keeps_said<A>(
    us: Seq<Unit>,
    g: spec_fn(Unit) -> Seq<Unit>,
    f: spec_fn(Unit) -> Option<A>,
)
    requires
        forall|i: int| 0 <= i < us.len() ==> keeps(g, f, None, #[trigger] us[i]),
    ensures
        args::first_said(args::gathered(us, g), f) == args::first_said(us, f),
        args::last_said(args::gathered(us, g), f) == args::last_said(us, f),
    decreases us.len(),
{
    if us.len() > 0 {
        let shorter = us.drop_last();
        let u = us.last();
        assert(keeps(g, f, None, us[us.len() - 1]));
        lemma_keeps_said(shorter, g, f);
        let before = args::gathered(shorter, g);
        if g(u).len() == 0 {
            assert(before + g(u) =~= before);
        } else {
            assert((before + g(u)).drop_last() =~= before);
            assert((before + g(u)).last() == g(u)[0]);
        }
    }
}

proof fn lemma_keeps_count(
    us: Seq<Unit>,
    g: spec_fn(Unit) -> Seq<Unit>,
    p: spec_fn(Unit) -> bool,
)
    requires
        forall|i: int| 0 <= i < us.len() ==> keeps(g, p, false, #[trigger] us[i]),
    ensures
        args::how_many(args::gathered(us, g), p) == args::how_many(us, p),
        args::some_unit(args::gathered(us, g), p) == args::some_unit(us, p),
    decreases us.len(),
{
    if us.len() > 0 {
        let shorter = us.drop_last();
        let u = us.last();
        assert(keeps(g, p, false, us[us.len() - 1]));
        lemma_keeps_count(shorter, g, p);
        let before = args::gathered(shorter, g);
        lemma_some_last(us, p);
        if g(u).len() == 0 {
            assert(before + g(u) =~= before);
        } else {
            assert((before + g(u)).drop_last() =~= before);
            assert((before + g(u)).last() == g(u)[0]);
            lemma_some_last(before + g(u), p);
        }
    }
}

pub(crate) proof fn lemma_some_last(us: Seq<Unit>, p: spec_fn(Unit) -> bool)
    requires
        us.len() > 0,
    ensures
        args::some_unit(us, p) <==> args::some_unit(us.drop_last(), p) || p(us.last()),
{
    if args::some_unit(us.drop_last(), p) {
        let i = choose|i: int| 0 <= i < us.drop_last().len() && p(#[trigger] us.drop_last()[i]);
        assert(p(us[i]));
    }
    if p(us.last()) {
        assert(p(us[us.len() - 1]));
    }
    if args::some_unit(us, p) {
        let i = choose|i: int| 0 <= i < us.len() && p(#[trigger] us[i]);
        if i < us.len() - 1 {
            assert(p(us.drop_last()[i]));
        }
    }
}


/// Whether a unit is the shim's own flag.
spec fn is_shim(u: Unit) -> bool {
    args::is_long(u, "no-smart"@)
}

/// A unit that is not the shim's.
spec fn foreign(u: Unit) -> Seq<Unit> {
    if is_shim(u) {
        Seq::empty()
    } else {
        seq![u]
    }
}

/// The tokens of a unit that is not the shim's.
spec fn foreign_tokens(u: Unit) -> Seq<Seq<char>> {
    if is_shim(u) {
        Seq::empty()
    } else {
        tokens(u)
    }
}

/// Only the places within the command line matter.
proof fn lemma_unlisted_within(argv: Seq<Seq<char>>, l: Seq<int>, m: Seq<int>)
    requires
        forall|j: int| 0 <= j < argv.len() ==> (l.contains(j) <==> m.contains(j)),
    ensures
        args::unlisted(argv, l) == args::unlisted(argv, m),
    decreases argv.len(),
{
    if argv.len() > 0 {
        lemma_unlisted_within(argv.drop_last(), l, m);
        assert(l.contains(argv.len() - 1) <==> m.contains(argv.len() - 1));
    }
}

/// Tokens at places that are not listed all stay.
proof fn lemma_unlisted_tail(a: Seq<Seq<char>>, b: Seq<Seq<char>>, l: Seq<int>)
    requires
        forall|j: int| l.contains(j) ==> j < a.len(),
    ensures
        args::unlisted(a + b, l) == args::unlisted(a, l) + b,
    decreases b.len(),
{
    if b.len() == 0 {
        assert(a + b =~= a);
        assert(args::unlisted(a, l) + b =~= args::unlisted(a, l));
    } else {
        lemma_unlisted_tail(a, b.drop_last(), l);
        assert((a + b).drop_last() =~= a + b.drop_last());
        assert(!l.contains((a + b).len() - 1));
        assert((args::unlisted(a, l) + b.drop_last()).push(b.last()) =~= args::unlisted(a, l) + b);
    }
}

/// Taking the shim's places out takes the shim's units out.
proof fn lemma_unlisted_units(us: Seq<Unit>)
    requires
        forall|i: int|
            0 <= i < us.len() ==> (is_shim(#[trigger] us[i]) ==> args::width(us[i]) == 1),
    ensures
        args::gathered(us, |u: Unit| tokens(u)).len() == args::total_width(us),
        forall|j: int|
            args::shim_positions(us).contains(j) ==> 0 <= j < args::total_width(us),
        args::unlisted(args::gathered(us, |u: Unit| tokens(u)), args::shim_positions(us))
            == args::gathered(us, |u: Unit| foreign_tokens(u)),
    decreases us.len(),
{
    if us.len() > 0 {
        let shorter = us.drop_last();
        let u = us.last();
        assert(is_shim(us[us.len() - 1]) ==> args::width(u) == 1);
        lemma_unlisted_units(shorter);
        let a = args::gathered(shorter, |u: Unit| tokens(u));
        let kept = args::gathered(shorter, |u: Unit| foreign_tokens(u));
        let before = args::shim_positions(shorter);
        let after = args::shim_positions(us);
        if is_shim(u) {
            assert(after == before.push(a.len() as int));
            assert forall|j: int| after.contains(j) implies 0 <= j < args::total_width(us) by {
                let k = choose|k: int| 0 <= k < after.len() && after[k] == j;
                if k < before.len() {
                    assert(before.contains(before[k]));
                }
            }
            assert forall|j: int| 0 <= j < a.len() implies (after.contains(j) <==> before.contains(
                j,
            )) by {
                if before.contains(j) {
                    let k = choose|k: int| 0 <= k < before.len() && before[k] == j;
                    assert(after[k] == j);
                }
                if after.contains(j) {
                    let k = choose|k: int| 0 <= k < after.len() && after[k] == j;
                    assert(before[k] == j);
                }
            }
            lemma_unlisted_within(a, after, before);
            assert(after[before.len() as int] == a.len());
            assert((a + tokens(u)).drop_last() =~= a);
            assert(kept + Seq::<Seq<char>>::empty() =~= kept);
        } else {
            lemma_unlisted_tail(a, tokens(u), before);
        }
    }
}

/// The shim's flag says nothing else.
proof fn lemma_shim_flag(u: Unit)
    requires
        is_shim(u),
    ensures
        args::unit_positionals(u) == Seq::<Seq<char>>::empty(),
        args::unit_pattern(u) is None,
        !args::is_source(u),
        args::unit_type(u) is None,
        args::unit_globs(u) == Seq::<Seq<char>>::empty(),
        args::unit_numbering(u) is None,
        args::unit_obstacle(u) is None,
        args::letters(u) == Seq::<char>::empty(),
        !args::is_long(u, "count"@),
        !args::is_long(u, "files-with-matches"@),
        !args::is_long(u, "files"@),
        !args::is_long(u, "type-list"@),
        args::unit_capture(u) == Seq::<Seq<char>>::empty(),
        !flags::name_takes_value("no-smart"@),
{
    reveal_strlit("no-smart");
    reveal_strlit("regexp");
    reveal_strlit("file");
    reveal_strlit("type");
    reveal_strlit("glob");
    reveal_strlit("line-number");
    reveal_strlit("no-line-number");
    reveal_strlit("count");
    reveal_strlit("files-with-matches");
    reveal_strlit("files");
    reveal_strlit("type-list");
    assert("no-smart"@.len() == 8);
    assert("count"@.len() == 5);
    assert("files"@.len() == 5);
    assert("type-list"@.len() == 9);
    assert("line-number"@.len() == 11);
    assert("no-line-number"@.len() == 14);
    assert("files-with-matches"@.len() == 18);
    lemma_shim_name();
}

/// The name of the shim's flag is in none of ripgrep's tables.
proof fn lemma_shim_name()
    ensures
        !flags::name_denied("no-smart"@),
        !flags::name_takes_value("no-smart"@),
{
    reveal_strlit("no-smart");
    reveal_strlit("invert-match");
    reveal_strlit("files-without-match");
    reveal_strlit("after-context");
    reveal_strlit("before-context");
    reveal_strlit("context");
    reveal_strlit("only-matching");
    reveal_strlit("max-count");
    reveal_strlit("ignore-case");
    reveal_strlit("smart-case");
    reveal_strlit("iglob");
    reveal_strlit("fixed-strings");
    reveal_strlit("replace");
    reveal_strlit("quiet");
    reveal_strlit("json");
    reveal_strlit("vimgrep");
    reveal_strlit("passthru");
    reveal_strlit("regexp");
    reveal_strlit("type");
    reveal_strlit("type-not");
    reveal_strlit("type-add");
    reveal_strlit("type-clear");
    reveal_strlit("glob");
    reveal_strlit("max-depth");
    reveal_strlit("maxdepth");
    reveal_strlit("max-filesize");
    reveal_strlit("max-columns");
    reveal_strlit("sort");
    reveal_strlit("sortr");
    reveal_strlit("color");
    reveal_strlit("colors");
    reveal_strlit("encoding");
    reveal_strlit("threads");
    reveal_strlit("field-match-separator");
    reveal_strlit("field-context-separator");
    reveal_strlit("context-separator");
    reveal_strlit("path-separator");
    reveal_strlit("line-separator");
    reveal_strlit("ignore-file");
    reveal_strlit("file");
    reveal_strlit("pre");
    reveal_strlit("pre-glob");
    reveal_strlit("engine");
    reveal_strlit("dfa-size-limit");
    reveal_strlit("regex-size-limit");
    reveal_strlit("hostname-bin");
    assert("no-smart"@[0] == 'n');
    assert("no-smart"@.len() == 8);
}


/// Taking the shim's own flag out of a command line leaves a command line that reads as before,
/// but for the flag. Nothing else is taken out: where the flag is not given, the command line
/// stays as it is.
pub proof fn stripping_keeps_the_call(argv: Seq<Seq<char>>)
    ensures
        ({
            let call = args::invocation(argv);
            let stripped = args::unlisted(argv, call.shim_flag_indices);
            &&& args::invocation(stripped) == (Invocation {
                no_smart: false,
                shim_flag_indices: Seq::empty(),
                ..call
            })
            &&& !call.no_smart ==> stripped == argv
        }),
{
    let us = args::units(argv);
    let g = |u: Unit| foreign(u);
    let f = |u: Unit| foreign_tokens(u);
    let left = args::gathered(us, g);
    lemma_units_read_back(argv);
    lemma_units_shim_width(argv);
    lemma_unlisted_units(us);
    assert forall|i: int| 0 <= i < us.len() implies {
        let u = #[trigger] us[i];
        ||| g(u).len() == 0 && f(u).len() == 0
        ||| g(u).len() == 1 && f(u) == tokens(g(u)[0]) && reads_back(u, g(u)[0])
    } by {}
    lemma_reread(argv, g, f);
    let stripped = args::unlisted(argv, args::shim_positions(us));
    assert(args::units(stripped) == left);
    lemma_foreign_says(us);
    lemma_no_shim(us);
    let call = args::invocation(argv);
    assert(args::invocation(stripped) =~= (Invocation {
        no_smart: false,
        shim_flag_indices: Seq::empty(),
        ..call
    }));
    if !call.no_smart {
        assert forall|i: int| 0 <= i < us.len() implies !is_shim(#[trigger] us[i]) by {}
        lemma_all_foreign(us);
    }
}

proof fn lemma_units_shim_width(argv: Seq<Seq<char>>)
    ensures
        forall|i: int|
            0 <= i < args::units(argv).len() ==> (is_shim(#[trigger] args::units(argv)[i])
                ==> args::width(args::units(argv)[i]) == 1),
    decreases argv.len(),
{
    if argv.len() > 0 {
        lemma_shim_name();
        let u = args::first_unit(argv);
        let rest = argv.skip(args::width(u) as int);
        lemma_units_shim_width(rest);
        assert forall|i: int|
            0 <= i < args::units(argv).len() && is_shim(
                #[trigger] args::units(argv)[i],
            ) implies args::width(args::units(argv)[i]) == 1 by {
            if i > 0 {
                assert(args::units(argv)[i] == args::units(rest)[i - 1]);
            }
        }
    }
}

proof fn lemma_all_foreign(us: Seq<Unit>)
    requires
        forall|i: int| 0 <= i < us.len() ==> !is_shim(#[trigger] us[i]),
    ensures
        args::gathered(us, |u: Unit| foreign_tokens(u)) == args::gathered(us, |u: Unit| tokens(u)),
    decreases us.len(),
{
    if us.len() > 0 {
        assert(!is_shim(us[us.len() - 1]));
        lemma_all_foreign(us.drop_last());
    }
}

/// No unit of the shim's is left among the foreign ones.
proof fn lemma_no_shim(us: Seq<Unit>)
    ensures
        args::shim_positions(args::gathered(us, |u: Unit| foreign(u))) == Seq::<int>::empty(),
        !args::asks_plain(args::gathered(us, |u: Unit| foreign(u))),
    decreases us.len(),
{
    if us.len() > 0 {
        lemma_no_shim(us.drop_last());
        let before = args::gathered(us.drop_last(), |u: Unit| foreign(u));
        let u = us.last();
        if is_shim(u) {
            assert(before + foreign(u) =~= before);
        } else {
            assert((before + foreign(u)).drop_last() =~= before);
            lemma_some_last(before + foreign(u), |u: Unit| args::is_long(u, "no-smart"@));
        }
    }
}

/// The foreign units say what all of them say.
proof fn lemma_foreign_says(us: Seq<Unit>)
    ensures
        ({
            let left = args::gathered(us, |u: Unit| foreign(u));
            &&& args::positionals(left) == args::positionals(us)
            &&& args::explicit_pattern(left) == args::explicit_pattern(us)
            &&& args::source_count(left) == args::source_count(us)
            &&& args::file_type(left) == args::file_type(us)
            &&& args::globs(left) == args::globs(us)
            &&& args::numbering(left) == args::numbering(us)
            &&& args::first_obstacle(left) == args::first_obstacle(us)
            &&& args::asks_count(left) == args::asks_count(us)
            &&& args::asks_files(left) == args::asks_files(us)
            &&& args::takes_no_pattern(left) == args::takes_no_pattern(us)
            &&& args::capture(left) == args::capture(us)
        }),
{
    let g = |u: Unit| foreign(u);
    assert forall|u: Unit| is_shim(u) implies {
        &&& args::unit_positionals(u) == Seq::<Seq<char>>::empty()
        &&& args::unit_pattern(u) is None
        &&& !args::is_source(u)
        &&& args::unit_type(u) is None
        &&& args::unit_globs(u) == Seq::<Seq<char>>::empty()
        &&& args::unit_numbering(u) is None
        &&& args::unit_obstacle(u) is None
        &&& args::letters(u) == Seq::<char>::empty()
        &&& !args::is_long(u, "count"@)
        &&& !args::is_long(u, "files-with-matches"@)
        &&& !args::is_long(u, "files"@)
        &&& !args::is_long(u, "type-list"@)
        &&& args::unit_capture(u) == Seq::<Seq<char>>::empty()
    } by {
        lemma_shim_flag(u);
    }
    lemma_keeps_gathered(us, g, |u: Unit| args::unit_positionals(u));
    lemma_keeps_said(us, g, |u: Unit| args::unit_pattern(u));
    lemma_keeps_count(us, g, |u: Unit| args::is_source(u));
    lemma_keeps_said(us, g, |u: Unit| args::unit_type(u));
    lemma_keeps_gathered(us, g, |u: Unit| args::unit_globs(u));
    lemma_keeps_said(us, g, |u: Unit| args::unit_numbering(u));
    lemma_keeps_said(us, g, |u: Unit| args::unit_obstacle(u));
    lemma_keeps_count(us, g, |u: Unit|
        args::is_long(u, "count"@) || args::letters(u).contains('c'));
    lemma_keeps_count(us, g, |u: Unit|
        args::is_long(u, "files-with-matches"@) || args::letters(u).contains('l'));
    lemma_keeps_count(us, g, |u: Unit|
        args::is_long(u, "files"@) || args::is_long(u, "type-list"@));
    lemma_keeps_gathered(us, g, |u: Unit| args::unit_capture(u));
}


/// What is known of a bundle that was read from a command line.
spec fn proper(u: Unit) -> bool {
    match u {
        Unit::Short { token, switches, flag, spans } => {
            let body = token.skip(1);
            &&& token.len() >= 2 && token[0] == '-' && token[1] != '-'
            &&& switches == body.take(args::switch_len(body))
            &&& switches.len() == args::switch_len(body) <= body.len()
            &&& flag is None <==> switches.len() == body.len()
            &&& flag matches Some((c, v)) ==> c == body[switches.len() as int]
                && flags::letter_takes_value(c) && (switches.len() + 1 < body.len() ==> v
                == body.skip(switches.len() as int + 1) && !spans) && (!spans && switches.len() + 1
                == body.len() ==> v.len() == 0)
            &&& spans ==> flag is Some
        },
        _ => true,
    }
}

proof fn lemma_units_proper(argv: Seq<Seq<char>>)
    ensures
        forall|i: int| 0 <= i < args::units(argv).len() ==> proper(#[trigger] args::units(argv)[i]),
    decreases argv.len(),
{
    if argv.len() > 0 {
        let u = args::first_unit(argv);
        let rest = argv.skip(args::width(u) as int);
        lemma_units_proper(rest);
        assert forall|i: int| 0 <= i < args::units(argv).len() implies proper(
            #[trigger] args::units(argv)[i],
        ) by {
            if i > 0 {
                assert(args::units(argv)[i] == args::units(rest)[i - 1]);
            } else {
                lemma_switch_bounds(argv[0].skip(1));
            }
        }
    }
}

/// What is left of a bundle in the capture run, as a bundle.
spec fn bundle_left(u: Unit) -> Seq<Unit> {
    match u {
        Unit::Short { token, switches, flag, spans } => match args::without_output_modes(token) {
            Some(t) => seq![
                Unit::Short { token: t, switches: args::without_modes(switches), flag, spans },
            ],
            None => Seq::empty(),
        },
        _ => Seq::empty(),
    }
}

/// What is left of a unit in the capture run.
spec fn captured(u: Unit) -> Seq<Unit> {
    match u {
        Unit::Long { name, .. } => if flags::name_selects_output(name) || is_shim(u) {
            Seq::empty()
        } else {
            seq![u]
        },
        Unit::Short { token, .. } => if stays_bundle(u) {
            bundle_left(u)
        } else {
            seq![args::long_unit(args::without_output_modes(token)->0, None)]
        },
        _ => seq![u],
    }
}

/// Whether a bundle stays one without the switches that choose how matches are printed: no `-`
/// stands behind those that are in front.
pub open spec fn stays_bundle(u: Unit) -> bool {
    match u {
        Unit::Short { token, .. } => match args::without_output_modes(token) {
            Some(t) => t[1] != '-',
            None => true,
        },
        _ => true,
    }
}

/// Whether a bundle turns, without the switches that choose how matches are printed, into a long
/// flag that says as little as the bundle did: the shim knows nothing of that flag, and the bundle
/// gave no pattern, no type, no glob and no value in the next token.
pub open spec fn turns_harmless(u: Unit) -> bool {
    match u {
        Unit::Short { token, spans, .. } => match args::without_output_modes(token) {
            Some(t) => {
                &&& t.len() > 2
                &&& unknown(t.skip(2).take(text::find(t.skip(2), '=')))
                &&& !spans
                &&& !args::is_source(u)
                &&& args::unit_type(u) is None
                &&& args::unit_globs(u).len() == 0
            },
            None => true,
        },
        _ => true,
    }
}

/// Leaving out the letters that choose how matches are printed leaves the others alone.
pub(crate) proof fn lemma_without_modes(ls: Seq<char>)
    ensures
        args::without_modes(ls).len() <= ls.len(),
        forall|j: int|
            0 <= j < args::without_modes(ls).len() ==> !flags::letter_selects_output(
                #[trigger] args::without_modes(ls)[j],
            ) && ls.contains(args::without_modes(ls)[j]),
        args::letters_obstacle(args::without_modes(ls)) == args::letters_obstacle(ls),
        args::letters_numbering(args::without_modes(ls)) is None,
        args::without_modes(args::without_modes(ls)) == args::without_modes(ls),
    decreases ls.len(),
{
    if ls.len() > 0 {
        let shorter = ls.drop_last();
        lemma_without_modes(shorter);
        let kept = args::without_modes(shorter);
        assert forall|j: int| 0 <= j < args::without_modes(ls).len() implies
            !flags::letter_selects_output(#[trigger] args::without_modes(ls)[j]) && ls.contains(
            args::without_modes(ls)[j],
        ) by {
            if j < kept.len() {
                let c = kept[j];
                assert(shorter.contains(c));
                let k = choose|k: int| 0 <= k < shorter.len() && shorter[k] == c;
                assert(ls[k] == c);
            } else {
                assert(ls[ls.len() - 1] == ls.last());
            }
        }
        if !flags::letter_selects_output(ls.last()) {
            assert(kept.push(ls.last()).drop_last() =~= kept);
        }
    }
}

/// Switches in front of a flag with a value, or of nothing, are all the switches.
pub(crate) proof fn lemma_switch_len_of(a: Seq<char>, b: Seq<char>)
    requires
        forall|j: int| 0 <= j < a.len() ==> !flags::letter_takes_value(#[trigger] a[j]),
        b.len() > 0 ==> flags::letter_takes_value(b[0]),
    ensures
        args::switch_len(a + b) == a.len(),
    decreases a.len(),
{
    if a.len() > 0 {
        assert(!flags::letter_takes_value(a[0]));
        assert((a + b).drop_first() =~= a.drop_first() + b);
        assert forall|j: int| 0 <= j < a.drop_first().len() implies !flags::letter_takes_value(
            #[trigger] a.drop_first()[j],
        ) by {
            assert(a.drop_first()[j] == a[j + 1]);
        }
        lemma_switch_len_of(a.drop_first(), b);
    } else if b.len() > 0 {
        assert((a + b)[0] == b[0]);
    }
}

/// A bundle without the switches that choose how matches are printed.
proof fn lemma_captured_bundle(u: Unit)
    requires
        u is Short,
        proper(u),
    ensures
        bundle_left(u).len() <= 1,
        bundle_left(u).len() == 0 ==> u->Short_flag is None && args::letters_obstacle(
            args::letters(u),
        ) is None,
        bundle_left(u).len() == 1 ==> {
            let v = bundle_left(u)[0];
            &&& v is Short
            &&& v->Short_flag == u->Short_flag
            &&& args::unit_obstacle(v) == args::unit_obstacle(u)
            &&& args::unit_numbering(v) is None
            &&& !args::letters(v).contains('c')
            &&& !args::letters(v).contains('l')
            &&& args::unit_capture(v) == args::unit_capture(u)
            &&& args::unit_capture(u) == tokens(v)
            &&& stays_bundle(u) ==> reads_back(u, v)
        },
{
    let token = u->Short_token;
    let switches = u->Short_switches;
    let flag = u->Short_flag;
    let spans = u->Short_spans;
    let body = token.skip(1);
    let n = args::switch_len(body);
    let kept = args::without_modes(switches);
    let tail = body.skip(n);
    lemma_switch_bounds(body);
    lemma_without_modes(switches);
    assert forall|j: int| 0 <= j < kept.len() implies !flags::letter_takes_value(
        #[trigger] kept[j],
    ) by {
        assert(switches.contains(kept[j]));
        let k = choose|k: int| 0 <= k < switches.len() && switches[k] == kept[j];
        assert(switches[k] == body[k]);
    }
    lemma_switch_len_of(kept, tail);
    if flag is None {
        assert(tail =~= Seq::<char>::empty());
    }
    if kept.len() + tail.len() == 0 {
        assert(kept =~= Seq::<char>::empty());
        assert(args::letters_obstacle(switches) is None);
    } else {
        let t = seq!['-'] + (kept + tail);
        let v = Unit::Short { token: t, switches: kept, flag, spans };
        assert(bundle_left(u) =~= seq![v]);
        assert(t.skip(1) =~= kept + tail);
        assert((kept + tail).take(kept.len() as int) =~= kept);
        assert((kept + tail).skip(kept.len() as int) =~= tail);
        assert(args::without_output_modes(t) == Some(t));
        match flag {
            Some((c, value)) => {
                assert(kept.push(c).drop_last() =~= kept);
                assert(switches.push(c).drop_last() =~= switches);
                assert(args::letters_obstacle(kept.push(c)) == args::letters_obstacle(
                    switches.push(c),
                ));
                assert((kept + tail)[kept.len() as int] == c);
                assert(tail.skip(1) =~= body.skip(n + 1));
            },
            None => {},
        }
        assert forall|c: char| #[trigger] args::letters(v).contains(c) implies
            !flags::letter_selects_output(c) by {
            let k = choose|k: int| 0 <= k < args::letters(v).len() && args::letters(v)[k] == c;
            if k < kept.len() {
                assert(args::letters(v)[k] == kept[k]);
            }
        }
        if stays_bundle(u) {
            assert(t[1] != '-');
            assert forall|more: Seq<Seq<char>>| (ends(u) ==> more.len() == 0) implies (
            #[trigger] args::first_unit(tokens(v) + more)) == v by {
                lemma_bundle_reads_back(v, tail, more);
            }
        }
    }
}

/// A bundle of switches and at most one flag with its value is read back from its tokens.
proof fn lemma_bundle_reads_back(v: Unit, tail: Seq<char>, more: Seq<Seq<char>>)
    requires
        v is Short,
        ({
            let switches = v->Short_switches;
            let flag = v->Short_flag;
            let spans = v->Short_spans;
            &&& v->Short_token == seq!['-'] + (switches + tail)
            &&& v->Short_token.len() >= 2 && v->Short_token[1] != '-'
            &&& args::switch_len(switches + tail) == switches.len()
            &&& flag is None <==> tail.len() == 0
            &&& flag matches Some((c, value)) ==> {
                &&& c == tail[0]
                &&& tail.len() > 1 ==> value == tail.skip(1) && !spans
                &&& !spans && tail.len() == 1 ==> value.len() == 0 && more.len() == 0
            }
            &&& spans ==> flag is Some
        }),
    ensures
        args::first_unit(tokens(v) + more) == v,
{
    let switches = v->Short_switches;
    let t = v->Short_token;
    let again = tokens(v) + more;
    assert(again[0] == t);
    assert(t.skip(1) =~= switches + tail);
    assert((switches + tail).take(switches.len() as int) =~= switches);
    match v->Short_flag {
        Some((c, value)) => {
            assert((switches + tail)[switches.len() as int] == c);
            assert((switches + tail).skip(switches.len() as int + 1) =~= tail.skip(1));
            if v->Short_spans {
                assert(again[1] == value);
            } else if tail.len() == 1 {
                assert(value =~= Seq::<char>::empty());
            }
        },
        None => {},
    }
}


/// The names that choose how matches are printed say nothing of what is searched for.
proof fn lemma_output_names(u: Unit)
    requires
        u is Long,
        flags::name_selects_output(u->Long_name),
    ensures
        args::unit_pattern(u) is None,
        !args::is_source(u),
        args::unit_type(u) is None,
        args::unit_globs(u) == Seq::<Seq<char>>::empty(),
{
    reveal_strlit("count");
    reveal_strlit("count-matches");
    reveal_strlit("files-with-matches");
    reveal_strlit("line-number");
    reveal_strlit("no-line-number");
    reveal_strlit("heading");
    reveal_strlit("no-heading");
    reveal_strlit("json");
    reveal_strlit("files");
    reveal_strlit("type-list");
    reveal_strlit("regexp");
    reveal_strlit("file");
    reveal_strlit("type");
    reveal_strlit("glob");
    assert("regexp"@.len() == 6);
    assert("file"@.len() == 4 && "file"@[0] == 'f');
    assert("type"@.len() == 4 && "type"@[0] == 't');
    assert("glob"@.len() == 4 && "glob"@[0] == 'g');
    assert("json"@.len() == 4 && "json"@[0] == 'j');
}

/// What the capture run keeps of a unit, and what it leaves out.
proof fn lemma_captured(u: Unit)
    requires
        proper(u),
        stays_bundle(u) || turns_harmless(u),
        forall|more: Seq<Seq<char>>|
            (ends(u) ==> more.len() == 0) ==> #[trigger] args::first_unit(tokens(u) + more) == u,
    ensures
        captured(u).len() <= 1,
        captured(u).len() == 0 ==> {
            &&& args::unit_positionals(u) == Seq::<Seq<char>>::empty()
            &&& args::unit_pattern(u) is None
            &&& !args::is_source(u)
            &&& args::unit_type(u) is None
            &&& args::unit_globs(u) == Seq::<Seq<char>>::empty()
            &&& args::unit_capture(u) == Seq::<Seq<char>>::empty()
        },
        captured(u).len() == 1 ==> {
            let v = captured(u)[0];
            &&& args::unit_positionals(v) == args::unit_positionals(u)
            &&& args::unit_pattern(v) == args::unit_pattern(u)
            &&& args::is_source(v) == args::is_source(u)
            &&& args::unit_type(v) == args::unit_type(u)
            &&& args::unit_globs(v) == args::unit_globs(u)
            &&& args::unit_obstacle(u) is None ==> args::unit_obstacle(v) is None
            &&& args::unit_capture(v) == args::unit_capture(u)
            &&& args::unit_capture(u) == tokens(v)
            &&& reads_back(u, v)
            &&& args::unit_numbering(v) is None
            &&& !args::letters(v).contains('c')
            &&& !args::letters(v).contains('l')
            &&& !args::is_long(v, "count"@)
            &&& !args::is_long(v, "files-with-matches"@)
            &&& !args::is_long(v, "files"@)
            &&& !args::is_long(v, "type-list"@)
            &&& !is_shim(v)
        },
{
    match u {
        Unit::Short { token, .. } => {
            lemma_captured_bundle(u);
            if !stays_bundle(u) {
                lemma_harmless_long(u, args::without_output_modes(token)->0);
            }
        },
        Unit::Long { name, .. } => {
            if flags::name_selects_output(name) {
                lemma_output_names(u);
            } else if is_shim(u) {
                lemma_shim_flag(u);
            }
        },
        _ => {},
    }
}

/// A bundle that turns into a long flag of which the shim knows nothing.
proof fn lemma_harmless_long(u: Unit, t: Seq<char>)
    requires
        u is Short,
        proper(u),
        args::without_output_modes(u->Short_token) == Some(t),
        t[1] == '-',
        turns_harmless(u),
    ensures
        ({
            let v = args::long_unit(t, None);
            &&& v is Long
            &&& unknown(v->Long_name)
            &&& args::unit_capture(v) == seq![t]
            &&& args::unit_capture(u) == seq![t]
            &&& tokens(v) == seq![t]
            &&& reads_back(u, v)
        }),
{
    let v = args::long_unit(t, None);
    assert(t[0] == '-');
    text::lemma_find(t.skip(2), '=');
    assert forall|more: Seq<Seq<char>>| (ends(u) ==> more.len() == 0) implies (
    #[trigger] args::first_unit(tokens(v) + more)) == v by {
        assert((tokens(v) + more)[0] == t);
    }
}

/// Where no unit that is left has a property, none has it.
proof fn lemma_none_left(us: Seq<Unit>, g: spec_fn(Unit) -> Seq<Unit>, p: spec_fn(Unit) -> bool)
    requires
        forall|i: int|
            0 <= i < us.len() ==> g(#[trigger] us[i]).len() <= 1 && (g(us[i]).len() == 1 ==> !p(
                g(us[i])[0],
            )),
    ensures
        !args::some_unit(args::gathered(us, g), p),
    decreases us.len(),
{
    if us.len() > 0 {
        let shorter = us.drop_last();
        let u = us[us.len() - 1];
        assert(g(u).len() <= 1);
        lemma_none_left(shorter, g, p);
        let before = args::gathered(shorter, g);
        if g(u).len() == 0 {
            assert(before + g(u) =~= before);
        } else {
            assert((before + g(u)).drop_last() =~= before);
            lemma_some_last(before + g(u), p);
        }
    }
}

/// Where nothing that is left says anything, nothing is said.
proof fn lemma_nothing_said<A>(
    us: Seq<Unit>,
    g: spec_fn(Unit) -> Seq<Unit>,
    f: spec_fn(Unit) -> Option<A>,
)
    requires
        forall|i: int|
            0 <= i < us.len() ==> g(#[trigger] us[i]).len() <= 1 && (g(us[i]).len() == 1 ==> f(
                g(us[i])[0],
            ) is None),
    ensures
        args::first_said(args::gathered(us, g), f) is None,
        args::last_said(args::gathered(us, g), f) is None,
    decreases us.len(),
{
    if us.len() > 0 {
        let shorter = us.drop_last();
        let u = us[us.len() - 1];
        assert(g(u).len() <= 1);
        lemma_nothing_said(shorter, g, f);
        let before = args::gathered(shorter, g);
        if g(u).len() == 0 {
            assert(before + g(u) =~= before);
        } else {
            assert((before + g(u)).drop_last() =~= before);
            assert((before + g(u)).last() == g(u)[0]);
        }
    }
}

/// Where nothing is said, no unit says anything.
pub(crate) proof fn lemma_no_one_said<A>(us: Seq<Unit>, f: spec_fn(Unit) -> Option<A>)
    requires
        args::first_said(us, f) is None,
    ensures
        forall|i: int| 0 <= i < us.len() ==> f(#[trigger] us[i]) is None,
    decreases us.len(),
{
    if us.len() > 0 {
        lemma_no_one_said(us.drop_last(), f);
        assert forall|i: int| 0 <= i < us.len() implies f(#[trigger] us[i]) is None by {
            if i < us.len() - 1 {
                assert(us.drop_last()[i] == us[i]);
            }
        }
    }
}

/// Where no unit is the shim's, there is no place of one.
proof fn lemma_no_positions(us: Seq<Unit>)
    requires
        !args::asks_plain(us),
    ensures
        args::shim_positions(us) == Seq::<int>::empty(),
    decreases us.len(),
{
    if us.len() > 0 {
        lemma_some_last(us, |u: Unit| args::is_long(u, "no-smart"@));
        lemma_no_positions(us.drop_last());
    }
}

/// The capture run searches for what the caller searches for: its command line reads as the
/// caller's does, in the pattern, the paths, the globs and the type, and asks for no output mode.
/// A call that can be answered with ast-grep's help stays one. The command line of a capture run
/// is its own capture command line.
///
/// This leaves out calls that take no pattern, which are never captured, and bundles with a `-` in
/// them that is in front without the switches: such a bundle may read as `--`, or as a long flag
/// that says something else.
pub proof fn capturing_keeps_the_search(argv: Seq<Seq<char>>)
    requires
        !args::takes_no_pattern(args::units(argv)),
        forall|i: int|
            0 <= i < args::units(argv).len() ==> stays_bundle(#[trigger] args::units(argv)[i])
                || turns_harmless(args::units(argv)[i]),
    ensures
        ({
            let call = args::invocation(argv);
            let run = args::invocation(call.capture_argv);
            &&& run == (Invocation {
                count: false,
                files_with_matches: false,
                no_smart: false,
                shim_flag_indices: Seq::empty(),
                line_numbers: None,
                unsupported: run.unsupported,
                ..call
            })
            &&& call.unsupported is None ==> run.unsupported is None
        }),
{
    let us = args::units(argv);
    let g = |u: Unit| captured(u);
    let f = |u: Unit| args::unit_capture(u);
    let left = args::gathered(us, g);
    lemma_units_read_back(argv);
    lemma_units_proper(argv);
    assert forall|i: int| 0 <= i < us.len() implies {
        let u = #[trigger] us[i];
        ||| g(u).len() == 0 && f(u).len() == 0
        ||| g(u).len() == 1 && f(u) == tokens(g(u)[0]) && reads_back(u, g(u)[0])
    } by {
        lemma_captured(us[i]);
    }
    lemma_reread(argv, g, f);
    lemma_captured_says(us);
    let call = args::invocation(argv);
    let run = args::invocation(call.capture_argv);
    assert(run =~= (Invocation {
        count: false,
        files_with_matches: false,
        no_smart: false,
        shim_flag_indices: Seq::empty(),
        line_numbers: None,
        unsupported: run.unsupported,
        ..call
    }));
}

/// What the units of the capture run say.
proof fn lemma_captured_says(us: Seq<Unit>)
    requires
        forall|i: int|
            0 <= i < us.len() ==> proper(#[trigger] us[i]) && (stays_bundle(us[i])
                || turns_harmless(us[i])) && reads_back(us[i], us[i]),
    ensures
        ({
            let left = args::gathered(us, |u: Unit| captured(u));
            &&& args::positionals(left) == args::positionals(us)
            &&& args::explicit_pattern(left) == args::explicit_pattern(us)
            &&& args::source_count(left) == args::source_count(us)
            &&& args::file_type(left) == args::file_type(us)
            &&& args::globs(left) == args::globs(us)
            &&& args::numbering(left) is None
            &&& args::first_obstacle(us) is None ==> args::first_obstacle(left) is None
            &&& !args::asks_count(left)
            &&& !args::asks_files(left)
            &&& !args::takes_no_pattern(left)
            &&& !args::asks_plain(left)
            &&& args::shim_positions(left) == Seq::<int>::empty()
            &&& args::capture(left) == args::capture(us)
        }),
{
    let g = |u: Unit| captured(u);
    let left = args::gathered(us, g);
    assert forall|i: int| 0 <= i < us.len() implies {
        let u = #[trigger] us[i];
        &&& captured(u).len() <= 1
        &&& keeps(g, |u: Unit| args::unit_positionals(u), Seq::empty(), u)
        &&& keeps(g, |u: Unit| args::unit_pattern(u), None, u)
        &&& keeps(g, |u: Unit| args::is_source(u), false, u)
        &&& keeps(g, |u: Unit| args::unit_type(u), None, u)
        &&& keeps(g, |u: Unit| args::unit_globs(u), Seq::empty(), u)
        &&& keeps(g, |u: Unit| args::unit_capture(u), Seq::empty(), u)
        &&& captured(u).len() == 1 ==> {
            let v = captured(u)[0];
            &&& args::unit_obstacle(u) is None ==> args::unit_obstacle(v) is None
            &&& args::unit_numbering(v) is None
            &&& !args::letters(v).contains('c')
            &&& !args::letters(v).contains('l')
            &&& !args::is_long(v, "count"@)
            &&& !args::is_long(v, "files-with-matches"@)
            &&& !args::is_long(v, "files"@)
            &&& !args::is_long(v, "type-list"@)
            &&& !is_shim(v)
        }
    } by {
        lemma_captured(us[i]);
    }
    lemma_keeps_gathered(us, g, |u: Unit| args::unit_positionals(u));
    lemma_keeps_said(us, g, |u: Unit| args::unit_pattern(u));
    lemma_keeps_count(us, g, |u: Unit| args::is_source(u));
    lemma_keeps_said(us, g, |u: Unit| args::unit_type(u));
    lemma_keeps_gathered(us, g, |u: Unit| args::unit_globs(u));
    lemma_keeps_gathered(us, g, |u: Unit| args::unit_capture(u));
    lemma_nothing_said(us, g, |u: Unit| args::unit_numbering(u));
    lemma_none_left(us, g, |u: Unit| args::is_long(u, "count"@) || args::letters(u).contains('c'));
    lemma_none_left(us, g, |u: Unit|
        args::is_long(u, "files-with-matches"@) || args::letters(u).contains('l'));
    lemma_none_left(us, g, |u: Unit| args::is_long(u, "files"@) || args::is_long(u, "type-list"@));
    lemma_none_left(us, g, |u: Unit| args::is_long(u, "no-smart"@));
    lemma_no_positions(left);
    if args::first_obstacle(us) is None {
        lemma_no_one_said(us, |u: Unit| args::unit_obstacle(u));
        assert forall|i: int| 0 <= i < us.len() implies args::unit_obstacle(
            #[trigger] us[i],
        ) is None by {
            let said = |u: Unit| args::unit_obstacle(u);
            assert(said(us[i]) is None);
        }
        lemma_nothing_said(us, g, |u: Unit| args::unit_obstacle(u));
    }
}


/// A call with a pattern has a capture command line that is not empty.
pub proof fn a_pattern_is_captured(argv: Seq<Seq<char>>)
    requires
        args::invocation(argv).pattern is Some,
    ensures
        args::invocation(argv).capture_argv.len() > 0,
{
    let us = args::units(argv);
    lemma_units_proper(argv);
    if args::explicit_pattern(us) is Some {
        let i = lemma_someone_said(us, |u: Unit| args::unit_pattern(u));
        let u = us[i];
        assert(args::unit_pattern(u) is Some);
        if u is Short {
            lemma_captured_bundle(u);
        } else {
            lemma_source_names(u);
        }
        lemma_gathered_some(us, |u: Unit| args::unit_capture(u), i);
    } else {
        let i = lemma_gathered_from(us, |u: Unit| args::unit_positionals(u));
        lemma_gathered_some(us, |u: Unit| args::unit_capture(u), i);
    }
}

/// A long flag that gives a pattern goes into the capture run.
proof fn lemma_source_names(u: Unit)
    requires
        u is Long,
        args::is_source(u),
    ensures
        args::unit_capture(u).len() > 0,
{
    if flags::name_selects_output(u->Long_name) {
        lemma_output_names(u);
    } else if is_shim(u) {
        lemma_shim_flag(u);
    }
}

pub(crate) proof fn lemma_someone_said<A>(us: Seq<Unit>, f: spec_fn(Unit) -> Option<A>) -> (i: int)
    requires
        args::first_said(us, f) is Some,
    ensures
        0 <= i < us.len(),
        f(us[i]) is Some,
    decreases us.len(),
{
    if args::first_said(us.drop_last(), f) is Some {
        lemma_someone_said(us.drop_last(), f)
    } else {
        us.len() - 1
    }
}

proof fn lemma_gathered_some<A>(us: Seq<Unit>, f: spec_fn(Unit) -> Seq<A>, i: int)
    requires
        0 <= i < us.len(),
        f(us[i]).len() > 0,
    ensures
        args::gathered(us, f).len() > 0,
    decreases us.len(),
{
    if i < us.len() - 1 {
        lemma_gathered_some(us.drop_last(), f, i);
    }
}

proof fn lemma_gathered_from<A>(us: Seq<Unit>, f: spec_fn(Unit) -> Seq<A>) -> (i: int)
    requires
        args::gathered(us, f).len() > 0,
    ensures
        0 <= i < us.len(),
        f(us[i]).len() > 0,
    decreases us.len(),
{
    if f(us.last()).len() > 0 {
        us.len() - 1
    } else {
        lemma_gathered_from(us.drop_last(), f)
    }
}

/// Where no unit needs to stand at the end, more tokens add their own units.
pub(crate) proof fn lemma_units_behind(argv: Seq<Seq<char>>, more: Seq<Seq<char>>)
    requires
        forall|i: int| 0 <= i < args::units(argv).len() ==> !ends(#[trigger] args::units(argv)[i]),
    ensures
        args::units(argv + more) == args::units(argv) + args::units(more),
    decreases argv.len(),
{
    if argv.len() == 0 {
        assert(argv + more =~= more);
        assert(args::units(argv) + args::units(more) =~= args::units(more));
    } else {
        let u = args::first_unit(argv);
        let w = args::width(u) as int;
        let rest = argv.skip(w);
        assert(args::units(argv)[0] == u);
        lemma_read_back(argv, rest + more);
        assert(argv + more =~= tokens(u) + (rest + more));
        assert((argv + more).skip(w) =~= rest + more);
        assert forall|i: int| 0 <= i < args::units(rest).len() implies !ends(
            #[trigger] args::units(rest)[i],
        ) by {
            assert(args::units(argv)[i + 1] == args::units(rest)[i]);
        }
        lemma_units_behind(rest, more);
        assert(seq![u] + (args::units(rest) + args::units(more)) =~= seq![u] + args::units(rest)
            + args::units(more));
    }
}

/// Nothing behind `--` is a flag, whatever it looks like: it adds to the positional tokens, it
/// goes into the capture run as it stands, and everything else is as without it.
pub proof fn nothing_behind_dashes_is_a_flag(argv: Seq<Seq<char>>, more: Seq<Seq<char>>)
    requires
        forall|i: int| 0 <= i < args::units(argv).len() ==> !ends(#[trigger] args::units(argv)[i]),
    ensures
        ({
            let dashes = seq![seq!['-', '-']];
            let whole = argv + (dashes + more);
            let call = args::invocation(argv);
            &&& args::positionals(args::units(whole)) == args::positionals(args::units(argv)) + more
            &&& args::invocation(whole) == (Invocation {
                pattern: args::search_pattern(args::units(whole)),
                path: args::invocation(whole).path,
                has_path: args::invocation(whole).has_path,
                reads_stdin: args::invocation(whole).reads_stdin,
                paths: args::real_paths(args::named_targets(args::units(whole))),
                capture_argv: call.capture_argv + (dashes + more),
                ..call
            })
        }),
{
    let dashes = seq![seq!['-', '-']];
    let tail = dashes + more;
    let us = args::units(argv);
    let rest = Unit::Rest { tokens: more };
    lemma_units_behind(argv, tail);
    assert(tail.skip(1) =~= more);
    assert(tail.skip(args::width(rest) as int) =~= Seq::<Seq<char>>::empty());
    assert(args::first_unit(tail) == rest);
    assert(args::units(tail.skip(args::width(rest) as int)) =~= Seq::<Unit>::empty());
    assert(args::units(tail) =~= seq![rest]);
    let all = us.push(rest);
    assert(args::units(argv + tail) =~= all);
    assert(all.drop_last() =~= us);
    lemma_some_last(all, |u: Unit| args::is_long(u, "count"@) || args::letters(u).contains('c'));
    lemma_some_last(
        all,
        |u: Unit| args::is_long(u, "files-with-matches"@) || args::letters(u).contains('l'),
    );
    lemma_some_last(all, |u: Unit| args::is_long(u, "files"@) || args::is_long(u, "type-list"@));
    lemma_some_last(all, |u: Unit| args::is_long(u, "no-smart"@));
    assert(args::globs(all) =~= args::globs(us));
    assert(args::letters(rest) =~= Seq::<char>::empty());
    assert(args::invocation(argv + tail) =~= (Invocation {
        pattern: args::search_pattern(all),
        path: args::invocation(argv + tail).path,
        has_path: args::invocation(argv + tail).has_path,
        reads_stdin: args::invocation(argv + tail).reads_stdin,
        paths: args::real_paths(args::named_targets(all)),
        capture_argv: args::capture(us) + tail,
        ..args::invocation(argv)
    }));
}

/// Whether the shim knows nothing of a long flag.
pub open spec fn unknown(name: Seq<char>) -> bool {
    &&& !flags::name_denied(name)
    &&& !flags::name_takes_value(name)
    &&& !flags::name_selects_output(name)
    &&& name != "no-smart"@
}

/// Whether a unit is a long flag of which the shim knows nothing.
spec fn is_unknown(u: Unit) -> bool {
    u is Long && unknown(u->Long_name)
}

/// The units of which the shim knows something.
spec fn known(u: Unit) -> Seq<Unit> {
    if is_unknown(u) {
        Seq::empty()
    } else {
        seq![u]
    }
}

/// Some units and more of them give what both give.
pub(crate) proof fn lemma_gathered_add<A>(a: Seq<Unit>, b: Seq<Unit>, f: spec_fn(Unit) -> Seq<A>)
    ensures
        args::gathered(a + b, f) == args::gathered(a, f) + args::gathered(b, f),
    decreases b.len(),
{
    if b.len() == 0 {
        assert(a + b =~= a);
        assert(args::gathered(a, f) + args::gathered(b, f) =~= args::gathered(a, f));
    } else {
        assert((a + b).drop_last() =~= a + b.drop_last());
        lemma_gathered_add(a, b.drop_last(), f);
        assert(args::gathered(a, f) + (args::gathered(b.drop_last(), f) + f(b.last()))
            =~= args::gathered(a, f) + args::gathered(b.drop_last(), f) + f(b.last()));
    }
}

/// What the known units say is what all of them say.
proof fn lemma_known_says(us: Seq<Unit>)
    ensures
        ({
            let left = args::gathered(us, |u: Unit| known(u));
            &&& args::positionals(left) == args::positionals(us)
            &&& args::explicit_pattern(left) == args::explicit_pattern(us)
            &&& args::source_count(left) == args::source_count(us)
            &&& args::file_type(left) == args::file_type(us)
            &&& args::globs(left) == args::globs(us)
            &&& args::numbering(left) == args::numbering(us)
            &&& args::first_obstacle(left) == args::first_obstacle(us)
            &&& args::asks_count(left) == args::asks_count(us)
            &&& args::asks_files(left) == args::asks_files(us)
            &&& args::takes_no_pattern(left) == args::takes_no_pattern(us)
            &&& args::asks_plain(left) == args::asks_plain(us)
        }),
{
    let g = |u: Unit| known(u);
    lemma_keeps_gathered(us, g, |u: Unit| args::unit_positionals(u));
    lemma_keeps_said(us, g, |u: Unit| args::unit_pattern(u));
    lemma_keeps_count(us, g, |u: Unit| args::is_source(u));
    lemma_keeps_said(us, g, |u: Unit| args::unit_type(u));
    lemma_keeps_gathered(us, g, |u: Unit| args::unit_globs(u));
    lemma_keeps_said(us, g, |u: Unit| args::unit_numbering(u));
    lemma_keeps_said(us, g, |u: Unit| args::unit_obstacle(u));
    lemma_keeps_count(us, g, |u: Unit|
        args::is_long(u, "count"@) || args::letters(u).contains('c'));
    lemma_keeps_count(us, g, |u: Unit|
        args::is_long(u, "files-with-matches"@) || args::letters(u).contains('l'));
    lemma_keeps_count(us, g, |u: Unit|
        args::is_long(u, "files"@) || args::is_long(u, "type-list"@));
    lemma_keeps_count(us, g, |u: Unit| args::is_long(u, "no-smart"@));
}

/// Positions in a list after a token was put in at `n`: those from there on move up by one.
pub open spec fn moved_up(positions: Seq<int>, n: int) -> Seq<int> {
    Seq::new(
        positions.len(),
        |i: int|
            if positions[i] < n {
                positions[i]
            } else {
                positions[i] + 1
            },
    )
}

/// Positions in a list that comes behind `n` tokens.
spec fn behind(positions: Seq<int>, n: int) -> Seq<int> {
    Seq::new(positions.len(), |i: int| positions[i] + n)
}

/// Some units and more of them are as wide as both, and the later ones stand behind the earlier.
proof fn lemma_shim_positions_add(a: Seq<Unit>, b: Seq<Unit>)
    ensures
        args::total_width(a + b) == args::total_width(a) + args::total_width(b),
        args::shim_positions(a + b) == args::shim_positions(a) + behind(
            args::shim_positions(b),
            args::total_width(a) as int,
        ),
    decreases b.len(),
{
    if b.len() == 0 {
        assert(a + b =~= a);
    } else {
        let shorter = b.drop_last();
        assert((a + b).drop_last() =~= a + shorter);
        assert((a + b).last() == b.last());
        lemma_shim_positions_add(a, shorter);
    }
    assert(args::shim_positions(a + b) =~= args::shim_positions(a) + behind(
        args::shim_positions(b),
        args::total_width(a) as int,
    ));
}

/// The shim's flags of a command line stand among its tokens, and its units make up the tokens.
pub(crate) proof fn lemma_shim_positions_inside(argv: Seq<Seq<char>>)
    ensures
        args::total_width(args::units(argv)) == argv.len(),
        forall|i: int|
            0 <= i < args::shim_positions(args::units(argv)).len() ==> 0 <= (
            #[trigger] args::shim_positions(args::units(argv))[i]) < argv.len(),
{
    let us = args::units(argv);
    lemma_units_read_back(argv);
    lemma_units_shim_width(argv);
    lemma_unlisted_units(us);
    assert forall|i: int| 0 <= i < args::shim_positions(us).len() implies 0 <= (
    #[trigger] args::shim_positions(us)[i]) < argv.len() by {
        assert(args::shim_positions(us).contains(args::shim_positions(us)[i]));
    }
}

/// A long flag of which the shim knows nothing changes nothing of what is known of a call, but that
/// the shim's own flags behind it stand one further. It goes along into the capture run.
pub proof fn unknown_flags_are_harmless(
    front: Seq<Seq<char>>,
    token: Seq<char>,
    back: Seq<Seq<char>>,
)
    requires
        forall|i: int|
            0 <= i < args::units(front).len() ==> !ends(#[trigger] args::units(front)[i]),
        token.len() > 2 && token[0] == '-' && token[1] == '-',
        unknown(token.skip(2).take(text::find(token.skip(2), '='))),
    ensures
        ({
            let with = args::invocation(front + (seq![token] + back));
            let without = args::invocation(front + back);
            &&& with == (Invocation {
                shim_flag_indices: with.shim_flag_indices,
                capture_argv: with.capture_argv,
                ..without
            })
            &&& with.shim_flag_indices == moved_up(without.shim_flag_indices, front.len() as int)
            &&& with.capture_argv == args::capture(args::units(front)) + (seq![token]
                + args::capture(args::units(back)))
        }),
{
    let tail = seq![token] + back;
    let us = args::units(front);
    let vs = args::units(back);
    lemma_units_behind(front, tail);
    lemma_units_behind(front, back);
    text::lemma_find(token.skip(2), '=');
    let u = args::first_unit(tail);
    assert(tail[0] == token);
    assert(is_unknown(u));
    assert(args::width(u) == 1);
    assert(tail.skip(1) =~= back);
    assert(args::units(tail) == seq![u] + vs);
    let g = |u: Unit| known(u);
    let all = us + (seq![u] + vs);
    lemma_known_says(all);
    lemma_known_says(us + vs);
    lemma_gathered_add(us, seq![u] + vs, g);
    lemma_gathered_add(us, vs, g);
    lemma_gathered_front(u, vs, g);
    assert(known(u) + args::gathered(vs, g) =~= args::gathered(vs, g));
    let f = |u: Unit| args::unit_capture(u);
    lemma_gathered_add(us, seq![u] + vs, f);
    lemma_gathered_front(u, vs, f);
    let with = args::invocation(front + tail);
    assert(with =~= (Invocation {
        shim_flag_indices: with.shim_flag_indices,
        capture_argv: with.capture_argv,
        ..args::invocation(front + back)
    }));
    lemma_shim_positions_inside(front);
    lemma_shim_positions_inside(back);
    lemma_shim_positions_add(us, seq![u] + vs);
    lemma_shim_positions_add(us, vs);
    lemma_shim_positions_add(seq![u], vs);
    assert(seq![u].drop_last() =~= Seq::<Unit>::empty());
    assert(args::total_width(Seq::<Unit>::empty()) == 0);
    assert(args::total_width(seq![u]) == 1);
    assert(args::shim_positions(Seq::<Unit>::empty()) == Seq::<int>::empty());
    assert(args::shim_positions(seq![u]) == Seq::<int>::empty());
    assert(with.shim_flag_indices =~= moved_up(
        args::invocation(front + back).shim_flag_indices,
        front.len() as int,
    ));
}

/// `--no-smart`, wherever it stands among the flags, asks for plain ripgrep, and ripgrep gets the
/// command line without it and otherwise as it is.
pub proof fn plain_ripgrep_gets_the_rest(front: Seq<Seq<char>>, back: Seq<Seq<char>>)
    requires
        forall|i: int|
            0 <= i < args::units(front).len() ==> !ends(#[trigger] args::units(front)[i]),
        !args::invocation(front).no_smart,
        !args::invocation(back).no_smart,
    ensures
        ({
            let argv = front + (seq![seq!['-', '-'] + "no-smart"@] + back);
            let call = args::invocation(argv);
            &&& call.no_smart
            &&& call.shim_flag_indices == seq![front.len() as int]
            &&& args::unlisted(argv, call.shim_flag_indices) == front + back
        }),
{
    let token = seq!['-', '-'] + "no-smart"@;
    let tail = seq![token] + back;
    let argv = front + tail;
    let us = args::units(front);
    let vs = args::units(back);
    lemma_units_behind(front, tail);
    lemma_shim_name();
    reveal_strlit("no-smart");
    assert(token.skip(2) =~= "no-smart"@);
    text::lemma_find("no-smart"@, '=');
    assert(!"no-smart"@.contains('='));
    text::lemma_find_contains("no-smart"@, '=');
    assert("no-smart"@.take(8) =~= "no-smart"@);
    assert(tail[0] == token);
    assert(tail.skip(1) =~= back);
    let u = args::first_unit(tail);
    assert(is_shim(u));
    assert(args::width(u) == 1);
    assert(args::units(tail) == seq![u] + vs);
    let all = us + (seq![u] + vs);
    assert(all[us.len() as int] == u);
    let p = |u: Unit| args::is_long(u, "no-smart"@);
    assert(p(all[us.len() as int]));
    lemma_no_positions(us);
    lemma_no_positions(vs);
    lemma_shim_positions_inside(front);
    lemma_shim_positions_add(us, seq![u] + vs);
    lemma_shim_positions_add(seq![u], vs);
    assert(seq![u].drop_last() =~= Seq::<Unit>::empty());
    assert(args::shim_positions(Seq::<Unit>::empty()) == Seq::<int>::empty());
    assert(args::total_width(Seq::<Unit>::empty()) == 0);
    assert(args::shim_positions(seq![u]) =~= seq![0int]);
    let n = front.len() as int;
    assert(args::shim_positions(all) =~= seq![n]);
    let whole = front.push(token);
    assert(whole.drop_last() =~= front);
    assert(seq![n].contains(n)) by {
        assert(seq![n][0] == n);
    }
    assert(args::unlisted(whole, seq![n]) == args::unlisted(front, seq![n]));
    lemma_unlisted_within(front, seq![n], Seq::empty());
    lemma_unlisted_tail(Seq::empty(), front, Seq::empty());
    assert(Seq::<Seq<char>>::empty() + front =~= front);
    assert(args::unlisted(Seq::<Seq<char>>::empty(), Seq::empty()) =~= Seq::<Seq<char>>::empty());
    lemma_unlisted_tail(whole, back, seq![n]);
    assert(whole + back =~= argv);
}

} // verus!
