//! A ripgrep command line, read for what the shim needs of it.
//!
//! The command line is a row of [`Unit`]s: a positional token, a long flag, a bundle of short
//! flags, or `--` with everything behind it. A flag that takes the next token as its value forms
//! one unit with it. Everything that is known of the call is said over that row.

use crate::flags;
use crate::flags::{
    is_output_mode_long, is_output_mode_short, long_takes_value, short_takes_value,
    unsupported_long, unsupported_short,
};
use crate::text;
use crate::text::{chars_of, copy_strings, find_from, same_text, string_between, string_of};
use vstd::prelude::*;
use vstd::string::*;

verus! {

/// One piece of a command line.
pub enum Unit {
    /// A token that is neither a flag nor the value of one. A lone `-` is such a token.
    Positional { token: Seq<char> },
    /// `--name`, `--name=value`, or `--name` with its value in the next token (`spans`).
    Long { token: Seq<char>, name: Seq<char>, value: Option<Seq<char>>, spans: bool },
    /// `-xyz`: switches, then at most one flag with its value, which is the rest of the token or
    /// the next token (`spans`).
    Short {
        token: Seq<char>,
        switches: Seq<char>,
        flag: Option<(char, Seq<char>)>,
        spans: bool,
    },
    /// `--` and every token behind it, none of which is a flag.
    Rest { tokens: Seq<Seq<char>> },
}

/// The tokens that a unit covers.
pub open spec fn width(u: Unit) -> nat {
    match u {
        Unit::Positional { .. } => 1,
        Unit::Long { spans, .. } => if spans {
            2
        } else {
            1
        },
        Unit::Short { spans, .. } => if spans {
            2
        } else {
            1
        },
        Unit::Rest { tokens } => 1 + tokens.len(),
    }
}

/// The switches at the start of a bundle: the letters before the first that takes a value.
pub open spec fn switch_len(letters: Seq<char>) -> int
    decreases letters.len(),
{
    if letters.len() == 0 || flags::letter_takes_value(letters[0]) {
        0
    } else {
        1 + switch_len(letters.drop_first())
    }
}

/// A long flag, from its token and the token behind it.
pub open spec fn long_unit(token: Seq<char>, next: Option<Seq<char>>) -> Unit {
    let body = token.skip(2);
    let n = text::find(body, '=');
    let name = body.take(n);
    if n < body.len() {
        Unit::Long { token, name, value: Some(body.skip(n + 1)), spans: false }
    } else if flags::name_takes_value(name) && next is Some {
        Unit::Long { token, name, value: next, spans: true }
    } else {
        Unit::Long { token, name, value: None, spans: false }
    }
}

/// A bundle of short flags, from its token and the token behind it.
pub open spec fn short_unit(token: Seq<char>, next: Option<Seq<char>>) -> Unit {
    let body = token.skip(1);
    let n = switch_len(body);
    let switches = body.take(n);
    if n == body.len() {
        Unit::Short { token, switches, flag: None, spans: false }
    } else if n + 1 < body.len() {
        Unit::Short { token, switches, flag: Some((body[n], body.skip(n + 1))), spans: false }
    } else {
        match next {
            Some(v) => Unit::Short { token, switches, flag: Some((body[n], v)), spans: true },
            None => Unit::Short {
                token,
                switches,
                flag: Some((body[n], Seq::empty())),
                spans: false,
            },
        }
    }
}

/// The first unit of a command line that has a token left.
pub open spec fn first_unit(argv: Seq<Seq<char>>) -> Unit {
    let token = argv[0];
    let next = if argv.len() > 1 {
        Some(argv[1])
    } else {
        None
    };
    if token.len() >= 2 && token[0] == '-' && token[1] == '-' {
        if token.len() == 2 {
            Unit::Rest { tokens: argv.skip(1) }
        } else {
            long_unit(token, next)
        }
    } else if token.len() >= 2 && token[0] == '-' {
        short_unit(token, next)
    } else {
        Unit::Positional { token }
    }
}

/// The units of a command line.
pub open spec fn units(argv: Seq<Seq<char>>) -> Seq<Unit>
    decreases argv.len(),
{
    if argv.len() == 0 {
        Seq::empty()
    } else {
        seq![first_unit(argv)] + units(argv.skip(width(first_unit(argv)) as int))
    }
}

/// The tokens that some units cover together.
pub open spec fn total_width(us: Seq<Unit>) -> nat
    decreases us.len(),
{
    if us.len() == 0 {
        0
    } else {
        total_width(us.drop_last()) + width(us.last())
    }
}

/// Whether some unit has a property.
pub open spec fn some_unit(us: Seq<Unit>, p: spec_fn(Unit) -> bool) -> bool {
    exists|i: int| 0 <= i < us.len() && p(#[trigger] us[i])
}

/// The number of units with a property.
pub open spec fn how_many(us: Seq<Unit>, p: spec_fn(Unit) -> bool) -> nat
    decreases us.len(),
{
    if us.len() == 0 {
        0
    } else {
        how_many(us.drop_last(), p) + if p(us.last()) {
            1nat
        } else {
            0nat
        }
    }
}

/// What the first unit that says something says.
pub open spec fn first_said<A>(us: Seq<Unit>, f: spec_fn(Unit) -> Option<A>) -> Option<A>
    decreases us.len(),
{
    if us.len() == 0 {
        None
    } else {
        match first_said(us.drop_last(), f) {
            Some(a) => Some(a),
            None => f(us.last()),
        }
    }
}

/// What the last unit that says something says.
pub open spec fn last_said<A>(us: Seq<Unit>, f: spec_fn(Unit) -> Option<A>) -> Option<A>
    decreases us.len(),
{
    if us.len() == 0 {
        None
    } else {
        match f(us.last()) {
            Some(a) => Some(a),
            None => last_said(us.drop_last(), f),
        }
    }
}

/// What the units give, one after the other.
pub open spec fn gathered<A>(us: Seq<Unit>, f: spec_fn(Unit) -> Seq<A>) -> Seq<A>
    decreases us.len(),
{
    if us.len() == 0 {
        Seq::empty()
    } else {
        gathered(us.drop_last(), f) + f(us.last())
    }
}

/// Whether a unit is the long flag of that name.
pub open spec fn is_long(u: Unit, name: Seq<char>) -> bool {
    match u {
        Unit::Long { name: n, .. } => n == name,
        _ => false,
    }
}

/// The letters of a bundle that are flags.
pub open spec fn letters(u: Unit) -> Seq<char> {
    match u {
        Unit::Short { switches, flag, .. } => match flag {
            Some((c, _)) => switches.push(c),
            None => switches,
        },
        _ => Seq::empty(),
    }
}

/// The positional tokens of a unit.
pub open spec fn unit_positionals(u: Unit) -> Seq<Seq<char>> {
    match u {
        Unit::Positional { token } => seq![token],
        Unit::Rest { tokens } => tokens,
        _ => Seq::empty(),
    }
}

/// Whether a unit gives a pattern: `-e`, `--regexp`, or a file of them, `-f`, `--file`.
pub open spec fn is_source(u: Unit) -> bool {
    match u {
        Unit::Long { name, .. } => name == "regexp"@ || name == "file"@,
        Unit::Short { flag: Some((c, _)), .. } => c == 'e' || c == 'f',
        _ => false,
    }
}

/// The value of a unit that gives a pattern.
pub open spec fn unit_pattern(u: Unit) -> Option<Seq<char>> {
    if !is_source(u) {
        None
    } else {
        match u {
            Unit::Long { value, .. } => value,
            Unit::Short { flag: Some((_, v)), .. } => Some(v),
            _ => None,
        }
    }
}

/// The file type that a unit asks for.
pub open spec fn unit_type(u: Unit) -> Option<Seq<char>> {
    match u {
        Unit::Long { name, value, .. } => if name == "type"@ {
            value
        } else {
            None
        },
        Unit::Short { flag: Some((c, v)), .. } => if c == 't' {
            Some(v)
        } else {
            None
        },
        _ => None,
    }
}

/// The glob that a unit gives.
pub open spec fn unit_globs(u: Unit) -> Seq<Seq<char>> {
    match u {
        Unit::Long { name, value: Some(v), .. } => if name == "glob"@ {
            seq![v]
        } else {
            Seq::empty()
        },
        Unit::Short { flag: Some((c, v)), .. } => if c == 'g' {
            seq![v]
        } else {
            Seq::empty()
        },
        _ => Seq::empty(),
    }
}

/// The line-number preference of the last letter that has one.
pub open spec fn letters_numbering(ls: Seq<char>) -> Option<bool>
    decreases ls.len(),
{
    if ls.len() == 0 {
        None
    } else if ls.last() == 'n' {
        Some(true)
    } else if ls.last() == 'N' {
        Some(false)
    } else {
        letters_numbering(ls.drop_last())
    }
}

/// The line-number preference that a unit states.
pub open spec fn unit_numbering(u: Unit) -> Option<bool> {
    if is_long(u, "no-line-number"@) {
        Some(false)
    } else if is_long(u, "line-number"@) {
        Some(true)
    } else {
        letters_numbering(letters(u))
    }
}

/// A short flag as it is written.
pub open spec fn dashed(c: char) -> Seq<char> {
    seq!['-', c]
}

/// The first letter that ast-grep cannot honour, as it is written. A file of patterns is among
/// them.
pub open spec fn letters_obstacle(ls: Seq<char>) -> Option<Seq<char>>
    decreases ls.len(),
{
    if ls.len() == 0 {
        None
    } else {
        match letters_obstacle(ls.drop_last()) {
            Some(f) => Some(f),
            None => if flags::letter_denied(ls.last()) || ls.last() == 'f' {
                Some(dashed(ls.last()))
            } else {
                None
            },
        }
    }
}

/// What a unit asks for that ast-grep cannot honour, as it is written.
pub open spec fn unit_obstacle(u: Unit) -> Option<Seq<char>> {
    match u {
        Unit::Long { name, .. } => if flags::name_denied(name) {
            Some(seq!['-', '-'] + name)
        } else if name == "file"@ {
            Some(dashed('f'))
        } else {
            None
        },
        _ => letters_obstacle(letters(u)),
    }
}

/// The letters that do not choose how matches are printed.
pub open spec fn without_modes(ls: Seq<char>) -> Seq<char>
    decreases ls.len(),
{
    if ls.len() == 0 {
        ls
    } else if flags::letter_selects_output(ls.last()) {
        without_modes(ls.drop_last())
    } else {
        without_modes(ls.drop_last()).push(ls.last())
    }
}

/// A bundle without the switches that choose how matches are printed; nothing where none of it is
/// left. A flag with a value, and the value, stay as they are.
pub open spec fn without_output_modes(token: Seq<char>) -> Option<Seq<char>> {
    let body = if token.len() > 0 {
        token.skip(1)
    } else {
        token
    };
    let n = switch_len(body);
    let kept = without_modes(body.take(n)) + body.skip(n);
    if kept.len() == 0 {
        None
    } else {
        Some(seq!['-'] + kept)
    }
}

/// The tokens of a unit that go into the capture run: neither the shim's own flag nor one that
/// chooses how matches are printed.
pub open spec fn unit_capture(u: Unit) -> Seq<Seq<char>> {
    match u {
        Unit::Positional { token } => seq![token],
        Unit::Rest { tokens } => seq![seq!['-', '-']] + tokens,
        Unit::Long { token, name, value, spans } => if flags::name_selects_output(name) || name
            == "no-smart"@ {
            Seq::empty()
        } else if spans {
            seq![token, value->0]
        } else {
            seq![token]
        },
        Unit::Short { token, flag, spans, .. } => match without_output_modes(token) {
            Some(t) => if spans {
                seq![t, (flag->0).1]
            } else {
                seq![t]
            },
            None => Seq::empty(),
        },
    }
}

/// Where the units that belong to the shim stand among the tokens.
pub open spec fn shim_positions(us: Seq<Unit>) -> Seq<int>
    decreases us.len(),
{
    if us.len() == 0 {
        Seq::empty()
    } else if is_long(us.last(), "no-smart"@) {
        shim_positions(us.drop_last()).push(total_width(us.drop_last()) as int)
    } else {
        shim_positions(us.drop_last())
    }
}

/// The positional tokens.
pub open spec fn positionals(us: Seq<Unit>) -> Seq<Seq<char>> {
    gathered(us, |u: Unit| unit_positionals(u))
}

/// The pattern that a flag gives, if one does.
pub open spec fn explicit_pattern(us: Seq<Unit>) -> Option<Seq<char>> {
    first_said(us, |u: Unit| unit_pattern(u))
}

/// The flags that give a pattern.
pub open spec fn source_count(us: Seq<Unit>) -> nat {
    how_many(us, |u: Unit| is_source(u))
}

/// The file type asked for last.
pub open spec fn file_type(us: Seq<Unit>) -> Option<Seq<char>> {
    last_said(us, |u: Unit| unit_type(u))
}

/// The globs, in order.
pub open spec fn globs(us: Seq<Unit>) -> Seq<Seq<char>> {
    gathered(us, |u: Unit| unit_globs(u))
}

/// The line-number preference stated last.
pub open spec fn numbering(us: Seq<Unit>) -> Option<bool> {
    last_said(us, |u: Unit| unit_numbering(u))
}

/// The first flag that ast-grep cannot honour.
pub open spec fn first_obstacle(us: Seq<Unit>) -> Option<Seq<char>> {
    first_said(us, |u: Unit| unit_obstacle(u))
}

/// Whether the number of matches is asked for.
pub open spec fn asks_count(us: Seq<Unit>) -> bool {
    some_unit(us, |u: Unit| is_long(u, "count"@) || letters(u).contains('c'))
}

/// Whether only the names of the files are asked for.
pub open spec fn asks_files(us: Seq<Unit>) -> bool {
    some_unit(us, |u: Unit| is_long(u, "files-with-matches"@) || letters(u).contains('l'))
}

/// Whether the call takes no pattern at all.
pub open spec fn takes_no_pattern(us: Seq<Unit>) -> bool {
    some_unit(us, |u: Unit| is_long(u, "files"@) || is_long(u, "type-list"@))
}

/// Whether plain ripgrep is asked for.
pub open spec fn asks_plain(us: Seq<Unit>) -> bool {
    some_unit(us, |u: Unit| is_long(u, "no-smart"@))
}

/// The command line of the capture run.
pub open spec fn capture(us: Seq<Unit>) -> Seq<Seq<char>> {
    gathered(us, |u: Unit| unit_capture(u))
}

/// What is known of a call.
#[verifier::ext_equal]
pub struct Invocation {
    pub pattern: Option<Seq<char>>,
    pub path: Seq<char>,
    pub file_type: Option<Seq<char>>,
    pub count: bool,
    pub files_with_matches: bool,
    pub pattern_less: bool,
    pub has_path: bool,
    pub reads_stdin: bool,
    pub paths: Seq<Seq<char>>,
    pub globs: Seq<Seq<char>>,
    pub unsupported: Option<Seq<char>>,
    pub no_smart: bool,
    pub shim_flag_indices: Seq<int>,
    pub line_numbers: Option<bool>,
    pub capture_argv: Seq<Seq<char>>,
}

/// The positional tokens that name what to search. Without a flag that gives the pattern, the
/// first positional token is the pattern and names nothing.
pub open spec fn named_targets(us: Seq<Unit>) -> Seq<Seq<char>> {
    if takes_no_pattern(us) || explicit_pattern(us) is Some || positionals(us).len() == 0 {
        positionals(us)
    } else {
        positionals(us).drop_first()
    }
}

/// The pattern of a call, if it has one.
pub open spec fn search_pattern(us: Seq<Unit>) -> Option<Seq<char>> {
    if takes_no_pattern(us) {
        None
    } else if explicit_pattern(us) is Some {
        explicit_pattern(us)
    } else if positionals(us).len() > 0 {
        Some(positionals(us)[0])
    } else {
        None
    }
}

/// The targets that are paths: all but `-`, which is standard input.
pub open spec fn real_paths(targets: Seq<Seq<char>>) -> Seq<Seq<char>>
    decreases targets.len(),
{
    if targets.len() == 0 {
        targets
    } else if targets.last() == seq!['-'] {
        real_paths(targets.drop_last())
    } else {
        real_paths(targets.drop_last()).push(targets.last())
    }
}

/// Why the call cannot be answered with ast-grep's help: a flag, or several patterns at once.
pub open spec fn obstacle(us: Seq<Unit>) -> Option<Seq<char>> {
    match first_obstacle(us) {
        Some(f) => Some(f),
        None => if source_count(us) > 1 {
            Some("-e (multiple patterns)"@)
        } else {
            None
        },
    }
}

/// What the units of a command line say of the call.
pub open spec fn described(us: Seq<Unit>) -> Invocation {
    let paths = real_paths(named_targets(us));
    Invocation {
        pattern: search_pattern(us),
        path: if paths.len() > 0 {
            paths[0]
        } else {
            seq!['.']
        },
        file_type: file_type(us),
        count: asks_count(us),
        files_with_matches: asks_files(us),
        pattern_less: takes_no_pattern(us),
        has_path: paths.len() > 0,
        reads_stdin: named_targets(us).contains(seq!['-']),
        paths,
        globs: globs(us),
        unsupported: obstacle(us),
        no_smart: asks_plain(us),
        shim_flag_indices: shim_positions(us),
        line_numbers: numbering(us),
        capture_argv: capture(us),
    }
}

/// What a command line says of the call.
pub open spec fn invocation(argv: Seq<Seq<char>>) -> Invocation {
    described(units(argv))
}

/// A ripgrep call, as far as the shim needs to know it.
#[derive(Debug, PartialEq)]
pub struct RgInvocation {
    /// The pattern; none where the call takes none or gives none.
    pub pattern: Option<String>,
    /// The first path; `.` where none is given.
    pub path: String,
    /// The file type asked for last.
    pub file_type: Option<String>,
    /// `-c`, `--count`.
    pub count: bool,
    /// `-l`, `--files-with-matches`.
    pub files_with_matches: bool,
    /// `--files`, `--type-list`: the call takes no pattern, every positional token is a path.
    pub pattern_less: bool,
    /// Whether a path is given.
    pub has_path: bool,
    /// Whether `-`, standard input, is among the targets.
    pub reads_stdin: bool,
    /// Every path, without `-`.
    pub paths: Vec<String>,
    /// The values of `-g` and `--glob`.
    pub globs: Vec<String>,
    /// The first thing asked for that ast-grep cannot honour.
    pub unsupported: Option<String>,
    /// `--no-smart`: plain ripgrep is asked for.
    pub no_smart: bool,
    /// Where the tokens stand that belong to the shim and not to ripgrep.
    pub shim_flag_indices: Vec<usize>,
    /// `-n` and `-N`, in long form too; none where neither is given.
    pub line_numbers: Option<bool>,
    /// The command line of the capture run, without `--json`.
    pub capture_argv: Vec<String>,
}

/// Positions as mathematical integers.
pub open spec fn positions(list: Seq<usize>) -> Seq<int> {
    Seq::new(list.len(), |i: int| list[i] as int)
}

impl View for RgInvocation {
    type V = Invocation;

    open spec fn view(&self) -> Invocation {
        Invocation {
            pattern: text::text_of(self.pattern),
            path: self.path@,
            file_type: text::text_of(self.file_type),
            count: self.count,
            files_with_matches: self.files_with_matches,
            pattern_less: self.pattern_less,
            has_path: self.has_path,
            reads_stdin: self.reads_stdin,
            paths: text::texts(self.paths@),
            globs: text::texts(self.globs@),
            unsupported: text::text_of(self.unsupported),
            no_smart: self.no_smart,
            shim_flag_indices: positions(self.shim_flag_indices@),
            line_numbers: self.line_numbers,
            capture_argv: text::texts(self.capture_argv@),
        }
    }
}

/// Units added behind others say their own after them.
proof fn lemma_push(us: Seq<Unit>, u: Unit)
    ensures
        us.push(u).drop_last() == us,
        us.push(u).last() == u,
        forall|p: spec_fn(Unit) -> bool| #[trigger]
            some_unit(us.push(u), p) == (some_unit(us, p) || p(u)),
{
    assert(us.push(u).drop_last() =~= us);
    assert forall|p: spec_fn(Unit) -> bool| #[trigger]
        some_unit(us.push(u), p) == (some_unit(us, p) || p(u)) by {
        let more = us.push(u);
        if some_unit(us, p) {
            let i = choose|i: int| 0 <= i < us.len() && p(#[trigger] us[i]);
            assert(p(more[i]));
        }
        if p(u) {
            assert(p(more[us.len() as int]));
        }
        if some_unit(more, p) {
            let i = choose|i: int| 0 <= i < more.len() && p(#[trigger] more[i]);
            if i < us.len() {
                assert(p(us[i]));
            }
        }
    }
}

/// No more units give a pattern than there are units.
proof fn lemma_sources(us: Seq<Unit>)
    ensures
        source_count(us) <= us.len(),
    decreases us.len(),
{
    if us.len() > 0 {
        lemma_sources(us.drop_last());
    }
}

/// The units read so far, as far as they tell.
struct Walk {
    inv: RgInvocation,
    positionals: Vec<String>,
    explicit: Option<String>,
    sources: usize,
}

impl Walk {
    /// Whether what was noted is what the units say.
    spec fn notes(self, us: Seq<Unit>) -> bool {
        &&& text::texts(self.positionals@) == positionals(us)
        &&& text::text_of(self.explicit) == explicit_pattern(us)
        &&& self.sources == source_count(us)
        &&& text::text_of(self.inv.file_type) == file_type(us)
        &&& text::texts(self.inv.globs@) == globs(us)
        &&& self.inv.line_numbers == numbering(us)
        &&& text::text_of(self.inv.unsupported) == first_obstacle(us)
        &&& self.inv.count == asks_count(us)
        &&& self.inv.files_with_matches == asks_files(us)
        &&& self.inv.pattern_less == takes_no_pattern(us)
        &&& self.inv.no_smart == asks_plain(us)
        &&& positions(self.inv.shim_flag_indices@) == shim_positions(us)
        &&& text::texts(self.inv.capture_argv@) == capture(us)
    }

    fn start() -> (w: Walk)
        ensures
            w.notes(Seq::empty()),
    {
        let w = Walk {
            inv: RgInvocation {
                pattern: None,
                path: String::new(),
                file_type: None,
                count: false,
                files_with_matches: false,
                pattern_less: false,
                has_path: false,
                reads_stdin: false,
                paths: Vec::new(),
                globs: Vec::new(),
                unsupported: None,
                no_smart: false,
                shim_flag_indices: Vec::new(),
                line_numbers: None,
                capture_argv: Vec::new(),
            },
            positionals: Vec::new(),
            explicit: None,
            sources: 0,
        };
        assert(text::texts(w.positionals@) =~= positionals(Seq::empty()));
        assert(text::texts(w.inv.globs@) =~= globs(Seq::empty()));
        assert(text::texts(w.inv.capture_argv@) =~= capture(Seq::empty()));
        assert(positions(w.inv.shim_flag_indices@) =~= shim_positions(Seq::empty()));
        w
    }

    /// Notes a positional token.
    fn positional(&mut self, token: &String, us: Ghost<Seq<Unit>>)
        requires
            old(self).notes(us@),
        ensures
            final(self).notes(us@.push(Unit::Positional { token: token@ })),
    {
        let ghost u = Unit::Positional { token: token@ };
        proof {
            lemma_push(us@, u);
            assert(letters(u) =~= Seq::<char>::empty());
        }
        self.positionals.push(token.clone());
        self.inv.capture_argv.push(token.clone());
        proof {
            assert(text::texts(self.positionals@) =~= positionals(us@) + unit_positionals(u));
            assert(text::texts(self.inv.capture_argv@) =~= capture(us@) + unit_capture(u));
            assert(globs(us@) + unit_globs(u) =~= globs(us@));
        }
    }

    /// Notes `--` and the tokens from `from` on.
    fn rest(&mut self, args: &[String], from: usize, us: Ghost<Seq<Unit>>)
        requires
            old(self).notes(us@),
            from <= args@.len(),
        ensures
            final(self).notes(
                us@.push(Unit::Rest { tokens: text::texts(args@).skip(from as int) }),
            ),
    {
        let ghost argv = text::texts(args@);
        let ghost u = Unit::Rest { tokens: argv.skip(from as int) };
        proof {
            lemma_push(us@, u);
            assert(letters(u) =~= Seq::<char>::empty());
        }
        let mut i: usize = from;
        self.inv.capture_argv.push("--".to_string());
        proof {
            reveal_strlit("--");
            assert("--"@ =~= seq!['-', '-']);
            assert(text::texts(self.inv.capture_argv@) =~= capture(us@).push(seq!['-', '-']));
            assert(argv.subrange(from as int, from as int) =~= Seq::empty());
        }
        let ghost noted = *self;
        while i < args.len()
            invariant
                from <= i <= args@.len(),
                argv == text::texts(args@),
                text::texts(self.positionals@) =~= positionals(us@) + argv.subrange(
                    from as int,
                    i as int,
                ),
                text::texts(self.inv.capture_argv@) =~= capture(us@).push(seq!['-', '-'])
                    + argv.subrange(from as int, i as int),
                self.explicit == noted.explicit,
                self.sources == noted.sources,
                (RgInvocation { capture_argv: noted.inv.capture_argv, ..self.inv }) == noted.inv,
            decreases args@.len() - i,
        {
            let ghost had = text::texts(self.positionals@);
            let ghost had_argv = text::texts(self.inv.capture_argv@);
            self.positionals.push(args[i].clone());
            self.inv.capture_argv.push(args[i].clone());
            assert(text::texts(self.positionals@) =~= had.push(argv[i as int]));
            assert(text::texts(self.inv.capture_argv@) =~= had_argv.push(argv[i as int]));
            i += 1;
        }
        proof {
            assert(argv.subrange(from as int, i as int) =~= argv.skip(from as int));
            assert(text::texts(self.positionals@) =~= positionals(us@) + unit_positionals(u));
            assert(text::texts(self.inv.capture_argv@) =~= capture(us@) + unit_capture(u));
            assert(globs(us@) + unit_globs(u) =~= globs(us@));
        }
    }

    /// Notes what a long flag asks for that ast-grep cannot honour, and the pattern that it gives.
    fn long_pattern(&mut self, name: &str, value: &Option<String>)
        requires
            old(self).sources < usize::MAX,
        ensures
            ({
                let source = name@ == "regexp"@ || name@ == "file"@;
                let obstacle = if flags::name_denied(name@) {
                    Some(seq!['-', '-'] + name@)
                } else if name@ == "file"@ {
                    Some(dashed('f'))
                } else {
                    None
                };
                let before = *old(self);
                let after = *final(self);
                &&& after.sources == before.sources + if source {
                    1int
                } else {
                    0int
                }
                &&& text::text_of(after.explicit) == if before.explicit is None && source {
                    text::text_of(*value)
                } else {
                    text::text_of(before.explicit)
                }
                &&& text::text_of(after.inv.unsupported) == if before.inv.unsupported is None {
                    obstacle
                } else {
                    text::text_of(before.inv.unsupported)
                }
                &&& after.positionals == before.positionals
                &&& after.inv == RgInvocation {
                    unsupported: after.inv.unsupported,
                    ..before.inv
                }
            }),
    {
        if unsupported_long(name) && self.inv.unsupported.is_none() {
            let mut flag = String::new();
            flag.push('-');
            flag.push('-');
            flag.append(name);
            assert(flag@ =~= seq!['-', '-'] + name@);
            self.inv.unsupported = Some(flag);
        }
        let is_file = same_text(name, "file");
        if is_file || same_text(name, "regexp") {
            self.sources = self.sources + 1;
            if is_file && self.inv.unsupported.is_none() {
                self.inv.unsupported = Some(dashed_flag('f'));
            }
            if self.explicit.is_none() {
                self.explicit = value.clone();
            }
        }
    }

    /// Notes the settings that a long flag makes.
    fn long_settings(&mut self, name: &str, value: &Option<String>)
        ensures
            ({
                let before = *old(self);
                let after = *final(self);
                &&& text::text_of(after.inv.file_type) == if name@ == "type"@ && value is Some {
                    text::text_of(*value)
                } else {
                    text::text_of(before.inv.file_type)
                }
                &&& text::texts(after.inv.globs@) == if name@ == "glob"@ && value is Some {
                    text::texts(before.inv.globs@).push(value->0@)
                } else {
                    text::texts(before.inv.globs@)
                }
                &&& after.inv.count == (before.inv.count || name@ == "count"@)
                &&& after.inv.files_with_matches == (before.inv.files_with_matches || name@
                    == "files-with-matches"@)
                &&& after.inv.pattern_less == (before.inv.pattern_less || name@ == "files"@ || name@
                    == "type-list"@)
                &&& after.inv.line_numbers == if name@ == "no-line-number"@ {
                    Some(false)
                } else if name@ == "line-number"@ {
                    Some(true)
                } else {
                    before.inv.line_numbers
                }
                &&& after.sources == before.sources
                &&& after.explicit == before.explicit
                &&& after.positionals == before.positionals
                &&& after.inv == RgInvocation {
                    file_type: after.inv.file_type,
                    globs: after.inv.globs,
                    count: after.inv.count,
                    files_with_matches: after.inv.files_with_matches,
                    pattern_less: after.inv.pattern_less,
                    line_numbers: after.inv.line_numbers,
                    ..before.inv
                }
            }),
    {
        let ghost had_globs = text::texts(self.inv.globs@);
        if let Some(v) = value {
            if same_text(name, "type") {
                self.inv.file_type = Some(v.clone());
            }
            if same_text(name, "glob") {
                self.inv.globs.push(v.clone());
                assert(text::texts(self.inv.globs@) =~= had_globs.push(v@));
            }
        }
        self.inv.count = self.inv.count || same_text(name, "count");
        self.inv.files_with_matches = self.inv.files_with_matches || same_text(
            name,
            "files-with-matches",
        );
        self.inv.pattern_less = self.inv.pattern_less || same_text(name, "files") || same_text(
            name,
            "type-list",
        );
        if same_text(name, "line-number") {
            self.inv.line_numbers = Some(true);
        }
        if same_text(name, "no-line-number") {
            self.inv.line_numbers = Some(false);
        }
    }

    /// Notes the long flag that stands at `at` and its value. Returns where the next unit stands.
    fn long(&mut self, args: &[String], at: usize, us: Ghost<Seq<Unit>>) -> (next: usize)
        requires
            old(self).notes(us@),
            at < args@.len(),
            at == total_width(us@),
            us@.len() <= at,
            args@[at as int]@.len() > 2,
            args@[at as int]@[0] == '-',
            args@[at as int]@[1] == '-',
        ensures
            final(self).notes(us@.push(first_unit(text::texts(args@).skip(at as int)))),
            next == at + width(first_unit(text::texts(args@).skip(at as int))),
    {
        let total: usize = args.len();
        assert(at < total);
        let (name, value, spans) = read_long(args, at);
        let ghost u = first_unit(text::texts(args@).skip(at as int));
        proof {
            lemma_push(us@, u);
            lemma_sources(us@);
            assert(letters(u) =~= Seq::<char>::empty());
        }
        self.long_pattern(name.as_str(), &value);
        self.long_settings(name.as_str(), &value);
        let ghost had_shim = positions(self.inv.shim_flag_indices@);
        let ghost had_argv = text::texts(self.inv.capture_argv@);
        let is_shim = same_text(name.as_str(), "no-smart");
        if is_shim {
            self.inv.no_smart = true;
            self.inv.shim_flag_indices.push(at);
            assert(positions(self.inv.shim_flag_indices@) =~= had_shim.push(at as int));
        }
        if !is_output_mode_long(name.as_str()) && !is_shim {
            self.inv.capture_argv.push(args[at].clone());
            assert(text::texts(self.inv.capture_argv@) =~= had_argv.push(args@[at as int]@));
            if spans {
                self.inv.capture_argv.push(args[at + 1].clone());
                assert(text::texts(self.inv.capture_argv@) =~= had_argv.push(
                    args@[at as int]@,
                ).push(args@[at + 1]@));
            }
        }
        assert(text::texts(self.inv.globs@) =~= globs(us@) + unit_globs(u));
        assert(text::texts(self.inv.capture_argv@) =~= capture(us@) + unit_capture(u));
        assert(positionals(us@) + unit_positionals(u) =~= positionals(us@));
        if spans {
            at + 2
        } else {
            at + 1
        }
    }

    /// Notes what the letters of a bundle ask for.
    fn short_letters(&mut self, chars: &Vec<char>, end: usize)
        requires
            1 <= end <= chars@.len(),
        ensures
            ({
                let before = *old(self);
                let after = *final(self);
                let ls = chars@.subrange(1, end as int);
                &&& text::text_of(after.inv.unsupported) == if before.inv.unsupported is None {
                    letters_obstacle(ls)
                } else {
                    text::text_of(before.inv.unsupported)
                }
                &&& after.inv.count == (before.inv.count || ls.contains('c'))
                &&& after.inv.files_with_matches == (before.inv.files_with_matches || ls.contains(
                    'l',
                ))
                &&& after.inv.line_numbers == match letters_numbering(ls) {
                    Some(b) => Some(b),
                    None => before.inv.line_numbers,
                }
                &&& after.sources == before.sources
                &&& after.explicit == before.explicit
                &&& after.positionals == before.positionals
                &&& after.inv == RgInvocation {
                    unsupported: after.inv.unsupported,
                    count: after.inv.count,
                    files_with_matches: after.inv.files_with_matches,
                    line_numbers: after.inv.line_numbers,
                    ..before.inv
                }
            }),
    {
        let mut i: usize = 1;
        let ghost before = *self;
        while i < end
            invariant
                1 <= i <= end <= chars@.len(),
                text::text_of(self.inv.unsupported) == if before.inv.unsupported is None {
                    letters_obstacle(chars@.subrange(1, i as int))
                } else {
                    text::text_of(before.inv.unsupported)
                },
                self.inv.count == (before.inv.count || chars@.subrange(1, i as int).contains('c')),
                self.inv.files_with_matches == (before.inv.files_with_matches || chars@.subrange(
                    1,
                    i as int,
                ).contains('l')),
                self.inv.line_numbers == match letters_numbering(chars@.subrange(1, i as int)) {
                    Some(b) => Some(b),
                    None => before.inv.line_numbers,
                },
                self.sources == before.sources,
                self.explicit == before.explicit,
                self.positionals == before.positionals,
                self.inv == (RgInvocation {
                    unsupported: self.inv.unsupported,
                    count: self.inv.count,
                    files_with_matches: self.inv.files_with_matches,
                    line_numbers: self.inv.line_numbers,
                    ..before.inv
                }),
            decreases end - i,
        {
            let c: char = chars[i];
            let ghost seen = chars@.subrange(1, i as int);
            let ghost more = chars@.subrange(1, i + 1);
            proof {
                assert(more =~= seen.push(c));
                assert(more.drop_last() =~= seen);
                text::lemma_contains_last(more, 'c');
                text::lemma_contains_last(more, 'l');
            }
            if (unsupported_short(c) || c == 'f') && self.inv.unsupported.is_none() {
                self.inv.unsupported = Some(dashed_flag(c));
            }
            self.inv.count = self.inv.count || c == 'c';
            self.inv.files_with_matches = self.inv.files_with_matches || c == 'l';
            if c == 'n' {
                self.inv.line_numbers = Some(true);
            }
            if c == 'N' {
                self.inv.line_numbers = Some(false);
            }
            i += 1;
        }
    }

    /// Notes the value of a short flag.
    fn short_value(&mut self, c: char, value: String)
        requires
            old(self).sources < usize::MAX,
        ensures
            ({
                let before = *old(self);
                let after = *final(self);
                let source = c == 'e' || c == 'f';
                &&& after.sources == before.sources + if source {
                    1int
                } else {
                    0int
                }
                &&& text::text_of(after.explicit) == if before.explicit is None && source {
                    Some(value@)
                } else {
                    text::text_of(before.explicit)
                }
                &&& text::text_of(after.inv.file_type) == if c == 't' {
                    Some(value@)
                } else {
                    text::text_of(before.inv.file_type)
                }
                &&& text::texts(after.inv.globs@) == if c == 'g' {
                    text::texts(before.inv.globs@).push(value@)
                } else {
                    text::texts(before.inv.globs@)
                }
                &&& after.positionals == before.positionals
                &&& after.inv == RgInvocation {
                    file_type: after.inv.file_type,
                    globs: after.inv.globs,
                    ..before.inv
                }
            }),
    {
        let ghost had_globs = text::texts(self.inv.globs@);
        if c == 'e' || c == 'f' {
            self.sources = self.sources + 1;
            if self.explicit.is_none() {
                self.explicit = Some(value);
            }
        } else if c == 't' {
            self.inv.file_type = Some(value);
        } else if c == 'g' {
            self.inv.globs.push(value);
            assert(text::texts(self.inv.globs@) =~= had_globs.push(value@));
        }
    }

    /// Notes the bundle that stands at `at` and the value of its last flag. Returns where the next
    /// unit stands.
    fn short(&mut self, args: &[String], at: usize, us: Ghost<Seq<Unit>>) -> (next: usize)
        requires
            old(self).notes(us@),
            at < args@.len(),
            at == total_width(us@),
            us@.len() <= at,
            args@[at as int]@.len() >= 2,
            args@[at as int]@[0] == '-',
            args@[at as int]@[1] != '-',
        ensures
            final(self).notes(us@.push(first_unit(text::texts(args@).skip(at as int)))),
            next == at + width(first_unit(text::texts(args@).skip(at as int))),
    {
        let total: usize = args.len();
        assert(at < total);
        let ghost left = text::texts(args@).skip(at as int);
        let ghost u = first_unit(left);
        let chars: Vec<char> = chars_of(args[at].as_str());
        let ghost body = chars@.skip(1);
        let n: usize = switches_end(&chars);
        let mut spans = false;
        proof {
            assert(left[0] == args@[at as int]@);
            assert(at + 1 < args@.len() ==> left[1] == args@[at + 1]@);
            lemma_push(us@, u);
            lemma_sources(us@);
        }
        if n == chars.len() {
            assert(letters(u) =~= chars@.subrange(1, n as int));
            self.short_letters(&chars, n);
        } else {
            assert(letters(u) =~= chars@.subrange(1, n + 1));
            self.short_letters(&chars, n + 1);
            let value: String = if n + 1 < chars.len() {
                string_between(&chars, n + 1, chars.len())
            } else if at + 1 < total {
                spans = true;
                args[at + 1].clone()
            } else {
                String::new()
            };
            assert(n + 1 < chars@.len() ==> value@ =~= body.skip(n - 1 + 1));
            assert(u->flag == Some((chars@[n as int], value@)));
            self.short_value(chars[n], value);
        }
        assert(text::texts(self.inv.globs@) =~= globs(us@) + unit_globs(u));
        let ghost had_argv = text::texts(self.inv.capture_argv@);
        if let Some(t) = rewrite_short_token(args[at].as_str()) {
            self.inv.capture_argv.push(t);
            assert(text::texts(self.inv.capture_argv@) =~= had_argv.push(t@));
            if spans {
                self.inv.capture_argv.push(args[at + 1].clone());
                assert(text::texts(self.inv.capture_argv@) =~= had_argv.push(t@).push(
                    args@[at + 1]@,
                ));
            }
        }
        assert(text::texts(self.inv.capture_argv@) =~= capture(us@) + unit_capture(u));
        assert(positionals(us@) + unit_positionals(u) =~= positionals(us@));
        if spans {
            at + 2
        } else {
            at + 1
        }
    }

    /// What is known of the call, once every unit is noted.
    fn finish(self, us: Ghost<Seq<Unit>>) -> (inv: RgInvocation)
        requires
            self.notes(us@),
        ensures
            inv@ == described(us@),
    {
        let mut inv = self.inv;
        let mut from: usize = 0;
        let ghost all = text::texts(self.positionals@);
        assert(all.skip(0) =~= all);
        if self.sources > 1 && inv.unsupported.is_none() {
            inv.unsupported = Some("-e (multiple patterns)".to_string());
        }
        inv.pattern = None;
        if !inv.pattern_less {
            if self.explicit.is_some() {
                inv.pattern = self.explicit;
            } else if self.positionals.len() > 0 {
                inv.pattern = Some(self.positionals[0].clone());
                from = 1;
                assert(all.skip(1) =~= all.drop_first());
            }
        }
        let ghost targets = named_targets(us@);
        assert(targets == all.skip(from as int));
        let mut i: usize = from;
        let mut reads_stdin = false;
        let mut paths: Vec<String> = Vec::new();
        assert(targets.take(0) =~= Seq::<Seq<char>>::empty());
        while i < self.positionals.len()
            invariant
                from <= i <= self.positionals@.len(),
                all == text::texts(self.positionals@),
                targets == all.skip(from as int),
                text::texts(paths@) =~= real_paths(targets.take(i - from)),
                reads_stdin == targets.take(i - from).contains(seq!['-']),
            decreases self.positionals@.len() - i,
        {
            let ghost seen = targets.take(i - from);
            let ghost more = targets.take(i - from + 1);
            let ghost had = text::texts(paths@);
            proof {
                assert(more.drop_last() =~= seen);
                assert(more.last() == all[i as int]);
                reveal_strlit("-");
                assert("-"@ =~= seq!['-']);
            }
            if same_text(self.positionals[i].as_str(), "-") {
                reads_stdin = true;
                assert(more[i - from] == seq!['-']);
            } else {
                paths.push(self.positionals[i].clone());
                assert(text::texts(paths@) =~= had.push(all[i as int]));
                proof {
                    if more.contains(seq!['-']) {
                        let k = choose|k: int| 0 <= k < more.len() && more[k] == seq!['-'];
                        assert(seen[k] == seq!['-']);
                    }
                }
            }
            proof {
                if seen.contains(seq!['-']) {
                    let k = choose|k: int| 0 <= k < seen.len() && seen[k] == seq!['-'];
                    assert(more[k] == seq!['-']);
                }
            }
            i += 1;
        }
        assert(targets.take(i - from) =~= targets);
        inv.reads_stdin = reads_stdin;
        inv.has_path = paths.len() > 0;
        inv.path = if paths.len() > 0 {
            paths[0].clone()
        } else {
            ".".to_string()
        };
        inv.paths = paths;
        proof {
            reveal_strlit(".");
            assert("."@ =~= seq!['.']);
        }
        inv
    }
}

/// The switches end at the first letter that takes a value.
proof fn lemma_switch_len(s: Seq<char>, n: int)
    requires
        0 <= n <= s.len(),
        n < s.len() ==> flags::letter_takes_value(s[n]),
        forall|j: int| 0 <= j < n ==> !flags::letter_takes_value(#[trigger] s[j]),
    ensures
        switch_len(s) == n,
    decreases n,
{
    if n > 0 {
        let t = s.drop_first();
        assert(!flags::letter_takes_value(s[0]));
        assert forall|j: int| 0 <= j < n - 1 implies !flags::letter_takes_value(
            #[trigger] t[j],
        ) by {
            assert(t[j] == s[j + 1]);
        }
        lemma_switch_len(t, n - 1);
    }
}

/// Where the switches of a bundle end.
fn switches_end(chars: &Vec<char>) -> (n: usize)
    requires
        chars@.len() >= 1,
    ensures
        1 <= n <= chars@.len(),
        n == 1 + switch_len(chars@.skip(1)),
{
    let mut n: usize = 1;
    while n < chars.len() && !short_takes_value(chars[n])
        invariant
            1 <= n <= chars@.len(),
            forall|j: int| 1 <= j < n ==> !flags::letter_takes_value(#[trigger] chars@[j]),
        decreases chars@.len() - n,
    {
        n += 1;
    }
    proof {
        let body = chars@.skip(1);
        assert forall|j: int| 0 <= j < n - 1 implies !flags::letter_takes_value(
            #[trigger] body[j],
        ) by {
            assert(body[j] == chars@[j + 1]);
        }
        lemma_switch_len(body, n - 1);
    }
    n
}

/// Rewrites a bundle of short flags for the capture run: the switches that choose how matches are
/// printed go, everything else stays. `None` where nothing is left.
///
/// The scan stops at the first letter that takes a value, because the rest of the token is that
/// value: `-tcpp` must never become `-tpp`.
pub fn rewrite_short_token(token: &str) -> (r: Option<String>)
    ensures
        text::text_of(r) == without_output_modes(token@),
{
    let chars: Vec<char> = chars_of(token);
    if chars.len() == 0 {
        return None;
    }
    let ghost body = chars@.skip(1);
    let n: usize = switches_end(&chars);
    let mut kept: Vec<char> = Vec::new();
    kept.push('-');
    let mut i: usize = 1;
    assert(body.take(0) =~= Seq::<char>::empty());
    while i < n
        invariant
            1 <= i <= n <= chars@.len(),
            body == chars@.skip(1),
            kept@ =~= seq!['-'] + without_modes(body.take(i - 1)),
        decreases n - i,
    {
        let ghost more = body.take(i as int);
        assert(more.drop_last() =~= body.take(i - 1));
        assert(more.last() == chars@[i as int]);
        if !is_output_mode_short(chars[i]) {
            kept.push(chars[i]);
        }
        i += 1;
    }
    let ghost switches = without_modes(body.take(n - 1));
    assert(body.subrange(n - 1, n - 1) =~= Seq::<char>::empty());
    while i < chars.len()
        invariant
            1 <= n <= i <= chars@.len(),
            body == chars@.skip(1),
            kept@ =~= seq!['-'] + switches + body.subrange(n - 1, i - 1),
        decreases chars@.len() - i,
    {
        kept.push(chars[i]);
        assert(body.subrange(n - 1, i as int) =~= body.subrange(n - 1, i - 1).push(
            chars@[i as int],
        ));
        i += 1;
    }
    assert(body.subrange(n - 1, i - 1) =~= body.skip(n - 1));
    assert(kept@ =~= seq!['-'] + (switches + body.skip(n - 1)));
    if kept.len() == 1 {
        None
    } else {
        Some(string_of(&kept))
    }
}

/// A short flag as it is written.
fn dashed_flag(c: char) -> (r: String)
    ensures
        r@ == dashed(c),
{
    let mut flag = String::new();
    flag.push('-');
    flag.push(c);
    assert(flag@ =~= dashed(c));
    flag
}

/// Reads the long flag that stands at `at`: its name, its value, and whether the value is the next
/// token.
fn read_long(args: &[String], at: usize) -> (r: (String, Option<String>, bool))
    requires
        at < args@.len(),
        args@[at as int]@.len() > 2,
        args@[at as int]@[0] == '-',
        args@[at as int]@[1] == '-',
    ensures
        first_unit(text::texts(args@).skip(at as int)) == (Unit::Long {
            token: args@[at as int]@,
            name: r.0@,
            value: text::text_of(r.1),
            spans: r.2,
        }),
        r.2 ==> at + 1 < args@.len() && text::text_of(r.1) == Some(args@[at + 1]@),
{
    let ghost left = text::texts(args@).skip(at as int);
    assert(left[0] == args@[at as int]@);
    assert(at + 1 < args@.len() ==> left[1] == args@[at + 1]@);
    let chars: Vec<char> = chars_of(args[at].as_str());
    let eq: usize = find_from(&chars, 2, '=');
    let name: String = string_between(&chars, 2, eq);
    let ghost body = chars@.skip(2);
    assert(name@ =~= body.take(eq - 2));
    if eq < chars.len() {
        let value: String = string_between(&chars, eq + 1, chars.len());
        assert(value@ =~= body.skip(eq - 2 + 1));
        (name, Some(value), false)
    } else if long_takes_value(name.as_str()) && at + 1 < args.len() {
        (name, Some(args[at + 1].clone()), true)
    } else {
        (name, None, false)
    }
}

/// The tokens at the places that are not listed.
pub open spec fn unlisted(argv: Seq<Seq<char>>, listed: Seq<int>) -> Seq<Seq<char>>
    decreases argv.len(),
{
    if argv.len() == 0 {
        argv
    } else if listed.contains(argv.len() - 1) {
        unlisted(argv.drop_last(), listed)
    } else {
        unlisted(argv.drop_last(), listed).push(argv.last())
    }
}

/// Reads a ripgrep command line, without the program's name.
pub fn parse_rg_invocation(args: &[String]) -> (inv: RgInvocation)
    ensures
        inv@ == invocation(text::texts(args@)),
{
    let ghost argv = text::texts(args@);
    let ghost mut us: Seq<Unit> = Seq::empty();
    let mut walk = Walk::start();
    let mut i: usize = 0;
    assert(argv.skip(0) =~= argv);
    assert(us + units(argv) =~= units(argv));
    while i < args.len()
        invariant
            argv == text::texts(args@),
            i <= args@.len(),
            i == total_width(us),
            us.len() <= i,
            us + units(argv.skip(i as int)) == units(argv),
            walk.notes(us),
        decreases args@.len() - i,
    {
        let ghost left = argv.skip(i as int);
        let ghost u = first_unit(left);
        assert(left[0] == args@[i as int]@);
        let token = &args[i];
        let start = leading_dashes(token.as_str());
        let next: usize = if start == Dashes::Alone {
            walk.rest(args, i + 1, Ghost(us));
            assert(left.skip(1) =~= argv.skip(i + 1));
            args.len()
        } else if start == Dashes::Two {
            walk.long(args, i, Ghost(us))
        } else if start == Dashes::One {
            walk.short(args, i, Ghost(us))
        } else {
            walk.positional(token, Ghost(us));
            i + 1
        };
        proof {
            lemma_push(us, u);
            assert(left.skip(width(u) as int) =~= argv.skip(next as int));
            assert(us.push(u) + units(argv.skip(next as int)) =~= us + units(left));
            us = us.push(u);
        }
        i = next;
    }
    proof {
        assert(argv.skip(i as int) =~= Seq::empty());
        assert(us =~= units(argv));
    }
    walk.finish(Ghost(us))
}

/// Whether the call filters a stream: it names no path and standard input is no terminal. ast-grep
/// searches files only.
pub fn is_stream_filter(has_path: bool, stdin_is_tty: bool) -> (r: bool)
    ensures
        r == (!has_path && !stdin_is_tty),
{
    !has_path && !stdin_is_tty
}

/// The command line without the tokens that belong to the shim, which stand at `shim_indices`.
pub fn strip_shim_flags(args: &[String], shim_indices: &[usize]) -> (r: Vec<String>)
    ensures
        text::texts(r@) == unlisted(text::texts(args@), positions(shim_indices@)),
{
    let ghost argv = text::texts(args@);
    let ghost listed = positions(shim_indices@);
    let mut out: Vec<String> = Vec::new();
    let mut i: usize = 0;
    while i < args.len()
        invariant
            argv == text::texts(args@),
            listed == positions(shim_indices@),
            i <= args@.len(),
            text::texts(out@) =~= unlisted(argv.take(i as int), listed),
        decreases args@.len() - i,
    {
        assert(argv.take(i + 1).drop_last() =~= argv.take(i as int));
        let ghost had = text::texts(out@);
        if !is_listed(shim_indices, i) {
            out.push(args[i].clone());
            assert(text::texts(out@) =~= had.push(argv[i as int]));
        }
        i += 1;
    }
    assert(argv.take(i as int) =~= argv);
    out
}

/// Whether a position is listed.
fn is_listed(list: &[usize], n: usize) -> (r: bool)
    ensures
        r == positions(list@).contains(n as int),
{
    let mut i: usize = 0;
    while i < list.len()
        invariant
            i <= list@.len(),
            forall|j: int| 0 <= j < i ==> list@[j] != n,
        decreases list@.len() - i,
    {
        if list[i] == n {
            assert(positions(list@)[i as int] == n);
            return true;
        }
        i += 1;
    }
    assert forall|j: int| 0 <= j < positions(list@).len() implies positions(list@)[j] != n by {
        assert(list@[j] != n);
    }
    false
}

/// The command line of the capture run: `--json` before what the parse left of the caller's own.
pub fn capture_command_args(capture_argv: &[String]) -> (r: Vec<String>)
    ensures
        text::texts(r@) == seq!["--json"@] + text::texts(capture_argv@),
{
    let mut out: Vec<String> = Vec::new();
    out.push("--json".to_string());
    let mut rest: Vec<String> = copy_strings(capture_argv);
    let ghost copied = rest@;
    out.append(&mut rest);
    assert(text::texts(out@) =~= seq!["--json"@] + text::texts(copied));
    out
}

/// How a token begins.
#[derive(PartialEq, Eq, Structural)]
enum Dashes {
    /// No flag: no dash, or a dash alone.
    Absent,
    /// A dash and something behind it.
    One,
    /// Two dashes and something behind them.
    Two,
    /// Two dashes alone.
    Alone,
}

fn leading_dashes(token: &str) -> (r: Dashes)
    ensures
        ({
            let one = token@.len() >= 2 && token@[0] == '-';
            let two = one && token@[1] == '-';
            r == if two && token@.len() == 2 {
                Dashes::Alone
            } else if two {
                Dashes::Two
            } else if one {
                Dashes::One
            } else {
                Dashes::Absent
            }
        }),
{
    let chars: Vec<char> = chars_of(token);
    if chars.len() < 2 || chars[0] != '-' {
        Dashes::Absent
    } else if chars[1] != '-' {
        Dashes::One
    } else if chars.len() == 2 {
        Dashes::Alone
    } else {
        Dashes::Two
    }
}

} // verus!
