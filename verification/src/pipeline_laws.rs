//! What holds of every search.

use crate::args;
use crate::args_laws;
use crate::filter;
use crate::filter_laws;
use crate::found::{Captured, Hit, Node};
use crate::lang;
use crate::layout;
use crate::order;
use crate::paths;
use crate::pattern;
use crate::pipeline;
use crate::pipeline::{After, End, Entry, Next, Route};
use crate::render;
use crate::render::OutputMode;
use crate::render_laws;
use crate::text;
use vstd::prelude::*;

verus! {

/// Matches are never printed as nothing.
pub proof fn matches_are_printed(hits: Seq<Hit>, mode: OutputMode)
    requires
        hits.len() > 0,
    ensures
        text::concat(render::output_lines(hits, mode)).len() > 0,
{
    let lines = render::output_lines(hits, mode);
    reveal_strlit("\n");
    assert("\n"@.len() == 1);
    let files = render::files_of(hits);
    assert(files.contains(files[0]));
    order::sorted_is_sorted(files);
    assert(order::sorted(files).contains(files[0]));
    render_laws::ordering_keeps_every_match(hits);
    assert(lines.len() > 0);
    assert(lines.last().len() > 0);
}

/// An answer with ast-grep's help is never empty where ripgrep found something: where ast-grep
/// confirms no match, ripgrep's matches are printed, and the exit code says that something matched.
pub proof fn an_answer_is_never_empty(
    pattern: Seq<char>,
    sg_pattern: Seq<char>,
    hits: Seq<Hit>,
    nodes: Seq<Node>,
    files: Set<Seq<char>>,
    langs: Seq<Seq<char>>,
    mode: OutputMode,
)
    requires
        hits.len() > 0,
    ensures
        ({
            let end = pipeline::concluded(pattern, sg_pattern, hits, nodes, files, langs, mode);
            end.output.len() > 0 && end.code == 0
        }),
{
    filter_laws::every_match_is_shown_or_counted(hits, nodes, files);
    matches_are_printed(hits, mode);
    let shown = filter::kept(hits, nodes, files);
    if filter::confirmed_count(hits, nodes, files) > 0 {
        matches_are_printed(shown, mode);
    }
}

/// A match is never hidden in silence: where fewer matches are printed than ripgrep found, a notice
/// says how many are missing.
pub proof fn hidden_matches_are_announced(
    pattern: Seq<char>,
    sg_pattern: Seq<char>,
    hits: Seq<Hit>,
    nodes: Seq<Node>,
    files: Set<Seq<char>>,
    langs: Seq<Seq<char>>,
    mode: OutputMode,
)
    ensures
        ({
            let end = pipeline::concluded(pattern, sg_pattern, hits, nodes, files, langs, mode);
            exists|printed: Seq<Hit>|
                {
                    &&& end.output == text::concat(#[trigger] render::output_lines(printed, mode))
                    &&& printed == hits || printed == filter::kept(hits, nodes, files)
                    &&& end.notice == if printed.len() < hits.len() {
                        Some(pipeline::hidden_notice((hits.len() - printed.len()) as nat))
                    } else {
                        None
                    }
                }
        }),
{
    filter_laws::every_match_is_shown_or_counted(hits, nodes, files);
    let end = pipeline::concluded(pattern, sg_pattern, hits, nodes, files, langs, mode);
    let printed = if filter::confirmed_count(hits, nodes, files) == 0 {
        hits
    } else {
        filter::kept(hits, nodes, files)
    };
    assert(end.output == text::concat(render::output_lines(printed, mode)));
}

/// A search ends right after the capture run either with all of ripgrep's matches printed, or
/// because there is none.
pub proof fn an_early_end_hides_nothing(pattern: Seq<char>, captured: Captured, mode: OutputMode)
    ensures
        match pipeline::after(pattern, captured, mode) {
            After::Stop(end) => match captured {
                Captured::OverCap(hits) => end.code == 0 && end.output == text::concat(
                    render::output_lines(hits, mode),
                ),
                Captured::Matches(hits) => if hits.len() == 0 {
                    end.code == 1 && end.output.len() == 0
                } else {
                    end.code == 0 && end.output == text::concat(render::output_lines(hits, mode))
                },
                _ => false,
            },
            _ => true,
        },
{
}

/// The files with a match among those shown are among the files with a match at all.
proof fn lemma_shown_paths(
    hits: Seq<Hit>,
    nodes: Seq<Node>,
    files: Set<Seq<char>>,
    path: Seq<char>,
)
    requires
        pipeline::searched_paths(filter::kept(hits, nodes, files), files).contains(path),
    ensures
        pipeline::searched_paths(hits, files).contains(path),
    decreases hits.len(),
{
    if hits.len() > 0 {
        let shorter = hits.drop_last();
        let h = hits.last();
        let before = filter::kept(shorter, nodes, files);
        let now = filter::kept(hits, nodes, files);
        let listed = pipeline::searched_paths(shorter, files);
        if filter::shown(h, nodes, files) {
            assert(now.drop_last() =~= before);
            assert(now.last() == h);
            if filter::searched(h, files) {
                let shown = pipeline::searched_paths(before, files);
                assert(shown.push(paths::normal(h.file)).drop_last() =~= shown);
                text::lemma_contains_last(shown.push(paths::normal(h.file)), path);
            }
        }
        if pipeline::searched_paths(before, files).contains(path) {
            lemma_shown_paths(shorter, nodes, files, path);
        }
        if filter::searched(h, files) {
            assert(listed.push(paths::normal(h.file)).drop_last() =~= listed);
            text::lemma_contains_last(listed.push(paths::normal(h.file)), path);
        }
    }
}

/// A sorted list is at least as long as one with fewer texts.
proof fn lemma_fewer(a: Seq<Seq<char>>, b: Seq<Seq<char>>)
    requires
        order::increasing(a),
        order::increasing(b),
        forall|s: Seq<char>| #[trigger] a.contains(s) ==> b.contains(s),
    ensures
        a.len() <= b.len(),
{
    lemma_no_duplicates(a);
    lemma_no_duplicates(b);
    a.unique_seq_to_set();
    b.unique_seq_to_set();
    assert(a.to_set().subset_of(b.to_set())) by {
        assert forall|s: Seq<char>| a.to_set().contains(s) implies b.to_set().contains(s) by {
            assert(a.contains(s));
        }
    }
    vstd::set_lib::lemma_len_subset(a.to_set(), b.to_set());
}

proof fn lemma_no_duplicates(a: Seq<Seq<char>>)
    requires
        order::increasing(a),
    ensures
        a.no_duplicates(),
{
    assert forall|i: int, j: int| 0 <= i < a.len() && 0 <= j < a.len() && i != j implies a[i]
        != a[j] by {
        order::less_irreflexive(a[i]);
        if i < j {
            assert(order::less(a[i], a[j]));
        } else {
            assert(order::less(a[j], a[i]));
        }
    }
}

/// ast-grep is never credited with more than ripgrep found: neither with more matches, nor with
/// more files.
pub proof fn figures_never_exceed_ripgreps(
    pattern: Seq<char>,
    sg_pattern: Seq<char>,
    hits: Seq<Hit>,
    nodes: Seq<Node>,
    files: Set<Seq<char>>,
    langs: Seq<Seq<char>>,
    mode: OutputMode,
)
    ensures
        match pipeline::concluded(pattern, sg_pattern, hits, nodes, files, langs, mode).figures {
            Some(f) => 0 < f.ag_matches <= f.rg_results <= hits.len() && f.ag_files <= f.rg_files,
            None => true,
        },
{
    filter_laws::every_match_is_shown_or_counted(hits, nodes, files);
    let shown = pipeline::searched_paths(filter::kept(hits, nodes, files), files);
    let all = pipeline::searched_paths(hits, files);
    order::sorted_is_sorted(shown);
    order::sorted_is_sorted(all);
    assert forall|s: Seq<char>| #[trigger] order::sorted(shown).contains(s) implies order::sorted(
        all,
    ).contains(s) by {
        assert(shown.contains(s));
        lemma_shown_paths(hits, nodes, files, s);
    }
    lemma_fewer(order::sorted(shown), order::sorted(all));
}

/// Where ast-grep confirmed a match, there is a language to credit.
pub proof fn a_confirmation_has_a_language(
    groups: Seq<(Seq<char>, Seq<Seq<char>>)>,
    found: Seq<Seq<Node>>,
    hits: Seq<Hit>,
)
    requires
        filter::confirmed_count(
            hits,
            filter::all_found(found),
            filter::searched_files(groups, found),
        ) > 0,
    ensures
        filter::confirming(groups, found).len() > 0,
{
    let nodes = filter::all_found(found);
    let files = filter::searched_files(groups, found);
    let h = lemma_counted(hits, nodes, files);
    assert(filter::looked_into(groups, found, paths::normal(h.file)));
    let (i, k) = choose|i: int, k: int|
        0 <= i < groups.len() && found[i].len() > 0 && 0 <= k < groups[i].1.len()
            && paths::normal(#[trigger] groups[i].1[k]) == paths::normal(h.file);
    lemma_confirming(groups, found, i);
}

/// A match that was counted as confirmed.
proof fn lemma_counted(hits: Seq<Hit>, nodes: Seq<Node>, files: Set<Seq<char>>) -> (h: Hit)
    requires
        filter::confirmed_count(hits, nodes, files) > 0,
    ensures
        filter::searched(h, files),
    decreases hits.len(),
{
    if filter::searched(hits.last(), files) {
        hits.last()
    } else {
        lemma_counted(hits.drop_last(), nodes, files)
    }
}

proof fn lemma_confirming(
    groups: Seq<(Seq<char>, Seq<Seq<char>>)>,
    found: Seq<Seq<Node>>,
    i: int,
)
    requires
        0 <= i < groups.len(),
        found[i].len() > 0,
    ensures
        filter::confirming(groups, found).len() > 0,
    decreases groups.len(),
{
    if i < groups.len() - 1 {
        lemma_confirming(groups.drop_last(), found, i);
    }
}

/// Only a search for code goes to ast-grep: one with a pattern, that reads files and not standard
/// input, that asks for nothing that ast-grep cannot honour, and that does not ask for plain
/// ripgrep. Its capture run has a command line.
pub proof fn only_code_searches_are_captured(argv: Seq<Seq<char>>, on_tty: bool)
    ensures
        ({
            let call = args::invocation(argv);
            pipeline::planned(call, on_tty) matches Next::Capture(p) ==> {
                &&& call.pattern == Some(p)
                &&& pattern::structural(p)
                &&& call.unsupported is None
                &&& !call.pattern_less
                &&& !call.no_smart
                &&& !call.reads_stdin
                &&& call.has_path || on_tty
                &&& call.capture_argv.len() > 0
            }
        }),
{
    if args::invocation(argv).pattern is Some {
        args_laws::a_pattern_is_captured(argv);
    }
}

/// What a command line asks for, by its words; the program's name is the first. One of the shim's own
/// commands in the second place goes before all else. Where the shim is called by its own name, it
/// answers for help, which is also what it gives without a word, and then for its version. Otherwise
/// no words, and a word for help, are ripgrep's to answer, and everything else is a search.
pub proof fn routes_by_words(argv: Seq<Seq<char>>)
    ensures
        ({
            let r = pipeline::route_of(argv);
            let own = argv.len() > 0 && paths::file_name(argv[0]) == Some("smart-rg"@);
            let manage = argv.len() > 1 && (argv[1] == "stats"@ || argv[1] == "report"@ || argv[1]
                == "prune"@ || argv[1] == "reset"@);
            let dashed = argv.contains("--help"@) || argv.contains("-h"@);
            let help = dashed || argv.len() <= 1 || argv[1] == "help"@;
            let version = argv.contains("--version"@) || argv.contains("-V"@) || argv[1]
                == "version"@;
            &&& manage ==> r == Route::Manage
            &&& !manage && own && help ==> r == Route::Help
            &&& !manage && own && !help && version ==> r == Route::Version
            &&& !manage && own && !help && !version ==> r == Route::Search
            &&& !manage && !own && (dashed || argv.len() <= 1) ==> r == Route::Forward
            &&& !manage && !own && !dashed && argv.len() > 1 ==> r == Route::Search
        }),
{
}

/// What comes after the capture run. A run that failed, or that cannot be read, sends the call to
/// ripgrep, logged as passed through with the reason. Too many matches are printed as they are. No
/// matches end the search with code 1 and nothing printed. Matches in no known language are printed
/// as they are; and any others go to ast-grep, with their files by language and the pattern as it is
/// written there.
pub proof fn captures_are_followed_up(pattern: Seq<char>, hits: Seq<Hit>, mode: OutputMode)
    ensures
        ({
            let groups = lang::grouped(order::sorted(render::files_of(hits)));
            let passed = |reason: Seq<char>|
                After::Forward(
                    Entry {
                        event: "passthrough"@,
                        pattern,
                        reason,
                        lang: Seq::empty(),
                        matches: 0,
                    },
                );
            let printed = |reason: Seq<char>|
                After::Stop(
                    End {
                        notice: None,
                        output: text::concat(render::output_lines(hits, mode)),
                        code: 0,
                        entry: Entry {
                            event: "fallback"@,
                            pattern,
                            reason,
                            lang: Seq::empty(),
                            matches: hits.len(),
                        },
                        figures: None,
                    },
                );
            &&& pipeline::after(pattern, Captured::Failed, mode) == passed("rg_failed"@)
            &&& pipeline::after(pattern, Captured::Unparseable, mode) == passed(
                "rg_json_unparseable"@,
            )
            &&& pipeline::after(pattern, Captured::OverCap(hits), mode) == printed("over_cap"@)
            &&& hits.len() == 0 ==> pipeline::after(pattern, Captured::Matches(hits), mode)
                == After::Stop(
                End {
                    notice: None,
                    output: Seq::empty(),
                    code: 1,
                    entry: Entry {
                        event: "no_match"@,
                        pattern,
                        reason: "rg_empty"@,
                        lang: Seq::empty(),
                        matches: 0,
                    },
                    figures: None,
                },
            )
            &&& hits.len() > 0 && groups.len() == 0 ==> pipeline::after(
                pattern,
                Captured::Matches(hits),
                mode,
            ) == printed("no_searchable_language"@)
            &&& hits.len() > 0 && groups.len() > 0 ==> pipeline::after(
                pattern,
                Captured::Matches(hits),
                mode,
            ) == (After::Confirm {
                hits,
                by_lang: groups,
                sg_pattern: pattern::translation(pattern),
            })
        }),
{
}

/// How a search ends that ast-grep was asked about. Where it confirmed no match, all of ripgrep's
/// matches are printed, and the search is logged as a fallback with their number. Otherwise the
/// matches to show are printed, the search is logged as filtered, with ast-grep's pattern, the
/// languages with commas between them and the number of confirmed matches, and the figures hold the
/// caller's pattern, the languages, the matches and the files of either tool.
pub proof fn searches_are_concluded(
    pattern: Seq<char>,
    sg_pattern: Seq<char>,
    hits: Seq<Hit>,
    nodes: Seq<Node>,
    files: Set<Seq<char>>,
    langs: Seq<Seq<char>>,
    mode: OutputMode,
)
    ensures
        ({
            let end = pipeline::concluded(pattern, sg_pattern, hits, nodes, files, langs, mode);
            let label = text::join(langs, seq![',']);
            let shown = filter::kept(hits, nodes, files);
            let looked_at = filter::searched_count(hits, files);
            let confirmed = filter::confirmed_count(hits, nodes, files);
            &&& end.code == 0
            &&& confirmed == 0 ==> end == (End {
                notice: None,
                output: text::concat(render::output_lines(hits, mode)),
                code: 0,
                entry: Entry {
                    event: "fallback"@,
                    pattern,
                    reason: "ast_grep_empty"@,
                    lang: label,
                    matches: hits.len(),
                },
                figures: None,
            })
            &&& confirmed > 0 ==> {
                &&& end.output == text::concat(render::output_lines(shown, mode))
                &&& end.entry == (Entry {
                    event: "structural"@,
                    pattern: sg_pattern,
                    reason: "filtered"@,
                    lang: label,
                    matches: confirmed,
                })
                &&& end.notice is Some <==> shown.len() < hits.len()
                &&& end.figures is Some
                &&& end.figures->0.pattern == pattern
                &&& end.figures->0.lang == label
                &&& end.figures->0.ag_matches == confirmed
                &&& end.figures->0.rg_results == looked_at
                &&& end.figures->0.ag_files == order::sorted(
                    pipeline::searched_paths(shown, files),
                ).len()
                &&& end.figures->0.rg_files == order::sorted(
                    pipeline::searched_paths(hits, files),
                ).len()
            }
        }),
{
    reveal_strlit(",");
    assert(","@ =~= seq![',']);
    filter_laws::every_match_is_shown_or_counted(hits, nodes, files);
}

/// The files that figures count are those of the matches, by their normal paths, into which ast-grep
/// looked.
pub proof fn one_more_file_to_count(hits: Seq<Hit>, h: Hit, files: Set<Seq<char>>)
    ensures
        pipeline::searched_paths(hits.push(h), files) == if files.contains(
            paths::normal(h.file),
        ) {
            pipeline::searched_paths(hits, files).push(paths::normal(h.file))
        } else {
            pipeline::searched_paths(hits, files)
        },
        pipeline::searched_paths(Seq::empty(), files) == Seq::<Seq<char>>::empty(),
{
    assert(hits.push(h).drop_last() =~= hits);
}

/// The notice says how many matches are hidden, and how to see them.
pub proof fn the_notice_names_the_number(n: nat)
    ensures
        pipeline::hidden_notice(n) == "\x1b[36msmart-rg: "@ + layout::decimal(n) + (if n == 1 {
            " match"@
        } else {
            " matches"@
        }) + " not confirmed as structural by ast-grep \u{2014} rerun with --no-smart\x1b[0m"@,
{
    reveal_strlit("");
    reveal_strlit("es");
    reveal_strlit(" match");
    reveal_strlit(" matches");
    assert(" match"@ + ""@ =~= " match"@);
    assert(" match"@ + "es"@ =~= " matches"@);
    let start = "\x1b[36msmart-rg: "@ + layout::decimal(n);
    let tail = " not confirmed as structural by ast-grep \u{2014} rerun with --no-smart\x1b[0m"@;
    assert(start + " match"@ + ""@ + tail =~= start + (" match"@ + ""@) + tail);
    assert(start + " match"@ + "es"@ + tail =~= start + (" match"@ + "es"@) + tail);
}

/// ast-grep is asked to look for the pattern, in the language, in all the files and in their order,
/// and to report in JSON.
pub proof fn ast_grep_is_asked(sg_pattern: Seq<char>, name: Seq<char>, files: Seq<Seq<char>>)
    ensures
        ({
            let argv = pipeline::ast_grep_argv(sg_pattern, name, files);
            &&& argv.len() == files.len() + 6
            &&& argv[0] == "run"@
            &&& argv[1] == "-p"@
            &&& argv[2] == sg_pattern
            &&& argv[3] == "-l"@
            &&& argv[4] == name
            &&& argv.subrange(5, 5int + files.len()) == files
            &&& argv.last() == "--json=stream"@
        }),
{
    let argv = pipeline::ast_grep_argv(sg_pattern, name, files);
    assert(argv.subrange(5, 5int + files.len()) =~= files);
}

} // verus!
