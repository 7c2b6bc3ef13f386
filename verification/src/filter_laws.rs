//! What the filter never does.

use crate::filter;
use crate::found::{AgMatch, Hit, Node};
use crate::lang;
use crate::paths;
use crate::text;
use vstd::prelude::*;

verus! {

/// The matches to show are those of ripgrep's matches that ast-grep did not look at, or found to
/// be code. In particular a match in a file that ast-grep did not look into is never hidden, and
/// nothing is shown that ripgrep did not find.
pub proof fn only_unconfirmed_matches_are_hidden(
    hits: Seq<Hit>,
    nodes: Seq<Node>,
    files: Set<Seq<char>>,
    h: Hit,
)
    ensures
        filter::kept(hits, nodes, files).contains(h) <==> hits.contains(h) && (!filter::searched(
            h,
            files,
        ) || filter::confirmed(h, nodes)),
    decreases hits.len(),
{
    if hits.len() > 0 {
        let before = filter::kept(hits.drop_last(), nodes, files);
        only_unconfirmed_matches_are_hidden(hits.drop_last(), nodes, files, h);
        text::lemma_contains_last(hits, h);
        if filter::shown(hits.last(), nodes, files) {
            assert(before.push(hits.last()).drop_last() =~= before);
            text::lemma_contains_last(before.push(hits.last()), h);
        }
    }
}

/// Every match is shown or counted as hidden.
pub proof fn every_match_is_shown_or_counted(
    hits: Seq<Hit>,
    nodes: Seq<Node>,
    files: Set<Seq<char>>,
)
    ensures
        filter::confirmed_count(hits, nodes, files) <= filter::searched_count(hits, files),
        filter::searched_count(hits, files) <= hits.len(),
        filter::kept(hits, nodes, files).len() + (filter::searched_count(hits, files)
            - filter::confirmed_count(hits, nodes, files)) == hits.len(),
    decreases hits.len(),
{
    if hits.len() > 0 {
        every_match_is_shown_or_counted(hits.drop_last(), nodes, files);
    }
}

/// Where ast-grep looked into no file, everything is shown as it is.
pub proof fn nothing_searched_nothing_hidden(hits: Seq<Hit>, nodes: Seq<Node>)
    ensures
        filter::kept(hits, nodes, Set::empty()) == hits,
    decreases hits.len(),
{
    if hits.len() > 0 {
        nothing_searched_nothing_hidden(hits.drop_last(), nodes);
        assert(hits.drop_last().push(hits.last()) =~= hits);
    }
}

/// A file keeps its name when `./` is put in front of its path.
proof fn lemma_dot_slash_name(p: Seq<char>)
    ensures
        paths::file_name(seq!['.', '/'] + p) == paths::file_name(p),
{
    let whole = seq!['.', '/'] + p;
    let pieces = text::split(p, '/');
    text::lemma_find_unique(whole, '/', 1);
    text::lemma_split(whole, '/');
    assert(whole.take(1) =~= seq!['.']);
    assert(whole.skip(2) =~= p);
    lemma_dot_piece(pieces);
}

proof fn lemma_dot_piece(pieces: Seq<Seq<char>>)
    ensures
        paths::last_piece(seq![seq!['.']] + pieces) == paths::last_piece(pieces),
    decreases pieces.len(),
{
    let all = seq![seq!['.']] + pieces;
    if pieces.len() == 0 {
        assert(all.last() == seq!['.']);
        assert(all.drop_last() =~= pieces);
    } else {
        assert(all.last() == pieces.last());
        assert(all.drop_last() =~= seq![seq!['.']] + pieces.drop_last());
        lemma_dot_piece(pieces.drop_last());
    }
}

/// A file is in the language of its normal path.
pub proof fn normal_paths_keep_the_language(p: Seq<char>)
    ensures
        lang::file_language(paths::normal(p)) == lang::file_language(p),
    decreases p.len(),
{
    if p.len() >= 2 && p[0] == '.' && p[1] == '/' {
        normal_paths_keep_the_language(p.skip(2));
        assert(p =~= seq!['.', '/'] + p.skip(2));
        lemma_dot_slash_name(p.skip(2));
    }
}

/// A match is hidden only where ast-grep reported something in the language of its file: a file in
/// no known language, and one in a language in which ast-grep reported nothing, counts as one that
/// it did not look into.
pub proof fn a_silent_language_hides_nothing(
    files: Seq<Seq<char>>,
    found: Seq<Seq<Node>>,
    hit: Hit,
)
    requires
        found.len() == lang::grouped(files).len(),
        filter::searched(hit, filter::searched_files(lang::grouped(files), found)),
    ensures
        exists|i: int|
            0 <= i < found.len() && lang::file_language(hit.file) == Some(
                (#[trigger] lang::grouped(files)[i]).0,
            ) && found[i].len() > 0,
{
    let groups = lang::grouped(files);
    let path = paths::normal(hit.file);
    assert(filter::looked_into(groups, found, path));
    let (i, k) = choose|i: int, k: int|
        0 <= i < groups.len() && found[i].len() > 0 && 0 <= k < groups[i].1.len()
            && paths::normal(#[trigger] groups[i].1[k]) == path;
    let f = groups[i].1[k];
    lang::groups_part_the_files(files);
    assert(groups[i].1.contains(f));
    normal_paths_keep_the_language(f);
    normal_paths_keep_the_language(hit.file);
    assert(lang::file_language(hit.file) == Some(groups[i].0));
}

/// A match in a piece of code is confirmed by it, wherever the piece stands in the report.
proof fn lemma_confirmed(hit: Hit, nodes: Seq<Node>)
    ensures
        filter::confirmed(hit, nodes) <==> exists|k: int|
            0 <= k < nodes.len() && paths::normal((#[trigger] nodes[k]).file) == paths::normal(
                hit.file,
            ) && nodes[k].line <= hit.line <= nodes[k].end_line,
{
    if filter::confirmed(hit, nodes) {
        let k = choose|k: int| 0 <= k < nodes.len() && #[trigger] filter::confirms(nodes[k], hit);
        assert(paths::normal(nodes[k].file) == paths::normal(hit.file));
    }
    if exists|k: int|
        0 <= k < nodes.len() && paths::normal((#[trigger] nodes[k]).file) == paths::normal(hit.file)
            && nodes[k].line <= hit.line <= nodes[k].end_line {
        let k = choose|k: int|
            0 <= k < nodes.len() && paths::normal((#[trigger] nodes[k]).file) == paths::normal(
                hit.file,
            ) && nodes[k].line <= hit.line <= nodes[k].end_line;
        assert(filter::confirms(nodes[k], hit));
    }
}

/// What one more match adds. It is shown where ast-grep did not look into its file, or where some
/// piece of code that ast-grep reported in that file, at whatever place of the report, has the line
/// of the match between its first and its last line. It counts as looked at where ast-grep looked
/// into its file, and then as confirmed where there is such a piece of code. Nothing that is said of
/// the other matches changes.
pub proof fn one_more_match(hits: Seq<Hit>, h: Hit, nodes: Seq<Node>, files: Set<Seq<char>>)
    ensures
        ({
            let looked = files.contains(paths::normal(h.file));
            let code = exists|k: int|
                0 <= k < nodes.len() && paths::normal((#[trigger] nodes[k]).file) == paths::normal(
                    h.file,
                ) && nodes[k].line <= h.line <= nodes[k].end_line;
            let more = hits.push(h);
            &&& filter::kept(more, nodes, files) == if !looked || code {
                filter::kept(hits, nodes, files).push(h)
            } else {
                filter::kept(hits, nodes, files)
            }
            &&& filter::searched_count(more, files) == filter::searched_count(hits, files)
                + if looked {
                1int
            } else {
                0int
            }
            &&& filter::confirmed_count(more, nodes, files) == filter::confirmed_count(
                hits,
                nodes,
                files,
            ) + if looked && code {
                1int
            } else {
                0int
            }
        }),
{
    lemma_confirmed(h, nodes);
    assert(hits.push(h).drop_last() =~= hits);
    assert(hits.push(h).last() == h);
}

/// Of no matches none is shown, and none is counted.
pub proof fn no_matches_no_counts(nodes: Seq<Node>, files: Set<Seq<char>>)
    ensures
        filter::kept(Seq::empty(), nodes, files) == Seq::<Hit>::empty(),
        filter::searched_count(Seq::empty(), files) == 0,
        filter::confirmed_count(Seq::empty(), nodes, files) == 0,
{
}

/// A match on a line of some reported piece of code in its file is always shown, whichever place
/// the piece has in the report.
pub proof fn a_match_in_reported_code_is_kept(
    hits: Seq<Hit>,
    nodes: Seq<Node>,
    files: Set<Seq<char>>,
    i: int,
    k: int,
)
    requires
        0 <= i < hits.len(),
        0 <= k < nodes.len(),
        paths::normal(nodes[k].file) == paths::normal(hits[i].file),
        nodes[k].line <= hits[i].line <= nodes[k].end_line,
    ensures
        filter::kept(hits, nodes, files).contains(hits[i]),
{
    lemma_confirmed(hits[i], nodes);
    only_unconfirmed_matches_are_hidden(hits, nodes, files, hits[i]);
}

/// A match in a file that ast-grep looked into, on no line of any piece of code that it reported
/// there, is never shown.
pub proof fn a_match_outside_reported_code_is_hidden(
    hits: Seq<Hit>,
    nodes: Seq<Node>,
    files: Set<Seq<char>>,
    h: Hit,
)
    requires
        files.contains(paths::normal(h.file)),
        forall|k: int|
            0 <= k < nodes.len() && paths::normal((#[trigger] nodes[k]).file) == paths::normal(
                h.file,
            ) ==> h.line < nodes[k].line || nodes[k].end_line < h.line,
    ensures
        !filter::kept(hits, nodes, files).contains(h),
{
    lemma_confirmed(h, nodes);
    only_unconfirmed_matches_are_hidden(hits, nodes, files, h);
}

/// The more ast-grep reports, the more is shown: a report that holds every piece of code of another
/// hides no match that the other shows, and confirms no fewer.
pub proof fn more_reports_hide_nothing(
    hits: Seq<Hit>,
    fewer: Seq<Node>,
    more: Seq<Node>,
    files: Set<Seq<char>>,
)
    requires
        forall|k: int| 0 <= k < fewer.len() ==> more.contains(#[trigger] fewer[k]),
    ensures
        forall|h: Hit| #[trigger]
            filter::kept(hits, fewer, files).contains(h) ==> filter::kept(
                hits,
                more,
                files,
            ).contains(h),
        filter::kept(hits, fewer, files).len() <= filter::kept(hits, more, files).len(),
        filter::confirmed_count(hits, fewer, files) <= filter::confirmed_count(hits, more, files),
    decreases hits.len(),
{
    assert forall|h: Hit| filter::confirmed(h, fewer) implies #[trigger] filter::confirmed(
        h,
        more,
    ) by {
        let k = choose|k: int| 0 <= k < fewer.len() && #[trigger] filter::confirms(fewer[k], h);
        assert(more.contains(fewer[k]));
        let j = choose|j: int| 0 <= j < more.len() && more[j] == fewer[k];
        assert(filter::confirms(more[j], h));
    }
    assert forall|h: Hit| #[trigger] filter::kept(hits, fewer, files).contains(
        h,
    ) implies filter::kept(hits, more, files).contains(h) by {
        only_unconfirmed_matches_are_hidden(hits, fewer, files, h);
        only_unconfirmed_matches_are_hidden(hits, more, files, h);
        assert(filter::confirmed(h, fewer) ==> filter::confirmed(h, more));
    }
    if hits.len() > 0 {
        more_reports_hide_nothing(hits.drop_last(), fewer, more, files);
        assert(filter::confirmed(hits.last(), fewer) ==> filter::confirmed(hits.last(), more));
    }
}

/// The spans of a file are the first and last lines of all the pieces of code that were reported in
/// it, in the order of the report, and a file has an entry where there is such a piece.
pub proof fn one_more_report(nodes: Seq<Node>, n: Node, file: Seq<char>)
    ensures
        ({
            let before = filter::spans(nodes);
            let after = filter::spans(nodes.push(n));
            if paths::normal(n.file) == file {
                &&& after.contains_key(file)
                &&& after[file] == (if before.contains_key(file) {
                    before[file]
                } else {
                    Seq::empty()
                }) + seq![(n.line, n.end_line)]
            } else {
                &&& after.contains_key(file) <==> before.contains_key(file)
                &&& before.contains_key(file) ==> after[file] == before[file]
            }
        }),
        filter::spans(Seq::empty()) == Map::<Seq<char>, Seq<(u64, u64)>>::empty(),
{
    assert(nodes.push(n).drop_last() =~= nodes);
    assert(nodes.push(n).last() == n);
    let before = filter::spans(nodes);
    let after = filter::spans(nodes.push(n));
    let span = (n.line, n.end_line);
    if paths::normal(n.file) == file {
        if before.contains_key(file) {
            assert(after[file] =~= before[file] + seq![span]);
        } else {
            assert(after[file] =~= Seq::empty() + seq![span]);
        }
    }
}

/// A line is within a list of spans where one of them, whichever, has it between its two lines.
pub proof fn within_is_within_any(line: u64, list: Seq<(u64, u64)>)
    ensures
        (exists|i: int| 0 <= i < list.len() && (#[trigger] list[i]).0 <= line && line <= list[i].1)
            <==> filter::within(line, list),
{
}

/// What ast-grep reported in one more language comes behind what it reported before. The language
/// is credited, and its files count as looked into, exactly where it reported something there.
pub proof fn one_more_language(
    groups: Seq<(Seq<char>, Seq<Seq<char>>)>,
    found: Seq<Seq<Node>>,
    lang: Seq<char>,
    files: Seq<Seq<char>>,
    nodes: Seq<Node>,
)
    requires
        found.len() == groups.len(),
    ensures
        filter::all_found(found.push(nodes)) == filter::all_found(found) + nodes,
        filter::confirming(groups.push((lang, files)), found.push(nodes)) == if nodes.len() > 0 {
            filter::confirming(groups, found).push(lang)
        } else {
            filter::confirming(groups, found)
        },
        forall|path: Seq<char>| #[trigger]
            filter::searched_files(groups.push((lang, files)), found.push(nodes)).contains(path)
                <==> filter::searched_files(groups, found).contains(path) || (nodes.len() > 0
                && exists|k: int|
                0 <= k < files.len() && paths::normal(#[trigger] files[k]) == path),
{
    let g = groups.push((lang, files));
    let f = found.push(nodes);
    assert(f.drop_last() =~= found);
    assert(g.drop_last() =~= groups);
    lemma_confirming_same(groups, found, f);
    assert forall|path: Seq<char>| #[trigger] filter::searched_files(g, f).contains(path)
        <==> filter::searched_files(groups, found).contains(path) || (nodes.len() > 0 && exists|
        k: int,
    |
        0 <= k < files.len() && paths::normal(#[trigger] files[k]) == path) by {
        if filter::looked_into(g, f, path) {
            let (i, k) = choose|i: int, k: int|
                0 <= i < g.len() && f[i].len() > 0 && 0 <= k < g[i].1.len() && paths::normal(
                    #[trigger] g[i].1[k],
                ) == path;
            if i < groups.len() {
                assert(paths::normal(groups[i].1[k]) == path);
            } else {
                assert(paths::normal(files[k]) == path);
            }
        }
        if filter::looked_into(groups, found, path) {
            let (i, k) = choose|i: int, k: int|
                0 <= i < groups.len() && found[i].len() > 0 && 0 <= k < groups[i].1.len()
                    && paths::normal(#[trigger] groups[i].1[k]) == path;
            assert(f[i] == found[i]);
            assert(paths::normal(g[i].1[k]) == path);
        }
        if nodes.len() > 0 && exists|k: int|
            0 <= k < files.len() && paths::normal(#[trigger] files[k]) == path {
            let k = choose|k: int| 0 <= k < files.len() && paths::normal(#[trigger] files[k]) == path;
            assert(paths::normal(g[groups.len() as int].1[k]) == path);
        }
    }
}

proof fn lemma_confirming_same(
    groups: Seq<(Seq<char>, Seq<Seq<char>>)>,
    found: Seq<Seq<Node>>,
    more: Seq<Seq<Node>>,
)
    requires
        groups.len() <= found.len(),
        found.len() <= more.len(),
        forall|i: int| 0 <= i < found.len() ==> #[trigger] more[i] == found[i],
    ensures
        filter::confirming(groups, found) == filter::confirming(groups, more),
    decreases groups.len(),
{
    if groups.len() > 0 {
        lemma_confirming_same(groups.drop_last(), found, more);
        assert(more[groups.len() - 1] == found[groups.len() - 1]);
    }
}

/// Without a language there is nothing reported, no file looked into, and nothing to credit.
pub proof fn no_languages_no_reports(path: Seq<char>)
    ensures
        filter::all_found(Seq::empty()) == Seq::<Node>::empty(),
        filter::confirming(Seq::empty(), Seq::empty()) == Seq::<Seq<char>>::empty(),
        !filter::searched_files(Seq::empty(), Seq::empty()).contains(path),
{
}

/// What a run gave for a language, it gave when it was handed that language and all its files, in
/// order.
pub proof fn runs_are_handed_their_files<F: Fn(&str, &[String]) -> Vec<AgMatch>>(
    run: F,
    group: (Seq<char>, Seq<Seq<char>>),
    out: Vec<AgMatch>,
)
    requires
        filter::gave(run, group, out),
    ensures
        exists|l: &str, s: &[String]|
            l@ == group.0 && text::texts(s@) == group.1 && #[trigger] run.ensures((l, s), out),
{
}

} // verus!
