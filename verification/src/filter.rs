//! ripgrep's matches, filtered by what ast-grep found.
//!
//! ripgrep's matches are the answer. One is hidden only where ast-grep looked into its file and
//! did not find it to be code. Where ast-grep did not look, or found nothing at all in a language,
//! the matches stay: a wrong grammar and a search without results cannot be told apart.

use crate::lang::LangGroups;
use crate::found;
use crate::found::{AgMatch, Hit, Node, RgMatch};
use crate::order;
use crate::order::find_place;
use crate::paths;
use crate::paths::norm_path;
use crate::text;
use crate::text::same_text;
use vstd::prelude::*;

verus! {

/// The lines that were found in each file, by the file's normal path: the first and the last line
/// of every piece of code, in the order in which they were reported.
pub open spec fn spans(nodes: Seq<Node>) -> Map<Seq<char>, Seq<(u64, u64)>>
    decreases nodes.len(),
{
    if nodes.len() == 0 {
        Map::empty()
    } else {
        let before = spans(nodes.drop_last());
        let n = nodes.last();
        let file = paths::normal(n.file);
        if before.contains_key(file) {
            before.insert(file, before[file].push((n.line, n.end_line)))
        } else {
            before.insert(file, seq![(n.line, n.end_line)])
        }
    }
}

/// Whether a line is among those of some piece of code.
pub open spec fn within(line: u64, list: Seq<(u64, u64)>) -> bool {
    exists|i: int| 0 <= i < list.len() && (#[trigger] list[i]).0 <= line <= list[i].1
}

/// Whether a match lies in a piece of code that ast-grep reported. It may lie on any of its lines.
pub open spec fn confirmed(hit: Hit, nodes: Seq<Node>) -> bool {
    exists|i: int| 0 <= i < nodes.len() && #[trigger] confirms(nodes[i], hit)
}

/// Whether a match lies in a piece of code.
pub open spec fn confirms(n: Node, hit: Hit) -> bool {
    paths::normal(n.file) == paths::normal(hit.file) && n.line <= hit.line <= n.end_line
}

/// Whether ast-grep looked into the file of a match.
pub open spec fn searched(hit: Hit, files: Set<Seq<char>>) -> bool {
    files.contains(paths::normal(hit.file))
}

/// Whether a match is shown.
pub open spec fn shown(hit: Hit, nodes: Seq<Node>, files: Set<Seq<char>>) -> bool {
    !searched(hit, files) || confirmed(hit, nodes)
}

/// The matches that are shown.
pub open spec fn kept(hits: Seq<Hit>, nodes: Seq<Node>, files: Set<Seq<char>>) -> Seq<Hit>
    decreases hits.len(),
{
    if hits.len() == 0 {
        hits
    } else if shown(hits.last(), nodes, files) {
        kept(hits.drop_last(), nodes, files).push(hits.last())
    } else {
        kept(hits.drop_last(), nodes, files)
    }
}

/// The number of matches in files that ast-grep looked into.
pub open spec fn searched_count(hits: Seq<Hit>, files: Set<Seq<char>>) -> nat
    decreases hits.len(),
{
    if hits.len() == 0 {
        0
    } else {
        searched_count(hits.drop_last(), files) + if searched(hits.last(), files) {
            1nat
        } else {
            0nat
        }
    }
}

/// The number of them that ast-grep found to be code.
pub open spec fn confirmed_count(hits: Seq<Hit>, nodes: Seq<Node>, files: Set<Seq<char>>) -> nat
    decreases hits.len(),
{
    if hits.len() == 0 {
        0
    } else {
        confirmed_count(hits.drop_last(), nodes, files) + if searched(hits.last(), files)
            && confirmed(hits.last(), nodes) {
            1nat
        } else {
            0nat
        }
    }
}

/// Line spans by file.
#[derive(Debug)]
pub struct SpanMap {
    files: Vec<String>,
    spans: Vec<Vec<(u64, u64)>>,
}

impl View for SpanMap {
    type V = Map<Seq<char>, Seq<(u64, u64)>>;

    closed spec fn view(&self) -> Map<Seq<char>, Seq<(u64, u64)>> {
        let files = text::texts(self.files@);
        Map::new(
            |f: Seq<char>| files.contains(f),
            |f: Seq<char>| self.spans@[order::place(files, f)]@,
        )
    }
}

impl SpanMap {
    /// Whether the files are in order, each with its spans.
    pub closed spec fn well_formed(&self) -> bool {
        &&& order::increasing(text::texts(self.files@))
        &&& self.spans@.len() == self.files@.len()
    }

    /// The spans of a file, if it has any.
    fn get(&self, file: &str) -> (r: Option<&Vec<(u64, u64)>>)
        requires
            self.well_formed(),
        ensures
            match r {
                Some(v) => self@.contains_key(file@) && self@[file@] == v@,
                None => !self@.contains_key(file@),
            },
    {
        let ghost files = text::texts(self.files@);
        let p: usize = find_place(&self.files, file);
        proof {
            order::lemma_held(files, file@);
        }
        if p < self.files.len() && same_text(self.files[p].as_str(), file) {
            assert(files[p as int] == file@);
            Some(&self.spans[p])
        } else {
            None
        }
    }
}

/// The lines that ast-grep reported in each file.
pub fn confirmed_spans(matches: &[AgMatch]) -> (r: SpanMap)
    ensures
        r.well_formed(),
        r@ == spans(found::nodes(matches@)),
{
    let ghost all = found::nodes(matches@);
    let mut r = SpanMap { files: Vec::new(), spans: Vec::new() };
    let mut i: usize = 0;
    assert(r@ =~= spans(all.take(0)));
    while i < matches.len()
        invariant
            all == found::nodes(matches@),
            i <= matches@.len(),
            r.well_formed(),
            r@ == spans(all.take(i as int)),
        decreases matches@.len() - i,
    {
        let ghost before = r@;
        let ghost files = text::texts(r.files@);
        let ghost lists = r.spans@;
        let m: &AgMatch = &matches[i];
        let file: &str = norm_path(m.file.as_str());
        let ghost f = file@;
        let span: (u64, u64) = (m.line, m.end_line);
        assert(all.take(i + 1).drop_last() =~= all.take(i as int));
        assert(all.take(i + 1).last() == m@);
        let p: usize = find_place(&r.files, file);
        proof {
            order::lemma_held(files, f);
            order::lemma_place(files, f);
            order::lemma_placed(files, f);
        }
        if p < r.files.len() && same_text(r.files[p].as_str(), file) {
            let mut list: Vec<(u64, u64)> = r.spans.remove(p);
            list.push(span);
            r.spans.insert(p, list);
            assert(r.spans@ =~= lists.update(p as int, list));
            proof {
                assert(files[p as int] == f);
                assert(text::texts(r.files@) =~= files);
                assert forall|g: Seq<char>| #[trigger] files.contains(g) implies r@[g]
                    == before.insert(f, before[f].push(span))[g] by {
                    order::lemma_held(files, g);
                }
                assert(r@ =~= before.insert(f, before[f].push(span)));
            }
        } else {
            let list: Vec<(u64, u64)> = vec![span];
            assert(list@ =~= seq![span]);
            r.files.insert(p, file.to_string());
            r.spans.insert(p, list);
            proof {
                let after = text::texts(r.files@);
                assert(after =~= files.insert(p as int, f));
                assert forall|g: Seq<char>| #[trigger] after.contains(g) implies r@[g]
                    == before.insert(f, seq![span])[g] by {
                    order::lemma_held(after, g);
                    if g == f {
                        assert(after[p as int] == f);
                    } else {
                        order::lemma_held(files, g);
                        let q = order::place(files, g);
                        if q < p {
                            assert(after[q] == g);
                        } else {
                            assert(after[q + 1] == g);
                        }
                    }
                }
                assert(r@ =~= before.insert(f, seq![span]));
            }
        }
        i += 1;
    }
    assert(all.take(i as int) =~= all);
    r
}

/// Whether a match lies on a line that ast-grep reported in its file.
pub fn is_confirmed(hit: &RgMatch, spans: &SpanMap) -> (r: bool)
    requires
        spans.well_formed(),
    ensures
        r == (spans@.contains_key(paths::normal(hit.file@)) && within(
            hit.line,
            spans@[paths::normal(hit.file@)],
        )),
{
    match spans.get(norm_path(hit.file.as_str())) {
        Some(list) => {
            let mut i: usize = 0;
            while i < list.len()
                invariant
                    spans@.contains_key(paths::normal(hit.file@)),
                    spans@[paths::normal(hit.file@)] == list@,
                    i <= list@.len(),
                    forall|j: int|
                        0 <= j < i ==> !((#[trigger] list@[j]).0 <= hit.line <= list@[j].1),
                decreases list@.len() - i,
            {
                if hit.line >= list[i].0 && hit.line <= list[i].1 {
                    assert(list@[i as int].0 <= hit.line <= list@[i as int].1);
                    return true;
                }
                i += 1;
            }
            false
        },
        None => false,
    }
}

/// A match is confirmed by the spans of its file exactly where it lies in a piece of code that
/// ast-grep reported.
pub proof fn spans_confirm_what_nodes_confirm(nodes: Seq<Node>, hit: Hit)
    ensures
        confirmed(hit, nodes) <==> spans(nodes).contains_key(paths::normal(hit.file)) && within(
            hit.line,
            spans(nodes)[paths::normal(hit.file)],
        ),
    decreases nodes.len(),
{
    let file = paths::normal(hit.file);
    if nodes.len() > 0 {
        let shorter = nodes.drop_last();
        let n = nodes.last();
        spans_confirm_what_nodes_confirm(shorter, hit);
        if confirmed(hit, shorter) {
            let i = choose|i: int| 0 <= i < shorter.len() && #[trigger] confirms(shorter[i], hit);
            assert(confirms(nodes[i], hit));
        }
        if confirmed(hit, nodes) {
            let i = choose|i: int| 0 <= i < nodes.len() && #[trigger] confirms(nodes[i], hit);
            if i < nodes.len() - 1 {
                assert(confirms(shorter[i], hit));
            }
        }
        if confirms(n, hit) {
            assert(confirms(nodes[nodes.len() - 1], hit));
        }
        if paths::normal(n.file) == file {
            let span = (n.line, n.end_line);
            if spans(shorter).contains_key(file) {
                let old = spans(shorter)[file];
                let new = old.push(span);
                if within(hit.line, old) {
                    let i = choose|i: int|
                        0 <= i < old.len() && (#[trigger] old[i]).0 <= hit.line <= old[i].1;
                    assert(new[i].0 <= hit.line <= new[i].1);
                }
                if confirms(n, hit) {
                    assert(new[old.len() as int] == span);
                }
                if within(hit.line, new) {
                    let i = choose|i: int|
                        0 <= i < new.len() && (#[trigger] new[i]).0 <= hit.line <= new[i].1;
                    if i < old.len() {
                        assert(old[i].0 <= hit.line <= old[i].1);
                    }
                }
            } else {
                assert(seq![span][0] == span);
            }
        }
    }
}

/// A set of paths.
#[derive(Debug)]
pub struct PathSet {
    paths: Vec<String>,
}

impl View for PathSet {
    type V = Set<Seq<char>>;

    closed spec fn view(&self) -> Set<Seq<char>> {
        text::texts(self.paths@).to_set()
    }
}

impl PathSet {
    /// Whether the paths are in order, each of them once.
    pub closed spec fn well_formed(&self) -> bool {
        order::increasing(text::texts(self.paths@))
    }

    /// No paths.
    pub fn new() -> (r: PathSet)
        ensures
            r.well_formed(),
            r@ == Set::<Seq<char>>::empty(),
    {
        let r = PathSet { paths: Vec::new() };
        assert(r@ =~= Set::<Seq<char>>::empty());
        r
    }

    /// Adds a path.
    pub fn insert(&mut self, path: &str)
        requires
            old(self).well_formed(),
        ensures
            final(self).well_formed(),
            final(self)@ == old(self)@.insert(path@),
    {
        let ghost before = text::texts(self.paths@);
        let p: usize = find_place(&self.paths, path);
        proof {
            order::lemma_held(before, path@);
            order::lemma_placed(before, path@);
        }
        if p == self.paths.len() || !same_text(self.paths[p].as_str(), path) {
            self.paths.insert(p, path.to_string());
            assert(text::texts(self.paths@) =~= before.insert(p as int, path@));
        }
        proof {
            let after = text::texts(self.paths@);
            assert(after == order::placed(before, path@));
            assert forall|s: Seq<char>| #[trigger] after.to_set().contains(s)
                <==> before.to_set().insert(path@).contains(s) by {
                assert(after.contains(s) <==> before.contains(s) || s == path@);
            }
            assert(after.to_set() =~= before.to_set().insert(path@));
        }
    }

    /// Whether a path is in the set.
    pub fn contains(&self, path: &str) -> (r: bool)
        requires
            self.well_formed(),
        ensures
            r == self@.contains(path@),
    {
        let p: usize = find_place(&self.paths, path);
        proof {
            order::lemma_held(text::texts(self.paths@), path@);
        }
        p < self.paths.len() && same_text(self.paths[p].as_str(), path)
    }
}

/// What is left of ripgrep's matches, and how many there were of each kind.
#[derive(Debug)]
pub struct FilterOutcome {
    /// The matches to show.
    pub kept: Vec<RgMatch>,
    /// The matches that are hidden: ast-grep looked into their file and did not find them to be
    /// code.
    pub suppressed: usize,
    /// The matches in files that ast-grep looked into.
    pub searched_hits: usize,
    /// Those of them that it found to be code.
    pub confirmed_hits: usize,
}

/// Parts ripgrep's matches into those to show and those to hide. `searched` holds the normal paths
/// of the files that ast-grep looked into.
pub fn filter_matches(hits: &[RgMatch], ag: &[AgMatch], searched: &PathSet) -> (r: FilterOutcome)
    requires
        searched.well_formed(),
    ensures
        found::hits(r.kept@) == kept(found::hits(hits@), found::nodes(ag@), searched@),
        r.searched_hits == searched_count(found::hits(hits@), searched@),
        r.confirmed_hits == confirmed_count(found::hits(hits@), found::nodes(ag@), searched@),
        r.suppressed == r.searched_hits - r.confirmed_hits,
{
    let ghost all = found::hits(hits@);
    let ghost nodes = found::nodes(ag@);
    let spans: SpanMap = confirmed_spans(ag);
    let mut out: Vec<RgMatch> = Vec::new();
    let mut suppressed: usize = 0;
    let mut searched_hits: usize = 0;
    let mut confirmed_hits: usize = 0;
    let mut i: usize = 0;
    while i < hits.len()
        invariant
            all == found::hits(hits@),
            nodes == found::nodes(ag@),
            searched.well_formed(),
            spans.well_formed(),
            spans@ == self::spans(nodes),
            i <= hits@.len(),
            found::hits(out@) =~= kept(all.take(i as int), nodes, searched@),
            searched_hits == searched_count(all.take(i as int), searched@),
            confirmed_hits == confirmed_count(all.take(i as int), nodes, searched@),
            suppressed == searched_hits - confirmed_hits,
            confirmed_hits <= searched_hits <= i,
        decreases hits@.len() - i,
    {
        let h: &RgMatch = &hits[i];
        let ghost before = found::hits(out@);
        proof {
            assert(all.take(i + 1).drop_last() =~= all.take(i as int));
            assert(all.take(i + 1).last() == h@);
            spans_confirm_what_nodes_confirm(nodes, h@);
        }
        if !searched.contains(norm_path(h.file.as_str())) {
            out.push(h.clone());
            assert(found::hits(out@) =~= before.push(h@));
        } else {
            searched_hits += 1;
            if is_confirmed(h, &spans) {
                confirmed_hits += 1;
                out.push(h.clone());
                assert(found::hits(out@) =~= before.push(h@));
            } else {
                suppressed += 1;
            }
        }
        i += 1;
    }
    assert(all.take(i as int) =~= all);
    FilterOutcome { kept: out, suppressed, searched_hits, confirmed_hits }
}

/// What ast-grep reported over all languages.
pub open spec fn all_found(found: Seq<Seq<Node>>) -> Seq<Node>
    decreases found.len(),
{
    if found.len() == 0 {
        Seq::empty()
    } else {
        all_found(found.drop_last()) + found.last()
    }
}

/// The languages in which ast-grep reported something.
pub open spec fn confirming(
    groups: Seq<(Seq<char>, Seq<Seq<char>>)>,
    found: Seq<Seq<Node>>,
) -> Seq<Seq<char>>
    decreases groups.len(),
{
    if groups.len() == 0 {
        Seq::empty()
    } else if found[groups.len() - 1].len() > 0 {
        confirming(groups.drop_last(), found).push(groups.last().0)
    } else {
        confirming(groups.drop_last(), found)
    }
}

/// Whether ast-grep looked into a file, by its normal path: the file is in a language in which
/// ast-grep reported something.
pub open spec fn looked_into(
    groups: Seq<(Seq<char>, Seq<Seq<char>>)>,
    found: Seq<Seq<Node>>,
    path: Seq<char>,
) -> bool {
    exists|i: int, k: int|
        0 <= i < groups.len() && found[i].len() > 0 && 0 <= k < groups[i].1.len()
            && paths::normal(#[trigger] groups[i].1[k]) == path
}

/// The normal paths of the files that ast-grep looked into.
pub open spec fn searched_files(
    groups: Seq<(Seq<char>, Seq<Seq<char>>)>,
    found: Seq<Seq<Node>>,
) -> Set<Seq<char>> {
    Set::new(|path: Seq<char>| looked_into(groups, found, path))
}

/// What ast-grep reported in each of some runs.
pub open spec fn found_by(list: Seq<Vec<AgMatch>>) -> Seq<Seq<Node>> {
    Seq::new(list.len(), |i: int| found::nodes(list[i]@))
}

/// Puts together what ast-grep reported, `found` giving it for each language: all of it, the files
/// that it looked into, and the languages in which it reported something. A language in which it
/// reported nothing counts as one into whose files it did not look.
pub fn merge_confirmations(by_lang: &LangGroups, found: Vec<Vec<AgMatch>>) -> (r: (
    Vec<AgMatch>,
    PathSet,
    Vec<String>,
))
    requires
        found@.len() == by_lang@.len(),
    ensures
        found::nodes(r.0@) == all_found(found_by(found@)),
        r.1.well_formed(),
        r.1@ == searched_files(by_lang@, found_by(found@)),
        text::texts(r.2@) == confirming(by_lang@, found_by(found@)),
{
    let ghost groups = by_lang@;
    let ghost runs = found_by(found@);
    let mut ag: Vec<AgMatch> = Vec::new();
    let mut searched = PathSet::new();
    let mut langs: Vec<String> = Vec::new();
    let mut rest: Vec<Vec<AgMatch>> = found;
    let total: usize = by_lang.len();
    let mut i: usize = 0;
    assert(searched@ =~= searched_files(groups.take(0), runs));
    while i < total
        invariant
            total == groups.len(),
            groups == by_lang@,
            runs.len() == groups.len(),
            i <= total,
            rest@.len() == total - i,
            found_by(rest@) =~= runs.skip(i as int),
            found::nodes(ag@) =~= all_found(runs.take(i as int)),
            searched.well_formed(),
            searched@ =~= searched_files(groups.take(i as int), runs),
            text::texts(langs@) =~= confirming(groups.take(i as int), runs),
        decreases total - i,
    {
        let ghost had = found::nodes(ag@);
        let ghost named = text::texts(langs@);
        let ghost front = groups.take(i as int);
        let ghost next = groups.take(i + 1);
        assert(runs.take(i + 1).drop_last() =~= runs.take(i as int));
        assert(next.drop_last() =~= front);
        assert(runs.skip(i as int)[0] == runs[i as int]);
        let ghost waiting = rest@;
        let mut one: Vec<AgMatch> = rest.remove(0);
        assert(found_by(waiting)[0] == found::nodes(one@));
        assert(found_by(rest@) =~= runs.skip(i + 1)) by {
            assert(found_by(rest@) =~= found_by(waiting).drop_first());
        }
        assert(found::nodes(one@) == runs[i as int]);
        if one.len() > 0 {
            let group = by_lang.at(i);
            let ghost start = searched@;
            let mut k: usize = 0;
            assert(start =~= start.union(normals(text::texts(group.files@).take(0))));
            while k < group.files.len()
                invariant
                    k <= group.files@.len(),
                    searched.well_formed(),
                    searched@ =~= start.union(normals(text::texts(group.files@).take(k as int))),
                decreases group.files@.len() - k,
            {
                let ghost files = text::texts(group.files@);
                searched.insert(norm_path(group.files[k].as_str()));
                proof {
                    assert(files[k as int] == group.files@[k as int]@);
                    lemma_normals_push(files.take(k as int), files[k as int]);
                    assert(files.take(k + 1) =~= files.take(k as int).push(files[k as int]));
                }
                k += 1;
            }
            proof {
                let files = text::texts(group.files@);
                assert(files.take(k as int) =~= files);
                assert(groups[i as int].1 == files);
                lemma_searched_next(next, runs);
            }
            langs.push(group.lang.clone());
            assert(text::texts(langs@) =~= named.push(groups[i as int].0));
            let ghost added = found::nodes(one@);
            ag.append(&mut one);
            assert(found::nodes(ag@) =~= had + added);
        } else {
            proof {
                assert(runs[i as int] =~= Seq::<Node>::empty());
                lemma_searched_next(next, runs);
            }
        }
        i += 1;
    }
    assert(runs.take(i as int) =~= runs);
    assert(groups.take(i as int) =~= groups);
    (ag, searched, langs)
}

/// The normal paths of some files.
spec fn normals(files: Seq<Seq<char>>) -> Set<Seq<char>> {
    Set::new(
        |path: Seq<char>|
            exists|k: int| 0 <= k < files.len() && paths::normal(#[trigger] files[k]) == path,
    )
}

proof fn lemma_normals_push(files: Seq<Seq<char>>, f: Seq<char>)
    ensures
        normals(files.push(f)) =~= normals(files).insert(paths::normal(f)),
{
    let more = files.push(f);
    assert forall|path: Seq<char>| #[trigger] normals(more).contains(path) <==> normals(
        files,
    ).insert(paths::normal(f)).contains(path) by {
        if normals(more).contains(path) {
            let k = choose|k: int|
                0 <= k < more.len() && paths::normal(#[trigger] more[k]) == path;
            if k < files.len() {
                assert(paths::normal(files[k]) == path);
            }
        }
        if normals(files).contains(path) {
            let k = choose|k: int|
                0 <= k < files.len() && paths::normal(#[trigger] files[k]) == path;
            assert(paths::normal(more[k]) == path);
        }
        if path == paths::normal(f) {
            assert(paths::normal(more[files.len() as int]) == path);
        }
    }
}

/// What one more language adds to the files that ast-grep looked into.
proof fn lemma_searched_next(groups: Seq<(Seq<char>, Seq<Seq<char>>)>, found: Seq<Seq<Node>>)
    requires
        groups.len() > 0,
    ensures
        searched_files(groups, found) =~= if found[groups.len() - 1].len() > 0 {
            searched_files(groups.drop_last(), found).union(normals(groups.last().1))
        } else {
            searched_files(groups.drop_last(), found)
        },
{
    let front = groups.drop_last();
    let n = groups.len() - 1;
    assert forall|path: Seq<char>| #[trigger] searched_files(groups, found).contains(path)
        <==> searched_files(front, found).contains(path) || (found[n].len() > 0 && normals(
        groups[n].1,
    ).contains(path)) by {
        if searched_files(groups, found).contains(path) {
            let (i, k) = choose|i: int, k: int|
                0 <= i < groups.len() && found[i].len() > 0 && 0 <= k < groups[i].1.len()
                    && paths::normal(#[trigger] groups[i].1[k]) == path;
            if i < n {
                assert(paths::normal(front[i].1[k]) == path);
            }
        }
        if searched_files(front, found).contains(path) {
            let (i, k) = choose|i: int, k: int|
                0 <= i < front.len() && found[i].len() > 0 && 0 <= k < front[i].1.len()
                    && paths::normal(#[trigger] front[i].1[k]) == path;
            assert(paths::normal(groups[i].1[k]) == path);
        }
        if found[n].len() > 0 && normals(groups[n].1).contains(path) {
            let k = choose|k: int|
                0 <= k < groups[n].1.len() && paths::normal(#[trigger] groups[n].1[k]) == path;
            assert(paths::normal(groups[n].1[k]) == path);
        }
    }
}

/// Whether a run gave `out` for a language and its files.
pub open spec fn gave<F: Fn(&str, &[String]) -> Vec<AgMatch>>(
    run: F,
    group: (Seq<char>, Seq<Seq<char>>),
    out: Vec<AgMatch>,
) -> bool {
    exists|l: &str, s: &[String]|
        l@ == group.0 && text::texts(s@) == group.1 && #[trigger] run.ensures((l, s), out)
}

/// Runs ast-grep once for each language, on the files of that language and in the order of the
/// languages, and puts together what it reported.
pub fn confirm_by_language<F: Fn(&str, &[String]) -> Vec<AgMatch>>(
    by_lang: &LangGroups,
    run: F,
) -> (r: (Vec<AgMatch>, PathSet, Vec<String>))
    requires
        forall|l: &str, s: &[String]| run.requires((l, s)),
    ensures
        r.1.well_formed(),
        exists|found: Seq<Vec<AgMatch>>|
            {
                &&& found.len() == by_lang@.len()
                &&& forall|i: int|
                    0 <= i < found.len() ==> gave(run, by_lang@[i], #[trigger] found[i])
                &&& found::nodes(r.0@) == all_found(#[trigger] found_by(found))
                &&& r.1@ == searched_files(by_lang@, found_by(found))
                &&& text::texts(r.2@) == confirming(by_lang@, found_by(found))
            },
{
    let mut found: Vec<Vec<AgMatch>> = Vec::new();
    let total: usize = by_lang.len();
    let mut i: usize = 0;
    while i < total
        invariant
            total == by_lang@.len(),
            forall|l: &str, s: &[String]| run.requires((l, s)),
            i <= total,
            found@.len() == i,
            forall|j: int| 0 <= j < i ==> gave(run, by_lang@[j], #[trigger] found@[j]),
        decreases total - i,
    {
        let group = by_lang.at(i);
        let l: &str = group.lang.as_str();
        let s: &[String] = group.files.as_slice();
        let out: Vec<AgMatch> = run(l, s);
        assert(gave(run, by_lang@[i as int], out));
        found.push(out);
        i += 1;
    }
    merge_confirmations(by_lang, found)
}

} // verus!
