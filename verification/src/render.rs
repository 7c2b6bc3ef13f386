//! Matches as ripgrep prints them.

use crate::args::{Invocation, RgInvocation};
use crate::found;
use crate::found::{Hit, RgMatch};
use crate::layout;
use crate::layout::push_decimal;
use crate::order;
use crate::order::{find_place, sort_texts, tally};
use crate::text;
use vstd::prelude::*;
use vstd::string::*;

verus! {

/// What is printed of the matches.
#[derive(Debug, Clone, Copy, PartialEq, Eq, Structural)]
pub enum OutputMode {
    /// Every line that matches, behind the name of its file and, where asked for, its number.
    Content { line_numbers: bool },
    /// The number of matches: for each file behind its name, or of all of them.
    Count { show_filename: bool },
    /// The files that have matches.
    FilesWithMatches,
}

/// What is printed for a call. `first_is_file` says whether the first path is a file, and `on_tty`
/// whether the output goes to a terminal.
pub open spec fn mode_of(call: Invocation, first_is_file: bool, on_tty: bool) -> OutputMode {
    if call.count {
        OutputMode::Count { show_filename: !(call.paths.len() == 1 && first_is_file) }
    } else if call.files_with_matches {
        OutputMode::FilesWithMatches
    } else {
        OutputMode::Content {
            line_numbers: match call.line_numbers {
                Some(b) => b,
                None => on_tty,
            },
        }
    }
}

/// The files of some matches, one after the other.
pub open spec fn files_of(hits: Seq<Hit>) -> Seq<Seq<char>> {
    Seq::new(hits.len(), |i: int| hits[i].file)
}

/// The matches in a file, in the order in which they come.
pub open spec fn of_file(hits: Seq<Hit>, file: Seq<char>) -> Seq<Hit>
    decreases hits.len(),
{
    if hits.len() == 0 {
        hits
    } else if hits.last().file == file {
        of_file(hits.drop_last(), file).push(hits.last())
    } else {
        of_file(hits.drop_last(), file)
    }
}

/// The matches in each of some files, file by file.
pub open spec fn in_files(hits: Seq<Hit>, files: Seq<Seq<char>>) -> Seq<Hit>
    decreases files.len(),
{
    if files.len() == 0 {
        Seq::empty()
    } else {
        in_files(hits, files.drop_last()) + of_file(hits, files.last())
    }
}

/// The matches in the order of their files. Those in one file keep the order in which they come.
pub open spec fn by_file(hits: Seq<Hit>) -> Seq<Hit> {
    in_files(hits, order::sorted(files_of(hits)))
}

/// A match as a line of output.
pub open spec fn match_line(h: Hit, numbers: bool) -> Seq<char> {
    if numbers {
        h.file + ":"@ + layout::decimal(h.line as nat) + ":"@ + h.text + "\n"@
    } else {
        h.file + ":"@ + h.text + "\n"@
    }
}

/// A file and the number of its matches as a line of output.
pub open spec fn count_line(entry: (Seq<char>, nat)) -> Seq<char> {
    entry.0 + ":"@ + layout::decimal(entry.1) + "\n"@
}

/// Some matches as lines of output, one for each.
pub open spec fn match_lines(hits: Seq<Hit>, numbers: bool) -> Seq<Seq<char>> {
    Seq::new(hits.len(), |i: int| match_line(hits[i], numbers))
}

/// Matches as lines of output, in the order of their files.
pub open spec fn output_lines(hits: Seq<Hit>, mode: OutputMode) -> Seq<Seq<char>> {
    match mode {
        OutputMode::Content { line_numbers } => match_lines(by_file(hits), line_numbers),
        OutputMode::Count { show_filename } => if show_filename {
            Seq::new(
                order::tallied(files_of(hits)).len(),
                |i: int| count_line(order::tallied(files_of(hits))[i]),
            )
        } else {
            seq![layout::decimal(hits.len()) + "\n"@]
        },
        OutputMode::FilesWithMatches => Seq::new(
            order::sorted(files_of(hits)).len(),
            |i: int| order::sorted(files_of(hits))[i] + "\n"@,
        ),
    }
}

/// What is printed for a call.
pub fn output_mode(inv: &RgInvocation, first_is_file: bool, on_tty: bool) -> (r: OutputMode)
    ensures
        r == mode_of(inv@, first_is_file, on_tty),
{
    if inv.count {
        OutputMode::Count { show_filename: !(inv.paths.len() == 1 && first_is_file) }
    } else if inv.files_with_matches {
        OutputMode::FilesWithMatches
    } else {
        OutputMode::Content {
            line_numbers: match inv.line_numbers {
                Some(b) => b,
                None => on_tty,
            },
        }
    }
}

/// The files of some matches, one after the other.
pub fn match_files(matches: &[RgMatch]) -> (r: Vec<String>)
    ensures
        text::texts(r@) == files_of(found::hits(matches@)),
{
    let ghost all = files_of(found::hits(matches@));
    let mut out: Vec<String> = Vec::new();
    let mut i: usize = 0;
    while i < matches.len()
        invariant
            all == files_of(found::hits(matches@)),
            i <= matches@.len(),
            text::texts(out@) =~= all.take(i as int),
        decreases matches@.len() - i,
    {
        let ghost before = text::texts(out@);
        out.push(matches[i].file.clone());
        assert(text::texts(out@) =~= before.push(all[i as int]));
        i += 1;
    }
    out
}

/// Appends a match as a line of output.
fn push_match(out: &mut String, m: &RgMatch, numbers: bool)
    ensures
        final(out)@ == old(out)@ + match_line(m@, numbers),
{
    out.append(m.file.as_str());
    out.append(":");
    if numbers {
        push_decimal(out, m.line);
        out.append(":");
    }
    out.append(m.text.as_str());
    out.append("\n");
    assert(out@ =~= old(out)@ + match_line(m@, numbers));
}

/// The matches at some places.
spec fn picked(hits: Seq<Hit>, places: Seq<usize>) -> Seq<Hit> {
    Seq::new(places.len(), |i: int| hits[places[i] as int])
}

/// Where the matches of each of some files stand, the files being in order and all of them.
fn places_by_file(matches: &[RgMatch], files: &Vec<String>) -> (r: Vec<Vec<usize>>)
    requires
        text::texts(files@) == order::sorted(files_of(found::hits(matches@))),
    ensures
        r@.len() == files@.len(),
        forall|j: int, k: int|
            0 <= j < r@.len() && 0 <= k < r@[j]@.len() ==> #[trigger] r@[j]@[k] < matches@.len(),
        forall|j: int|
            0 <= j < r@.len() ==> picked(found::hits(matches@), #[trigger] r@[j]@) == of_file(
                found::hits(matches@),
                files@[j]@,
            ),
{
    let ghost hits = found::hits(matches@);
    let ghost names = text::texts(files@);
    let mut places: Vec<Vec<usize>> = Vec::new();
    while places.len() < files.len()
        invariant
            places@.len() <= files@.len(),
            forall|j: int| 0 <= j < places@.len() ==> (#[trigger] places@[j])@.len() == 0,
        decreases files@.len() - places@.len(),
    {
        places.push(Vec::new());
    }
    let mut i: usize = 0;
    proof {
        order::sorted_is_sorted(files_of(hits));
        assert forall|j: int| 0 <= j < places@.len() implies picked(hits, #[trigger] places@[j]@)
            == of_file(hits.take(0), files@[j]@) by {
            assert(picked(hits, places@[j]@) =~= of_file(hits.take(0), files@[j]@));
        }
    }
    while i < matches.len()
        invariant
            hits == found::hits(matches@),
            names == text::texts(files@),
            names == order::sorted(files_of(hits)),
            order::increasing(names),
            i <= matches@.len(),
            places@.len() == files@.len(),
            forall|j: int, k: int|
                0 <= j < places@.len() && 0 <= k < places@[j]@.len() ==> #[trigger] places@[j]@[k]
                    < i,
            forall|j: int|
                0 <= j < places@.len() ==> picked(hits, #[trigger] places@[j]@) == of_file(
                    hits.take(i as int),
                    files@[j]@,
                ),
        decreases matches@.len() - i,
    {
        let p: usize = find_place(files, matches[i].file.as_str());
        let ghost f = hits[i as int].file;
        let ghost before = places@;
        proof {
            order::sorted_is_sorted(files_of(hits));
            assert(files_of(hits)[i as int] == f);
            assert(files_of(hits).contains(f));
            assert(names.contains(f));
            order::lemma_held(names, f);
            assert(names[p as int] == files@[p as int]@);
        }
        places[p].push(i);
        proof {
            let more = hits.take(i + 1);
            assert(more.drop_last() =~= hits.take(i as int));
            assert(more.last() == hits[i as int]);
            assert forall|j: int| 0 <= j < places@.len() implies picked(
                hits,
                #[trigger] places@[j]@,
            ) == of_file(more, files@[j]@) by {
                assert(names[j] == files@[j]@);
                assert(picked(hits, before[j]@) == of_file(hits.take(i as int), files@[j]@));
                if j == p {
                    assert(picked(hits, places@[j]@) =~= picked(hits, before[j]@).push(
                        hits[i as int],
                    ));
                } else {
                    assert(names[j] != f);
                }
            }
        }
        i += 1;
    }
    assert(hits.take(i as int) =~= hits);
    places
}

/// Matches as lines of output, in the order of their files.
fn render_matches(matches: &[RgMatch], numbers: bool) -> (r: String)
    ensures
        r@ == text::concat(match_lines(by_file(found::hits(matches@)), numbers)),
{
    let ghost hits = found::hits(matches@);
    let files: Vec<String> = sort_texts(&match_files(matches));
    let ghost names = text::texts(files@);
    let places: Vec<Vec<usize>> = places_by_file(matches, &files);
    let mut out = String::new();
    let ghost mut done: Seq<Hit> = Seq::empty();
    let mut j: usize = 0;
    assert(match_lines(done, numbers) =~= Seq::<Seq<char>>::empty());
    assert(out@ =~= text::concat(match_lines(done, numbers)));
    while j < places.len()
        invariant
            hits == found::hits(matches@),
            names == text::texts(files@),
            places@.len() == files@.len(),
            forall|j: int, k: int|
                0 <= j < places@.len() && 0 <= k < places@[j]@.len() ==> #[trigger] places@[j]@[k]
                    < matches@.len(),
            forall|j: int|
                0 <= j < places@.len() ==> picked(hits, #[trigger] places@[j]@) == of_file(
                    hits,
                    files@[j]@,
                ),
            j <= places@.len(),
            done == in_files(hits, names.take(j as int)),
            out@ == text::concat(match_lines(done, numbers)),
        decreases places@.len() - j,
    {
        let here: &Vec<usize> = &places[j];
        let ghost start = done;
        let ghost more = picked(hits, here@);
        let mut k: usize = 0;
        assert(done =~= start + more.take(0));
        while k < here.len()
            invariant
                hits == found::hits(matches@),
                forall|k: int| 0 <= k < here@.len() ==> #[trigger] here@[k] < matches@.len(),
                more == picked(hits, here@),
                k <= here@.len(),
                done == start + more.take(k as int),
                out@ == text::concat(match_lines(done, numbers)),
            decreases here@.len() - k,
        {
            let m: &RgMatch = &matches[here[k]];
            push_match(&mut out, m, numbers);
            proof {
                let next = done.push(m@);
                assert(more[k as int] == m@);
                assert(next =~= start + more.take(k + 1));
                assert(match_lines(next, numbers).drop_last() =~= match_lines(done, numbers));
                assert(match_lines(next, numbers).last() == match_line(m@, numbers));
                done = next;
            }
            k += 1;
        }
        proof {
            assert(more.take(k as int) =~= more);
            assert(names.take(j + 1).drop_last() =~= names.take(j as int));
            assert(names.take(j + 1).last() == files@[j as int]@);
        }
        j += 1;
    }
    assert(names.take(j as int) =~= names);
    out
}

/// Matches as ripgrep prints them, in the order of their files.
pub fn render_output(matches: &[RgMatch], mode: OutputMode) -> (r: String)
    ensures
        r@ == text::concat(output_lines(found::hits(matches@), mode)),
{
    let ghost hits = found::hits(matches@);
    let ghost lines = output_lines(hits, mode);
    let mut out = String::new();
    assert(out@ =~= text::concat(lines.take(0)));
    match mode {
        OutputMode::Content { line_numbers } => {
            out = render_matches(matches, line_numbers);
        },
        OutputMode::Count { show_filename } => {
            if show_filename {
                let per_file: Vec<(String, u64)> = tally(&match_files(matches));
                let mut i: usize = 0;
                while i < per_file.len()
                    invariant
                        lines == output_lines(hits, OutputMode::Count { show_filename: true }),
                        order::counts(per_file@) == order::tallied(files_of(hits)),
                        i <= per_file@.len(),
                        out@ == text::concat(lines.take(i as int)),
                    decreases per_file@.len() - i,
                {
                    let entry: &(String, u64) = &per_file[i];
                    let ghost before = out@;
                    out.append(entry.0.as_str());
                    out.append(":");
                    push_decimal(&mut out, entry.1);
                    out.append("\n");
                    assert(order::counts(per_file@)[i as int] == (entry.0@, entry.1 as nat));
                    assert(out@ =~= before + lines[i as int]);
                    assert(lines.take(i + 1).drop_last() =~= lines.take(i as int));
                    i += 1;
                }
                assert(lines.take(i as int) =~= lines);
            } else {
                push_decimal(&mut out, matches.len() as u64);
                out.append("\n");
                assert(lines.drop_last() =~= Seq::<Seq<char>>::empty());
                assert(text::concat(lines.drop_last()) =~= Seq::<char>::empty());
                assert(out@ =~= text::concat(lines));
            }
        },
        OutputMode::FilesWithMatches => {
            let files: Vec<String> = sort_texts(&match_files(matches));
            let mut i: usize = 0;
            while i < files.len()
                invariant
                    lines == output_lines(hits, OutputMode::FilesWithMatches),
                    text::texts(files@) == order::sorted(files_of(hits)),
                    i <= files@.len(),
                    out@ == text::concat(lines.take(i as int)),
                decreases files@.len() - i,
            {
                let ghost before = out@;
                out.append(files[i].as_str());
                out.append("\n");
                assert(text::texts(files@)[i as int] == files@[i as int]@);
                assert(out@ =~= before + lines[i as int]);
                assert(lines.take(i + 1).drop_last() =~= lines.take(i as int));
                i += 1;
            }
            assert(lines.take(i as int) =~= lines);
        },
    }
    out
}

} // verus!
