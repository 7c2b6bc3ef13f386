//! What holds of every output.

use crate::args::Invocation;
use crate::found::Hit;
use crate::layout;
use crate::order;
use crate::render;
use crate::render::OutputMode;
use crate::text;
use vstd::prelude::*;

verus! {

/// The matches in a file are those of the list that are in it.
proof fn lemma_of_file_count(hits: Seq<Hit>, file: Seq<char>, h: Hit)
    ensures
        render::of_file(hits, file).to_multiset().count(h) == if h.file == file {
            hits.to_multiset().count(h)
        } else {
            0
        },
    decreases hits.len(),
{
    hits.to_multiset_ensures();
    if hits.len() > 0 {
        let shorter = hits.drop_last();
        let part = render::of_file(shorter, file);
        lemma_of_file_count(shorter, file, h);
        shorter.to_multiset_ensures();
        part.to_multiset_ensures();
        assert(hits =~= shorter.push(hits.last()));
    }
}

/// A shorter list of files in order is in order.
proof fn lemma_front_increasing(files: Seq<Seq<char>>)
    requires
        order::increasing(files),
        files.len() > 0,
    ensures
        order::increasing(files.drop_last()),
        !files.drop_last().contains(files.last()),
{
    let shorter = files.drop_last();
    assert forall|i: int, j: int| 0 <= i < j < shorter.len() implies order::less(
        #[trigger] shorter[i],
        #[trigger] shorter[j],
    ) by {
        assert(order::less(files[i], files[j]));
    }
    if shorter.contains(files.last()) {
        let k = choose|k: int| 0 <= k < shorter.len() && shorter[k] == files.last();
        assert(order::less(files[k], files[files.len() - 1]));
        order::less_irreflexive(files.last());
    }
}

/// The matches in some files are those of the list that are in one of them.
proof fn lemma_in_files_count(hits: Seq<Hit>, files: Seq<Seq<char>>, h: Hit)
    requires
        order::increasing(files),
    ensures
        render::in_files(hits, files).to_multiset().count(h) == if files.contains(h.file) {
            hits.to_multiset().count(h)
        } else {
            0
        },
    decreases files.len(),
{
    let all = render::in_files(hits, files);
    all.to_multiset_ensures();
    if files.len() > 0 {
        let shorter = files.drop_last();
        lemma_front_increasing(files);
        lemma_in_files_count(hits, shorter, h);
        lemma_of_file_count(hits, files.last(), h);
        vstd::seq_lib::lemma_multiset_commutative(
            render::in_files(hits, shorter),
            render::of_file(hits, files.last()),
        );
        text::lemma_contains_last(files, h.file);
    }
}

/// Putting matches in the order of their files loses none, adds none and merges none.
pub proof fn ordering_keeps_every_match(hits: Seq<Hit>)
    ensures
        render::by_file(hits).to_multiset() == hits.to_multiset(),
        render::by_file(hits).len() == hits.len(),
{
    let files = render::files_of(hits);
    let all = render::by_file(hits);
    order::sorted_is_sorted(files);
    hits.to_multiset_ensures();
    all.to_multiset_ensures();
    assert forall|h: Hit| #[trigger] all.to_multiset().count(h) == hits.to_multiset().count(h) by {
        lemma_in_files_count(hits, order::sorted(files), h);
        if hits.to_multiset().count(h) > 0 {
            assert(hits.contains(h));
            let k = choose|k: int| 0 <= k < hits.len() && hits[k] == h;
            assert(files[k] == h.file);
            assert(files.contains(h.file));
        }
        assert(order::sorted(files).contains(h.file) <==> files.contains(h.file));
    }
    assert(all.to_multiset() =~= hits.to_multiset());
}

/// The matches in a file are in it.
proof fn lemma_of_file(hits: Seq<Hit>, file: Seq<char>)
    ensures
        forall|i: int|
            0 <= i < render::of_file(hits, file).len() ==> (#[trigger] render::of_file(
                hits,
                file,
            )[i]).file == file,
    decreases hits.len(),
{
    if hits.len() > 0 {
        let part = render::of_file(hits, file);
        let before = render::of_file(hits.drop_last(), file);
        lemma_of_file(hits.drop_last(), file);
        assert forall|i: int| 0 <= i < part.len() implies (#[trigger] part[i]).file == file by {
            if i < before.len() {
                assert(part[i] == before[i]);
            }
        }
    }
}

/// The matches in some files in order are in those files, and in order.
proof fn lemma_in_files_order(hits: Seq<Hit>, files: Seq<Seq<char>>)
    requires
        order::increasing(files),
    ensures
        ({
            let all = render::in_files(hits, files);
            &&& forall|i: int| 0 <= i < all.len() ==> files.contains((#[trigger] all[i]).file)
            &&& forall|i: int, j: int|
                0 <= i < j < all.len() ==> !order::less(
                    (#[trigger] all[j]).file,
                    (#[trigger] all[i]).file,
                )
        }),
    decreases files.len(),
{
    if files.len() > 0 {
        let shorter = files.drop_last();
        let f = files.last();
        let all = render::in_files(hits, files);
        let a = render::in_files(hits, shorter);
        let b = render::of_file(hits, f);
        lemma_front_increasing(files);
        lemma_in_files_order(hits, shorter);
        lemma_of_file(hits, f);
        order::less_irreflexive(f);
        assert forall|i: int| 0 <= i < all.len() implies files.contains(
            (#[trigger] all[i]).file,
        ) by {
            text::lemma_contains_last(files, all[i].file);
            if i < a.len() {
                assert(all[i] == a[i]);
            } else {
                assert(all[i] == b[i - a.len()]);
            }
        }
        assert forall|i: int, j: int| 0 <= i < j < all.len() implies !order::less(
            (#[trigger] all[j]).file,
            (#[trigger] all[i]).file,
        ) by {
            if j < a.len() {
                assert(all[i] == a[i] && all[j] == a[j]);
            } else {
                assert(all[j] == b[j - a.len()]);
                if i < a.len() {
                    assert(all[i] == a[i]);
                    let k = choose|k: int| 0 <= k < shorter.len() && shorter[k] == a[i].file;
                    assert(order::less(files[k], files[files.len() - 1]));
                    order::less_total(a[i].file, f);
                } else {
                    assert(all[i] == b[i - a.len()]);
                }
            }
        }
    }
}

/// Matches in the order of their files: no file comes behind one that it should come before.
pub proof fn files_come_in_order(hits: Seq<Hit>)
    ensures
        forall|i: int, j: int|
            0 <= i < j < render::by_file(hits).len() ==> !order::less(
                (#[trigger] render::by_file(hits)[j]).file,
                (#[trigger] render::by_file(hits)[i]).file,
            ),
{
    order::sorted_is_sorted(render::files_of(hits));
    lemma_in_files_order(hits, order::sorted(render::files_of(hits)));
}

proof fn lemma_of_file_add(a: Seq<Hit>, b: Seq<Hit>, file: Seq<char>)
    ensures
        render::of_file(a + b, file) == render::of_file(a, file) + render::of_file(b, file),
    decreases b.len(),
{
    if b.len() == 0 {
        assert(a + b =~= a);
        assert(render::of_file(a, file) + render::of_file(b, file) =~= render::of_file(a, file));
    } else {
        assert((a + b).drop_last() =~= a + b.drop_last());
        assert((a + b).last() == b.last());
        lemma_of_file_add(a, b.drop_last(), file);
        if b.last().file == file {
            assert(render::of_file(a, file) + render::of_file(b.drop_last(), file).push(b.last())
                =~= (render::of_file(a, file) + render::of_file(b.drop_last(), file)).push(
                b.last(),
            ));
        }
    }
}

/// A list of matches that are all in one file holds those of that file and no others.
proof fn lemma_of_one_file(hits: Seq<Hit>, file: Seq<char>, one: Seq<char>)
    requires
        forall|i: int| 0 <= i < hits.len() ==> (#[trigger] hits[i]).file == one,
    ensures
        render::of_file(hits, file) == if file == one {
            hits
        } else {
            Seq::empty()
        },
    decreases hits.len(),
{
    if hits.len() > 0 {
        assert(hits[hits.len() - 1].file == one);
        lemma_of_one_file(hits.drop_last(), file, one);
        assert(hits.drop_last().push(hits.last()) =~= hits);
    } else {
        assert(hits =~= Seq::empty());
    }
}

proof fn lemma_of_file_in_files(hits: Seq<Hit>, files: Seq<Seq<char>>, file: Seq<char>)
    requires
        order::increasing(files),
    ensures
        render::of_file(render::in_files(hits, files), file) == if files.contains(file) {
            render::of_file(hits, file)
        } else {
            Seq::empty()
        },
    decreases files.len(),
{
    if files.len() > 0 {
        let shorter = files.drop_last();
        let f = files.last();
        let b = render::of_file(hits, f);
        lemma_front_increasing(files);
        lemma_of_file_in_files(hits, shorter, file);
        lemma_of_file_add(render::in_files(hits, shorter), b, file);
        lemma_of_file(hits, f);
        lemma_of_one_file(b, file, f);
        text::lemma_contains_last(files, file);
        assert(render::of_file(render::in_files(hits, files), file) =~= if files.contains(file) {
            render::of_file(hits, file)
        } else {
            Seq::empty()
        });
    }
}

/// There are matches in the files of the matches, and in no others.
proof fn lemma_files_of(hits: Seq<Hit>, file: Seq<char>)
    ensures
        render::files_of(hits).contains(file) <==> render::of_file(hits, file).len() > 0,
        order::occurrences(render::files_of(hits), file) == render::of_file(hits, file).len(),
    decreases hits.len(),
{
    let files = render::files_of(hits);
    if hits.len() > 0 {
        lemma_files_of(hits.drop_last(), file);
        assert(files.drop_last() =~= render::files_of(hits.drop_last()));
    }
    order::lemma_occurrences(files, file);
}

/// Putting matches in the order of their files leaves those in one file in the order in which they
/// came.
pub proof fn matches_of_a_file_keep_their_order(hits: Seq<Hit>, file: Seq<char>)
    ensures
        render::of_file(render::by_file(hits), file) == render::of_file(hits, file),
{
    let files = render::files_of(hits);
    order::sorted_is_sorted(files);
    lemma_of_file_in_files(hits, order::sorted(files), file);
    lemma_files_of(hits, file);
    assert(order::sorted(files).contains(file) <==> files.contains(file));
    assert(render::of_file(render::by_file(hits), file) =~= render::of_file(hits, file));
}

proof fn lemma_in_files_same(a: Seq<Hit>, b: Seq<Hit>, files: Seq<Seq<char>>)
    requires
        forall|file: Seq<char>| #[trigger] render::of_file(a, file) == render::of_file(b, file),
    ensures
        render::in_files(a, files) == render::in_files(b, files),
    decreases files.len(),
{
    if files.len() > 0 {
        lemma_in_files_same(a, b, files.drop_last());
        assert(render::of_file(a, files.last()) == render::of_file(b, files.last()));
    }
}

/// The order in which a search comes across the files does not show: searches that find the same in
/// each file print the same.
pub proof fn output_is_stable(a: Seq<Hit>, b: Seq<Hit>, mode: OutputMode)
    requires
        forall|file: Seq<char>| #[trigger] render::of_file(a, file) == render::of_file(b, file),
    ensures
        render::output_lines(a, mode) == render::output_lines(b, mode),
{
    let x = render::files_of(a);
    let y = render::files_of(b);
    assert forall|s: Seq<char>| #[trigger] x.contains(s) <==> y.contains(s) by {
        lemma_files_of(a, s);
        lemma_files_of(b, s);
        assert(render::of_file(a, s) == render::of_file(b, s));
    }
    order::sorted_forgets_the_order(x, y);
    lemma_in_files_same(a, b, order::sorted(x));
    ordering_keeps_every_match(a);
    ordering_keeps_every_match(b);
    assert(order::tallied(x) =~= order::tallied(y)) by {
        assert forall|i: int| 0 <= i < order::sorted(x).len() implies order::tallied(x)[i]
            == order::tallied(y)[i] by {
            let s = order::sorted(x)[i];
            lemma_files_of(a, s);
            lemma_files_of(b, s);
            assert(render::of_file(a, s) == render::of_file(b, s));
        }
    }
    assert(render::output_lines(a, mode) =~= render::output_lines(b, mode));
}

/// One more match in a list is one more in its file, behind the others, and changes nothing of the
/// other files.
pub proof fn one_more_match_in_a_file(hits: Seq<Hit>, h: Hit, file: Seq<char>)
    ensures
        render::of_file(hits.push(h), file) == if h.file == file {
            render::of_file(hits, file).push(h)
        } else {
            render::of_file(hits, file)
        },
        render::of_file(Seq::empty(), file) == Seq::<Hit>::empty(),
{
    assert(hits.push(h).drop_last() =~= hits);
    assert(hits.push(h).last() == h);
}

/// A line of output is the name of the file, a colon, the number of the line and a colon where it is
/// asked for, the text of the match character for character, and a line feed.
pub proof fn a_line_holds_its_match(h: Hit, numbers: bool)
    ensures
        ({
            let line = render::match_line(h, numbers);
            let digits = if numbers {
                layout::decimal(h.line as nat)
            } else {
                Seq::empty()
            };
            let from = h.file.len() + digits.len() + if numbers {
                2int
            } else {
                1int
            };
            &&& line.len() == from + h.text.len() + 1
            &&& line.take(h.file.len() as int) == h.file
            &&& line[h.file.len() as int] == ':'
            &&& numbers ==> line.subrange(
                h.file.len() as int + 1,
                h.file.len() as int + 1 + digits.len(),
            ) == digits && line[from - 1] == ':'
            &&& line.subrange(from, from + h.text.len()) == h.text
            &&& line.last() == '\n'
        }),
{
    reveal_strlit(":");
    reveal_strlit("\n");
    let line = render::match_line(h, numbers);
    let digits = if numbers {
        layout::decimal(h.line as nat)
    } else {
        Seq::empty()
    };
    let from = h.file.len() + digits.len() + if numbers {
        2int
    } else {
        1int
    };
    assert(line.take(h.file.len() as int) =~= h.file);
    assert(line.subrange(from, from + h.text.len()) =~= h.text);
    if numbers {
        assert(line.subrange(h.file.len() as int + 1, h.file.len() as int + 1 + digits.len())
            =~= digits);
    }
}

/// Lines of two matches in the same file, and of the same number, are the same only where their
/// texts are.
pub proof fn lines_tell_texts_apart(a: Hit, b: Hit, numbers: bool)
    requires
        a.file == b.file,
        a.line == b.line,
        render::match_line(a, numbers) == render::match_line(b, numbers),
    ensures
        a.text == b.text,
{
    a_line_holds_its_match(a, numbers);
    a_line_holds_its_match(b, numbers);
}

/// What is printed: every match on a line of its own, in the order of their files; or for every file
/// with a match, in order, its name and how many matches it has; or how many matches there are; or
/// the names of the files that have one, in order and each of them once.
pub proof fn output_by_mode(hits: Seq<Hit>, k: int)
    ensures
        ({
            let files = order::sorted(render::files_of(hits));
            let content = |numbers: bool|
                render::output_lines(hits, OutputMode::Content { line_numbers: numbers });
            let counts = render::output_lines(hits, OutputMode::Count { show_filename: true });
            let names = render::output_lines(hits, OutputMode::FilesWithMatches);
            &&& content(true).len() == hits.len() && content(false).len() == hits.len()
            &&& 0 <= k < hits.len() ==> content(true)[k] == render::match_line(
                render::by_file(hits)[k],
                true,
            ) && content(false)[k] == render::match_line(render::by_file(hits)[k], false)
            &&& counts.len() == files.len() && names.len() == files.len()
            &&& 0 <= k < files.len() ==> counts[k] == files[k] + seq![':'] + layout::decimal(
                render::of_file(hits, files[k]).len(),
            ) + seq!['\n'] && names[k] == files[k] + seq!['\n']
            &&& render::output_lines(hits, OutputMode::Count { show_filename: false }) == seq![
                layout::decimal(hits.len()) + seq!['\n'],
            ]
        }),
        0 <= k < hits.len() ==> render::files_of(hits)[k] == hits[k].file,
        render::files_of(hits).len() == hits.len(),
{
    reveal_strlit(":");
    reveal_strlit("\n");
    assert(":"@ =~= seq![':']);
    assert("\n"@ =~= seq!['\n']);
    ordering_keeps_every_match(hits);
    let files = order::sorted(render::files_of(hits));
    if 0 <= k < files.len() {
        lemma_files_of(hits, files[k]);
    }
}

/// What a call asks to be printed. Counting goes before naming files, and naming files before the
/// lines. A count has the names of the files unless the one path that is searched is a file; lines
/// have their numbers where that is asked for or, where nothing is said of them, on a terminal.
pub proof fn modes_by_flags(call: Invocation, first_is_file: bool, on_tty: bool)
    ensures
        ({
            let mode = render::mode_of(call, first_is_file, on_tty);
            &&& call.count ==> (mode matches OutputMode::Count { show_filename } && show_filename
                == (call.paths.len() != 1 || !first_is_file))
            &&& !call.count && call.files_with_matches ==> mode == OutputMode::FilesWithMatches
            &&& !call.count && !call.files_with_matches ==> (
            mode matches OutputMode::Content { line_numbers } && line_numbers == (if call.line_numbers
                is Some {
                call.line_numbers->0
            } else {
                on_tty
            }))
        }),
{
}

} // verus!
