//! What is read from what the two tools print.

use crate::found;
use crate::found::{Captured, Hit, Node, Said};
use crate::json;
use crate::json::JsonTree;
use crate::text;
use crate::text_laws;
use vstd::prelude::*;

verus! {

/// A record of ripgrep's of the type `match` that gives a path, a line number and a line is a match
/// there: the file and the number as they are given, and the line without its ending and otherwise
/// character for character. One that lacks any of the three cannot be read, and a record of any
/// other type is no match.
pub proof fn match_records_are_matches(
    kind: Option<Seq<char>>,
    file: Option<Seq<char>>,
    number: Option<u64>,
    line: Option<Seq<char>>,
    body: Seq<char>,
    carriage: Seq<char>,
    feeds: Seq<char>,
)
    requires
        body.len() > 0 ==> body.last() != '\n' && body.last() != '\r',
        forall|i: int| 0 <= i < carriage.len() ==> #[trigger] carriage[i] == '\r',
        forall|i: int| 0 <= i < feeds.len() ==> #[trigger] feeds[i] == '\n',
    ensures
        kind != Some("match"@) ==> found::said_by(kind, file, number, line) == Said::Other,
        kind == Some("match"@) && (file is None || number is None || line is None)
            ==> found::said_by(kind, file, number, line) == Said::Unreadable,
        kind == Some("match"@) && file is Some && number is Some && line == Some(
            body + carriage + feeds,
        ) ==> found::said_by(kind, file, number, line) == Said::Match(
            Hit { file: file->0, line: number->0, text: body },
        ),
{
    let front = body + carriage;
    assert(front.len() > 0 ==> front.last() != '\n') by {
        if carriage.len() > 0 {
            assert(front.last() == carriage[carriage.len() - 1]);
        } else {
            assert(front =~= body);
        }
    }
    text_laws::a_trailing_run_is_stripped(front, feeds, '\n');
    text_laws::a_trailing_run_is_stripped(body, carriage, '\r');
}

/// Where ripgrep's documents hold what they say: the type in `type`, the file in the `text` of the
/// `path` of `data`, the number in its `line_number`, and the line in the `text` of its `lines`. No
/// document cannot be read.
pub proof fn records_hold_their_parts(d: JsonTree)
    ensures
        ({
            let at = |t: Option<JsonTree>, key: Seq<char>|
                match t {
                    Some(x) => json::member_of(x, key),
                    None => None,
                };
            let written = |t: Option<JsonTree>|
                match t {
                    Some(JsonTree::Text(s)) => Some(s),
                    _ => None,
                };
            let counted = |t: Option<JsonTree>|
                match t {
                    Some(JsonTree::Number(n)) => n,
                    _ => None,
                };
            let data = at(Some(d), "data"@);
            found::said_in(Some(d)) == found::said_by(
                written(at(Some(d), "type"@)),
                written(at(at(data, "path"@), "text"@)),
                counted(at(data, "line_number"@)),
                written(at(at(data, "lines"@), "text"@)),
            )
        }),
        found::said_in(None) == Said::Unreadable,
{
    lemma_members(d, "type"@, Seq::empty(), Seq::empty());
    lemma_members(d, "data"@, "path"@, "text"@);
    lemma_members(d, "data"@, "line_number"@, Seq::empty());
    lemma_members(d, "data"@, "lines"@, "text"@);
}

/// A path of names leads from member to member.
proof fn lemma_members(d: JsonTree, a: Seq<char>, b: Seq<char>, c: Seq<char>)
    ensures
        json::member_at(d, seq![a]) == json::member_of(d, a),
        json::member_at(d, seq![a, b]) == match json::member_of(d, a) {
            Some(x) => json::member_of(x, b),
            None => None,
        },
        json::member_at(d, seq![a, b, c]) == match json::member_at(d, seq![a, b]) {
            Some(x) => json::member_of(x, c),
            None => None,
        },
{
    assert(seq![a].drop_last() =~= Seq::<Seq<char>>::empty());
    assert(json::member_at(d, Seq::<Seq<char>>::empty()) == Some(d));
    assert(seq![a, b].drop_last() =~= seq![a]);
    assert(seq![a, b, c].drop_last() =~= seq![a, b]);
}

/// A line is read as the document that it holds, whatever white space stands around it.
pub proof fn white_space_around_a_record_is_nothing(
    a: Seq<char>,
    line: Seq<char>,
    b: Seq<char>,
)
    requires
        forall|i: int| 0 <= i < a.len() ==> text::whitespace(#[trigger] a[i]),
        forall|i: int| 0 <= i < b.len() ==> text::whitespace(#[trigger] b[i]),
        line.len() > 0 ==> !text::whitespace(line[0]) && !text::whitespace(line.last()),
    ensures
        found::said(a + line + b) == found::said_in(json::json_document(line)),
        found::document_on(a + line + b) == if line.len() > 0 {
            json::json_document(line)
        } else {
            None
        },
{
    text_laws::trimming_leaves_the_text(a, line, b);
}

/// One more record adds its match, if it is one, behind the others, and counts as unreadable where
/// it cannot be read.
pub proof fn one_more_record(records: Seq<Said>, r: Said)
    ensures
        found::hits_in(records.push(r)) == match r {
            Said::Match(h) => found::hits_in(records).push(h),
            _ => found::hits_in(records),
        },
        found::unreadable_in(records.push(r)) == found::unreadable_in(records) + if r
            == Said::Unreadable {
            1int
        } else {
            0int
        },
        found::hits_in(Seq::empty()) == Seq::<Hit>::empty(),
        found::unreadable_in(Seq::empty()) == 0,
{
    assert(records.push(r).drop_last() =~= records);
    assert(r is Unreadable <==> r == Said::Unreadable);
}

proof fn lemma_records_front(r: Said, records: Seq<Said>)
    ensures
        found::hits_in(seq![r] + records) == match r {
            Said::Match(h) => seq![h] + found::hits_in(records),
            _ => found::hits_in(records),
        },
        found::unreadable_in(seq![r] + records) == found::unreadable_in(records) + if r is Unreadable {
            1int
        } else {
            0int
        },
    decreases records.len(),
{
    let all = seq![r] + records;
    if records.len() == 0 {
        assert(all.drop_last() =~= Seq::<Said>::empty());
        assert(all.last() == r);
        assert(records =~= Seq::<Said>::empty());
        assert(found::hits_in(Seq::<Said>::empty()) =~= Seq::<Hit>::empty());
        assert(found::unreadable_in(Seq::<Said>::empty()) == 0);
        if r is Match {
            assert(Seq::<Hit>::empty().push(r->Match_0) =~= seq![r->Match_0] + Seq::<Hit>::empty());
        }
    } else {
        assert(all.drop_last() =~= seq![r] + records.drop_last());
        assert(all.last() == records.last());
        lemma_records_front(r, records.drop_last());
        if r is Match && records.last() is Match {
            let before = found::hits_in(records.drop_last());
            let h = records.last()->Match_0;
            assert((seq![r->Match_0] + before).push(h) =~= seq![r->Match_0] + before.push(h));
        }
    }
}

/// ripgrep's output is read line by line: the match on the first line comes first, and then those
/// on the lines behind it; a line that cannot be read is counted, and takes nothing from the others.
pub proof fn output_is_read_line_by_line(line: Seq<char>, rest: Seq<char>)
    requires
        !line.contains('\n'),
        line.len() > 0 ==> line.last() != '\r',
    ensures
        ({
            let whole = line + seq!['\n'] + rest;
            &&& found::said_hits(whole) == match found::said(line) {
                Said::Match(h) => seq![h] + found::said_hits(rest),
                _ => found::said_hits(rest),
            }
            &&& found::said_unreadable(whole) == found::said_unreadable(rest) + if found::said(line)
                == Said::Unreadable {
                1int
            } else {
                0int
            }
        }),
        found::said_hits(Seq::empty()) == Seq::<Hit>::empty(),
        found::said_unreadable(Seq::empty()) == 0,
{
    text_laws::a_line_ends_at_its_feed(line, rest);
    let whole = line + seq!['\n'] + rest;
    assert(found::said_by_lines(text::lines(whole)) =~= seq![found::said(line)]
        + found::said_by_lines(text::lines(rest)));
    lemma_records_front(found::said(line), found::said_by_lines(text::lines(rest)));
    assert(found::said(line) is Unreadable <==> found::said(line) == Said::Unreadable);
}

/// What came of a capture run: a failure where it was ended by a signal or with a code above 1;
/// otherwise nothing to go by where a line could not be read; otherwise the matches, which are too
/// many for ast-grep from the ten thousand and first on.
pub proof fn captures_are_judged(code: Option<i32>, hits: Seq<Hit>, unreadable: nat)
    ensures
        ({
            let r = found::judged(code, hits, unreadable);
            let ran = code is Some && code->0 <= 1;
            &&& !ran ==> r == Captured::Failed
            &&& ran && unreadable > 0 ==> r == Captured::Unparseable
            &&& ran && unreadable == 0 && hits.len() > 10_000 ==> r == Captured::OverCap(hits)
            &&& ran && unreadable == 0 && hits.len() <= 10_000 ==> r == Captured::Matches(hits)
        }),
{
}

/// A piece of code that ast-grep reports is in the file that it names, from the line that it starts
/// at to the line that it ends at, counted from one where ast-grep counts from zero; a line that is
/// not given is the first. Its text is that of its lines, or else what matched.
pub proof fn reports_are_counted_from_one(
    file: Option<Seq<char>>,
    start: Option<u64>,
    end: Option<u64>,
    lines: Option<Seq<char>>,
    matched: Option<Seq<char>>,
)
    requires
        start != Some(u64::MAX),
        end != Some(u64::MAX),
    ensures
        ({
            let n = found::node_by(file, start, end, lines, matched);
            &&& n.file == if file is Some {
                file->0
            } else {
                Seq::empty()
            }
            &&& n.line == if start is Some {
                start->0 + 1
            } else {
                1
            }
            &&& n.end_line == if end is Some {
                end->0 + 1
            } else {
                1
            }
            &&& n.text == if lines is Some {
                lines->0
            } else if matched is Some {
                matched->0
            } else {
                Seq::empty()
            }
        }),
{
}

/// Where ast-grep's documents hold what they report: the file in `file`, the lines in the `line` of
/// the `start` and of the `end` of `range`, and the text in `lines` and in `text`.
pub proof fn reports_hold_their_parts(d: JsonTree)
    ensures
        ({
            let at = |t: Option<JsonTree>, key: Seq<char>|
                match t {
                    Some(x) => json::member_of(x, key),
                    None => None,
                };
            let written = |t: Option<JsonTree>|
                match t {
                    Some(JsonTree::Text(s)) => Some(s),
                    _ => None,
                };
            let counted = |t: Option<JsonTree>|
                match t {
                    Some(JsonTree::Number(n)) => n,
                    _ => None,
                };
            let range = at(Some(d), "range"@);
            found::node_in(d) == found::node_by(
                written(at(Some(d), "file"@)),
                counted(at(at(range, "start"@), "line"@)),
                counted(at(at(range, "end"@), "line"@)),
                written(at(Some(d), "lines"@)),
                written(at(Some(d), "text"@)),
            )
        }),
{
    lemma_members(d, "file"@, Seq::empty(), Seq::empty());
    lemma_members(d, "range"@, "start"@, "line"@);
    lemma_members(d, "range"@, "end"@, "line"@);
    lemma_members(d, "lines"@, Seq::empty(), Seq::empty());
    lemma_members(d, "text"@, Seq::empty(), Seq::empty());
}

/// One more line of ast-grep's output adds the piece of code that it reports behind the others, and
/// none where it holds no document.
pub proof fn one_more_line_of_reports(lines: Seq<Seq<char>>, line: Seq<char>)
    ensures
        found::reported(lines.push(line)) == match found::document_on(line) {
            Some(d) => found::reported(lines).push(found::node_in(d)),
            None => found::reported(lines),
        },
        found::reported(Seq::empty()) == Seq::<Node>::empty(),
{
    assert(lines.push(line).drop_last() =~= lines);
}

/// The line numbers on a line of ast-grep's output can be counted from one unless one of them is the
/// largest number there is.
pub proof fn only_the_largest_number_is_uncountable(line: Seq<char>)
    ensures
        found::countable(line) <==> (found::document_on(line) is Some ==> found::start_in(
            found::document_on(line)->0,
        ) != Some(u64::MAX) && found::end_in(found::document_on(line)->0) != Some(u64::MAX)),
{
}

/// Output can be counted where each of its lines can.
pub proof fn output_is_countable_by_its_lines(lines: Seq<Seq<char>>, line: Seq<char>)
    ensures
        found::all_countable(lines.push(line)) <==> found::all_countable(lines) && found::countable(
            line,
        ),
        found::all_countable(Seq::empty()),
{
    let more = lines.push(line);
    if found::all_countable(more) {
        assert(found::countable(more[lines.len() as int]));
        assert forall|i: int| 0 <= i < lines.len() implies found::countable(#[trigger] lines[i]) by {
            assert(more[i] == lines[i]);
        }
    }
}

/// A way of names into a document leads from member to member, and ends where there is none.
pub proof fn ways_lead_from_member_to_member(d: JsonTree, way: Seq<Seq<char>>, key: Seq<char>)
    ensures
        json::member_at(d, way.push(key)) == match json::member_at(d, way) {
            Some(x) => json::member_of(x, key),
            None => None,
        },
        json::member_at(d, Seq::empty()) == Some(d),
{
    assert(way.push(key).drop_last() =~= way);
}

} // verus!
