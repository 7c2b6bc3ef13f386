//! The matches that ripgrep and ast-grep report, one JSON document per line.

use crate::json;
use crate::json::{parse_value, text_at, whole_at, JsonTree};
use crate::text;
use crate::text::{
    chars_of, same_text, split_lines, string_of, trimmed, without_trailing,
};
use vstd::prelude::*;

verus! {

/// A line that ripgrep reports.
pub struct Hit {
    pub file: Seq<char>,
    pub line: u64,
    pub text: Seq<char>,
}

/// A piece of code that ast-grep reports, by its first and last line.
pub struct Node {
    pub file: Seq<char>,
    pub line: u64,
    pub end_line: u64,
    pub text: Seq<char>,
}

/// A line that ripgrep reports: a line of a file that matches.
#[derive(Debug, PartialEq)]
pub struct RgMatch {
    pub file: String,
    pub line: u64,
    pub text: String,
}

impl View for RgMatch {
    type V = Hit;

    open spec fn view(&self) -> Hit {
        Hit { file: self.file@, line: self.line, text: self.text@ }
    }
}

impl Clone for RgMatch {
    fn clone(&self) -> (r: RgMatch)
        ensures
            r@ == self@,
    {
        RgMatch { file: self.file.clone(), line: self.line, text: self.text.clone() }
    }
}

/// A piece of code that ast-grep reports. It may go over several lines, the last of which is
/// `end_line`.
#[derive(Debug, PartialEq)]
pub struct AgMatch {
    pub file: String,
    pub line: u64,
    pub end_line: u64,
    pub text: String,
}

impl View for AgMatch {
    type V = Node;

    open spec fn view(&self) -> Node {
        Node { file: self.file@, line: self.line, end_line: self.end_line, text: self.text@ }
    }
}

/// The lines that a list of matches stands for.
pub open spec fn hits(list: Seq<RgMatch>) -> Seq<Hit> {
    Seq::new(list.len(), |i: int| list[i]@)
}

/// The pieces of code that a list of matches stands for.
pub open spec fn nodes(list: Seq<AgMatch>) -> Seq<Node> {
    Seq::new(list.len(), |i: int| list[i]@)
}

/// What one line of ripgrep's output says.
pub enum Said {
    /// Something that cannot be read, and may be a match.
    Unreadable,
    /// Something other than a match.
    Other,
    /// A match.
    Match(Hit),
}

/// What a document of ripgrep's says, by its type and by the path, the line number and the line
/// that it gives. The line loses its ending.
pub open spec fn said_by(
    kind: Option<Seq<char>>,
    path: Option<Seq<char>>,
    number: Option<u64>,
    line: Option<Seq<char>>,
) -> Said {
    if kind != Some("match"@) {
        Said::Other
    } else {
        match (path, number, line) {
            (Some(file), Some(n), Some(t)) => Said::Match(
                Hit {
                    file,
                    line: n,
                    text: text::strip_trailing(text::strip_trailing(t, '\n'), '\r'),
                },
            ),
            _ => Said::Unreadable,
        }
    }
}

/// What a line of ripgrep's output says, by the document that it holds.
pub open spec fn said_in(document: Option<JsonTree>) -> Said {
    match document {
        Some(d) => said_by(
            json::text_in(json::member_at(d, seq!["type"@])),
            json::text_in(json::member_at(d, seq!["data"@, "path"@, "text"@])),
            json::whole_in(json::member_at(d, seq!["data"@, "line_number"@])),
            json::text_in(json::member_at(d, seq!["data"@, "lines"@, "text"@])),
        ),
        None => Said::Unreadable,
    }
}

/// What a line of ripgrep's output says.
pub open spec fn said(line: Seq<char>) -> Said {
    said_in(json::json_document(text::trim(line)))
}

/// What some lines of ripgrep's output say, one by one.
pub open spec fn said_by_lines(lines: Seq<Seq<char>>) -> Seq<Said> {
    Seq::new(lines.len(), |i: int| said(lines[i]))
}

/// The matches among some records.
pub open spec fn hits_in(records: Seq<Said>) -> Seq<Hit>
    decreases records.len(),
{
    if records.len() == 0 {
        Seq::empty()
    } else {
        match records.last() {
            Said::Match(h) => hits_in(records.drop_last()).push(h),
            _ => hits_in(records.drop_last()),
        }
    }
}

/// The number of records that cannot be read.
pub open spec fn unreadable_in(records: Seq<Said>) -> nat
    decreases records.len(),
{
    if records.len() == 0 {
        0
    } else {
        unreadable_in(records.drop_last()) + if records.last() is Unreadable {
            1nat
        } else {
            0nat
        }
    }
}

/// The matches in ripgrep's output.
pub open spec fn said_hits(stdout: Seq<char>) -> Seq<Hit> {
    hits_in(said_by_lines(text::lines(stdout)))
}

/// The number of lines in ripgrep's output that cannot be read.
pub open spec fn said_unreadable(stdout: Seq<char>) -> nat {
    unreadable_in(said_by_lines(text::lines(stdout)))
}

/// What one line of ripgrep's output says.
#[derive(Debug)]
pub enum RgRecord {
    /// Something that cannot be read, and may be a match.
    Unreadable,
    /// Something other than a match.
    Other,
    /// A match.
    Match(RgMatch),
}

impl View for RgRecord {
    type V = Said;

    open spec fn view(&self) -> Said {
        match self {
            RgRecord::Unreadable => Said::Unreadable,
            RgRecord::Other => Said::Other,
            RgRecord::Match(m) => Said::Match(m@),
        }
    }
}

/// What a document of ripgrep's says, by what was found in it.
pub fn read_rg_record(
    kind: Option<String>,
    path: Option<String>,
    number: Option<u64>,
    line: Option<String>,
) -> (r: RgRecord)
    ensures
        r@ == said_by(text::text_of(kind), text::text_of(path), number, text::text_of(line)),
{
    let is_match = match &kind {
        Some(k) => same_text(k.as_str(), "match"),
        None => false,
    };
    if !is_match {
        return RgRecord::Other;
    }
    match (path, number, line) {
        (Some(file), Some(n), Some(t)) => {
            let kept: Vec<char> = without_trailing(
                &without_trailing(&chars_of(t.as_str()), '\n'),
                '\r',
            );
            RgRecord::Match(RgMatch { file, line: n, text: string_of(&kept) })
        },
        _ => RgRecord::Unreadable,
    }
}

/// What a line of ripgrep's output says.
fn read_rg_line(line: &str) -> (r: RgRecord)
    ensures
        r@ == said(line@),
{
    let document: String = string_of(&trimmed(&chars_of(line)));
    match parse_value(document.as_str()) {
        Ok(d) => {
            let kind_path = ["type"];
            let file_path = ["data", "path", "text"];
            let number_path = ["data", "line_number"];
            let line_path = ["data", "lines", "text"];
            assert(json::names(kind_path@) =~= seq!["type"@]);
            assert(json::names(file_path@) =~= seq!["data"@, "path"@, "text"@]);
            assert(json::names(number_path@) =~= seq!["data"@, "line_number"@]);
            assert(json::names(line_path@) =~= seq!["data"@, "lines"@, "text"@]);
            read_rg_record(
                text_at(&d, &kind_path),
                text_at(&d, &file_path),
                whole_at(&d, &number_path),
                text_at(&d, &line_path),
            )
        },
        Err(_) => RgRecord::Unreadable,
    }
}

/// What some records stand for.
pub open spec fn records(list: Seq<RgRecord>) -> Seq<Said> {
    Seq::new(list.len(), |i: int| list[i]@)
}

/// The matches among some records, and the number of records that cannot be read.
pub fn gather_records(list: Vec<RgRecord>) -> (r: (Vec<RgMatch>, usize))
    ensures
        hits(r.0@) == hits_in(records(list@)),
        r.1 == unreadable_in(records(list@)),
{
    let ghost all = records(list@);
    let mut found: Vec<RgMatch> = Vec::new();
    let mut unreadable: usize = 0;
    let mut i: usize = 0;
    while i < list.len()
        invariant
            all == records(list@),
            i <= list@.len(),
            hits(found@) =~= hits_in(all.take(i as int)),
            unreadable == unreadable_in(all.take(i as int)),
            unreadable <= i,
        decreases list@.len() - i,
    {
        let ghost before = hits(found@);
        assert(all.take(i + 1).drop_last() =~= all.take(i as int));
        assert(all.take(i + 1).last() == list@[i as int]@);
        match &list[i] {
            RgRecord::Match(m) => {
                found.push(m.clone());
                assert(hits(found@) =~= before.push(m@));
            },
            RgRecord::Other => {},
            RgRecord::Unreadable => {
                unreadable += 1;
            },
        }
        i += 1;
    }
    assert(all.take(i as int) =~= all);
    (found, unreadable)
}

/// The matches in ripgrep's output, and the number of lines that cannot be read. Such a line may
/// be a match, so that the matches are all of them only where there is none.
pub fn parse_rg_json(stdout: &str) -> (r: (Vec<RgMatch>, usize))
    ensures
        hits(r.0@) == said_hits(stdout@),
        r.1 == said_unreadable(stdout@),
{
    let lines: Vec<String> = split_lines(stdout);
    let ghost all = said_by_lines(text::lines(stdout@));
    let mut list: Vec<RgRecord> = Vec::new();
    let mut i: usize = 0;
    while i < lines.len()
        invariant
            all == said_by_lines(text::texts(lines@)),
            i <= lines@.len(),
            records(list@) =~= all.take(i as int),
        decreases lines@.len() - i,
    {
        let ghost before = records(list@);
        let record: RgRecord = read_rg_line(lines[i].as_str());
        assert(all[i as int] == record@);
        list.push(record);
        assert(records(list@) =~= before.push(record@));
        i += 1;
    }
    assert(records(list@) =~= all);
    gather_records(list)
}

/// The most matches that are handed to ast-grep. Beyond it they are printed as they are.
pub const MATCH_CAP: usize = 10_000;

/// What came of the capture run.
pub enum Captured {
    Matches(Seq<Hit>),
    OverCap(Seq<Hit>),
    Failed,
    Unparseable,
}

/// What came of the capture run, by its exit code, the matches and the number of lines that cannot
/// be read. ripgrep ends with 1 where nothing matches; a higher code, or none, is a failure.
pub open spec fn judged(code: Option<i32>, found: Seq<Hit>, unreadable: nat) -> Captured {
    if code is None || code->0 > 1 {
        Captured::Failed
    } else if unreadable > 0 {
        Captured::Unparseable
    } else if found.len() > MATCH_CAP {
        Captured::OverCap(found)
    } else {
        Captured::Matches(found)
    }
}

/// What came of the capture run.
#[derive(Debug)]
pub enum RgCapture {
    /// Few enough matches to hand them to ast-grep.
    Matches(Vec<RgMatch>),
    /// Too many for that.
    OverCap(Vec<RgMatch>),
    /// ripgrep could not be run, or failed.
    Failed,
    /// Something in the output cannot be read, so that the matches may not be all of them.
    Unparseable,
}

impl View for RgCapture {
    type V = Captured;

    open spec fn view(&self) -> Captured {
        match self {
            RgCapture::Matches(m) => Captured::Matches(hits(m@)),
            RgCapture::OverCap(m) => Captured::OverCap(hits(m@)),
            RgCapture::Failed => Captured::Failed,
            RgCapture::Unparseable => Captured::Unparseable,
        }
    }
}

/// What came of a capture run whose output was read.
pub fn judge_capture(code: Option<i32>, found: Vec<RgMatch>, unreadable: usize) -> (r: RgCapture)
    ensures
        r@ == judged(code, hits(found@), unreadable as nat),
{
    let ran = match code {
        Some(c) => c <= 1,
        None => false,
    };
    if !ran {
        RgCapture::Failed
    } else if unreadable > 0 {
        RgCapture::Unparseable
    } else if found.len() > MATCH_CAP {
        RgCapture::OverCap(found)
    } else {
        RgCapture::Matches(found)
    }
}

/// How a program ended: its exit code, unless a signal ended it, and what it printed.
#[derive(Debug)]
pub struct Finished {
    pub code: Option<i32>,
    pub stdout: String,
}

/// What came of the capture run; of none where ripgrep could not be found or started.
pub fn read_capture(run: Option<Finished>) -> (r: RgCapture)
    ensures
        r@ == match run {
            Some(f) => judged(
                f.code,
                said_hits(f.stdout@),
                said_unreadable(f.stdout@),
            ),
            None => Captured::Failed,
        },
{
    match run {
        Some(f) => {
            let (found, unreadable) = parse_rg_json(f.stdout.as_str());
            judge_capture(f.code, found, unreadable)
        },
        None => RgCapture::Failed,
    }
}

/// What stands in an optional text, or nothing.
pub open spec fn or_empty(t: Option<Seq<char>>) -> Seq<char> {
    match t {
        Some(s) => s,
        None => Seq::empty(),
    }
}

/// The number of a line, counted from one, where ast-grep counts from zero. A line that is not
/// given is the first.
pub open spec fn line_number(zero_based: Option<u64>) -> int {
    match zero_based {
        Some(n) => n + 1,
        None => 1,
    }
}

/// The piece of code that a document of ast-grep's reports, by what was found in it.
pub open spec fn node_by(
    file: Option<Seq<char>>,
    start: Option<u64>,
    end: Option<u64>,
    lines: Option<Seq<char>>,
    matched: Option<Seq<char>>,
) -> Node {
    Node {
        file: or_empty(file),
        line: line_number(start) as u64,
        end_line: line_number(end) as u64,
        text: if lines is Some {
            or_empty(lines)
        } else {
            or_empty(matched)
        },
    }
}

/// The line that a document of ast-grep's starts at, counted from zero.
pub open spec fn start_in(d: JsonTree) -> Option<u64> {
    json::whole_in(json::member_at(d, seq!["range"@, "start"@, "line"@]))
}

/// The line that a document of ast-grep's ends at, counted from zero.
pub open spec fn end_in(d: JsonTree) -> Option<u64> {
    json::whole_in(json::member_at(d, seq!["range"@, "end"@, "line"@]))
}

/// The piece of code that a document of ast-grep's reports.
pub open spec fn node_in(d: JsonTree) -> Node {
    node_by(
        json::text_in(json::member_at(d, seq!["file"@])),
        start_in(d),
        end_in(d),
        json::text_in(json::member_at(d, seq!["lines"@])),
        json::text_in(json::member_at(d, seq!["text"@])),
    )
}

/// The document on a line of ast-grep's output, if there is one.
pub open spec fn document_on(line: Seq<char>) -> Option<JsonTree> {
    if text::trim(line).len() == 0 {
        None
    } else {
        json::json_document(text::trim(line))
    }
}

/// The pieces of code that some lines of ast-grep's output report. A line that cannot be read
/// reports none.
pub open spec fn reported(lines: Seq<Seq<char>>) -> Seq<Node>
    decreases lines.len(),
{
    if lines.len() == 0 {
        Seq::empty()
    } else {
        match document_on(lines.last()) {
            Some(d) => reported(lines.drop_last()).push(node_in(d)),
            None => reported(lines.drop_last()),
        }
    }
}

/// Whether the line numbers on a line of ast-grep's output can be counted from one.
pub open spec fn countable(line: Seq<char>) -> bool {
    match document_on(line) {
        Some(d) => line_number(start_in(d)) <= u64::MAX && line_number(end_in(d)) <= u64::MAX,
        None => true,
    }
}

/// Whether all the line numbers in ast-grep's output can be counted from one.
pub open spec fn all_countable(lines: Seq<Seq<char>>) -> bool {
    forall|i: int| 0 <= i < lines.len() ==> countable(#[trigger] lines[i])
}

/// A text, or none.
fn text_or_empty(t: Option<String>) -> (r: String)
    ensures
        r@ == or_empty(text::text_of(t)),
{
    match t {
        Some(s) => s,
        None => {
            let none = String::new();
            assert(none@ =~= Seq::<char>::empty());
            none
        },
    }
}

/// The number of a line, counted from one.
fn from_one(zero_based: Option<u64>) -> (r: u64)
    requires
        line_number(zero_based) <= u64::MAX,
    ensures
        r == line_number(zero_based),
{
    match zero_based {
        Some(n) => n + 1,
        None => 1,
    }
}

/// Whether the number of a line can be counted from one.
fn is_countable(zero_based: Option<u64>) -> (r: bool)
    ensures
        r == (line_number(zero_based) <= u64::MAX),
{
    match zero_based {
        Some(n) => n < u64::MAX,
        None => true,
    }
}

/// The piece of code that a document of ast-grep's reports, by what was found in it.
pub fn read_ag_record(
    file: Option<String>,
    start: Option<u64>,
    end: Option<u64>,
    lines: Option<String>,
    matched: Option<String>,
) -> (r: AgMatch)
    requires
        start != Some(u64::MAX),
        end != Some(u64::MAX),
    ensures
        r@ == node_by(
            text::text_of(file),
            start,
            end,
            text::text_of(lines),
            text::text_of(matched),
        ),
{
    AgMatch {
        file: text_or_empty(file),
        line: from_one(start),
        end_line: from_one(end),
        text: match lines {
            Some(l) => l,
            None => text_or_empty(matched),
        },
    }
}

/// The document on a line of ast-grep's output, if there is one.
fn read_ag_document(line: &str) -> (r: Option<serde_json::Value>)
    ensures
        match r {
            Some(d) => document_on(line@) == Some(json::json_contents(d)),
            None => document_on(line@) is None,
        },
{
    let kept: Vec<char> = trimmed(&chars_of(line));
    if kept.len() == 0 {
        return None;
    }
    match parse_value(string_of(&kept).as_str()) {
        Ok(d) => Some(d),
        Err(_) => None,
    }
}

/// The line that a document of ast-grep's starts at, counted from zero.
fn read_start(d: &serde_json::Value) -> (r: Option<u64>)
    ensures
        r == start_in(json::json_contents(*d)),
{
    let path = ["range", "start", "line"];
    assert(json::names(path@) =~= seq!["range"@, "start"@, "line"@]);
    whole_at(d, &path)
}

/// The line that a document of ast-grep's ends at, counted from zero.
fn read_end(d: &serde_json::Value) -> (r: Option<u64>)
    ensures
        r == end_in(json::json_contents(*d)),
{
    let path = ["range", "end", "line"];
    assert(json::names(path@) =~= seq!["range"@, "end"@, "line"@]);
    whole_at(d, &path)
}

/// The pieces of code that ast-grep's output reports, one document per line. Lines that cannot be
/// read are passed over.
pub fn parse_ag_matches(stdout: &str) -> (r: Vec<AgMatch>)
    requires
        all_countable(text::lines(stdout@)),
    ensures
        nodes(r@) == reported(text::lines(stdout@)),
{
    let lines: Vec<String> = split_lines(stdout);
    let ghost all = text::lines(stdout@);
    let mut found: Vec<AgMatch> = Vec::new();
    let mut i: usize = 0;
    while i < lines.len()
        invariant
            all == text::texts(lines@),
            all_countable(all),
            i <= lines@.len(),
            nodes(found@) =~= reported(all.take(i as int)),
        decreases lines@.len() - i,
    {
        assert(all.take(i + 1).drop_last() =~= all.take(i as int));
        assert(countable(all[i as int]));
        let ghost before = nodes(found@);
        match read_ag_document(lines[i].as_str()) {
            Some(d) => {
                let file_path = ["file"];
                let lines_path = ["lines"];
                let text_path = ["text"];
                assert(json::names(file_path@) =~= seq!["file"@]);
                assert(json::names(lines_path@) =~= seq!["lines"@]);
                assert(json::names(text_path@) =~= seq!["text"@]);
                let m = read_ag_record(
                    text_at(&d, &file_path),
                    read_start(&d),
                    read_end(&d),
                    text_at(&d, &lines_path),
                    text_at(&d, &text_path),
                );
                found.push(m);
                assert(nodes(found@) =~= before.push(m@));
            },
            None => {},
        }
        i += 1;
    }
    assert(all.take(i as int) =~= all);
    found
}

/// The pieces of code that ast-grep's output reports; nothing where a line number in it cannot be
/// counted from one.
pub fn checked_ag_matches(stdout: &str) -> (r: Option<Vec<AgMatch>>)
    ensures
        match r {
            Some(found) => all_countable(text::lines(stdout@)) && nodes(found@) == reported(
                text::lines(stdout@),
            ),
            None => !all_countable(text::lines(stdout@)),
        },
{
    let lines: Vec<String> = split_lines(stdout);
    let ghost all = text::lines(stdout@);
    let mut i: usize = 0;
    while i < lines.len()
        invariant
            all == text::texts(lines@),
            all == text::lines(stdout@),
            i <= lines@.len(),
            forall|j: int| 0 <= j < i ==> countable(#[trigger] all[j]),
        decreases lines@.len() - i,
    {
        match read_ag_document(lines[i].as_str()) {
            Some(d) => {
                if !is_countable(read_start(&d)) || !is_countable(read_end(&d)) {
                    assert(!countable(all[i as int]));
                    return None;
                }
            },
            None => {},
        }
        i += 1;
    }
    Some(parse_ag_matches(stdout))
}

/// Where every record can be read, the matches are all of them: each record is either one of them,
/// or something other than a match.
pub proof fn a_clean_capture_is_complete(records: Seq<Said>)
    requires
        unreadable_in(records) == 0,
    ensures
        forall|i: int|
            0 <= i < records.len() ==> match #[trigger] records[i] {
                Said::Match(h) => hits_in(records).contains(h),
                Said::Other => true,
                Said::Unreadable => false,
            },
    decreases records.len(),
{
    if records.len() > 0 {
        let shorter = records.drop_last();
        let before = hits_in(shorter);
        a_clean_capture_is_complete(shorter);
        assert forall|i: int| 0 <= i < records.len() implies match #[trigger] records[i] {
            Said::Match(h) => hits_in(records).contains(h),
            Said::Other => true,
            Said::Unreadable => false,
        } by {
            if i < records.len() - 1 {
                assert(shorter[i] == records[i]);
            }
            if records[i] is Match && records.last() is Match {
                let last = records.last()->Match_0;
                assert(before.push(last).drop_last() =~= before);
                text::lemma_contains_last(before.push(last), records[i]->Match_0);
            }
        }
    }
}

} // verus!
