//! The lines of the files of a ledger: all of them, and those that are new since the last look.
use crate::bytes::utf8_text;
use crate::text::{blank, blank_is_trimmed_empty, is_blank, lemma_position, lemma_position_is_first, lines, lines_of, position, trim, trimmed, views};
use vstd::prelude::*;
use vstd::slice::slice_subrange;
use vstd::utf8::{decode_utf8, valid_utf8};

verus! {

/// The byte that ends a line.
pub const LINE_FEED: u8 = 10;

// ---------------------------------------------------------------------------
// All lines

/// The lines that hold something.
pub open spec fn without_blanks(list: Seq<Seq<char>>) -> Seq<Seq<char>>
    decreases list.len(),
{
    if list.len() == 0 {
        seq![]
    } else {
        let before = without_blanks(list.drop_last());
        if blank(list.last()) {
            before
        } else {
            before.push(list.last())
        }
    }
}

/// The lines of a file that hold something, in order.
pub fn record_lines(text: &str) -> (r: Vec<String>)
    ensures
        views(r@) == without_blanks(lines_of(text@)),
{
    let all = lines(text);
    let ghost shown = views(all@);
    let mut kept: Vec<String> = Vec::new();
    assert(views(kept@) =~= seq![]);
    assert(shown.take(0) =~= seq![]);
    let n: usize = all.len();
    for i in 0..n
        invariant
            n == all@.len(),
            shown == views(all@),
            views(kept@) == without_blanks(shown.take(i as int)),
    {
        let ghost next = shown.take(i + 1);
        assert(next.drop_last() =~= shown.take(i as int));
        assert(next.last() == all@[i as int]@);
        let ghost before = kept@;
        if !is_blank(all[i].as_str()) {
            kept.push(all[i].clone());
            assert(views(kept@) =~= views(before).push(all@[i as int]@));
        }
    }
    assert(shown.take(n as int) =~= shown);
    kept
}

// ---------------------------------------------------------------------------
// New lines

/// A line that has not been looked at, and where it begins in its file.
#[derive(Debug, Clone, PartialEq, Eq)]
pub struct NewLine {
    pub text: String,
    pub offset: u64,
}

/// The new lines of a file that hold something, and where to go on the next time: nowhere, if
/// what was read is not all UTF-8.
#[derive(Debug, Clone, PartialEq, Eq)]
pub struct Scan {
    pub lines: Vec<NewLine>,
    pub end: Option<u64>,
}

/// What a scan finds.
pub struct ScanView {
    pub lines: Seq<(Seq<char>, int)>,
    pub end: Option<int>,
}

pub open spec fn line_views(list: Seq<NewLine>) -> Seq<(Seq<char>, int)> {
    list.map_values(|line: NewLine| (line.text@, line.offset as int))
}

impl View for Scan {
    type V = ScanView;

    open spec fn view(&self) -> ScanView {
        ScanView {
            lines: line_views(self.lines@),
            end: match self.end {
                Some(end) => Some(end as int),
                None => None,
            },
        }
    }
}

/// What a scan finds in the bytes of a file from `offset` on: every complete line that holds
/// something, without the white space around it. A trailing line that is not complete yet is left
/// for the next time.
pub open spec fn scanned(bytes: Seq<u8>, offset: int) -> ScanView
    decreases bytes.len(),
{
    let n = position(bytes, LINE_FEED);
    if n < 0 || n >= bytes.len() {
        ScanView {
            lines: seq![],
            end: if valid_utf8(bytes) {
                Some(offset)
            } else {
                None
            },
        }
    } else {
        let line = bytes.take(n + 1);
        if !valid_utf8(line) {
            ScanView { lines: seq![], end: None }
        } else {
            let rest = scanned(bytes.skip(n + 1), offset + n + 1);
            let text = decode_utf8(line);
            if blank(text) {
                rest
            } else {
                ScanView { lines: seq![(trimmed(text), offset)] + rest.lines, end: rest.end }
            }
        }
    }
}

/// Where a scan of a file of `size` bytes begins: where the last one ended, or at the start of a
/// file that has been rewritten since and is shorter now, even if nothing is left in it. Nothing
/// is new in a file that ends where the last scan did.
pub open spec fn scan_start(size: int, stored: int) -> Option<int> {
    if size == stored {
        None
    } else if size < stored {
        Some(0)
    } else {
        Some(stored)
    }
}

/// Where the scan of a file begins, if there is anything new in it.
pub fn start_offset(size: u64, stored: u64) -> (r: Option<u64>)
    ensures
        match r {
            Some(start) => scan_start(size as int, stored as int) == Some(start as int) && start
                <= size,
            None => scan_start(size as int, stored as int) is None,
        },
{
    if size == stored {
        None
    } else if size < stored {
        Some(0)
    } else {
        Some(stored)
    }
}

/// The index of the first line feed from `from` on, or the number of bytes.
fn next_line_feed(bytes: &[u8], from: usize) -> (r: usize)
    requires
        from <= bytes@.len(),
    ensures
        from <= r <= bytes@.len(),
        position(bytes@.skip(from as int), LINE_FEED) == r - from,
{
    let n: usize = bytes.len();
    let ghost rest = bytes@.skip(from as int);
    let mut i: usize = from;
    while i < n && bytes[i] != LINE_FEED
        invariant
            n == bytes@.len(),
            rest == bytes@.skip(from as int),
            from <= i <= n,
            forall|j: int| 0 <= j < i - from ==> #[trigger] rest[j] != LINE_FEED,
        decreases n - i,
    {
        assert(rest[i - from] == bytes@[i as int]);
        i = i + 1;
    }
    proof {
        if i < n {
            assert(rest[i - from] == bytes@[i as int]);
        }
        lemma_position(rest, LINE_FEED, i - from);
    }
    i
}

/// The new lines in the bytes of a file from `offset` on.
pub fn new_lines(bytes: &[u8], offset: u64) -> (r: Scan)
    requires
        offset + bytes@.len() <= u64::MAX,
    ensures
        r@ == scanned(bytes@, offset as int),
        r.lines@.len() == scanned(bytes@, offset as int).lines.len(),
        forall|i: int|
            0 <= i < r.lines@.len() ==> {
                let line = scanned(bytes@, offset as int).lines[i];
                (#[trigger] r.lines@[i]).text@ == line.0 && r.lines@[i].offset == line.1
            },
        match r.end {
            Some(end) => scanned(bytes@, offset as int).end == Some(end as int),
            None => scanned(bytes@, offset as int).end is None,
        },
{
    let ghost whole = scanned(bytes@, offset as int);
    let mut found: Vec<NewLine> = Vec::new();
    let mut from: usize = 0;
    let n: usize = bytes.len();
    assert(bytes@.skip(0) =~= bytes@);
    assert(line_views(found@) + whole.lines =~= whole.lines);
    loop
        invariant
            n == bytes@.len(),
            offset + n <= u64::MAX,
            from <= n,
            whole == scanned(bytes@, offset as int),
            whole == (ScanView {
                lines: line_views(found@) + scanned(bytes@.skip(from as int), offset + from).lines,
                end: scanned(bytes@.skip(from as int), offset + from).end,
            }),
        decreases n - from,
    {
        let ghost rest = bytes@.skip(from as int);
        let to = next_line_feed(bytes, from);
        if to == n {
            let tail = slice_subrange(bytes, from, n);
            assert(tail@ =~= rest);
            assert(line_views(found@) + scanned(rest, offset + from).lines =~= line_views(found@));
            assert forall|i: int| 0 <= i < found@.len() implies whole.lines[i] == (
                (#[trigger] found@[i]).text@,
                found@[i].offset as int,
            ) by {
                assert(line_views(found@)[i] == whole.lines[i]);
            }
            let end = if utf8_text(tail).is_some() {
                Some(offset + from as u64)
            } else {
                None
            };
            return Scan { lines: found, end };
        }
        let line = slice_subrange(bytes, from, to + 1);
        assert(line@ =~= rest.take(to - from + 1));
        assert(rest.skip(to - from + 1) =~= bytes@.skip(to + 1));
        let ghost before = line_views(found@);
        match utf8_text(line) {
            None => {
                assert(before + scanned(rest, offset + from).lines =~= before);
                assert forall|i: int| 0 <= i < found@.len() implies whole.lines[i] == (
                    (#[trigger] found@[i]).text@,
                    found@[i].offset as int,
                ) by {
                    assert(line_views(found@)[i] == whole.lines[i]);
                }
                return Scan { lines: found, end: None };
            },
            Some(text) => {
                if !is_blank(text) {
                    let start = offset + from as u64;
                    found.push(NewLine { text: trim(text), offset: start });
                    assert(line_views(found@) =~= before.push((trimmed(text@), start as int)));
                    let ghost after = scanned(bytes@.skip(to + 1), offset + to + 1).lines;
                    assert(before + (seq![(trimmed(text@), start as int)] + after)
                        =~= line_views(found@) + after);
                }
            },
        }
        from = to + 1;
    }
}

proof fn lemma_scan_resumes(a: Seq<u8>, b: Seq<u8>, offset: int)
    requires
        scanned(a, offset).end is Some,
    ensures
        ({
            let end = scanned(a, offset).end->0;
            let rest = scanned((a + b).skip(end - offset), end);
            &&& offset <= end <= offset + a.len()
            &&& scanned(a + b, offset).lines == scanned(a, offset).lines + rest.lines
            &&& scanned(a + b, offset).end == rest.end
        }),
    decreases a.len(),
{
    let n = position(a, LINE_FEED);
    lemma_position_is_first(a, LINE_FEED);
    if n == a.len() {
        assert((a + b).skip(0) =~= a + b);
        assert(Seq::<(Seq<char>, int)>::empty() + scanned(a + b, offset).lines =~= scanned(
            a + b,
            offset,
        ).lines);
    } else {
        assert forall|j: int| 0 <= j < n implies #[trigger] (a + b)[j] != LINE_FEED by {
            assert((a + b)[j] == a[j]);
        }
        lemma_position(a + b, LINE_FEED, n);
        let next = a.skip(n + 1);
        let from = offset + n + 1;
        assert((a + b).take(n + 1) =~= a.take(n + 1));
        assert((a + b).skip(n + 1) =~= next + b);
        lemma_scan_resumes(next, b, from);
        let end = scanned(a, offset).end->0;
        assert((next + b).skip(end - from) =~= (a + b).skip(end - offset));
        let rest = scanned((a + b).skip(end - offset), end);
        assert(scanned(a + b, offset).lines =~= scanned(a, offset).lines + rest.lines);
    }
}

/// What one pass over a file finds, where the last pass ended at `stored`, and where the next one
/// will begin.
pub open spec fn pass(content: Seq<u8>, stored: int) -> ScanView {
    match scan_start(content.len() as int, stored) {
        Some(start) => scanned(content.skip(start), start),
        None => ScanView { lines: seq![], end: Some(stored) },
    }
}

/// Catching up with what was appended to a file gives what reading the whole file gives: the
/// same lines, each once and in order, and the same place to go on.
pub proof fn catching_up_equals_rebuilding(a: Seq<u8>, b: Seq<u8>)
    requires
        pass(a, 0).end is Some,
    ensures
        ({
            let first = pass(a, 0);
            let second = pass(a + b, first.end->0);
            &&& 0 <= first.end->0 <= a.len()
            &&& pass(a + b, 0).lines == first.lines + second.lines
            &&& pass(a + b, 0).end == second.end
        }),
{
    let all = a + b;
    let none = Seq::<(Seq<char>, int)>::empty();
    assert(a.skip(0) =~= a);
    assert(all.skip(0) =~= all);
    lemma_empty_scan(a);
    lemma_empty_scan(all);
    lemma_scan_resumes(a, b, 0);
    let end = pass(a, 0).end->0;
    assert(end == scanned(a, 0).end->0);
    assert(pass(a, 0).lines == scanned(a, 0).lines);
    if end == all.len() {
        let rest = all.skip(end);
        assert(rest =~= seq![]);
        lemma_position_is_first(rest, LINE_FEED);
        assert(scanned(a, 0).lines + none =~= scanned(a, 0).lines);
    }
}

proof fn lemma_empty_scan(content: Seq<u8>)
    ensures
        pass(content, 0) == scanned(content, 0),
{
    assert(content.skip(0) =~= content);
    if content.len() == 0 {
        lemma_position_is_first(content, LINE_FEED);
        assert(valid_utf8(content));
    }
}

/// A second pass over a file to which nothing was appended finds nothing and stays where it is.
pub proof fn second_pass_finds_nothing(a: Seq<u8>)
    requires
        pass(a, 0).end is Some,
    ensures
        pass(a, pass(a, 0).end->0).lines == Seq::<(Seq<char>, int)>::empty(),
        pass(a, pass(a, 0).end->0).end == pass(a, 0).end,
{
    let b = Seq::<u8>::empty();
    catching_up_equals_rebuilding(a, b);
    assert(a + b =~= a);
    let second = pass(a, pass(a, 0).end->0);
    assert(pass(a, 0).lines.len() == pass(a, 0).lines.len() + second.lines.len());
}

/// A file that is shorter than what was read of it is read from its start.
pub proof fn shorter_file_is_read_anew(content: Seq<u8>, stored: int)
    requires
        content.len() < stored,
    ensures
        pass(content, stored) == pass(content, 0),
{
    lemma_empty_scan(content);
    assert(content.skip(0) =~= content);
}

/// However long a file was before it was rewritten and found shorter, nothing that is written to
/// it from then on is left out: the pass that finds it shorter and the next one find together
/// what reading the whole file gives.
pub proof fn rewritten_file_is_found_whole(content: Seq<u8>, more: Seq<u8>, stored: int)
    requires
        content.len() < stored,
        pass(content, stored).end is Some,
    ensures
        ({
            let first = pass(content, stored);
            let second = pass(content + more, first.end->0);
            &&& pass(content + more, 0).lines == first.lines + second.lines
            &&& pass(content + more, 0).end == second.end
        }),
{
    shorter_file_is_read_anew(content, stored);
    catching_up_equals_rebuilding(content, more);
}

// ---------------------------------------------------------------------------
// What a scan finds

/// A complete line at the start of what is scanned is found, without the white space around it
/// and with the place where it begins, unless there is nothing but white space in it; then comes
/// what is found in the rest. How long the line is makes no difference.
pub proof fn first_line_is_found(line: Seq<u8>, rest: Seq<u8>, offset: int)
    requires
        line.len() > 0,
        line.last() == 10,
        forall|j: int| 0 <= j < line.len() - 1 ==> #[trigger] line[j] != 10,
        valid_utf8(line),
    ensures
        ({
            let text = trimmed(decode_utf8(line));
            let found = scanned(line + rest, offset);
            let later = scanned(rest, offset + line.len());
            &&& found.end == later.end
            &&& found.lines == if text.len() > 0 {
                seq![(text, offset)] + later.lines
            } else {
                later.lines
            }
        }),
{
    let all = line + rest;
    let n = line.len() - 1;
    assert forall|j: int| 0 <= j < n implies #[trigger] all[j] != LINE_FEED by {
        assert(all[j] == line[j]);
    }
    lemma_position(all, LINE_FEED, n);
    assert(all.take(n + 1) =~= line);
    assert(all.skip(n + 1) =~= rest);
    blank_is_trimmed_empty(decode_utf8(line));
}

/// A scan stops at a line that is not UTF-8, and what follows the last line feed is left for the
/// next scan.
pub proof fn scan_ends(line: Seq<u8>, rest: Seq<u8>, offset: int)
    requires
        forall|j: int| 0 <= j < line.len() ==> #[trigger] line[j] != 10,
    ensures
        scanned(line, offset).lines == Seq::<(Seq<char>, int)>::empty(),
        scanned(line, offset).end == (if valid_utf8(line) {
            Some(offset)
        } else {
            None::<int>
        }),
        !valid_utf8(line.push(10)) ==> {
            &&& scanned(line.push(10) + rest, offset).lines == Seq::<(Seq<char>, int)>::empty()
            &&& scanned(line.push(10) + rest, offset).end is None
        },
{
    lemma_position(line, LINE_FEED, line.len() as int);
    let all = line.push(10) + rest;
    let n = line.len() as int;
    assert forall|j: int| 0 <= j < n implies #[trigger] all[j] != LINE_FEED by {
        assert(all[j] == line[j]);
    }
    lemma_position(all, LINE_FEED, n);
    assert(all.take(n + 1) =~= line.push(10));
}

/// A scan begins where the last one ended, in a file that grew, and at the start of a file that
/// shrank; a file that has its old size is not scanned.
pub proof fn scan_begins_where_the_last_ended(size: int, stored: int)
    ensures
        size > stored ==> scan_start(size, stored) == Some(stored),
        size < stored ==> scan_start(size, stored) == Some(0int),
        size == stored ==> scan_start(size, stored) is None,
{
}

/// Of the lines of a file exactly those are kept in which there is more than white space, in
/// order.
pub proof fn blank_lines_are_left_out(list: Seq<Seq<char>>)
    ensures
        without_blanks(list) == list.filter(|line: Seq<char>| trimmed(line).len() > 0),
    decreases list.len(),
{
    reveal(Seq::filter);
    if list.len() > 0 {
        blank_lines_are_left_out(list.drop_last());
        blank_is_trimmed_empty(list.last());
    } else {
        assert(list =~= seq![]);
    }
}

} // verus!
