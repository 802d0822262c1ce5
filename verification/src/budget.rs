//! Keeping answers within what a client can take: pages of lists, sizes in bytes, and
//! summaries of what a page leaves out.

use vstd::prelude::*;

use crate::order::{lemma_sort_maps, rank_order, sort_ranked, sort_stable, Ranked};
use crate::text::{
    concat, concat_texts, decimal, same_text, sub_text, texts, to_chars, usize_text,
};

verus! {

// ---- sizes ----

/// How many bytes a character takes in UTF-8.
pub open spec fn utf8_width(c: char) -> nat {
    if c as u32 <= 0x7F {
        1
    } else if c as u32 <= 0x7FF {
        2
    } else if c as u32 <= 0xFFFF {
        3
    } else {
        4
    }
}

/// How many bytes a text takes in UTF-8.
pub open spec fn utf8_len(s: Seq<char>) -> nat
    decreases s.len(),
{
    if s.len() == 0 {
        0
    } else {
        utf8_len(s.drop_last()) + utf8_width(s.last())
    }
}

fn char_width(c: char) -> (r: usize)
    ensures
        r == utf8_width(c),
{
    let code: u32 = c as u32;
    if code <= 0x7F {
        1
    } else if code <= 0x7FF {
        2
    } else if code <= 0xFFFF {
        3
    } else {
        4
    }
}

/// The length of the longest prefix of `s` that takes at most `room` bytes.
pub open spec fn fitting(s: Seq<char>, room: nat) -> nat
    decreases s.len(),
{
    if utf8_len(s) <= room {
        s.len()
    } else if s.len() == 0 {
        0
    } else {
        fitting(s.drop_last(), room)
    }
}

proof fn lemma_utf8_len_grows(s: Seq<char>, i: int, j: int)
    requires
        0 <= i <= j <= s.len(),
    ensures
        utf8_len(s.take(i)) <= utf8_len(s.take(j)),
        i < j ==> utf8_len(s.take(i)) < utf8_len(s.take(j)),
    decreases j - i,
{
    if i < j {
        lemma_utf8_len_grows(s, i, j - 1);
        assert(s.take(j).drop_last() =~= s.take(j - 1));
    }
}

proof fn lemma_fitting(s: Seq<char>, room: nat, n: int)
    requires
        0 <= n <= s.len(),
        utf8_len(s.take(n)) <= room,
        n < s.len() ==> utf8_len(s.take(n + 1)) > room,
    ensures
        fitting(s, room) == n,
    decreases s.len(),
{
    assert(s.take(s.len() as int) =~= s);
    if n < s.len() {
        lemma_utf8_len_grows(s, n + 1, s.len() as int);
        let front = s.drop_last();
        assert(front.take(n) =~= s.take(n));
        if n < front.len() {
            assert(front.take(n + 1) =~= s.take(n + 1));
        }
        lemma_fitting(front, room, n);
    }
}

/// How much of a text fits: characters and the bytes they take.
pub fn fit(s: &[char], room: usize) -> (r: (usize, usize))
    ensures
        r.0 == fitting(s@, room as nat),
        r.0 <= s@.len(),
        r.1 == utf8_len(s@.take(r.0 as int)),
        r.1 <= room,
{
    let mut n: usize = 0;
    let mut used: usize = 0;
    proof {
        assert(s@.take(0) =~= Seq::<char>::empty());
    }
    while n < s.len()
        invariant
            n <= s@.len(),
            used == utf8_len(s@.take(n as int)),
            used <= room,
        decreases s@.len() - n,
    {
        let width: usize = char_width(s[n]);
        proof {
            assert(s@.take(n + 1).drop_last() =~= s@.take(n as int));
            assert(s@.take(n + 1).last() == s@[n as int]);
        }
        if width > room - used {
            proof {
                lemma_fitting(s@, room as nat, n as int);
            }
            return (n, used);
        }
        used = used + width;
        n = n + 1;
    }
    proof {
        lemma_fitting(s@, room as nat, n as int);
    }
    (n, used)
}

/// The longest beginning of a text that takes at most `room` bytes, which never splits a
/// character.
pub fn truncate_on_char_boundary(text: &str, room: usize) -> (r: String)
    ensures
        r@ == text@.take(fitting(text@, room as nat) as int),
{
    let chars = to_chars(text);
    let (n, _used) = fit(chars.as_slice(), room);
    proof {
        assert(text@.subrange(0, n as int) =~= text@.take(n as int));
    }
    sub_text(chars.as_slice(), 0, n)
}

/// A cut text takes no more than the room it was given, and a text that fits is not cut.
pub proof fn law_cut_text_fits(s: Seq<char>, room: nat)
    ensures
        fitting(s, room) <= s.len(),
        utf8_len(s.take(fitting(s, room) as int)) <= room,
        utf8_len(s) <= room ==> s.take(fitting(s, room) as int) == s,
    decreases s.len(),
{
    if utf8_len(s) <= room {
        assert(s.take(s.len() as int) =~= s);
    } else if s.len() > 0 {
        law_cut_text_fits(s.drop_last(), room);
        let n = fitting(s.drop_last(), room) as int;
        assert(s.drop_last().take(n) =~= s.take(n));
    }
}

// ---- pages ----

/// The part of a list a client asked for. A limit of zero asks for everything.
#[derive(Debug, Clone, Copy, PartialEq, Eq, Structural)]
pub struct ListWindow {
    pub offset: usize,
    pub limit: usize,
}

impl ListWindow {
    pub fn new(offset: usize, limit: usize) -> (r: ListWindow)
        ensures
            r == (ListWindow { offset, limit }),
    {
        ListWindow { offset, limit }
    }

    pub open spec fn start(self, total: nat) -> int {
        if self.offset <= total {
            self.offset as int
        } else {
            total as int
        }
    }

    pub open spec fn end(self, total: nat) -> int {
        if self.limit == 0 || self.offset + self.limit >= total {
            total as int
        } else {
            self.offset + self.limit
        }
    }
}

/// How a page relates to its list.
#[derive(Debug, Clone, Copy, PartialEq, Eq, Structural)]
pub struct Capped {
    pub offset: usize,
    pub shown: usize,
    pub total: usize,
}

impl Capped {
    /// Something stands behind the page.
    pub open spec fn is_cut(self) -> bool {
        self.offset + self.shown < self.total
    }

    pub fn truncated(self) -> (r: bool)
        ensures
            r == self.is_cut(),
    {
        self.offset < self.total && self.shown < self.total - self.offset
    }

    pub open spec fn footer_spec(self, tool: Seq<char>) -> Seq<char> {
        "*Showing "@ + decimal(self.shown as nat) + " of "@ + decimal(self.total as nat)
            + ". Next page: `"@ + tool + "(offset="@ + decimal((self.offset + self.shown) as nat)
            + ")`; `limit=0` lists everything.*\n"@
    }

    /// Names what was left out and the call that gets the next page.
    pub fn footer(self, tool: &str) -> (r: String)
        requires
            self.is_cut(),
        ensures
            r@ == self.footer_spec(tool@),
    {
        let mut out = "*Showing ".to_owned();
        out.append(usize_text(self.shown).as_str());
        out.append(" of ");
        out.append(usize_text(self.total).as_str());
        out.append(". Next page: `");
        out.append(tool);
        out.append("(offset=");
        out.append(usize_text(self.offset + self.shown).as_str());
        out.append(")`; `limit=0` lists everything.*\n");
        out
    }
}

pub open spec fn capped_spec(window: ListWindow, total: nat) -> Capped {
    Capped {
        offset: window.offset,
        shown: (window.end(total) - window.start(total)) as usize,
        total: total as usize,
    }
}

/// The page's bounds in a list, and how it relates to the whole.
pub fn cap(total: usize, window: ListWindow) -> (r: (usize, usize, Capped))
    ensures
        r.0 == window.start(total as nat),
        r.1 == window.end(total as nat),
        r.0 <= r.1 <= total,
        r.1 - r.0 == r.2.shown,
        r.2 == capped_spec(window, total as nat),
{
    let start: usize = if window.offset <= total {
        window.offset
    } else {
        total
    };
    let end: usize = if window.limit == 0 || window.limit >= total - start {
        total
    } else {
        start + window.limit
    };
    (start, end, Capped { offset: window.offset, shown: end - start, total })
}

/// A limit of zero leaves nothing out behind the offset.
pub proof fn law_no_limit_lists_everything(offset: usize, total: usize)
    ensures
        !capped_spec(ListWindow { offset, limit: 0 }, total as nat).is_cut(),
{
}

/// Walking the pages by their footers, each page starts where the one before ended.
pub proof fn law_pages_follow_each_other(window: ListWindow, total: usize)
    requires
        window.limit > 0,
        capped_spec(window, total as nat).is_cut(),
    ensures
        ({
            let here = capped_spec(window, total as nat);
            let next = ListWindow {
                offset: (here.offset + here.shown) as usize,
                limit: window.limit,
            };
            &&& next.start(total as nat) == window.end(total as nat)
            &&& next.offset > window.offset
        }),
{
}

// ---- summaries by file ----

/// A file and how often it was named.
#[derive(Debug)]
pub struct FileCount {
    pub file: String,
    pub count: usize,
}

pub struct FileCountText {
    pub file: Seq<char>,
    pub count: usize,
}

impl View for FileCount {
    type V = FileCountText;

    open spec fn view(&self) -> FileCountText {
        FileCountText { file: self.file@, count: self.count }
    }
}

pub open spec fn file_counts(v: Seq<FileCount>) -> Seq<FileCountText> {
    v.map_values(|f: FileCount| f@)
}

/// Where a file is counted.
pub open spec fn counted_at(counts: Seq<FileCountText>, file: Seq<char>) -> Option<int>
    decreases counts.len(),
{
    if counts.len() == 0 {
        None
    } else {
        match counted_at(counts.drop_last(), file) {
            Some(i) => Some(i),
            None => if counts.last().file == file {
                Some(counts.len() - 1)
            } else {
                None
            },
        }
    }
}

pub open spec fn count_once(counts: Seq<FileCountText>, file: Seq<char>) -> Seq<FileCountText> {
    match counted_at(counts, file) {
        Some(i) => counts.update(
            i,
            FileCountText {
                file,
                count: (counts[i].count + 1) as usize,
            },
        ),
        None => counts.push(FileCountText { file, count: 1 }),
    }
}

/// How often each file is named, in the order of first mention.
pub open spec fn count_files(files: Seq<Seq<char>>) -> Seq<FileCountText>
    decreases files.len(),
{
    if files.len() == 0 {
        Seq::empty()
    } else {
        count_once(count_files(files.drop_last()), files.last())
    }
}

pub open spec fn more_often() -> spec_fn(FileCountText, FileCountText) -> bool {
    |a: FileCountText, b: FileCountText| a.count > b.count
}

impl Ranked for FileCount {
    open spec fn precedes(a: FileCount, b: FileCount) -> bool {
        a.count > b.count
    }

    fn is_before(&self, other: &FileCount) -> (r: bool) {
        self.count > other.count
    }
}

pub open spec fn count_row(c: FileCountText) -> Seq<char> {
    "- `"@ + c.file + "`: "@ + decimal(c.count as nat) + "\n"@
}

/// The most named files, each with its count, and how many files are left out.
pub open spec fn by_file_summary_spec(files: Seq<Seq<char>>, most: nat) -> Seq<char> {
    let sorted = sort_stable(count_files(files), more_often());
    let shown = if sorted.len() <= most {
        sorted
    } else {
        sorted.take(most as int)
    };
    let rows = concat(shown.map_values(|c: FileCountText| count_row(c)));
    if sorted.len() <= most {
        rows
    } else {
        rows + "- and "@ + decimal((sorted.len() - most) as nat) + " more files\n"@
    }
}

proof fn lemma_counts_bounded(files: Seq<Seq<char>>)
    ensures
        forall|i: int|
            0 <= i < count_files(files).len() ==> (#[trigger] count_files(files)[i]).count
                <= files.len(),
        count_files(files).len() <= files.len(),
    decreases files.len(),
{
    if files.len() > 0 {
        lemma_counts_bounded(files.drop_last());
        lemma_counted_at(count_files(files.drop_last()), files.last());
    }
}

proof fn lemma_counted_at(counts: Seq<FileCountText>, file: Seq<char>)
    ensures
        match counted_at(counts, file) {
            Some(i) => 0 <= i < counts.len() && counts[i].file == file,
            None => forall|i: int| 0 <= i < counts.len() ==> #[trigger] counts[i].file != file,
        },
    decreases counts.len(),
{
    if counts.len() > 0 {
        lemma_counted_at(counts.drop_last(), file);
        match counted_at(counts.drop_last(), file) {
            Some(i) => {
                assert(counts.drop_last()[i] == counts[i]);
            },
            None => {
                assert forall|i: int| 0 <= i < counts.len() - 1 implies #[trigger] counts[i].file
                    != file by {
                    assert(counts.drop_last()[i] == counts[i]);
                }
            },
        }
    }
}

proof fn lemma_counted_at_is(counts: Seq<FileCountText>, file: Seq<char>, i: int)
    requires
        0 <= i < counts.len(),
        counts[i].file == file,
        forall|j: int| 0 <= j < i ==> #[trigger] counts[j].file != file,
    ensures
        counted_at(counts, file) == Some(i),
    decreases counts.len(),
{
    if i == counts.len() - 1 {
        lemma_counted_at(counts.drop_last(), file);
        match counted_at(counts.drop_last(), file) {
            Some(j) => {
                assert(counts.drop_last()[j] == counts[j]);
            },
            None => {},
        }
    } else {
        assert forall|j: int| 0 <= j < i implies #[trigger] counts.drop_last()[j].file != file by {
            assert(counts.drop_last()[j] == counts[j]);
        }
        lemma_counted_at_is(counts.drop_last(), file, i);
    }
}

fn find_count(counts: &Vec<FileCount>, file: &str) -> (r: Option<usize>)
    ensures
        match r {
            Some(i) => i < counts@.len() && counted_at(file_counts(counts@), file@) == Some(
                i as int,
            ),
            None => counted_at(file_counts(counts@), file@) is None,
        },
{
    let ghost all = file_counts(counts@);
    let mut i: usize = 0;
    while i < counts.len()
        invariant
            i <= counts@.len(),
            all == file_counts(counts@),
            forall|j: int| 0 <= j < i ==> #[trigger] all[j].file != file@,
        decreases counts@.len() - i,
    {
        proof {
            assert(all[i as int] == counts@[i as int]@);
        }
        if same_text(counts[i].file.as_str(), file) {
            proof {
                lemma_counted_at_is(all, file@, i as int);
            }
            return Some(i);
        }
        i = i + 1;
    }
    proof {
        lemma_counted_at(all, file@);
    }
    None
}

fn tally(files: &[String]) -> (r: Vec<FileCount>)
    ensures
        file_counts(r@) == count_files(texts(files@)),
{
    let ghost all = texts(files@);
    let mut out: Vec<FileCount> = Vec::new();
    let mut i: usize = 0;
    proof {
        assert(file_counts(out@) =~= count_files(all.take(0)));
    }
    while i < files.len()
        invariant
            i <= files@.len(),
            all == texts(files@),
            file_counts(out@) == count_files(all.take(i as int)),
        decreases files@.len() - i,
    {
        let ghost before = file_counts(out@);
        proof {
            assert(all.take(i + 1).drop_last() =~= all.take(i as int));
            assert(all.take(i + 1).last() == files@[i as int]@);
            lemma_counts_bounded(all.take(i as int));
        }
        match find_count(&out, files[i].as_str()) {
            Some(at) => {
                proof {
                    lemma_counted_at(before, files@[i as int]@);
                    assert(before[at as int] == out@[at as int]@);
                }
                let count: usize = out[at].count + 1;
                let file = files[i].clone();
                let entry = FileCount { file, count };
                proof {
                    assert(file_counts(out@.update(at as int, entry)) =~= before.update(
                        at as int,
                        entry@,
                    ));
                }
                out.set(at, entry);
            },
            None => {
                let file = files[i].clone();
                let entry = FileCount { file, count: 1 };
                proof {
                    assert(file_counts(out@.push(entry)) =~= before.push(entry@));
                }
                out.push(entry);
            },
        }
        i = i + 1;
    }
    proof {
        assert(all.take(all.len() as int) =~= all);
    }
    out
}

/// Summarises the files of the items a page left out, the most named first.
pub fn by_file_summary(files: &[String], most: usize) -> (r: String)
    ensures
        r@ == by_file_summary_spec(texts(files@), most as nat),
{
    let counts = tally(files);
    let ghost view = |f: FileCount| f@;
    proof {
        lemma_sort_maps(counts@, view, rank_order::<FileCount>(), more_often());
    }
    let sorted = sort_ranked(counts);
    let ghost order = sort_stable(count_files(texts(files@)), more_often());
    proof {
        assert(file_counts(sorted@) =~= order);
    }
    let shown: usize = if sorted.len() <= most {
        sorted.len()
    } else {
        most
    };
    let mut rows: Vec<String> = Vec::new();
    let mut i: usize = 0;
    while i < shown
        invariant
            i <= shown <= sorted@.len(),
            rows@.len() == i,
            forall|j: int| 0 <= j < i ==> #[trigger] rows@[j]@ == count_row(sorted@[j]@),
        decreases shown - i,
    {
        let mut row = "- `".to_owned();
        row.append(sorted[i].file.as_str());
        row.append("`: ");
        row.append(usize_text(sorted[i].count).as_str());
        row.append("\n");
        rows.push(row);
        i = i + 1;
    }
    let mut out = concat_texts(rows.as_slice());
    proof {
        let part = order.take(shown as int);
        assert(texts(rows@) =~= part.map_values(|c: FileCountText| count_row(c))) by {
            assert forall|j: int| 0 <= j < shown implies order[j] == sorted@[j]@ by {
                assert(file_counts(sorted@)[j] == sorted@[j]@);
            }
        }
        assert(order.len() == sorted@.len());
        if sorted@.len() <= most {
            assert(order.take(order.len() as int) =~= order);
        }
    }
    if sorted.len() > most {
        out.append("- and ");
        out.append(usize_text(sorted.len() - most).as_str());
        out.append(" more files\n");
    }
    out
}

} // verus!
