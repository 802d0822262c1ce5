//! The answers of the version-control tools.

use vstd::prelude::*;

use crate::budget::{cap, capped_spec, fitting, truncate_on_char_boundary, ListWindow};
use crate::order::{dedup_strings, dedup_texts, sort_strings, sort_texts};
use crate::symbols::{symbol_texts, Symbol, SymbolText};
use crate::text::{
    byte_len, concat, concat_texts, contains_text, decimal, ends_with, join, join_spec, lines,
    lines_of, occurs, occurs_at, rfind_chars, rfind_text, same_text, strip_prefix,
    strip_prefix_spec, sub_text, texts, to_chars, usize_text,
};

verus! {

/// What a version-control tool says of a repository without one.
pub open spec fn no_git_text(repo: Seq<char>) -> Seq<char> {
    "Git not available for "@ + repo + ". Enable with --git flag."@
}

pub fn no_git_message(repo: &str) -> (r: String)
    ensures
        r@ == no_git_text(repo@),
{
    let mut out = "Git not available for ".to_owned();
    out.append(repo);
    out.append(". Enable with --git flag.");
    out
}

// ---- splitting a diff ----

/// A file's header begins at `p`: at the start of a line.
pub open spec fn header_at(diff: Seq<char>, p: int) -> bool {
    &&& p == 0 || diff[p - 1] == '\n'
    &&& occurs_at(diff, "diff --git "@, p) || occurs_at(diff, "diff --cc "@, p)
}

/// Where headers begin among the first `n` places.
pub open spec fn headers_to(diff: Seq<char>, n: int) -> Seq<int>
    decreases n,
{
    if n <= 0 {
        Seq::empty()
    } else {
        let front = headers_to(diff, n - 1);
        if header_at(diff, n - 1) {
            front.push(n - 1)
        } else {
            front
        }
    }
}

pub open spec fn first_line(s: Seq<char>) -> Seq<char> {
    if lines_of(s).len() > 0 {
        lines_of(s)[0]
    } else {
        Seq::empty()
    }
}

/// The path a header line names: what the file is called after the commit.
pub open spec fn header_path(header: Seq<char>) -> Seq<char> {
    match strip_prefix_spec(header, "diff --cc "@) {
        Some(rest) => rest,
        None => {
            let rest = match strip_prefix_spec(header, "diff --git "@) {
                Some(r) => r,
                None => header,
            };
            match rfind_text(rest, " b/"@) {
                Some(p) => rest.skip(p + 3),
                None => rest,
            }
        },
    }
}

/// One file's section of a diff.
#[derive(Debug)]
pub struct DiffFile {
    /// The path the header names; the new name for a rename.
    pub path: String,
    /// The section's text, header included.
    pub text: String,
}

pub struct DiffText {
    pub path: Seq<char>,
    pub text: Seq<char>,
}

impl View for DiffFile {
    type V = DiffText;

    open spec fn view(&self) -> DiffText {
        DiffText { path: self.path@, text: self.text@ }
    }
}

pub open spec fn diff_texts(v: Seq<DiffFile>) -> Seq<DiffText> {
    v.map_values(|f: DiffFile| f@)
}

/// Where the section of header `k` ends.
pub open spec fn section_end(diff: Seq<char>, headers: Seq<int>, k: int) -> int {
    if k + 1 < headers.len() {
        headers[k + 1]
    } else {
        diff.len() as int
    }
}

/// Where the section of header `k` begins. What stands before the first header belongs to
/// the first section.
pub open spec fn section_start(headers: Seq<int>, k: int) -> int {
    if k == 0 {
        0
    } else {
        headers[k]
    }
}

pub open spec fn section(diff: Seq<char>, headers: Seq<int>, k: int) -> DiffText {
    let end = section_end(diff, headers, k);
    DiffText {
        path: header_path(first_line(diff.subrange(headers[k], end))),
        text: diff.subrange(section_start(headers, k), end),
    }
}

/// The sections of a diff, in order.
pub open spec fn sections(diff: Seq<char>) -> Seq<DiffText> {
    let headers = headers_to(diff, diff.len() as int);
    Seq::new(headers.len(), |k: int| section(diff, headers, k))
}

proof fn lemma_headers(diff: Seq<char>, n: int)
    requires
        0 <= n <= diff.len(),
    ensures
        forall|i: int|
            0 <= i < headers_to(diff, n).len() ==> 0 <= #[trigger] headers_to(diff, n)[i] < n
                && header_at(diff, headers_to(diff, n)[i]),
        forall|i: int, j: int|
            0 <= i < j < headers_to(diff, n).len() ==> #[trigger] headers_to(diff, n)[i]
                < #[trigger] headers_to(diff, n)[j],
    decreases n,
{
    if n > 0 {
        lemma_headers(diff, n - 1);
        let front = headers_to(diff, n - 1);
        let all = headers_to(diff, n);
        assert forall|i: int| 0 <= i < all.len() implies 0 <= #[trigger] all[i] < n && header_at(
            diff,
            all[i],
        ) by {
            if i < front.len() {
                assert(0 <= front[i] < n - 1);
            }
        }
        assert forall|i: int, j: int| 0 <= i < j < all.len() implies #[trigger] all[i]
            < #[trigger] all[j] by {
            if j < front.len() {
                assert(front[i] < front[j]);
            } else {
                assert(0 <= front[i] < n - 1);
            }
        }
    }
}

/// The sections make up the diff: put one behind the other they give it back, wherever it
/// names a file at all.
pub proof fn law_sections_make_up_the_diff(diff: Seq<char>)
    requires
        sections(diff).len() > 0,
    ensures
        concat(sections(diff).map_values(|f: DiffText| f.text)) == diff,
{
    let headers = headers_to(diff, diff.len() as int);
    lemma_headers(diff, diff.len() as int);
    lemma_sections_to(diff, headers, headers.len() as int);
    let parts = sections(diff).map_values(|f: DiffText| f.text);
    assert(parts =~= Seq::new(headers.len(), |k: int| section(diff, headers, k).text));
    assert(diff.take(diff.len() as int) =~= diff);
}

proof fn lemma_sections_to(diff: Seq<char>, headers: Seq<int>, n: int)
    requires
        0 < n <= headers.len(),
        forall|i: int| 0 <= i < headers.len() ==> 0 <= #[trigger] headers[i] < diff.len(),
        forall|i: int, j: int|
            0 <= i < j < headers.len() ==> #[trigger] headers[i] < #[trigger] headers[j],
    ensures
        concat(Seq::new(n as nat, |k: int| section(diff, headers, k).text)) == diff.take(
            section_end(diff, headers, n - 1),
        ),
    decreases n,
{
    let parts = Seq::new(n as nat, |k: int| section(diff, headers, k).text);
    let end = section_end(diff, headers, n - 1);
    assert(0 <= end <= diff.len());
    if n == 1 {
        assert(parts.drop_last() =~= Seq::<Seq<char>>::empty());
        assert(concat(parts.drop_last()) =~= Seq::<char>::empty());
        assert(parts.last() =~= diff.take(end));
        assert(concat(parts) =~= diff.take(end));
    } else {
        lemma_sections_to(diff, headers, n - 1);
        let before = section_end(diff, headers, n - 2);
        assert(before == headers[n - 1]);
        assert(parts.drop_last() =~= Seq::new(
            (n - 1) as nat,
            |k: int| section(diff, headers, k).text,
        ));
        assert(parts.last() == diff.subrange(before, end));
        assert(headers[n - 1] <= end);
        assert(diff.take(before) + diff.subrange(before, end) =~= diff.take(end));
    }
}

/// The path a `diff --git a/x b/x` or `diff --cc x` line names.
pub fn diff_header_path(header: &str) -> (r: String)
    ensures
        r@ == header_path(header@),
{
    match strip_prefix(header, "diff --cc ") {
        Some(rest) => rest,
        None => {
            let rest = match strip_prefix(header, "diff --git ") {
                Some(x) => x,
                None => header.to_owned(),
            };
            let chars = to_chars(rest.as_str());
            let mark = to_chars(" b/");
            let total: usize = chars.len();
            proof {
                reveal_strlit(" b/");
                crate::text::lemma_rfind_from(rest@, " b/"@, rest@.len() - 3);
            }
            match rfind_chars(chars.as_slice(), mark.as_slice()) {
                Some(p) => {
                    proof {
                        assert(rest@.subrange(p + 3, rest@.len() as int) =~= rest@.skip(p + 3));
                    }
                    sub_text(chars.as_slice(), p + 3, total)
                },
                None => rest,
            }
        },
    }
}

fn find_headers(diff: &[char]) -> (r: Vec<usize>)
    ensures
        r@.map_values(|i: usize| i as int) == headers_to(diff@, diff@.len() as int),
{
    let git = to_chars("diff --git ");
    let merge = to_chars("diff --cc ");
    let ghost num = |i: usize| i as int;
    let mut out: Vec<usize> = Vec::new();
    let mut p: usize = 0;
    proof {
        assert(out@.map_values(num) =~= headers_to(diff@, 0));
    }
    while p < diff.len()
        invariant
            p <= diff@.len(),
            git@ == "diff --git "@,
            merge@ == "diff --cc "@,
            num == (|i: usize| i as int),
            out@.map_values(num) == headers_to(diff@, p as int),
        decreases diff@.len() - p,
    {
        if (p == 0 || diff[p - 1] == '\n') && (occurs(diff, git.as_slice(), p) || occurs(
            diff,
            merge.as_slice(),
            p,
        )) {
            proof {
                assert(out@.push(p).map_values(num) =~= out@.map_values(num).push(p as int));
            }
            out.push(p);
        }
        p = p + 1;
    }
    out
}

fn line_one(section: &str) -> (r: String)
    ensures
        r@ == first_line(section@),
{
    let all = lines(section);
    proof {
        assert(texts(all@).len() == all@.len());
    }
    if all.len() > 0 {
        proof {
            assert(texts(all@)[0] == all@[0]@);
        }
        all[0].clone()
    } else {
        let none = String::new();
        proof {
            assert(none@ =~= Seq::<char>::empty());
        }
        none
    }
}

/// Splits a patch into sections by file, in its order. Text before the first header goes
/// with the first section.
pub fn split_diff_by_file(diff: &str) -> (r: Vec<DiffFile>)
    ensures
        diff_texts(r@) == sections(diff@),
{
    let chars = to_chars(diff);
    let headers = find_headers(chars.as_slice());
    let ghost hs = headers_to(diff@, diff@.len() as int);
    proof {
        lemma_headers(diff@, diff@.len() as int);
        assert(headers@.map_values(|i: usize| i as int) == hs);
        assert(headers@.len() == hs.len());
    }
    let mut out: Vec<DiffFile> = Vec::new();
    let mut k: usize = 0;
    while k < headers.len()
        invariant
            k <= headers@.len(),
            chars@ == diff@,
            hs == headers_to(diff@, diff@.len() as int),
            headers@.map_values(|i: usize| i as int) == hs,
            headers@.len() == hs.len(),
            forall|i: int| 0 <= i < hs.len() ==> 0 <= #[trigger] hs[i] < diff@.len(),
            forall|i: int, j: int|
                0 <= i < j < hs.len() ==> #[trigger] hs[i] < #[trigger] hs[j],
            out@.len() == k,
            forall|j: int| 0 <= j < k ==> (#[trigger] out@[j])@ == section(diff@, hs, j),
        decreases headers@.len() - k,
    {
        proof {
            assert(headers@.map_values(|i: usize| i as int)[k as int] == headers@[k as int]);
            assert(hs[k as int] == headers@[k as int]);
            if k + 1 < headers@.len() {
                assert(headers@.map_values(|i: usize| i as int)[k + 1] == headers@[k + 1]);
                assert(hs[k + 1] == headers@[k + 1]);
            }
        }
        let at: usize = headers[k];
        let end: usize = if k + 1 < headers.len() {
            headers[k + 1]
        } else {
            chars.len()
        };
        let from: usize = if k == 0 {
            0
        } else {
            at
        };
        let own = sub_text(chars.as_slice(), at, end);
        let header = line_one(own.as_str());
        let path = diff_header_path(header.as_str());
        let text = sub_text(chars.as_slice(), from, end);
        out.push(DiffFile { path, text });
        k = k + 1;
    }
    proof {
        assert(diff_texts(out@) =~= sections(diff@));
    }
    out
}

// ---- a commit under the response budget ----

/// The least a diff may be given.
pub const MIN_COMMIT_DIFF_BYTES: usize = 4096;

/// The bytes an answer may take: what the caller asked for, within the limits.
pub open spec fn diff_cap(asked: Option<usize>, max_response: usize) -> usize {
    match asked {
        None => max_response,
        Some(n) => if n < MIN_COMMIT_DIFF_BYTES {
            MIN_COMMIT_DIFF_BYTES
        } else if n > max_response {
            max_response
        } else {
            n
        },
    }
}

pub open spec fn file_row(f: DiffText) -> Seq<char> {
    "- `"@ + f.path + "` ("@ + decimal(byte_len(f.text) as nat) + " bytes)\n"@
}

/// The answer's beginning: the commit, and every file it changes.
pub open spec fn diff_header(commit: Seq<char>, path: Option<Seq<char>>, files: Seq<DiffText>) -> Seq<
    char,
> {
    let asked = match path {
        Some(p) => "**File**: `"@ + p + "`\n\n"@,
        None => Seq::empty(),
    };
    "# Commit Diff: `"@ + commit + "`\n\n"@ + asked + "**Files changed**: "@
        + decimal(files.len() as nat) + "\n\n"@ + concat(
        files.map_values(|f: DiffText| file_row(f)),
    ) + "\n"@
}

/// What is left for the sections once the header and the footer have their room.
pub open spec fn sections_budget(cap: usize, header: usize) -> int {
    if cap >= header + 2048 {
        cap - (header + 2048)
    } else {
        0
    }
}

/// How many whole sections fit, from section `i` on.
pub open spec fn sections_fit(files: Seq<DiffText>, i: int, room: int) -> int
    decreases files.len() - i,
{
    if i >= files.len() {
        i
    } else if byte_len(files[i].text) > room {
        i
    } else {
        sections_fit(files, i + 1, room - byte_len(files[i].text))
    }
}

/// The first section is bigger than the whole budget.
pub open spec fn cuts_first(files: Seq<DiffText>, budget: int) -> bool {
    files.len() > 0 && sections_fit(files, 0, budget) == 0
}

/// A text up to and with its last line end; all of it where it has none.
pub open spec fn to_last_line(s: Seq<char>) -> Seq<char> {
    match rfind_text(s, seq!['\n']) {
        Some(p) => s.take(p + 1),
        None => s,
    }
}

pub open spec fn diff_body(files: Seq<DiffText>, budget: int) -> Seq<char> {
    if cuts_first(files, budget) {
        to_last_line(files[0].text.take(fitting(files[0].text, budget as nat) as int))
    } else {
        concat(
            files.take(sections_fit(files, 0, budget)).map_values(|f: DiffText| f.text),
        )
    }
}

pub open spec fn files_shown(files: Seq<DiffText>, budget: int) -> int {
    if cuts_first(files, budget) {
        1
    } else {
        sections_fit(files, 0, budget)
    }
}

pub open spec fn line_closed(s: Seq<char>) -> Seq<char> {
    if "\n"@.is_suffix_of(s) {
        s
    } else {
        s + "\n"@
    }
}

pub open spec fn diff_footer(commit: Seq<char>, files: Seq<DiffText>, shown: int) -> Seq<char> {
    if shown < files.len() {
        "\n## Files not shown\n\n"@ + concat(
            files.skip(shown).map_values(|f: DiffText| file_row(f)),
        ) + "\n*Showing "@ + decimal(shown as nat) + " of "@ + decimal(files.len() as nat)
            + " files. One file at a time: get_commit_diff(commit=\""@ + commit + "\", path=\""@
            + files[shown].path + "\").*\n"@
    } else {
        Seq::empty()
    }
}

/// The note on a first section that did not fit.
pub open spec fn cut_note(files: Seq<DiffText>, cut: bool, cap: usize) -> Seq<char> {
    if cut {
        "\n*`"@ + files[0].path + "` alone exceeds the "@ + decimal((cap / 1024) as nat)
            + " KB budget and is cut above.*\n"@
    } else {
        Seq::empty()
    }
}

/// The answer that shows a commit: all files by name, whole sections as far as they fit,
/// and the files left out.
pub open spec fn commit_answer(
    commit: Seq<char>,
    path: Option<Seq<char>>,
    files: Seq<DiffText>,
    cap: usize,
) -> Seq<char> {
    let header = diff_header(commit, path, files);
    let budget = sections_budget(cap, byte_len(header));
    let cut = cut_note(files, cuts_first(files, budget), cap);
    line_closed(header + "```diff\n"@ + diff_body(files, budget)) + "```\n"@ + cut + diff_footer(
        commit,
        files,
        files_shown(files, budget),
    )
}

proof fn lemma_sections_fit(files: Seq<DiffText>, i: int, room: int)
    requires
        0 <= i <= files.len(),
    ensures
        i <= sections_fit(files, i, room) <= files.len(),
    decreases files.len() - i,
{
    if i < files.len() && byte_len(files[i].text) <= room {
        lemma_sections_fit(files, i + 1, room - byte_len(files[i].text));
    }
}

/// A text found inside another is found in whatever that one is part of.
proof fn lemma_found_in_whole(before: Seq<char>, s: Seq<char>, after: Seq<char>, p: Seq<char>)
    requires
        contains_text(s, p),
    ensures
        contains_text(before + s + after, p),
{
    let i = choose|i: int| occurs_at(s, p, i);
    let whole = before + s + after;
    let k = before.len() + i;
    assert(whole.subrange(k, k + p.len()) =~= s.subrange(i, i + p.len()));
    assert(occurs_at(whole, p, k));
}

proof fn lemma_part_found(parts: Seq<Seq<char>>, i: int)
    requires
        0 <= i < parts.len(),
    ensures
        contains_text(concat(parts), parts[i]),
    decreases parts.len(),
{
    let front = concat(parts.drop_last());
    let none = Seq::<char>::empty();
    if i < parts.len() - 1 {
        lemma_part_found(parts.drop_last(), i);
        lemma_found_in_whole(none, front, parts.last(), parts[i]);
        assert(none + front + parts.last() =~= concat(parts));
    } else {
        assert(parts.last().subrange(0, parts.last().len() as int) =~= parts.last());
        assert(occurs_at(parts.last(), parts.last(), 0));
        lemma_found_in_whole(front, parts.last(), none, parts.last());
        assert(front + parts.last() + none =~= concat(parts));
    }
}

proof fn lemma_found_in_front(s: Seq<char>, rest: Seq<char>, p: Seq<char>)
    requires
        contains_text(s, p),
    ensures
        contains_text(s + rest, p),
{
    let none = Seq::<char>::empty();
    lemma_found_in_whole(none, s, rest, p);
    assert(none + s + rest =~= s + rest);
}

proof fn lemma_header_names(commit: Seq<char>, path: Option<Seq<char>>, files: Seq<DiffText>, i: int)
    requires
        0 <= i < files.len(),
    ensures
        contains_text(diff_header(commit, path, files), file_row(files[i])),
{
    let rows = files.map_values(|f: DiffText| file_row(f));
    lemma_part_found(rows, i);
    assert(rows[i] == file_row(files[i]));
    let asked = match path {
        Some(p) => "**File**: `"@ + p + "`\n\n"@,
        None => Seq::empty(),
    };
    let head = "# Commit Diff: `"@ + commit + "`\n\n"@ + asked + "**Files changed**: "@ + decimal(
        files.len() as nat,
    ) + "\n\n"@;
    lemma_found_in_whole(head, concat(rows), "\n"@, file_row(files[i]));
}

/// However little room there is, the answer names every file the commit changes.
pub proof fn law_every_file_is_named(
    commit: Seq<char>,
    path: Option<Seq<char>>,
    files: Seq<DiffText>,
    cap: usize,
    i: int,
)
    requires
        0 <= i < files.len(),
    ensures
        contains_text(commit_answer(commit, path, files, cap), file_row(files[i])),
{
    let row = file_row(files[i]);
    let header = diff_header(commit, path, files);
    lemma_header_names(commit, path, files, i);
    let budget = sections_budget(cap, byte_len(header));
    let body = diff_body(files, budget);
    let cut = cut_note(files, cuts_first(files, budget), cap);
    let footer = diff_footer(commit, files, files_shown(files, budget));
    lemma_found_in_front(header, "```diff\n"@, row);
    lemma_found_in_front(header + "```diff\n"@, body, row);
    let opened = header + "```diff\n"@ + body;
    lemma_found_in_front(opened, "\n"@, row);
    let closed = line_closed(opened);
    lemma_found_in_front(closed, "```\n"@, row);
    lemma_found_in_front(closed + "```\n"@, cut, row);
    lemma_found_in_front(closed + "```\n"@ + cut, footer, row);
}

/// Of a commit that changes a file some section is shown, if only its beginning.
pub proof fn law_some_section_is_shown(files: Seq<DiffText>, budget: int)
    requires
        files.len() > 0,
    ensures
        0 < files_shown(files, budget) <= files.len(),
{
    lemma_sections_fit(files, 0, budget);
}

fn list_files(files: &[DiffFile], from: usize) -> (r: String)
    requires
        from <= files@.len(),
    ensures
        r@ == concat(diff_texts(files@).skip(from as int).map_values(|f: DiffText| file_row(f))),
{
    let ghost all = diff_texts(files@);
    let mut rows: Vec<String> = Vec::new();
    let mut i: usize = from;
    while i < files.len()
        invariant
            from <= i <= files@.len(),
            all == diff_texts(files@),
            rows@.len() == i - from,
            forall|j: int|
                0 <= j < rows@.len() ==> #[trigger] rows@[j]@ == file_row(all[from + j]),
        decreases files@.len() - i,
    {
        proof {
            assert(all[i as int] == files@[i as int]@);
        }
        let mut row = "- `".to_owned();
        row.append(files[i].path.as_str());
        row.append("` (");
        row.append(usize_text(files[i].text.as_str().len()).as_str());
        row.append(" bytes)\n");
        rows.push(row);
        i = i + 1;
    }
    proof {
        assert(texts(rows@) =~= all.skip(from as int).map_values(|f: DiffText| file_row(f)));
    }
    concat_texts(rows.as_slice())
}

fn cut_at_line(head: &str) -> (r: String)
    ensures
        r@ == to_last_line(head@),
{
    let chars = to_chars(head);
    let mark: Vec<char> = vec!['\n'];
    let _total: usize = chars.len();
    proof {
        assert(mark@ =~= seq!['\n']);
        crate::text::lemma_rfind_from(head@, seq!['\n'], head@.len() - 1);
    }
    match rfind_chars(chars.as_slice(), mark.as_slice()) {
        Some(p) => {
            proof {
                assert(head@.subrange(0, p + 1) =~= head@.take(p + 1));
            }
            sub_text(chars.as_slice(), 0, p + 1)
        },
        None => head.to_owned(),
    }
}

fn render_diff_header(commit: &str, path: Option<&str>, files: &[DiffFile]) -> (r: String)
    ensures
        r@ == diff_header(
            commit@,
            match path {
                Some(p) => Some(p@),
                None => None,
            },
            diff_texts(files@),
        ),
{
    let ghost all = diff_texts(files@);
    let mut asked = String::new();
    proof {
        assert(asked@ =~= Seq::<char>::empty());
        assert(all.len() == files@.len());
        assert(all.skip(0) =~= all);
    }
    match path {
        Some(p) => {
            asked = "**File**: `".to_owned();
            asked.append(p);
            asked.append("`\n\n");
        },
        None => {},
    }
    let mut out = "# Commit Diff: `".to_owned();
    out.append(commit);
    out.append("`\n\n");
    out.append(asked.as_str());
    out.append("**Files changed**: ");
    out.append(usize_text(files.len()).as_str());
    out.append("\n\n");
    out.append(list_files(files, 0).as_str());
    out.append("\n");
    out
}

/// The sections shown: how many, their text, and whether the first one was cut.
struct ShownSections {
    count: usize,
    body: String,
    cut: bool,
}

fn show_sections(files: &[DiffFile], budget: usize) -> (r: ShownSections)
    ensures
        r.count == files_shown(diff_texts(files@), budget as int),
        r.count <= files@.len(),
        r.body@ == diff_body(diff_texts(files@), budget as int),
        r.cut == cuts_first(diff_texts(files@), budget as int),
{
    let ghost all = diff_texts(files@);
    proof {
        assert(all.len() == files@.len());
        lemma_sections_fit(all, 0, budget as int);
    }
    let mut room: usize = budget;
    let mut shown: usize = 0;
    let mut full = false;
    let mut parts: Vec<String> = Vec::new();
    while shown < files.len() && !full
        invariant
            shown <= files@.len(),
            all == diff_texts(files@),
            sections_fit(all, 0, budget as int) == if full {
                shown as int
            } else {
                sections_fit(all, shown as int, room as int)
            },
            parts@.len() == shown,
            forall|j: int| 0 <= j < shown ==> #[trigger] parts@[j]@ == all[j].text,
        decreases
            files@.len() - shown + (if full {
                0int
            } else {
                1int
            }),
    {
        proof {
            assert(all[shown as int] == files@[shown as int]@);
        }
        let length: usize = files[shown].text.as_str().len();
        if length > room {
            full = true;
        } else {
            room = room - length;
            parts.push(files[shown].text.clone());
            shown = shown + 1;
        }
    }
    proof {
        assert(sections_fit(all, 0, budget as int) == shown);
        assert(texts(parts@) =~= all.take(shown as int).map_values(|f: DiffText| f.text));
    }
    if shown == 0 && files.len() > 0 {
        proof {
            assert(all[0] == files@[0]@);
        }
        let head = truncate_on_char_boundary(files[0].text.as_str(), budget);
        ShownSections { count: 1, body: cut_at_line(head.as_str()), cut: true }
    } else {
        ShownSections { count: shown, body: concat_texts(parts.as_slice()), cut: false }
    }
}

fn render_diff_footer(commit: &str, files: &[DiffFile], shown: usize) -> (r: String)
    requires
        shown <= files@.len(),
    ensures
        r@ == diff_footer(commit@, diff_texts(files@), shown as int),
{
    let ghost all = diff_texts(files@);
    let mut tail = String::new();
    proof {
        assert(tail@ =~= Seq::<char>::empty());
        assert(all.len() == files@.len());
    }
    if shown < files.len() {
        proof {
            assert(all[shown as int] == files@[shown as int]@);
        }
        tail = "\n## Files not shown\n\n".to_owned();
        tail.append(list_files(files, shown).as_str());
        let mut rest = "\n*Showing ".to_owned();
        rest.append(usize_text(shown).as_str());
        rest.append(" of ");
        rest.append(usize_text(files.len()).as_str());
        rest.append(" files. One file at a time: get_commit_diff(commit=\"");
        rest.append(commit);
        rest.append("\", path=\"");
        rest.append(files[shown].path.as_str());
        rest.append("\").*\n");
        tail.append(rest.as_str());
    }
    tail
}

fn render_cut_note(files: &[DiffFile], cut: bool, limit: usize) -> (r: String)
    requires
        cut ==> files@.len() > 0,
    ensures
        r@ == cut_note(diff_texts(files@), cut, limit),
{
    if cut {
        proof {
            assert(diff_texts(files@)[0] == files@[0]@);
        }
        let mut out = "\n*`".to_owned();
        out.append(files[0].path.as_str());
        out.append("` alone exceeds the ");
        out.append(usize_text(limit / 1024).as_str());
        out.append(" KB budget and is cut above.*\n");
        out
    } else {
        let none = String::new();
        proof {
            assert(none@ =~= Seq::<char>::empty());
        }
        none
    }
}

/// Renders a commit's diff within a budget. `max_response` is the most any answer may take.
pub fn render_commit_diff(
    commit: &str,
    path: Option<&str>,
    diff: &str,
    max_bytes: Option<usize>,
    max_response: usize,
) -> (r: String)
    requires
        max_response >= MIN_COMMIT_DIFF_BYTES,
    ensures
        r@ == commit_answer(
            commit@,
            match path {
                Some(p) => Some(p@),
                None => None,
            },
            sections(diff@),
            diff_cap(max_bytes, max_response),
        ),
{
    let files = split_diff_by_file(diff);
    let limit: usize = match max_bytes {
        None => max_response,
        Some(n) => if n < MIN_COMMIT_DIFF_BYTES {
            MIN_COMMIT_DIFF_BYTES
        } else if n > max_response {
            max_response
        } else {
            n
        },
    };
    let mut out = render_diff_header(commit, path, files.as_slice());
    let size: usize = out.as_str().len();
    let budget: usize = if limit >= 2048 && size <= limit - 2048 {
        limit - 2048 - size
    } else {
        0
    };
    let shown = show_sections(files.as_slice(), budget);
    out.append("```diff\n");
    out.append(shown.body.as_str());
    if !ends_with(out.as_str(), "\n") {
        out.append("\n");
    }
    out.append("```\n");
    proof {
        assert(diff_texts(files@).len() == files@.len());
    }
    out.append(render_cut_note(files.as_slice(), shown.cut, limit).as_str());
    out.append(render_diff_footer(commit, files.as_slice(), shown.count).as_str());
    out
}

// ---- pages of simple lists ----

pub open spec fn bullet(s: Seq<char>) -> Seq<char> {
    "- "@ + s + "\n"@
}

pub open spec fn code_bullet(s: Seq<char>) -> Seq<char> {
    "- `"@ + s + "`\n"@
}

/// A page of a list, as bullets, and the way to the next page.
pub open spec fn bullet_page(list: Seq<Seq<char>>, code: bool, window: ListWindow, tool: Seq<char>) -> Seq<
    char,
> {
    let page = list.subrange(window.start(list.len()), window.end(list.len()));
    let capped = capped_spec(window, list.len());
    let rows = concat(
        page.map_values(
            |s: Seq<char>|
                if code {
                    code_bullet(s)
                } else {
                    bullet(s)
                },
        ),
    );
    if capped.is_cut() {
        rows + "\n"@ + capped.footer_spec(tool)
    } else {
        rows
    }
}

fn render_page(list: &[String], code: bool, window: ListWindow, tool: &str) -> (r: String)
    ensures
        r@ == bullet_page(texts(list@), code, window, tool@),
{
    let ghost all = texts(list@);
    let ghost row_of = |s: Seq<char>|
        if code {
            code_bullet(s)
        } else {
            bullet(s)
        };
    proof {
        assert(all.len() == list@.len());
    }
    let (start, end, capped) = cap(list.len(), window);
    let mut rows: Vec<String> = Vec::new();
    let mut i: usize = start;
    while i < end
        invariant
            start <= i <= end <= list@.len(),
            all == texts(list@),
            row_of == (|s: Seq<char>|
                if code {
                    code_bullet(s)
                } else {
                    bullet(s)
                }),
            rows@.len() == i - start,
            forall|j: int| 0 <= j < rows@.len() ==> #[trigger] rows@[j]@ == row_of(all[start + j]),
        decreases end - i,
    {
        proof {
            assert(all[i as int] == list@[i as int]@);
        }
        let mut row = if code {
            "- `".to_owned()
        } else {
            "- ".to_owned()
        };
        row.append(list[i].as_str());
        if code {
            row.append("`\n");
        } else {
            row.append("\n");
        }
        rows.push(row);
        i = i + 1;
    }
    proof {
        let page = all.subrange(start as int, end as int);
        assert(texts(rows@) =~= page.map_values(row_of));
    }
    let mut out = concat_texts(rows.as_slice());
    if capped.truncated() {
        out.append("\n");
        out.append(capped.footer(tool).as_str());
    }
    out
}

// ---- the branch ----

/// What a branch tracks.
#[derive(Debug)]
pub struct Upstream {
    pub upstream: String,
    pub ahead: usize,
    pub behind: usize,
    pub unpushed: Vec<String>,
}

pub struct UpstreamText {
    pub upstream: Seq<char>,
    pub ahead: usize,
    pub behind: usize,
    pub unpushed: Seq<Seq<char>>,
}

impl View for Upstream {
    type V = UpstreamText;

    open spec fn view(&self) -> UpstreamText {
        UpstreamText {
            upstream: self.upstream@,
            ahead: self.ahead,
            behind: self.behind,
            unpushed: texts(self.unpushed@),
        }
    }
}

pub open spec fn branch_answer(
    repo: Seq<char>,
    branch: Seq<char>,
    upstream: Option<UpstreamText>,
    modified: Seq<Seq<char>>,
    window: ListWindow,
) -> Seq<char> {
    let tracks = match upstream {
        Some(up) => "**Upstream**: `"@ + up.upstream + "`\n**Ahead**: "@
            + decimal(up.ahead as nat) + " | **Behind**: "@ + decimal(up.behind as nat) + "\n"@,
        None => "**Upstream**: *none (no tracking branch)*\n"@,
    };
    let tree = if modified.len() > 0 {
        "## Working Tree Changes\n\n"@ + bullet_page(modified, true, window, "get_branch_info"@)
    } else {
        "*No changes in working tree*\n"@
    };
    let unpushed = match upstream {
        Some(up) => if up.unpushed.len() > 0 {
            "\n## Unpushed Commits\n\n"@ + bullet_page(
                up.unpushed,
                false,
                window,
                "get_branch_info"@,
            )
        } else {
            Seq::empty()
        },
        None => Seq::empty(),
    };
    "# Git Status: "@ + repo + "\n\n**Current Branch**: `"@ + branch + "`\n"@ + tracks
        + "**Modified Files**: "@ + decimal(modified.len() as nat) + "\n\n"@ + tree + unpushed
}

/// Renders the state of the current branch. A branch that tracks nothing is a normal state.
pub fn render_branch_info(
    repo: &str,
    branch: &str,
    upstream: &Option<Upstream>,
    modified: &[String],
    window: ListWindow,
) -> (r: String)
    ensures
        r@ == branch_answer(
            repo@,
            branch@,
            match upstream {
                Some(up) => Some(up@),
                None => None,
            },
            texts(modified@),
            window,
        ),
{
    proof {
        assert(texts(modified@).len() == modified@.len());
    }
    let mut tracks = String::new();
    let mut unpushed = String::new();
    proof {
        assert(unpushed@ =~= Seq::<char>::empty());
    }
    match upstream {
        Some(up) => {
            proof {
                assert(texts(up.unpushed@).len() == up.unpushed@.len());
            }
            tracks = "**Upstream**: `".to_owned();
            tracks.append(up.upstream.as_str());
            tracks.append("`\n**Ahead**: ");
            tracks.append(usize_text(up.ahead).as_str());
            tracks.append(" | **Behind**: ");
            tracks.append(usize_text(up.behind).as_str());
            tracks.append("\n");
            if up.unpushed.len() > 0 {
                unpushed = "\n## Unpushed Commits\n\n".to_owned();
                unpushed.append(
                    render_page(
                        up.unpushed.as_slice(),
                        false,
                        window,
                        "get_branch_info",
                    ).as_str(),
                );
            }
        },
        None => {
            tracks = "**Upstream**: *none (no tracking branch)*\n".to_owned();
        },
    }
    let mut tree = String::new();
    if modified.len() > 0 {
        tree = "## Working Tree Changes\n\n".to_owned();
        tree.append(render_page(modified, true, window, "get_branch_info").as_str());
    } else {
        tree = "*No changes in working tree*\n".to_owned();
    }
    let mut out = "# Git Status: ".to_owned();
    out.append(repo);
    out.append("\n\n**Current Branch**: `");
    out.append(branch);
    out.append("`\n");
    out.append(tracks.as_str());
    out.append("**Modified Files**: ");
    out.append(usize_text(modified.len()).as_str());
    out.append("\n\n");
    out.append(tree.as_str());
    out.append(unpushed.as_str());
    out
}

pub open spec fn modified_answer(repo: Seq<char>, modified: Seq<Seq<char>>) -> Seq<char> {
    let list = if modified.len() > 0 {
        concat(modified.map_values(|s: Seq<char>| code_bullet(s)))
    } else {
        "*No changes in working tree*\n"@
    };
    "# Modified Files in "@ + repo + "\n\nFound "@ + decimal(modified.len() as nat)
        + " modified files\n\n"@ + list
}

/// Renders the files changed in the working tree.
pub fn render_modified_files(repo: &str, modified: &[String]) -> (r: String)
    ensures
        r@ == modified_answer(repo@, texts(modified@)),
{
    let ghost all = texts(modified@);
    proof {
        assert(all.len() == modified@.len());
    }
    let list = if modified.len() > 0 {
        let everything = ListWindow::new(0, 0);
        let page = render_page(modified, true, everything, "get_modified_files");
        proof {
            assert(all.subrange(0, all.len() as int) =~= all);
            let code = true;
            let f = |s: Seq<char>|
                if code {
                    code_bullet(s)
                } else {
                    bullet(s)
                };
            assert(everything.start(all.len()) == 0);
            assert(everything.end(all.len()) == all.len());
            let g = |s: Seq<char>| code_bullet(s);
            assert(all.map_values(f) =~= all.map_values(g));
        }
        page
    } else {
        "*No changes in working tree*\n".to_owned()
    };
    let mut out = "# Modified Files in ".to_owned();
    out.append(repo);
    out.append("\n\nFound ");
    out.append(usize_text(modified.len()).as_str());
    out.append(" modified files\n\n");
    out.append(list.as_str());
    out
}

// ---- contributors ----

/// A contributor and the number of their commits.
#[derive(Debug)]
pub struct Contributor {
    pub name: String,
    pub commits: usize,
}

pub open spec fn contributor_texts(v: Seq<Contributor>) -> Seq<(Seq<char>, usize)> {
    v.map_values(|c: Contributor| (c.name@, c.commits))
}

pub open spec fn contributor_row(c: (Seq<char>, usize)) -> Seq<char> {
    "- "@ + c.0 + " ("@ + decimal(c.1 as nat) + " commits)\n"@
}

/// A page of the ranking, and what it leaves out.
pub open spec fn contributors_page(list: Seq<(Seq<char>, usize)>, window: ListWindow) -> Seq<char> {
    let page = list.subrange(window.start(list.len()), window.end(list.len()));
    let capped = capped_spec(window, list.len());
    let rows = concat(page.map_values(|c: (Seq<char>, usize)| contributor_row(c)));
    if capped.is_cut() {
        rows + "\n"@ + capped.footer_spec("get_contributors"@)
    } else {
        rows
    }
}

/// Renders a page of contributors, the most active first as the list has them.
pub fn render_contributors(list: &[Contributor], window: ListWindow) -> (r: String)
    ensures
        r@ == contributors_page(contributor_texts(list@), window),
{
    let ghost all = contributor_texts(list@);
    proof {
        assert(all.len() == list@.len());
    }
    let (start, end, capped) = cap(list.len(), window);
    let mut rows: Vec<String> = Vec::new();
    let mut i: usize = start;
    while i < end
        invariant
            start <= i <= end <= list@.len(),
            all == contributor_texts(list@),
            rows@.len() == i - start,
            forall|j: int|
                0 <= j < rows@.len() ==> #[trigger] rows@[j]@ == contributor_row(all[start + j]),
        decreases end - i,
    {
        proof {
            assert(all[i as int] == (list@[i as int].name@, list@[i as int].commits));
        }
        let mut row = "- ".to_owned();
        row.append(list[i].name.as_str());
        row.append(" (");
        row.append(usize_text(list[i].commits).as_str());
        row.append(" commits)\n");
        rows.push(row);
        i = i + 1;
    }
    proof {
        let page = all.subrange(start as int, end as int);
        assert(texts(rows@) =~= page.map_values(|c: (Seq<char>, usize)| contributor_row(c)));
    }
    let mut out = concat_texts(rows.as_slice());
    if capped.truncated() {
        out.append("\n");
        out.append(capped.footer("get_contributors").as_str());
    }
    out
}

pub open spec fn contributors_answer(
    repo: Seq<char>,
    path: Option<Seq<char>>,
    list: Seq<(Seq<char>, usize)>,
    window: ListWindow,
) -> Seq<char> {
    match path {
        Some(p) => {
            let body = if list.len() == 0 {
                "*No contributors found for this file.*\n"@
            } else {
                contributors_page(list, window)
            };
            "# Contributors to `"@ + p + "`\n\n"@ + body
        },
        None => {
            let body = if list.len() == 0 {
                "*No contributors found.*\n"@
            } else {
                "**Total contributors**: "@ + decimal(list.len() as nat) + "\n\n"@
                    + contributors_page(list, window)
            };
            "# Repository Contributors: "@ + repo + "\n\n"@ + body
        },
    }
}

/// Renders the contributors to a file, or to the whole repository.
pub fn render_contributors_of(
    repo: &str,
    path: Option<&str>,
    list: &[Contributor],
    window: ListWindow,
) -> (r: String)
    ensures
        r@ == contributors_answer(
            repo@,
            match path {
                Some(p) => Some(p@),
                None => None,
            },
            contributor_texts(list@),
            window,
        ),
{
    proof {
        assert(contributor_texts(list@).len() == list@.len());
    }
    match path {
        Some(p) => {
            let mut out = "# Contributors to `".to_owned();
            out.append(p);
            out.append("`\n\n");
            if list.len() == 0 {
                out.append("*No contributors found for this file.*\n");
            } else {
                out.append(render_contributors(list, window).as_str());
            }
            out
        },
        None => {
            let mut out = "# Repository Contributors: ".to_owned();
            out.append(repo);
            out.append("\n\n");
            if list.len() == 0 {
                out.append("*No contributors found.*\n");
            } else {
                let mut body = "**Total contributors**: ".to_owned();
                body.append(usize_text(list.len()).as_str());
                body.append("\n\n");
                body.append(render_contributors(list, window).as_str());
                out.append(body.as_str());
            }
            out
        },
    }
}

// ---- recent changes and churn ----

/// A commit in a list of changes.
#[derive(Debug)]
pub struct CommitLine {
    pub short_hash: String,
    pub subject: String,
    pub author: String,
    pub insertions: usize,
    pub deletions: usize,
}

pub struct CommitText {
    pub short_hash: Seq<char>,
    pub subject: Seq<char>,
    pub author: Seq<char>,
    pub insertions: usize,
    pub deletions: usize,
}

impl View for CommitLine {
    type V = CommitText;

    open spec fn view(&self) -> CommitText {
        CommitText {
            short_hash: self.short_hash@,
            subject: self.subject@,
            author: self.author@,
            insertions: self.insertions,
            deletions: self.deletions,
        }
    }
}

pub open spec fn commit_texts(v: Seq<CommitLine>) -> Seq<CommitText> {
    v.map_values(|c: CommitLine| c@)
}

pub open spec fn commit_row(c: CommitText) -> Seq<char> {
    "- `"@ + c.short_hash + "` "@ + c.subject + " - "@ + c.author + " (+"@
        + decimal(c.insertions as nat) + " -"@ + decimal(c.deletions as nat) + ")\n"@
}

pub open spec fn top_twenty<T>(list: Seq<T>) -> Seq<T> {
    if list.len() > 20 {
        list.take(20)
    } else {
        list
    }
}

pub open spec fn recent_answer(days: usize, commits: Seq<CommitText>) -> Seq<char> {
    "# Recent Changes (last "@ + decimal(days as nat) + " days)\n\nFound "@
        + decimal(commits.len() as nat) + " commits\n\n"@ + concat(
        top_twenty(commits).map_values(|c: CommitText| commit_row(c)),
    )
}

/// Renders recent changes, the first twenty of them.
pub fn render_recent_changes(days: usize, commits: &[CommitLine]) -> (r: String)
    ensures
        r@ == recent_answer(days, commit_texts(commits@)),
{
    let ghost all = commit_texts(commits@);
    proof {
        assert(all.len() == commits@.len());
    }
    let shown: usize = if commits.len() > 20 {
        20
    } else {
        commits.len()
    };
    let mut out = "# Recent Changes (last ".to_owned();
    out.append(usize_text(days).as_str());
    out.append(" days)\n\nFound ");
    out.append(usize_text(commits.len()).as_str());
    out.append(" commits\n\n");
    let mut rows: Vec<String> = Vec::new();
    let mut i: usize = 0;
    while i < shown
        invariant
            i <= shown <= commits@.len(),
            rows@.len() == i,
            forall|j: int| 0 <= j < i ==> #[trigger] rows@[j]@ == commit_row(commits@[j]@),
        decreases shown - i,
    {
        let c = &commits[i];
        let mut row = "- `".to_owned();
        row.append(c.short_hash.as_str());
        row.append("` ");
        row.append(c.subject.as_str());
        row.append(" - ");
        row.append(c.author.as_str());
        row.append(" (+");
        row.append(usize_text(c.insertions).as_str());
        row.append(" -");
        row.append(usize_text(c.deletions).as_str());
        row.append(")\n");
        rows.push(row);
        i = i + 1;
    }
    proof {
        assert(texts(rows@) =~= top_twenty(all).map_values(|c: CommitText| commit_row(c)));
    }
    out.append(concat_texts(rows.as_slice()).as_str());
    out
}

/// How often a file changes. The score comes as it is shown.
#[derive(Debug)]
pub struct FileChurn {
    pub file_path: String,
    pub total_commits: usize,
    pub unique_authors: usize,
    pub churn_score: String,
}

pub struct ChurnText {
    pub file_path: Seq<char>,
    pub total_commits: usize,
    pub unique_authors: usize,
    pub churn_score: Seq<char>,
}

impl View for FileChurn {
    type V = ChurnText;

    open spec fn view(&self) -> ChurnText {
        ChurnText {
            file_path: self.file_path@,
            total_commits: self.total_commits,
            unique_authors: self.unique_authors,
            churn_score: self.churn_score@,
        }
    }
}

pub open spec fn churn_texts(v: Seq<FileChurn>) -> Seq<ChurnText> {
    v.map_values(|c: FileChurn| c@)
}

pub open spec fn churn_row(c: ChurnText) -> Seq<char> {
    "| `"@ + c.file_path + "` | "@ + decimal(c.total_commits as nat) + " | "@
        + decimal(c.unique_authors as nat) + " | "@ + c.churn_score + " |\n"@
}

pub open spec fn churn_answer(days: usize, files: Seq<ChurnText>) -> Seq<char> {
    "# Code Hotspots (last "@ + decimal(days as nat)
        + " days)\n\nFiles with high change frequency (potential maintenance burden):\n\n| File | Commits | Authors | Churn Score |\n|------|---------|---------|-------------|\n"@
        + concat(
        top_twenty(files).map_values(|c: ChurnText| churn_row(c)),
    )
}

/// Renders the files that change most, the first twenty of them.
pub fn render_churn(days: usize, files: &[FileChurn]) -> (r: String)
    ensures
        r@ == churn_answer(days, churn_texts(files@)),
{
    let ghost all = churn_texts(files@);
    proof {
        assert(all.len() == files@.len());
    }
    let shown: usize = if files.len() > 20 {
        20
    } else {
        files.len()
    };
    let mut out = "# Code Hotspots (last ".to_owned();
    out.append(usize_text(days).as_str());
    out.append(" days)\n\nFiles with high change frequency (potential maintenance burden):\n\n| File | Commits | Authors | Churn Score |\n|------|---------|---------|-------------|\n");
    let mut rows: Vec<String> = Vec::new();
    let mut i: usize = 0;
    while i < shown
        invariant
            i <= shown <= files@.len(),
            rows@.len() == i,
            forall|j: int| 0 <= j < i ==> #[trigger] rows@[j]@ == churn_row(files@[j]@),
        decreases shown - i,
    {
        let c = &files[i];
        let mut row = "| `".to_owned();
        row.append(c.file_path.as_str());
        row.append("` | ");
        row.append(usize_text(c.total_commits).as_str());
        row.append(" | ");
        row.append(usize_text(c.unique_authors).as_str());
        row.append(" | ");
        row.append(c.churn_score.as_str());
        row.append(" |\n");
        rows.push(row);
        i = i + 1;
    }
    proof {
        assert(texts(rows@) =~= top_twenty(all).map_values(|c: ChurnText| churn_row(c)));
    }
    out.append(concat_texts(rows.as_slice()).as_str());
    out
}

// ---- the history of a symbol ----

/// The files that define a symbol, each once, in order.
pub open spec fn symbol_files_spec(symbols: Seq<SymbolText>, symbol: Seq<char>) -> Seq<Seq<char>> {
    dedup_texts(
        sort_texts(
            symbols.filter(|s: SymbolText| s.name == symbol).map_values(
                |s: SymbolText| s.file_path,
            ),
        ),
    )
}

pub fn symbol_files(symbols: &[Symbol], symbol: &str) -> (r: Vec<String>)
    ensures
        texts(r@) == symbol_files_spec(symbol_texts(symbols@), symbol@),
{
    let ghost all = symbol_texts(symbols@);
    let ghost pred = |s: SymbolText| s.name == symbol@;
    let ghost file = |s: SymbolText| s.file_path;
    let mut files: Vec<String> = Vec::new();
    let mut i: usize = 0;
    proof {
        reveal(Seq::filter);
        assert(texts(files@) =~= all.take(0).filter(pred).map_values(file));
    }
    while i < symbols.len()
        invariant
            i <= symbols@.len(),
            all == symbol_texts(symbols@),
            pred == (|s: SymbolText| s.name == symbol@),
            file == (|s: SymbolText| s.file_path),
            texts(files@) == all.take(i as int).filter(pred).map_values(file),
        decreases symbols@.len() - i,
    {
        proof {
            reveal(Seq::filter);
            assert(all.take(i + 1).drop_last() =~= all.take(i as int));
            assert(all.take(i + 1).last() == symbols@[i as int]@);
        }
        if same_text(symbols[i].name.as_str(), symbol) {
            let f = symbols[i].file_path.clone();
            proof {
                let kept = all.take(i as int).filter(pred);
                assert(texts(files@.push(f)) =~= texts(files@).push(f@));
                assert(kept.push(symbols@[i as int]@).map_values(file) =~= kept.map_values(
                    file,
                ).push(f@));
            }
            files.push(f);
        }
        i = i + 1;
    }
    proof {
        assert(all.take(all.len() as int) =~= all);
    }
    let sorted = sort_strings(files.as_slice());
    dedup_strings(sorted.as_slice())
}

pub open spec fn undefined_symbol_text(symbol: Seq<char>, repo: Seq<char>) -> Seq<char> {
    "No indexed file defines '"@ + symbol + "' in "@ + repo + ". Pass 'path' to search a specific file, or find the symbol first with find_symbols."@
}

/// The files whose history is searched for a symbol: the one named, or, where none is, those
/// the index says define it.
pub fn symbol_history_paths(path: &str, symbols: &[Symbol], symbol: &str, repo: &str) -> (r: Result<
    Vec<String>,
    String,
>)
    ensures
        ({
            let defining = symbol_files_spec(symbol_texts(symbols@), symbol@);
            if path@.len() > 0 {
                r matches Ok(list) && texts(list@) == seq![path@]
            } else if defining.len() > 0 {
                r matches Ok(list) && texts(list@) == defining
            } else {
                r matches Err(e) && e@ == undefined_symbol_text(symbol@, repo@)
            }
        }),
{
    if !path.is_empty() {
        let mut list: Vec<String> = Vec::new();
        list.push(path.to_owned());
        proof {
            assert(texts(list@) =~= seq![path@]);
        }
        return Ok(list);
    }
    let files = symbol_files(symbols, symbol);
    proof {
        assert(texts(files@).len() == files@.len());
    }
    if files.len() == 0 {
        let mut out = "No indexed file defines '".to_owned();
        out.append(symbol);
        out.append("' in ");
        out.append(repo);
        out.append(". Pass 'path' to search a specific file, or find the symbol first with find_symbols.");
        Err(out)
    } else {
        Ok(files)
    }
}

pub open spec fn symbol_history_answer(history: Seq<char>, path: Seq<char>, searched: Seq<Seq<char>>) -> Seq<
    char,
> {
    if path.len() == 0 {
        history + "\n**Files searched**: "@ + join_spec(searched, ", "@) + "\n"@
    } else {
        history
    }
}

/// Adds to a symbol's history which files it covers, where the caller named none.
pub fn render_symbol_history(history: String, path: &str, searched: &[String]) -> (r: String)
    ensures
        r@ == symbol_history_answer(history@, path@, texts(searched@)),
{
    let mut out = history;
    if path.is_empty() {
        out.append("\n**Files searched**: ");
        out.append(join(searched, ", ").as_str());
        out.append("\n");
    }
    out
}

// ---- discovery ----

/// A repository found in a directory.
#[derive(Debug)]
pub struct FoundRepo {
    pub name: String,
    pub path: String,
}

pub open spec fn found_texts(v: Seq<FoundRepo>) -> Seq<(Seq<char>, Seq<char>)> {
    v.map_values(|f: FoundRepo| (f.name@, f.path@))
}

pub open spec fn found_row(f: (Seq<char>, Seq<char>)) -> Seq<char> {
    "- **"@ + f.0 + "** - `"@ + f.1 + "`\n"@
}

pub open spec fn discovered_answer(base: Seq<char>, depth: usize, repos: Seq<(Seq<char>, Seq<char>)>) -> Seq<
    char,
> {
    let tail = if repos.len() == 0 {
        "*No repositories found.*\n"@
    } else {
        Seq::empty()
    };
    "# Discovered Repositories in `"@ + base + "`\n\nFound "@ + decimal(repos.len() as nat)
        + " repositories (max depth: "@ + decimal(depth as nat) + ")\n\n"@ + concat(
        repos.map_values(|f: (Seq<char>, Seq<char>)| found_row(f)),
    ) + tail
}

/// Renders the repositories found in a directory.
pub fn render_discovered(base: &str, depth: usize, repos: &[FoundRepo]) -> (r: String)
    ensures
        r@ == discovered_answer(base@, depth, found_texts(repos@)),
{
    let ghost all = found_texts(repos@);
    proof {
        assert(all.len() == repos@.len());
    }
    let mut out = "# Discovered Repositories in `".to_owned();
    out.append(base);
    out.append("`\n\nFound ");
    out.append(usize_text(repos.len()).as_str());
    out.append(" repositories (max depth: ");
    out.append(usize_text(depth).as_str());
    out.append(")\n\n");
    let mut rows: Vec<String> = Vec::new();
    let mut i: usize = 0;
    while i < repos.len()
        invariant
            i <= repos@.len(),
            rows@.len() == i,
            forall|j: int|
                0 <= j < i ==> #[trigger] rows@[j]@ == found_row((repos@[j].name@, repos@[j].path@)),
        decreases repos@.len() - i,
    {
        let mut row = "- **".to_owned();
        row.append(repos[i].name.as_str());
        row.append("** - `");
        row.append(repos[i].path.as_str());
        row.append("`\n");
        rows.push(row);
        i = i + 1;
    }
    proof {
        assert(texts(rows@) =~= all.map_values(|f: (Seq<char>, Seq<char>)| found_row(f)));
    }
    out.append(concat_texts(rows.as_slice()).as_str());
    let mut tail = String::new();
    if repos.len() == 0 {
        tail = "*No repositories found.*\n".to_owned();
    }
    proof {
        if repos@.len() > 0 {
            assert(tail@ =~= Seq::<char>::empty());
        }
    }
    out.append(tail.as_str());
    out
}

/// The answer about a path: a readable one with its name and whether it is a repository, or
/// what is wrong with it.
pub open spec fn validation_answer(path: Seq<char>, name: Seq<char>, state: Result<bool, Seq<char>>) -> Seq<
    char,
> {
    match state {
        Ok(is_repo) => {
            let verdict = if is_repo {
                "Yes"@
            } else {
                "No (no VCS or project markers detected)"@
            };
            let advice = if is_repo {
                "\nThis path can be indexed with `--repos` flag.\n"@
            } else {
                "\nWarning: No VCS (.git) or project markers detected. It may still be indexable but might not be a proper repository.\n"@
            };
            "# Repository Validation: `"@ + path + "`\n\n**Name**: "@ + name + "\n**Path**: "@
                + path + "\n**Is Repository**: "@ + verdict + "\n**Readable**: Yes\n"@ + advice
        },
        Err(e) => "# Repository Validation: `"@ + path
            + "`\n\n**Status**: Invalid\n\n**Error**: "@ + e + "\n"@,
    }
}

/// Renders whether a path can be indexed.
pub fn render_validation(path: &str, name: &str, state: Result<bool, String>) -> (r: String)
    ensures
        r@ == validation_answer(
            path@,
            name@,
            match state {
                Ok(b) => Ok(b),
                Err(e) => Err(e@),
            },
        ),
{
    match state {
        Ok(is_repo) => {
            let verdict = if is_repo {
                "Yes"
            } else {
                "No (no VCS or project markers detected)"
            };
            let advice = if is_repo {
                "\nThis path can be indexed with `--repos` flag.\n"
            } else {
                "\nWarning: No VCS (.git) or project markers detected. It may still be indexable but might not be a proper repository.\n"
            };
            let mut out = "# Repository Validation: `".to_owned();
            out.append(path);
            out.append("`\n\n**Name**: ");
            out.append(name);
            out.append("\n**Path**: ");
            out.append(path);
            out.append("\n**Is Repository**: ");
            out.append(verdict);
            out.append("\n**Readable**: Yes\n");
            out.append(advice);
            out
        },
        Err(e) => {
            let mut out = "# Repository Validation: `".to_owned();
            out.append(path);
            out.append("`\n\n**Status**: Invalid\n\n**Error**: ");
            out.append(e.as_str());
            out.append("\n");
            out
        },
    }
}

} // verus!
