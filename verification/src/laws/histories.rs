//! What the tools that read a repository's history show.

use vstd::prelude::*;

use crate::budget::ListWindow;
use crate::history::{
    bullet, bullet_page, code_bullet, commit_answer, commit_row, contributor_row, contributors_page,
    cut_note, cuts_first, diff_body, diff_cap, diff_footer, diff_header, discovered_answer,
    files_shown, found_row, header_at, header_path, headers_to, line_closed, modified_answer,
    recent_answer, sections, sections_budget, sections_fit, symbol_files_spec, top_twenty,
    CommitText, DiffText,
};
use crate::laws::answers::{
    lemma_held_by_end, lemma_held_by_front, lemma_held_by_itself, lemma_held_by_part,
};
use crate::laws::lists::{
    lemma_dedup_members, lemma_filter_members, lemma_map_members, lemma_map_sources,
    lemma_sorted_members,
};
use crate::laws::texts::law_the_last_place_is_found;
use crate::order::{sort_texts, text_order};
use crate::symbols::SymbolText;
use crate::text::{byte_len, concat, contains_text, decimal, occurs_at, rfind_text};

verus! {

/// A row among others is held by an answer that has them all.
proof fn lemma_row_is_held(
    head: Seq<char>,
    rows: Seq<Seq<char>>,
    tail: Seq<char>,
    i: int,
    p: Seq<char>,
)
    requires
        0 <= i < rows.len(),
        contains_text(rows[i], p),
    ensures
        contains_text(head + concat(rows) + tail, p),
        contains_text(head + concat(rows), p),
{
    lemma_held_by_part(rows, i, p);
    lemma_held_by_end(head, concat(rows), p);
    lemma_held_by_front(head + concat(rows), tail, p);
}

// ---- diffs ----

/// The header of a file's section names the file as it is now.
pub proof fn law_a_section_names_its_file(before: Seq<char>, path: Seq<char>)
    requires
        !contains_text(path, " b/"@),
    ensures
        header_path("diff --git a/"@ + before + " b/"@ + path) == path,
{
    reveal_strlit("diff --git a/");
    reveal_strlit("diff --git ");
    reveal_strlit("diff --cc ");
    reveal_strlit(" b/");
    let sep = " b/"@;
    let header = "diff --git a/"@ + before + sep + path;
    let git = "diff --git "@;
    assert(header[5] == '-' && header[7] == 'g');
    if "diff --cc "@.is_prefix_of(header) {
        assert(header.subrange(0, "diff --cc "@.len() as int)[7] == 'c');
    }
    assert(header.subrange(0, git.len() as int) =~= git);
    let rest = header.skip(git.len() as int);
    let at: int = 2 + before.len() as int;
    assert(rest =~= "a/"@ + before + sep + path) by {
        reveal_strlit("a/");
    }
    reveal_strlit("a/");
    assert(rest.subrange(at, at + 3) =~= sep);
    assert(occurs_at(rest, sep, at));
    law_the_last_place_is_found(rest, sep);
    let p = rfind_text(rest, sep)->0;
    if p > at {
        assert(rest.subrange(p, p + 3)[0] == ' ');
        assert(rest.subrange(p, p + 3)[1] == 'b');
        assert(rest.subrange(p, p + 3)[2] == '/');
        if p < at + 3 {
            assert(rest[p] == sep[p - at]);
            assert(false);
        }
        let q = p - at - 3;
        assert(path.subrange(q, q + 3) =~= sep);
        assert(occurs_at(path, sep, q));
    }
    assert(rest.skip(p + 3) =~= path);
}

/// The header of a merge's section names its file too.
pub proof fn law_a_merged_section_names_its_file(path: Seq<char>)
    ensures
        header_path("diff --cc "@ + path) == path,
{
    let cc = "diff --cc "@;
    assert((cc + path).subrange(0, cc.len() as int) =~= cc);
    assert((cc + path).skip(cc.len() as int) =~= path);
}

proof fn lemma_header_is_found(diff: Seq<char>, n: int, p: int)
    requires
        0 <= p < n <= diff.len(),
        header_at(diff, p),
    ensures
        headers_to(diff, n).contains(p),
    decreases n,
{
    let front = headers_to(diff, n - 1);
    let all = headers_to(diff, n);
    if p == n - 1 {
        assert(all[all.len() - 1] == p);
    } else {
        lemma_header_is_found(diff, n - 1, p);
        let k = choose|k: int| 0 <= k < front.len() && front[k] == p;
        assert(all[k] == p);
    }
}

/// Every line of a diff that opens a file's part opens a section.
pub proof fn law_every_changed_file_has_a_section(before: Seq<char>, after: Seq<char>)
    ensures
        headers_to(
            before + "\ndiff --git "@ + after,
            (before + "\ndiff --git "@ + after).len() as int,
        ).contains(before.len() as int + 1),
        sections(before + "\ndiff --git "@ + after).len() > 0,
{
    reveal_strlit("\ndiff --git ");
    reveal_strlit("diff --git ");
    let diff = before + "\ndiff --git "@ + after;
    let p: int = before.len() as int + 1;
    let git = "diff --git "@;
    assert(diff.subrange(p, p + git.len()) =~= git);
    assert(occurs_at(diff, git, p));
    assert(diff[p - 1] == '\n');
    lemma_header_is_found(diff, diff.len() as int, p);
}

/// As much of a diff is shown as was asked for, between four kilobytes and what an answer may
/// hold.
pub proof fn law_how_much_of_a_diff_is_shown(asked: Option<usize>, most: usize)
    ensures
        asked is None ==> diff_cap(asked, most) == most,
        asked is Some && 4096 <= asked->0 <= most ==> diff_cap(asked, most) == asked->0,
        asked is Some && asked->0 < 4096 ==> diff_cap(asked, most) == 4096,
        asked is Some && asked->0 > most && asked->0 >= 4096 ==> diff_cap(asked, most) == most,
{
}

/// The bytes of the first sections.
pub open spec fn bytes_of(files: Seq<DiffText>, from: int, to: int) -> int
    decreases to - from,
{
    if from >= to {
        0
    } else {
        byte_len(files[from].text) + bytes_of(files, from + 1, to)
    }
}

proof fn lemma_fit(files: Seq<DiffText>, i: int, room: int)
    requires
        0 <= i <= files.len(),
        0 <= room,
    ensures
        i <= sections_fit(files, i, room) <= files.len(),
        bytes_of(files, i, sections_fit(files, i, room)) <= room,
        sections_fit(files, i, room) < files.len() ==> bytes_of(
            files,
            i,
            sections_fit(files, i, room) + 1,
        ) > room,
    decreases files.len() - i,
{
    if i < files.len() && byte_len(files[i].text) <= room {
        lemma_fit(files, i + 1, room - byte_len(files[i].text));
    } else if i < files.len() {
        assert(bytes_of(files, i + 1, i + 1) == 0);
        assert(bytes_of(files, i, i + 1) == byte_len(files[i].text) + bytes_of(files, i + 1, i + 1));
    }
}

/// As many whole sections are shown as fit, and no more.
pub proof fn law_the_sections_that_fit_are_shown(files: Seq<DiffText>, budget: int)
    requires
        0 <= budget,
    ensures
        ({
            let n = sections_fit(files, 0, budget);
            &&& 0 <= n <= files.len()
            &&& bytes_of(files, 0, n) <= budget
            &&& n < files.len() ==> bytes_of(files, 0, n + 1) > budget
        }),
{
    lemma_fit(files, 0, budget);
}

/// The text of every section that is shown whole stands in the answer.
pub proof fn law_every_shown_section_is_in_the_answer(
    commit: Seq<char>,
    path: Option<Seq<char>>,
    files: Seq<DiffText>,
    cap: usize,
    i: int,
)
    requires
        !cuts_first(
            files,
            sections_budget(cap, byte_len(diff_header(commit, path, files))),
        ),
        0 <= i < files_shown(
            files,
            sections_budget(cap, byte_len(diff_header(commit, path, files))),
        ),
    ensures
        contains_text(commit_answer(commit, path, files, cap), files[i].text),
{
    let header = diff_header(commit, path, files);
    let budget = sections_budget(cap, byte_len(header));
    let n = sections_fit(files, 0, budget);
    lemma_fit(files, 0, budget);
    let rows = files.take(n).map_values(|f: DiffText| f.text);
    let p = files[i].text;
    lemma_held_by_itself(p);
    assert(rows[i] == p);
    lemma_row_is_held(header + "```diff\n"@, rows, Seq::empty(), i, p);
    let open = header + "```diff\n"@ + diff_body(files, budget);
    lemma_held_by_front(open, "\n"@, p);
    let closed = line_closed(open);
    let cut = cut_note(files, cuts_first(files, budget), cap);
    let footer = diff_footer(commit, files, files_shown(files, budget));
    lemma_held_by_front(closed, "```\n"@, p);
    lemma_held_by_front(closed + "```\n"@, cut, p);
    lemma_held_by_front(closed + "```\n"@ + cut, footer, p);
}

// ---- lists ----

/// Every entry of a page of a list is shown.
pub proof fn law_every_bullet_of_the_page_is_shown(
    list: Seq<Seq<char>>,
    code: bool,
    window: ListWindow,
    tool: Seq<char>,
    i: int,
)
    requires
        window.start(list.len()) <= i < window.end(list.len()),
    ensures
        contains_text(bullet_page(list, code, window, tool), list[i]),
{
    let start = window.start(list.len());
    let page = list.subrange(start, window.end(list.len()));
    let rows = page.map_values(
        |s: Seq<char>|
            if code {
                code_bullet(s)
            } else {
                bullet(s)
            },
    );
    let p = list[i];
    lemma_held_by_itself(p);
    lemma_held_by_end("- `"@, p, p);
    lemma_held_by_front("- `"@ + p, "`\n"@, p);
    lemma_held_by_end("- "@, p, p);
    lemma_held_by_front("- "@ + p, "\n"@, p);
    assert(page[i - start] == p);
    assert(contains_text(rows[i - start], p));
    lemma_held_by_part(rows, i - start, p);
    let all = concat(rows);
    let capped = crate::budget::capped_spec(window, list.len());
    lemma_held_by_front(all, "\n"@, p);
    lemma_held_by_front(all + "\n"@, capped.footer_spec(tool), p);
}

/// Every modified file is named.
pub proof fn law_every_modified_file_is_shown(repo: Seq<char>, modified: Seq<Seq<char>>, i: int)
    requires
        0 <= i < modified.len(),
    ensures
        contains_text(modified_answer(repo, modified), modified[i]),
{
    let rows = modified.map_values(|s: Seq<char>| code_bullet(s));
    let p = modified[i];
    lemma_held_by_itself(p);
    lemma_held_by_end("- `"@, p, p);
    lemma_held_by_front("- `"@ + p, "`\n"@, p);
    assert(rows[i] == code_bullet(p));
    let head = "# Modified Files in "@ + repo + "\n\nFound "@ + decimal(modified.len() as nat)
        + " modified files\n\n"@;
    lemma_row_is_held(head, rows, Seq::empty(), i, p);
}

/// Every contributor of the page is shown, with the commits.
pub proof fn law_every_contributor_of_the_page_is_shown(
    list: Seq<(Seq<char>, usize)>,
    window: ListWindow,
    i: int,
)
    requires
        window.start(list.len()) <= i < window.end(list.len()),
    ensures
        contains_text(
            contributors_page(list, window),
            list[i].0 + " ("@ + decimal(list[i].1 as nat) + " commits)\n"@,
        ),
{
    let start = window.start(list.len());
    let page = list.subrange(start, window.end(list.len()));
    let rows = page.map_values(|c: (Seq<char>, usize)| contributor_row(c));
    let c = list[i];
    let p = c.0 + " ("@ + decimal(c.1 as nat) + " commits)\n"@;
    lemma_held_by_itself(p);
    lemma_held_by_end("- "@, p, p);
    assert(page[i - start] == c);
    assert("- "@ + c.0 + " ("@ =~= "- "@ + (c.0 + " ("@));
    assert("- "@ + c.0 + " ("@ + decimal(c.1 as nat) =~= "- "@ + (c.0 + " ("@ + decimal(
        c.1 as nat,
    )));
    assert(rows[i - start] =~= "- "@ + p);
    lemma_held_by_part(rows, i - start, p);
    let all = concat(rows);
    let capped = crate::budget::capped_spec(window, list.len());
    lemma_held_by_front(all, "\n"@, p);
    lemma_held_by_front(all + "\n"@, capped.footer_spec("get_contributors"@), p);
}

/// The first twenty of a list are shown.
pub proof fn law_the_first_twenty_are_shown<T>(list: Seq<T>, i: int)
    requires
        0 <= i < list.len(),
    ensures
        i < 20 ==> i < top_twenty(list).len() && top_twenty(list)[i] == list[i],
        top_twenty(list).len() <= 20,
{
}

/// Each of the first twenty commits is shown, with its hash and subject.
pub proof fn law_recent_commits_are_shown(days: usize, commits: Seq<CommitText>, i: int)
    requires
        0 <= i < commits.len(),
        i < 20,
    ensures
        contains_text(
            recent_answer(days, commits),
            "- `"@ + commits[i].short_hash + "` "@ + commits[i].subject,
        ),
{
    let c = commits[i];
    let p = "- `"@ + c.short_hash + "` "@ + c.subject;
    let rows = top_twenty(commits).map_values(|c: CommitText| commit_row(c));
    assert(rows[i] == commit_row(c));
    lemma_held_by_itself(p);
    lemma_held_by_front(p, " - "@, p);
    let a = p + " - "@;
    lemma_held_by_front(a, c.author, p);
    let b = a + c.author;
    lemma_held_by_front(b, " (+"@, p);
    let d = b + " (+"@;
    lemma_held_by_front(d, decimal(c.insertions as nat), p);
    let e = d + decimal(c.insertions as nat);
    lemma_held_by_front(e, " -"@, p);
    let f = e + " -"@;
    lemma_held_by_front(f, decimal(c.deletions as nat), p);
    lemma_held_by_front(f + decimal(c.deletions as nat), ")\n"@, p);
    let head = "# Recent Changes (last "@ + decimal(days as nat) + " days)\n\nFound "@ + decimal(
        commits.len() as nat,
    ) + " commits\n\n"@;
    lemma_row_is_held(head, rows, Seq::empty(), i, p);
}

/// Every repository that was discovered is shown, with its path.
pub proof fn law_every_discovered_repo_is_shown(
    base: Seq<char>,
    depth: usize,
    repos: Seq<(Seq<char>, Seq<char>)>,
    i: int,
)
    requires
        0 <= i < repos.len(),
    ensures
        contains_text(
            discovered_answer(base, depth, repos),
            "- **"@ + repos[i].0 + "** - `"@ + repos[i].1,
        ),
{
    let p = "- **"@ + repos[i].0 + "** - `"@ + repos[i].1;
    let rows = repos.map_values(|f: (Seq<char>, Seq<char>)| found_row(f));
    assert(rows[i] == found_row(repos[i]));
    lemma_held_by_itself(p);
    lemma_held_by_front(p, "`\n"@, p);
    let head = "# Discovered Repositories in `"@ + base + "`\n\nFound "@ + decimal(
        repos.len() as nat,
    ) + " repositories (max depth: "@ + decimal(depth as nat) + ")\n\n"@;
    lemma_row_is_held(head, rows, Seq::empty(), i, p);
}

// ---- symbols ----

/// The history of a symbol is looked for in exactly the files that define one of the name.
pub proof fn law_where_a_symbol_is_looked_for(
    symbols: Seq<SymbolText>,
    symbol: Seq<char>,
    file: Seq<char>,
)
    ensures
        symbol_files_spec(symbols, symbol).contains(file) <==> exists|i: int|
            0 <= i < symbols.len() && (#[trigger] symbols[i]).name == symbol
                && symbols[i].file_path == file,
{
    let named = |s: SymbolText| s.name == symbol;
    let path = |s: SymbolText| s.file_path;
    let kept = symbols.filter(named);
    let paths = kept.map_values(path);
    lemma_dedup_members(sort_texts(paths), file);
    lemma_sorted_members(paths, text_order(), file);
    lemma_map_sources(kept, path, file);
    assert(symbol_files_spec(symbols, symbol) =~= dedup_of(paths));
    if paths.contains(file) {
        let k = choose|k: int| 0 <= k < kept.len() && path(#[trigger] kept[k]) == file;
        assert(kept.contains(kept[k]));
        lemma_filter_members(symbols, named, kept[k]);
        let i = choose|i: int| 0 <= i < symbols.len() && symbols[i] == kept[k];
        assert(symbols[i].name == symbol);
    }
    if exists|i: int|
        0 <= i < symbols.len() && (#[trigger] symbols[i]).name == symbol && symbols[i].file_path
            == file {
        let i = choose|i: int|
            0 <= i < symbols.len() && (#[trigger] symbols[i]).name == symbol
                && symbols[i].file_path == file;
        assert(symbols.contains(symbols[i]));
        lemma_filter_members(symbols, named, symbols[i]);
        lemma_map_members(kept, path, symbols[i]);
    }
}

spec fn dedup_of(paths: Seq<Seq<char>>) -> Seq<Seq<char>> {
    crate::order::dedup_texts(sort_texts(paths))
}

} // verus!
