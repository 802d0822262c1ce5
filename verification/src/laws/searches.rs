//! Searches through the text of the files.

use vstd::prelude::*;

use crate::laws::lists::lemma_sorted_members;
use crate::laws::texts::{law_a_held_text_can_be_cut_out, law_what_stands_in_between_is_held};
use crate::order::{is_strict_weak, law_sorting_sorts, sort_stable};
use crate::paths::strip_base;
use crate::scope::{glob_matches, glob_valid};
use crate::search::{
    all_hits, excerpt_spec, file_hits, hits_of, holds_all, line_hits, place_order, regions,
    relevance_spec, repo_hits, results_spec, score_order, search_of, CachedText, HitText,
    ScoredText, SearchText,
};
use crate::text::{ascii_lower_text, contains_text, is_ascii_text, lines_of, lower_text, words_of};

verus! {

/// A file that a search looks at, by its relative path: it lies in the repository, is none of
/// the tests left out, and the pattern names it where it is one.
pub open spec fn is_searched(
    f: CachedText,
    repo: Seq<char>,
    rel: Seq<char>,
    tests: Seq<Seq<char>>,
    pattern: Option<Seq<char>>,
) -> bool {
    &&& strip_base(f.path, repo) == Some(rel)
    &&& !tests.contains(rel)
    &&& pattern matches Some(p) ==> !glob_valid(p) || glob_matches(p, rel)
}

/// A hit shows a line of a file.
pub open spec fn shows_line(h: HitText, repo: Seq<char>, rel: Seq<char>, k: int) -> bool {
    h.repo == repo && h.file_path == rel && h.start_line <= k + 1 <= h.end_line
}

proof fn lemma_file_among_hits(
    repos: Seq<Seq<char>>,
    files: Seq<CachedText>,
    s: SearchText,
    fallback: bool,
    r: int,
    i: int,
    h: HitText,
)
    requires
        0 <= r < repos.len(),
        0 <= i < files.len(),
        file_hits(repos[r], files[i], s, fallback).contains(h),
    ensures
        all_hits(repos, files, s, fallback).contains(h),
    decreases repos.len(),
{
    let front = all_hits(repos.drop_last(), files, s, fallback);
    let last = repo_hits(repos.last(), files, s, fallback);
    if r == repos.len() - 1 {
        lemma_file_among_repo_hits(repos[r], files, s, fallback, i, h);
        let j = choose|j: int| 0 <= j < last.len() && last[j] == h;
        assert((front + last)[front.len() + j] == h);
    } else {
        assert(repos.drop_last()[r] == repos[r]);
        lemma_file_among_hits(repos.drop_last(), files, s, fallback, r, i, h);
        let j = choose|j: int| 0 <= j < front.len() && front[j] == h;
        assert((front + last)[j] == h);
    }
}

proof fn lemma_file_among_repo_hits(
    repo: Seq<char>,
    files: Seq<CachedText>,
    s: SearchText,
    fallback: bool,
    i: int,
    h: HitText,
)
    requires
        0 <= i < files.len(),
        file_hits(repo, files[i], s, fallback).contains(h),
    ensures
        repo_hits(repo, files, s, fallback).contains(h),
    decreases files.len(),
{
    let front = repo_hits(repo, files.drop_last(), s, fallback);
    let last = file_hits(repo, files.last(), s, fallback);
    if i == files.len() - 1 {
        let j = choose|j: int| 0 <= j < last.len() && last[j] == h;
        assert((front + last)[front.len() + j] == h);
    } else {
        assert(files.drop_last()[i] == files[i]);
        lemma_file_among_repo_hits(repo, files.drop_last(), s, fallback, i, h);
        let j = choose|j: int| 0 <= j < front.len() && front[j] == h;
        assert((front + last)[j] == h);
    }
}

proof fn lemma_line_is_hit(
    repo: Seq<char>,
    rel: Seq<char>,
    lines: Seq<Seq<char>>,
    query: Seq<char>,
    tokens: Seq<Seq<char>>,
    n: int,
    k: int,
)
    requires
        0 <= k < n <= lines.len() <= usize::MAX,
        contains_text(lower_text(lines[k]), query) || (tokens.len() > 1 && forall|t: int|
            0 <= t < tokens.len() ==> contains_text(lower_text(lines[k]), #[trigger] tokens[t])),
    ensures
        exists|j: int|
            0 <= j < line_hits(repo, rel, lines, query, tokens, n).len() && shows_line(
                #[trigger] line_hits(repo, rel, lines, query, tokens, n)[j],
                repo,
                rel,
                k,
            ),
    decreases n,
{
    let all = line_hits(repo, rel, lines, query, tokens, n);
    let front = line_hits(repo, rel, lines, query, tokens, n - 1);
    if k == n - 1 {
        assert(all.len() == front.len() + 1);
        assert(shows_line(all[all.len() - 1], repo, rel, k));
    } else {
        lemma_line_is_hit(repo, rel, lines, query, tokens, n - 1, k);
        let j = choose|j: int| 0 <= j < front.len() && shows_line(#[trigger] front[j], repo, rel, k);
        assert(all[j] == front[j]);
        assert(shows_line(all[j], repo, rel, k));
    }
}

proof fn lemma_hit_line_is_found(
    repos: Seq<Seq<char>>,
    files: Seq<CachedText>,
    s: SearchText,
    r: int,
    i: int,
    rel: Seq<char>,
    k: int,
)
    requires
        0 <= r < repos.len(),
        0 <= i < files.len(),
        is_searched(files[i], repos[r], rel, s.tests, s.pattern),
        0 <= k < lines_of(files[i].content).len() <= usize::MAX,
        contains_text(lower_text(lines_of(files[i].content)[k]), s.query) || (s.tokens.len() > 1
            && forall|t: int|
            0 <= t < s.tokens.len() ==> contains_text(
                lower_text(lines_of(files[i].content)[k]),
                #[trigger] s.tokens[t],
            )),
    ensures
        !hits_of(repos, files, s).1,
        exists|h: HitText| #[trigger]
            hits_of(repos, files, s).0.contains(h) && shows_line(h, repos[r], rel, k),
{
    let ls = lines_of(files[i].content);
    lemma_line_is_hit(repos[r], rel, ls, s.query, s.tokens, ls.len() as int, k);
    let here = line_hits(repos[r], rel, ls, s.query, s.tokens, ls.len() as int);
    let j = choose|j: int| 0 <= j < here.len() && shows_line(#[trigger] here[j], repos[r], rel, k);
    assert(file_hits(repos[r], files[i], s, false) == here);
    assert(here.contains(here[j]));
    lemma_file_among_hits(repos, files, s, false, r, i, here[j]);
    let all = all_hits(repos, files, s, false);
    assert(all.contains(here[j]));
    assert(all.len() > 0);
    assert(hits_of(repos, files, s).0.contains(here[j]));
}

/// A line that holds the query, both in small letters, is found: some hit shows it, and the
/// search does not fall back to whole files.
pub proof fn law_a_line_with_the_query_is_found(
    repos: Seq<Seq<char>>,
    files: Seq<CachedText>,
    query: Seq<char>,
    tests: Seq<Seq<char>>,
    pattern: Option<Seq<char>>,
    r: int,
    i: int,
    rel: Seq<char>,
    k: int,
    before: Seq<char>,
    after: Seq<char>,
)
    requires
        0 <= r < repos.len(),
        0 <= i < files.len(),
        is_searched(files[i], repos[r], rel, tests, pattern),
        0 <= k < lines_of(files[i].content).len() <= usize::MAX,
        lower_text(lines_of(files[i].content)[k]) == before + lower_text(query) + after,
    ensures
        !hits_of(repos, files, search_of(query, tests, pattern)).1,
        exists|h: HitText| #[trigger]
            hits_of(repos, files, search_of(query, tests, pattern)).0.contains(h) && shows_line(
                h,
                repos[r],
                rel,
                k,
            ),
{
    law_what_stands_in_between_is_held(before, lower_text(query), after);
    lemma_hit_line_is_found(repos, files, search_of(query, tests, pattern), r, i, rel, k);
}

/// A line of plain letters that holds the query as it is written is found.
pub proof fn law_a_line_that_spells_the_query_is_found(
    repos: Seq<Seq<char>>,
    files: Seq<CachedText>,
    query: Seq<char>,
    tests: Seq<Seq<char>>,
    pattern: Option<Seq<char>>,
    r: int,
    i: int,
    rel: Seq<char>,
    k: int,
    before: Seq<char>,
    after: Seq<char>,
)
    requires
        0 <= r < repos.len(),
        0 <= i < files.len(),
        is_searched(files[i], repos[r], rel, tests, pattern),
        0 <= k < lines_of(files[i].content).len() <= usize::MAX,
        lines_of(files[i].content)[k] == before + query + after,
        forall|c: int|
            0 <= c < lines_of(files[i].content)[k].len()
                ==> #[trigger] lines_of(files[i].content)[k][c] as u32 <= 0x7F,
    ensures
        !hits_of(repos, files, search_of(query, tests, pattern)).1,
        exists|h: HitText| #[trigger]
            hits_of(repos, files, search_of(query, tests, pattern)).0.contains(h) && shows_line(
                h,
                repos[r],
                rel,
                k,
            ),
{
    let line = before + query + after;
    let whole = lines_of(files[i].content)[k];
    assert(is_ascii_text(line));
    assert(is_ascii_text(query)) by {
        assert forall|c: int| 0 <= c < query.len() implies crate::text::is_ascii_char(
            #[trigger] query[c],
        ) by {
            assert(whole[before.len() + c] == query[c]);
        }
    }
    assert(ascii_lower_text(line) =~= ascii_lower_text(before) + ascii_lower_text(query)
        + ascii_lower_text(after));
    law_a_line_with_the_query_is_found(
        repos,
        files,
        query,
        tests,
        pattern,
        r,
        i,
        rel,
        k,
        ascii_lower_text(before),
        ascii_lower_text(after),
    );
}

/// A line that holds every word of a query of several, in any order and case, is found.
pub proof fn law_a_line_with_all_words_is_found(
    repos: Seq<Seq<char>>,
    files: Seq<CachedText>,
    query: Seq<char>,
    tests: Seq<Seq<char>>,
    pattern: Option<Seq<char>>,
    r: int,
    i: int,
    rel: Seq<char>,
    k: int,
)
    requires
        0 <= r < repos.len(),
        0 <= i < files.len(),
        is_searched(files[i], repos[r], rel, tests, pattern),
        0 <= k < lines_of(files[i].content).len() <= usize::MAX,
        words_of(lower_text(query)).len() > 1,
        forall|t: int|
            0 <= t < words_of(lower_text(query)).len() ==> exists|a: Seq<char>, b: Seq<char>|
                lower_text(lines_of(files[i].content)[k]) == #[trigger] (a + (
                #[trigger] words_of(lower_text(query))[t]) + b),
    ensures
        !hits_of(repos, files, search_of(query, tests, pattern)).1,
        exists|h: HitText| #[trigger]
            hits_of(repos, files, search_of(query, tests, pattern)).0.contains(h) && shows_line(
                h,
                repos[r],
                rel,
                k,
            ),
{
    let words = words_of(lower_text(query));
    let line = lower_text(lines_of(files[i].content)[k]);
    assert forall|t: int| 0 <= t < words.len() implies contains_text(line, #[trigger] words[t]) by {
        law_a_held_text_can_be_cut_out(line, words[t]);
    }
    lemma_hit_line_is_found(repos, files, search_of(query, tests, pattern), r, i, rel, k);
}

/// A hit comes from a line of a file that the search looks at, and the line holds the query or
/// all of its words.
pub open spec fn comes_from_line(
    h: HitText,
    repo: Seq<char>,
    f: CachedText,
    s: SearchText,
    k: int,
) -> bool {
    &&& is_searched(f, repo, h.file_path, s.tests, s.pattern)
    &&& 0 <= k < lines_of(f.content).len()
    &&& h.repo == repo
    &&& h == excerpt_spec(
        repo,
        h.file_path,
        lines_of(f.content),
        k,
        relevance_spec(lines_of(f.content)[k], s.query),
        0,
    )
    &&& (exists|a: Seq<char>, b: Seq<char>|
        lower_text(lines_of(f.content)[k]) == #[trigger] (a + s.query + b)) || (s.tokens.len() > 1
        && forall|t: int|
        0 <= t < s.tokens.len() ==> contains_text(
            lower_text(lines_of(f.content)[k]),
            #[trigger] s.tokens[t],
        ))
}

proof fn lemma_line_hit_comes_from(
    repo: Seq<char>,
    rel: Seq<char>,
    f: CachedText,
    s: SearchText,
    n: int,
    j: int,
)
    requires
        is_searched(f, repo, rel, s.tests, s.pattern),
        0 <= n <= lines_of(f.content).len(),
        0 <= j < line_hits(repo, rel, lines_of(f.content), s.query, s.tokens, n).len(),
    ensures
        exists|k: int| #[trigger]
            comes_from_line(
                line_hits(repo, rel, lines_of(f.content), s.query, s.tokens, n)[j],
                repo,
                f,
                s,
                k,
            ),
    decreases n,
{
    let ls = lines_of(f.content);
    let all = line_hits(repo, rel, ls, s.query, s.tokens, n);
    let front = line_hits(repo, rel, ls, s.query, s.tokens, n - 1);
    if j < front.len() {
        lemma_line_hit_comes_from(repo, rel, f, s, n - 1, j);
        assert(all[j] == front[j]);
    } else {
        law_a_held_text_can_be_cut_out(lower_text(ls[n - 1]), s.query);
        assert(comes_from_line(all[j], repo, f, s, n - 1));
    }
}

proof fn lemma_hit_is_of_some_file(
    repos: Seq<Seq<char>>,
    files: Seq<CachedText>,
    s: SearchText,
    fallback: bool,
    h: HitText,
)
    requires
        all_hits(repos, files, s, fallback).contains(h),
    ensures
        exists|r: int, i: int|
            0 <= r < repos.len() && 0 <= i < files.len() && (#[trigger] file_hits(
                repos[r],
                files[i],
                s,
                fallback,
            )).contains(h),
    decreases repos.len(),
{
    let front = all_hits(repos.drop_last(), files, s, fallback);
    let all = all_hits(repos, files, s, fallback);
    let j = choose|j: int| 0 <= j < all.len() && all[j] == h;
    if j < front.len() {
        assert(front[j] == h);
        lemma_hit_is_of_some_file(repos.drop_last(), files, s, fallback, h);
        let (r, i) = choose|r: int, i: int|
            0 <= r < repos.drop_last().len() && 0 <= i < files.len() && (#[trigger] file_hits(
                repos.drop_last()[r],
                files[i],
                s,
                fallback,
            )).contains(h);
        assert(repos.drop_last()[r] == repos[r]);
        assert(file_hits(repos[r], files[i], s, fallback).contains(h));
    } else {
        let last = repo_hits(repos.last(), files, s, fallback);
        assert(last[j - front.len()] == h);
        lemma_hit_is_of_some_file_of(repos.last(), files, s, fallback, h);
        let i = choose|i: int|
            0 <= i < files.len() && (#[trigger] file_hits(repos.last(), files[i], s, fallback)).contains(
                h,
            );
        assert(file_hits(repos[repos.len() - 1], files[i], s, fallback).contains(h));
    }
}

proof fn lemma_hit_is_of_some_file_of(
    repo: Seq<char>,
    files: Seq<CachedText>,
    s: SearchText,
    fallback: bool,
    h: HitText,
)
    requires
        repo_hits(repo, files, s, fallback).contains(h),
    ensures
        exists|i: int|
            0 <= i < files.len() && (#[trigger] file_hits(repo, files[i], s, fallback)).contains(h),
    decreases files.len(),
{
    let front = repo_hits(repo, files.drop_last(), s, fallback);
    let all = repo_hits(repo, files, s, fallback);
    let j = choose|j: int| 0 <= j < all.len() && all[j] == h;
    if j < front.len() {
        assert(front[j] == h);
        lemma_hit_is_of_some_file_of(repo, files.drop_last(), s, fallback, h);
        let i = choose|i: int|
            0 <= i < files.drop_last().len() && (#[trigger] file_hits(
                repo,
                files.drop_last()[i],
                s,
                fallback,
            )).contains(h);
        assert(files.drop_last()[i] == files[i]);
        assert(file_hits(repo, files[i], s, fallback).contains(h));
    } else {
        let last = file_hits(repo, files.last(), s, fallback);
        assert(last[j - front.len()] == h);
        assert(file_hits(repo, files[files.len() - 1], s, fallback).contains(h));
    }
}

/// Where a search does not fall back, each hit is the excerpt around a line that holds the
/// query, or all of its words, in small letters.
pub proof fn law_only_matching_lines_are_found(
    repos: Seq<Seq<char>>,
    files: Seq<CachedText>,
    query: Seq<char>,
    tests: Seq<Seq<char>>,
    pattern: Option<Seq<char>>,
    h: HitText,
)
    requires
        !hits_of(repos, files, search_of(query, tests, pattern)).1,
        hits_of(repos, files, search_of(query, tests, pattern)).0.contains(h),
    ensures
        exists|r: int, i: int, k: int|
            0 <= r < repos.len() && 0 <= i < files.len() && #[trigger] comes_from_line(
                h,
                repos[r],
                files[i],
                (SearchText {
                    query: lower_text(query),
                    tokens: words_of(lower_text(query)),
                    tests,
                    pattern,
                }),
                k,
            ),
{
    let s = search_of(query, tests, pattern);
    lemma_hit_is_of_some_file(repos, files, s, false, h);
    let (r, i) = choose|r: int, i: int|
        0 <= r < repos.len() && 0 <= i < files.len() && (#[trigger] file_hits(
            repos[r],
            files[i],
            s,
            false,
        )).contains(h);
    let rel = strip_base(files[i].path, repos[r])->0;
    let here = file_hits(repos[r], files[i], s, false);
    let j = choose|j: int| 0 <= j < here.len() && here[j] == h;
    lemma_line_hit_comes_from(
        repos[r],
        rel,
        files[i],
        s,
        lines_of(files[i].content).len() as int,
        j,
    );
    let k = choose|k: int| #[trigger] comes_from_line(h, repos[r], files[i], s, k);
    assert(comes_from_line(h, repos[r], files[i], s, k));
}

/// The case of a query's letters does not matter.
pub proof fn law_the_case_of_a_query_does_not_matter(
    repos: Seq<Seq<char>>,
    files: Seq<CachedText>,
    one: Seq<char>,
    other: Seq<char>,
    tests: Seq<Seq<char>>,
    pattern: Option<Seq<char>>,
)
    requires
        lower_text(one) == lower_text(other),
    ensures
        hits_of(repos, files, search_of(one, tests, pattern)) == hits_of(
            repos,
            files,
            search_of(other, tests, pattern),
        ),
{
}

/// Where no line matches a query of several words, every file that holds all of them anywhere
/// is found.
pub proof fn law_a_file_with_all_words_is_found(
    repos: Seq<Seq<char>>,
    files: Seq<CachedText>,
    query: Seq<char>,
    tests: Seq<Seq<char>>,
    pattern: Option<Seq<char>>,
    r: int,
    i: int,
    rel: Seq<char>,
)
    requires
        0 <= r < repos.len(),
        0 <= i < files.len(),
        is_searched(files[i], repos[r], rel, tests, pattern),
        words_of(lower_text(query)).len() > 1,
        all_hits(repos, files, search_of(query, tests, pattern), false).len() == 0,
        forall|t: int|
            0 <= t < words_of(lower_text(query)).len() ==> exists|a: Seq<char>, b: Seq<char>|
                lower_text(files[i].content) == #[trigger] (a + (#[trigger] words_of(
                    lower_text(query),
                )[t]) + b),
    ensures
        hits_of(repos, files, search_of(query, tests, pattern)).1,
        exists|h: HitText| #[trigger]
            hits_of(repos, files, search_of(query, tests, pattern)).0.contains(h) && h.repo
                == repos[r] && h.file_path == rel,
{
    let s = search_of(query, tests, pattern);
    let words = words_of(lower_text(query));
    assert forall|t: int| 0 <= t < words.len() implies contains_text(
        lower_text(files[i].content),
        #[trigger] words[t],
    ) by {
        law_a_held_text_can_be_cut_out(lower_text(files[i].content), words[t]);
    }
    assert(holds_all(lower_text(files[i].content), s.tokens));
    let here = file_hits(repos[r], files[i], s, true);
    assert(here.len() == 1);
    assert(here.contains(here[0]));
    lemma_file_among_hits(repos, files, s, true, r, i, here[0]);
    assert(hits_of(repos, files, s).0.contains(here[0]));
}

/// An excerpt shows the line it is made for, with the three lines before and behind it as far
/// as the file has them.
pub proof fn law_an_excerpt_shows_three_lines_around(
    repo: Seq<char>,
    rel: Seq<char>,
    lines: Seq<Seq<char>>,
    k: int,
    query: Seq<char>,
)
    requires
        0 <= k < lines.len() <= usize::MAX,
    ensures
        ({
            let h = excerpt_spec(repo, rel, lines, k, relevance_spec(lines[k], query), 0);
            &&& h.start_line == 1 || h.start_line == k + 1 - 3
            &&& h.start_line == 1 ==> k <= 3
            &&& h.end_line == lines.len() || h.end_line == k + 1 + 3
            &&& h.end_line == lines.len() ==> lines.len() <= k + 1 + 3
            &&& 1 <= h.start_line <= k + 1 <= h.end_line <= lines.len()
        }),
{
}

// ---- the ranked results ----

/// Some entry is of the hit's file and scores at least as well.
pub open spec fn stands_for(list: Seq<ScoredText>, h: ScoredText) -> bool {
    exists|j: int| 0 <= j < list.len() && #[trigger] is_as_good(list[j], h)
}

pub open spec fn is_as_good(r: ScoredText, h: ScoredText) -> bool {
    r.repo == h.repo && r.file_path == h.file_path && r.score >= h.score
}

proof fn lemma_region_members(sorted: Seq<ScoredText>, x: ScoredText)
    requires
        regions(sorted).contains(x),
    ensures
        sorted.contains(x),
    decreases sorted.len(),
{
    if sorted.len() > 0 {
        let before = sorted.drop_last();
        let front = regions(before);
        let all = regions(sorted);
        let i = choose|i: int| 0 <= i < all.len() && all[i] == x;
        if x == sorted.last() {
            assert(sorted[sorted.len() - 1] == x);
        } else {
            assert(front[i] == x);
            lemma_region_members(before, x);
            let k = choose|k: int| 0 <= k < before.len() && before[k] == x;
            assert(sorted[k] == x);
        }
    }
}

proof fn lemma_regions_stand_for(sorted: Seq<ScoredText>, i: int)
    requires
        0 <= i < sorted.len(),
    ensures
        stands_for(regions(sorted), sorted[i]),
    decreases sorted.len(),
{
    let before = sorted.drop_last();
    let front = regions(before);
    let all = regions(sorted);
    let h = sorted.last();
    if i < before.len() {
        assert(before[i] == sorted[i]);
        lemma_regions_stand_for(before, i);
        let j = choose|j: int| 0 <= j < front.len() && #[trigger] is_as_good(front[j], before[i]);
        if j < front.len() - 1 {
            assert(all[j] == front[j]);
            assert(is_as_good(all[j], sorted[i]));
        } else {
            assert(is_as_good(all[j], sorted[i]));
        }
    } else {
        assert(is_as_good(all[all.len() - 1], h));
    }
}

proof fn lemma_score_order_is_strict_weak()
    ensures
        is_strict_weak(score_order()),
{
}

/// The results of a search come best first, are hits, and are no more than asked for.
pub proof fn law_results_come_best_first(hits: Seq<ScoredText>, most: usize)
    ensures
        results_spec(hits, most).len() <= most,
        forall|i: int, j: int|
            0 <= i < j < results_spec(hits, most).len() ==> (#[trigger] results_spec(
                hits,
                most,
            )[i]).score >= (#[trigger] results_spec(hits, most)[j]).score,
        forall|i: int|
            0 <= i < results_spec(hits, most).len() ==> hits.contains(
                #[trigger] results_spec(hits, most)[i],
            ),
{
    let sorted = sort_stable(hits, place_order());
    let parts = regions(sorted);
    let ranked = sort_stable(parts, score_order());
    let results = results_spec(hits, most);
    lemma_score_order_is_strict_weak();
    law_sorting_sorts(parts, score_order());
    assert forall|i: int| 0 <= i < results.len() implies hits.contains(#[trigger] results[i]) by {
        assert(results[i] == ranked[i]);
        assert(ranked.contains(ranked[i]));
        lemma_sorted_members(parts, score_order(), ranked[i]);
        lemma_region_members(sorted, ranked[i]);
        lemma_sorted_members(hits, place_order(), ranked[i]);
    }
    assert forall|i: int, j: int| 0 <= i < j < results.len() implies (#[trigger] results[i]).score
        >= (#[trigger] results[j]).score by {
        let lt = score_order();
        assert(results[i] == ranked[i] && results[j] == ranked[j]);
        assert(!lt(ranked[j], ranked[i]));
    }
}

/// No hit is lost but to a better one of its file: where the results are fewer than asked for,
/// each hit's file has a result that scores at least as well, and the first result scores at
/// least as well as any hit.
pub proof fn law_no_hit_is_lost(hits: Seq<ScoredText>, most: usize, i: int)
    requires
        0 <= i < hits.len(),
        most > 0,
    ensures
        results_spec(hits, most).len() > 0,
        results_spec(hits, most)[0].score >= hits[i].score,
        results_spec(hits, most).len() < most ==> exists|j: int|
            0 <= j < results_spec(hits, most).len() && (#[trigger] results_spec(
                hits,
                most,
            )[j]).repo == hits[i].repo && results_spec(hits, most)[j].file_path == hits[i].file_path
                && results_spec(hits, most)[j].score >= hits[i].score,
{
    let sorted = sort_stable(hits, place_order());
    let parts = regions(sorted);
    let ranked = sort_stable(parts, score_order());
    let results = results_spec(hits, most);
    lemma_sorted_members(hits, place_order(), hits[i]);
    assert(hits.contains(hits[i]));
    let k = choose|k: int| 0 <= k < sorted.len() && sorted[k] == hits[i];
    lemma_regions_stand_for(sorted, k);
    let p = choose|p: int| 0 <= p < parts.len() && #[trigger] is_as_good(parts[p], sorted[k]);
    assert(parts.contains(parts[p]));
    lemma_sorted_members(parts, score_order(), parts[p]);
    let j = choose|j: int| 0 <= j < ranked.len() && ranked[j] == parts[p];
    lemma_score_order_is_strict_weak();
    law_sorting_sorts(parts, score_order());
    let lt = score_order();
    if j > 0 {
        assert(!lt(ranked[j], ranked[0]));
    }
    assert(results[0] == ranked[0]);
    if results.len() < most {
        assert(results[j] == ranked[j]);
    }
}

} // verus!
