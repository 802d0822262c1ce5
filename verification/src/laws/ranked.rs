//! What the ranked searches keep and show.

use vstd::prelude::*;

use crate::laws::answers::{
    lemma_held_by_end, lemma_held_by_front, lemma_held_by_itself, lemma_held_by_part,
};
use crate::laws::lists::{lemma_filter_members, lemma_map_members};
use crate::laws::texts::law_what_stands_in_between_is_held;
use crate::ranked::{
    cut_snippet, distinct_documents, document_row, document_wanted, first_of, holds_some,
    hybrid_answer, hybrid_kept, hybrid_part, hybrid_row, matched_as_typed, mode_search, place_taken,
    rank_line, result_carries, same_place, semantic_answer, semantic_results, shown_lines,
    shown_snippet, typed_terms, DocumentText, HybridText, RankedSearch,
};
use crate::text::{
    ascii_lower_text, byte_len, concat, contains_text, decimal, join_spec, lines_of, lower_text,
    words_of,
};

verus! {

/// One index is asked exactly where the mode names it, both for every other mode.
pub proof fn law_a_mode_names_its_index(mode: Seq<char>)
    ensures
        mode_search(mode) == RankedSearch::Bm25 <==> mode == "bm25"@,
        mode_search(mode) == RankedSearch::TfIdf <==> mode == "tfidf"@,
        mode_search(mode) == RankedSearch::Both <==> mode != "bm25"@ && mode != "tfidf"@,
{
    reveal_strlit("bm25");
    reveal_strlit("tfidf");
    assert("bm25"@.len() == 4 && "tfidf"@.len() == 5);
}

// ---- documents ----

/// Whether two documents are the same lines of the same file.
pub open spec fn same_lines(a: DocumentText, b: DocumentText) -> bool {
    &&& a.repo == b.repo
    &&& a.file_path == b.file_path
    &&& a.start_line == b.start_line
    &&& a.end_line == b.end_line
}

proof fn lemma_distinct(list: Seq<DocumentText>, repo: Option<Seq<char>>, tests: Seq<Seq<char>>)
    ensures
        forall|k: int|
            0 <= k < distinct_documents(list, repo, tests).len() ==> list.contains(
                #[trigger] distinct_documents(list, repo, tests)[k],
            ) && document_wanted(distinct_documents(list, repo, tests)[k], repo, tests),
        forall|i: int, j: int|
            0 <= i < j < distinct_documents(list, repo, tests).len() ==> !same_place(
                #[trigger] distinct_documents(list, repo, tests)[i],
                #[trigger] distinct_documents(list, repo, tests)[j],
            ),
    decreases list.len(),
{
    if list.len() > 0 {
        let front = distinct_documents(list.drop_last(), repo, tests);
        let all = distinct_documents(list, repo, tests);
        let d = list.last();
        lemma_distinct(list.drop_last(), repo, tests);
        assert(list[list.len() - 1] == d);
        assert forall|k: int| 0 <= k < all.len() implies list.contains(#[trigger] all[k])
            && document_wanted(all[k], repo, tests) by {
            if k < front.len() {
                assert(all[k] == front[k]);
                let m = choose|m: int|
                    0 <= m < list.drop_last().len() && list.drop_last()[m] == front[k];
                assert(list[m] == front[k]);
            }
        }
        assert forall|i: int, j: int| 0 <= i < j < all.len() implies !same_place(
            #[trigger] all[i],
            #[trigger] all[j],
        ) by {
            assert(all[i] == front[i]);
            if j < front.len() {
                assert(all[j] == front[j]);
            }
        }
    }
}

/// The results are documents of the list, of the repository asked about and of no test file, no
/// place twice and no more than were wanted.
pub proof fn law_only_wanted_documents_are_results(
    list: Seq<DocumentText>,
    repo: Option<Seq<char>>,
    tests: Seq<Seq<char>>,
    most: usize,
)
    ensures
        semantic_results(list, repo, tests, most).len() <= most,
        forall|k: int|
            0 <= k < semantic_results(list, repo, tests, most).len() ==> list.contains(
                #[trigger] semantic_results(list, repo, tests, most)[k],
            ) && !tests.contains(semantic_results(list, repo, tests, most)[k].file_path) && (
            repo is Some ==> semantic_results(list, repo, tests, most)[k].repo == repo->0),
        forall|i: int, j: int|
            0 <= i < j < semantic_results(list, repo, tests, most).len() ==> !same_lines(
                #[trigger] semantic_results(list, repo, tests, most)[i],
                #[trigger] semantic_results(list, repo, tests, most)[j],
            ),
{
    let all = distinct_documents(list, repo, tests);
    let shown = semantic_results(list, repo, tests, most);
    lemma_distinct(list, repo, tests);
    assert forall|k: int| 0 <= k < shown.len() implies #[trigger] shown[k] == all[k] by {}
    assert forall|i: int, j: int| 0 <= i < j < shown.len() implies !same_lines(
        #[trigger] shown[i],
        #[trigger] shown[j],
    ) by {
        assert(!same_place(all[i], all[j]));
    }
}

/// While there is room, the lines of every wanted document are among the results.
pub proof fn law_no_wanted_document_is_lost(
    list: Seq<DocumentText>,
    repo: Option<Seq<char>>,
    tests: Seq<Seq<char>>,
    most: usize,
    i: int,
)
    requires
        0 <= i < list.len(),
        repo is Some ==> list[i].repo == repo->0,
        !tests.contains(list[i].file_path),
        semantic_results(list, repo, tests, most).len() < most,
    ensures
        exists|k: int|
            0 <= k < semantic_results(list, repo, tests, most).len() && same_lines(
                #[trigger] semantic_results(list, repo, tests, most)[k],
                list[i],
            ),
{
    lemma_place_is_kept(list, repo, tests, i);
    let all = distinct_documents(list, repo, tests);
    let k = choose|k: int| 0 <= k < all.len() && same_place(#[trigger] all[k], list[i]);
    assert(semantic_results(list, repo, tests, most) == all);
    assert(same_lines(all[k], list[i]));
}

proof fn lemma_place_is_kept(
    list: Seq<DocumentText>,
    repo: Option<Seq<char>>,
    tests: Seq<Seq<char>>,
    i: int,
)
    requires
        0 <= i < list.len(),
        document_wanted(list[i], repo, tests),
    ensures
        place_taken(distinct_documents(list, repo, tests), list[i]),
    decreases list.len(),
{
    let front = distinct_documents(list.drop_last(), repo, tests);
    let all = distinct_documents(list, repo, tests);
    if i == list.len() - 1 {
        if !place_taken(front, list[i]) {
            assert(same_place(all[all.len() - 1], list[i]));
        } else {
            assert(all == front);
        }
    } else {
        assert(list.drop_last()[i] == list[i]);
        lemma_place_is_kept(list.drop_last(), repo, tests, i);
        let k = choose|k: int| 0 <= k < front.len() && same_place(#[trigger] front[k], list[i]);
        assert(all[k] == front[k]);
    }
}

/// A document is shown with its path, and with the text it was found with where it has one.
pub proof fn law_a_document_row_shows_it(i: int, d: DocumentText)
    ensures
        contains_text(document_row(i, d), d.file_path),
        contains_text(document_row(i, d), shown_snippet(d)),
        d.snippet.len() > 0 ==> shown_snippet(d) == d.snippet,
        !d.whole_file ==> shown_lines(d) == (d.start_line, d.end_line),
{
    let p = d.file_path;
    let a = "## "@ + decimal((i + 1) as nat) + ". "@;
    lemma_held_by_itself(p);
    lemma_held_by_end(a, p, p);
    let b = a + p;
    lemma_held_by_front(b, " (score: "@, p);
    let c = b + " (score: "@;
    lemma_held_by_front(c, d.score_text, p);
    let e = c + d.score_text;
    lemma_held_by_front(e, ")\nLines "@, p);
    let f = e + ")\nLines "@;
    let first = decimal(shown_lines(d).0 as nat);
    lemma_held_by_front(f, first, p);
    let g = f + first;
    lemma_held_by_front(g, "-"@, p);
    let h = g + "-"@;
    let last = decimal(shown_lines(d).1 as nat);
    lemma_held_by_front(h, last, p);
    let k = h + last;
    lemma_held_by_front(k, "\n\n```\n"@, p);
    let m = k + "\n\n```\n"@;
    let s = shown_snippet(d);
    lemma_held_by_front(m, s, p);
    lemma_held_by_front(m + s, "\n```\n\n"@, p);
    lemma_held_by_itself(s);
    lemma_held_by_end(m, s, s);
    lemma_held_by_front(m + s, "\n```\n\n"@, s);
}

/// Every result has its row in the answer.
pub proof fn law_every_document_is_shown(
    query: Seq<char>,
    repo: Option<Seq<char>>,
    results: Seq<DocumentText>,
    i: int,
)
    requires
        0 <= i < results.len(),
    ensures
        contains_text(semantic_answer(query, repo, results), document_row(i, results[i])),
{
    let rows = Seq::new(results.len(), |k: int| document_row(k, results[k]));
    let row = document_row(i, results[i]);
    lemma_held_by_itself(row);
    assert(rows[i] == row);
    lemma_held_by_part(rows, i, row);
    let home = match repo {
        Some(r) => "Repository: "@ + r + "\n"@,
        None => Seq::empty(),
    };
    let head = "# Semantic Search: `"@ + query + "`\n\n"@ + home + "Found "@ + decimal(
        results.len() as nat,
    ) + " results\n\n"@;
    lemma_held_by_end(head, concat(rows), row);
    lemma_held_by_front(head + concat(rows), Seq::empty(), row);
}

// ---- both indexes ----

/// Every word of a query that is long enough is looked for, in small letters.
pub proof fn law_every_long_word_is_looked_for(query: Seq<char>, w: Seq<char>)
    requires
        words_of(query).contains(w),
        byte_len(lower_text(w)) >= 2,
    ensures
        typed_terms(query).contains(lower_text(w)),
{
    let f = |w: Seq<char>| lower_text(w);
    let small = words_of(query).map_values(f);
    lemma_map_members(words_of(query), f, w);
    lemma_filter_members(small, |t: Seq<char>| byte_len(t) >= 2, lower_text(w));
    assert(typed_terms(query) =~= small.filter(|t: Seq<char>| byte_len(t) >= 2));
}

/// A result that holds a term as it was typed is kept, and the answer is then no partial one.
pub proof fn law_what_holds_a_term_is_kept(
    results: Seq<HybridText>,
    tests: Seq<Seq<char>>,
    typed: Seq<Seq<char>>,
    i: int,
    k: int,
    before: Seq<char>,
    after: Seq<char>,
)
    requires
        0 <= i < results.len(),
        !tests.contains(results[i].file_path),
        results[i].file_content is Some,
        0 <= k < typed.len(),
        lower_text(results[i].file_content->0) == before + typed[k] + after,
    ensures
        hybrid_kept(results, tests, typed).0.contains(results[i]),
        !hybrid_kept(results, tests, typed).1,
{
    law_what_stands_in_between_is_held(before, typed[k], after);
    assert(holds_some(lower_text(results[i].file_content->0), typed));
    lemma_carrier_is_kept(results, tests, typed, i);
}

/// A result that an index matched by a term, whatever its case, is kept too.
pub proof fn law_what_matches_a_term_is_kept(
    results: Seq<HybridText>,
    tests: Seq<Seq<char>>,
    typed: Seq<Seq<char>>,
    i: int,
    m: int,
    k: int,
)
    requires
        0 <= i < results.len(),
        !tests.contains(results[i].file_path),
        0 <= m < results[i].matched_terms.len(),
        0 <= k < typed.len(),
        ascii_lower_text(results[i].matched_terms[m]) == ascii_lower_text(typed[k]),
    ensures
        hybrid_kept(results, tests, typed).0.contains(results[i]),
        !hybrid_kept(results, tests, typed).1,
{
    assert(matched_as_typed(results[i].matched_terms, typed));
    lemma_carrier_is_kept(results, tests, typed, i);
}

proof fn lemma_carrier_is_kept(
    results: Seq<HybridText>,
    tests: Seq<Seq<char>>,
    typed: Seq<Seq<char>>,
    i: int,
)
    requires
        0 <= i < results.len(),
        !tests.contains(results[i].file_path),
        result_carries(results[i], typed),
    ensures
        hybrid_kept(results, tests, typed).0.contains(results[i]),
        !hybrid_kept(results, tests, typed).1,
{
    let outside = |h: HybridText| !tests.contains(h.file_path);
    let carries = |h: HybridText| result_carries(h, typed);
    let all = results.filter(outside);
    assert(results.contains(results[i]));
    lemma_filter_members(results, outside, results[i]);
    lemma_filter_members(all, carries, results[i]);
    assert(hybrid_kept(results, tests, typed).0 =~= all.filter(carries));
}

/// Whether a result holds a term as it was typed.
pub open spec fn is_exact(h: HybridText, typed: Seq<Seq<char>>) -> bool {
    ||| exists|m: int, k: int|
        0 <= m < h.matched_terms.len() && 0 <= k < typed.len() && ascii_lower_text(
            #[trigger] h.matched_terms[m],
        ) == ascii_lower_text(#[trigger] typed[k])
    ||| h.file_content is Some && exists|k: int|
        0 <= k < typed.len() && contains_text(
            lower_text(h.file_content->0),
            #[trigger] typed[k],
        )
}

/// What is kept is a result outside the tests; unless the answer is a partial one, it holds a
/// term as it was typed; and where it is, no result outside the tests does.
pub proof fn law_only_exact_results_are_kept(
    results: Seq<HybridText>,
    tests: Seq<Seq<char>>,
    typed: Seq<Seq<char>>,
    h: HybridText,
)
    ensures
        hybrid_kept(results, tests, typed).0.contains(h) ==> results.contains(h)
            && !tests.contains(h.file_path),
        hybrid_kept(results, tests, typed).0.contains(h) && !hybrid_kept(results, tests, typed).1
            ==> is_exact(h, typed),
        hybrid_kept(results, tests, typed).1 && results.contains(h) && !tests.contains(h.file_path)
            ==> !is_exact(h, typed) && hybrid_kept(results, tests, typed).0.contains(h),
{
    let outside = |h: HybridText| !tests.contains(h.file_path);
    let carries = |h: HybridText| result_carries(h, typed);
    let all = results.filter(outside);
    let exact = all.filter(carries);
    lemma_filter_members(results, outside, h);
    lemma_filter_members(all, carries, h);
    assert(result_carries(h, typed) <==> is_exact(h, typed)) by {
        if matched_as_typed(h.matched_terms, typed) {
            let (m, k) = choose|m: int, k: int|
                0 <= m < h.matched_terms.len() && 0 <= k < typed.len()
                    && crate::ranked::same_ignoring_case(
                    #[trigger] h.matched_terms[m],
                    #[trigger] typed[k],
                );
            assert(ascii_lower_text(h.matched_terms[m]) == ascii_lower_text(typed[k]));
        }
    }
    assert(hybrid_kept(results, tests, typed).0 =~= if exact.len() > 0 {
        exact
    } else {
        all
    });
    if exact.len() == 0 {
        assert(!exact.contains(h));
        if all.contains(h) {
            let k = choose|k: int| 0 <= k < all.len() && all[k] == h;
            assert(all.len() > 0);
        }
    }
}

/// The first results are kept, as many as were wanted.
pub proof fn law_the_first_are_kept<T>(list: Seq<T>, most: usize)
    ensures
        first_of(list, most).is_prefix_of(list),
        list.len() <= most ==> first_of(list, most) == list,
        list.len() >= most ==> first_of(list, most).len() == most,
{
    assert(first_of(list, most) =~= list.subrange(0, first_of(list, most).len() as int));
}

/// What one of several parts holds, the parts joined hold.
pub proof fn lemma_held_by_joined(parts: Seq<Seq<char>>, sep: Seq<char>, i: int, p: Seq<char>)
    requires
        0 <= i < parts.len(),
        contains_text(parts[i], p),
    ensures
        contains_text(join_spec(parts, sep), p),
    decreases parts.len(),
{
    if parts.len() > 1 {
        let front = parts.drop_last();
        let joined = join_spec(front, sep);
        if i < front.len() {
            assert(front[i] == parts[i]);
            lemma_held_by_joined(front, sep, i, p);
            lemma_held_by_front(joined, sep, p);
            lemma_held_by_front(joined + sep, parts.last(), p);
        } else {
            lemma_held_by_end(joined + sep, parts.last(), p);
        }
    }
}

/// The first ten lines of what was found are shown, and all of them where there are no more.
pub proof fn law_a_snippet_shows_its_first_lines(text: Seq<char>, k: int)
    requires
        0 <= k < lines_of(text).len(),
        k < 10,
    ensures
        contains_text(cut_snippet(text), lines_of(text)[k]),
        lines_of(text).len() <= 10 ==> cut_snippet(text) == join_spec(lines_of(text), "\n"@),
{
    let all = lines_of(text);
    lemma_held_by_itself(all[k]);
    if all.len() > 10 {
        assert(all.take(10)[k] == all[k]);
        lemma_held_by_joined(all.take(10), "\n"@, k, all[k]);
        lemma_held_by_front(join_spec(all.take(10), "\n"@), "\n... (truncated)"@, all[k]);
    } else {
        lemma_held_by_joined(all, "\n"@, k, all[k]);
    }
}

/// Every result is shown in the answer, with its path.
pub proof fn law_every_hybrid_result_is_shown(
    query: Seq<char>,
    mode: Seq<char>,
    repo: Option<Seq<char>>,
    results: Seq<HybridText>,
    partial: bool,
    i: int,
)
    requires
        0 <= i < results.len(),
    ensures
        contains_text(hybrid_answer(query, mode, repo, results, partial), results[i].file_path),
{
    let rows = Seq::new(results.len(), |k: int| hybrid_row(k, results[k]));
    let p = results[i].file_path;
    lemma_hybrid_row(i, results[i]);
    assert(rows[i] == hybrid_row(i, results[i]));
    lemma_held_by_part(rows, i, p);
    let home = match repo {
        Some(r) => "**Repository**: "@ + r + "\n"@,
        None => Seq::empty(),
    };
    let note = if partial {
        "*No result contains the query terms as written; these match parts of them only.*\n\n"@
    } else {
        Seq::empty()
    };
    let head = "# Hybrid Search Results for: `"@ + query + "`\n\n**Mode**: "@ + mode + "\n"@ + home
        + "**Results**: "@ + decimal(results.len() as nat) + "\n\n"@ + note;
    lemma_held_by_end(head, concat(rows), p);
    lemma_held_by_front(head + concat(rows), Seq::empty(), p);
}

proof fn lemma_hybrid_row(i: int, h: HybridText)
    ensures
        contains_text(hybrid_row(i, h), h.file_path),
        contains_text(hybrid_row(i, h), cut_snippet(hybrid_part(h).text)),
{
    let part = hybrid_part(h);
    let terms = if h.matched_terms.len() > 0 {
        "- **Matched terms**: "@ + join_spec(h.matched_terms, ", "@) + "\n"@
    } else {
        Seq::empty()
    };
    let p = h.file_path;
    let a = "## "@ + decimal((i + 1) as nat) + ". "@;
    lemma_held_by_itself(p);
    lemma_held_by_end(a, p, p);
    let b = a + p;
    lemma_held_by_front(b, "\n- **Score**: "@, p);
    let c = b + "\n- **Score**: "@;
    lemma_held_by_front(c, h.score_text, p);
    let d = c + h.score_text;
    lemma_held_by_front(d, "\n- **Lines**: "@, p);
    let e = d + "\n- **Lines**: "@;
    lemma_held_by_front(e, decimal(part.start_line as nat), p);
    let f = e + decimal(part.start_line as nat);
    lemma_held_by_front(f, "-"@, p);
    let g = f + "-"@;
    lemma_held_by_front(g, decimal(part.end_line as nat), p);
    let k = g + decimal(part.end_line as nat);
    lemma_held_by_front(k, "\n"@, p);
    let l = k + "\n"@;
    lemma_held_by_front(l, rank_line("BM25"@, h.bm25_rank), p);
    let m = l + rank_line("BM25"@, h.bm25_rank);
    lemma_held_by_front(m, rank_line("TF-IDF"@, h.tfidf_rank), p);
    let n = m + rank_line("TF-IDF"@, h.tfidf_rank);
    lemma_held_by_front(n, terms, p);
    let o = n + terms;
    lemma_held_by_front(o, "\n```\n"@, p);
    let q = o + "\n```\n"@;
    let s = cut_snippet(part.text);
    lemma_held_by_front(q, s, p);
    lemma_held_by_front(q + s, "\n```\n\n"@, p);
    lemma_held_by_itself(s);
    lemma_held_by_end(q, s, s);
    lemma_held_by_front(q + s, "\n```\n\n"@, s);
}

} // verus!
