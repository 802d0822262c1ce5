//! What makes a hit relevant, and which place of a file stands for it.

use vstd::prelude::*;

use crate::budget::{
    by_file_summary_spec, count_files, count_row, counted_at, more_often, FileCountText,
};
use crate::laws::answers::{lemma_held_by_itself, lemma_held_by_part};
use crate::laws::lists::lemma_sorted_members;
use crate::laws::texts::law_a_held_text_can_be_cut_out;
use crate::order::{is_strict_weak, law_sorting_sorts, sort_stable};
use crate::references::{
    anchor_end, anchor_from, query_anchor_spec, utf16_col, whole_word_at, word_from,
};
use crate::search::{
    best_window_spec, coverage, equal_words, first_holding, holds_any, relevance_spec, window_end,
    window_holds,
};
use crate::text::{
    contains_text, decimal, find_from, lemma_find_from, lines_of, lower_text, occurs_at, words_of,
};

verus! {

// ---- relevance ----

proof fn lemma_equal_words(words: Seq<Seq<char>>, query: Seq<char>)
    ensures
        equal_words(words, query) == words.filter(|w: Seq<char>| lower_text(w) == query).len(),
    decreases words.len(),
{
    reveal(Seq::filter);
    if words.len() > 0 {
        lemma_equal_words(words.drop_last(), query);
    }
}

/// A line is relevant by whether it holds the query, how many of its words are the query, and
/// whether it looks like a definition.
pub proof fn law_what_makes_a_line_relevant(line: Seq<char>, query: Seq<char>)
    requires
        words_of(line).len() <= usize::MAX,
    ensures
        relevance_spec(line, query).holds_query <==> exists|before: Seq<char>, after: Seq<char>|
            line == #[trigger] (before + query + after),
        relevance_spec(line, query).equal_words == words_of(line).filter(
            |w: Seq<char>| lower_text(w) == query,
        ).len(),
        relevance_spec(line, query).definition <==> contains_text(line, "fn "@) || contains_text(
            line,
            "def "@,
        ) || contains_text(line, "func "@) || contains_text(line, "class "@) || contains_text(
            line,
            "struct "@,
        ),
{
    law_a_held_text_can_be_cut_out(line, query);
    lemma_equal_words(words_of(line), query);
    lemma_equal_words_bounded(words_of(line), query);
}

proof fn lemma_equal_words_bounded(words: Seq<Seq<char>>, query: Seq<char>)
    ensures
        equal_words(words, query) <= words.len(),
    decreases words.len(),
{
    if words.len() > 0 {
        lemma_equal_words_bounded(words.drop_last(), query);
    }
}

// ---- windows ----

/// Whether some line of the window holds the token, in code where that is asked.
pub open spec fn held_in(
    held: Seq<Seq<bool>>,
    code: Seq<bool>,
    from: int,
    to: int,
    token: int,
    in_code: bool,
) -> bool {
    exists|j: int| from <= j < to && (#[trigger] held[j])[token] && code[j] == in_code
}

proof fn lemma_held_in(
    held: Seq<Seq<bool>>,
    code: Seq<bool>,
    from: int,
    to: int,
    token: int,
    in_code: bool,
)
    ensures
        held_in(held, code, from, to, token, in_code) == window_holds(
            held,
            code,
            from,
            to,
            token,
            in_code,
        ),
{
    if window_holds(held, code, from, to, token, in_code) {
        let j = choose|j: int| from <= j < to && #[trigger] held[j][token] && code[j] == in_code;
        assert(held[j][token]);
    }
    if held_in(held, code, from, to, token, in_code) {
        let j = choose|j: int|
            from <= j < to && (#[trigger] held[j])[token] && code[j] == in_code;
        assert(held[j][token]);
    }
}

/// Each token of a query counts four times where code of the window holds it, once where only
/// its comments do, and not at all where nothing does.
pub proof fn law_code_counts_more_than_comments(
    held: Seq<Seq<bool>>,
    code: Seq<bool>,
    from: int,
    to: int,
    n: nat,
)
    ensures
        held_in(held, code, from, to, n as int, true) ==> coverage(held, code, from, to, n + 1)
            == coverage(held, code, from, to, n) + 4,
        !held_in(held, code, from, to, n as int, true) && held_in(
            held,
            code,
            from,
            to,
            n as int,
            false,
        ) ==> coverage(held, code, from, to, n + 1) == coverage(held, code, from, to, n) + 1,
        !held_in(held, code, from, to, n as int, true) && !held_in(
            held,
            code,
            from,
            to,
            n as int,
            false,
        ) ==> coverage(held, code, from, to, n + 1) == coverage(held, code, from, to, n),
        coverage(held, code, from, to, 0) == 0,
{
    lemma_held_in(held, code, from, to, n as int, true);
    lemma_held_in(held, code, from, to, n as int, false);
}

/// No window of five lines covers more of the query than the one that was found, and it covers
/// that much.
pub proof fn law_the_best_window_is_found(
    held: Seq<Seq<bool>>,
    code: Seq<bool>,
    tokens: nat,
    n: nat,
)
    requires
        n <= held.len(),
    ensures
        forall|start: int|
            #![trigger window_end(start, held.len() as int)]
            0 <= start < n ==> coverage(
                held,
                code,
                start,
                window_end(start, held.len() as int),
                tokens,
            ) <= best_window_spec(held, code, tokens, n).1,
        best_window_spec(held, code, tokens, n).1 > 0 ==> exists|start: int|
            #![trigger window_end(start, held.len() as int)]
            0 <= start < n && coverage(
                held,
                code,
                start,
                window_end(start, held.len() as int),
                tokens,
            ) == best_window_spec(held, code, tokens, n).1,
        forall|start: int|
            0 <= start && start + 5 <= held.len() ==> #[trigger] window_end(start, held.len() as int)
                == start + 5,
    decreases n,
{
    if n > 0 {
        law_the_best_window_is_found(held, code, tokens, (n - 1) as nat);
        let before = best_window_spec(held, code, tokens, (n - 1) as nat);
        let end = window_end(n - 1, held.len() as int);
        let here = coverage(held, code, n - 1, end, tokens);
        if here <= before.1 && before.1 > 0 {
            let start = choose|start: int|
                #![trigger window_end(start, held.len() as int)]
                0 <= start < n - 1 && coverage(
                    held,
                    code,
                    start,
                    window_end(start, held.len() as int),
                    tokens,
                ) == before.1;
            assert(window_end(start, held.len() as int) == window_end(start, held.len() as int));
        }
    }
}

/// The line that stands for a window is its first that holds a token.
pub proof fn law_the_first_holding_line_stands_for_a_window(
    held: Seq<Seq<bool>>,
    from: int,
    at: int,
    to: int,
    k: int,
)
    requires
        at <= k < to,
        holds_any(held[k]),
    ensures
        at <= first_holding(held, from, at, to) <= k,
        holds_any(held[first_holding(held, from, at, to)]),
    decreases to - at,
{
    if !holds_any(held[at]) {
        law_the_first_holding_line_stands_for_a_window(held, from, at + 1, to, k);
    }
}

// ---- anchors ----

/// A name that stands in a line as a whole word, and nowhere before, is found there.
pub proof fn law_a_whole_word_is_found(line: Seq<char>, name: Seq<char>, p: int)
    requires
        name.len() > 0,
        occurs_at(line, name, p),
        whole_word_at(line, name, p),
        forall|q: int| 0 <= q < p ==> !occurs_at(line, name, q),
    ensures
        word_from(line, name, 0) == Some(p),
{
    lemma_find_from(line, name, 0);
    let start = find_from(line, name, 0)->0;
    assert(start == p);
}

proof fn lemma_anchor_is_first(
    lines: Seq<Seq<char>>,
    name: Seq<char>,
    i: int,
    end: int,
    k: int,
    p: int,
)
    requires
        0 <= i <= k < end <= lines.len(),
        word_from(lines[k], name, 0) == Some(p),
        forall|j: int| i <= j < k ==> word_from(#[trigger] lines[j], name, 0) is None,
    ensures
        anchor_from(lines, name, i, end) == Some((k as u32, utf16_col(lines[k].take(p)))),
    decreases end - i,
{
    if i < k {
        assert(word_from(lines[i], name, 0) is None);
        lemma_anchor_is_first(lines, name, i + 1, end, k, p);
    }
}

/// A server is asked at the first line of a definition that has its name as a word, among its
/// first eight, and at its first line where none has.
pub proof fn law_where_a_server_is_asked(
    content: Seq<char>,
    name: Seq<char>,
    start_line: usize,
    end_line: usize,
    k: int,
    p: int,
)
    requires
        name.len() > 0,
        0 < start_line,
        start_line - 1 <= k < lines_of(content).len(),
        k < start_line + 7,
        k < end_line,
        word_from(lines_of(content)[k], name, 0) == Some(p),
        forall|j: int|
            start_line - 1 <= j < k ==> word_from(#[trigger] lines_of(content)[j], name, 0) is None,
    ensures
        query_anchor_spec(Some(content), name, start_line, end_line) == (
            k as u32,
            utf16_col(lines_of(content)[k].take(p)),
        ),
        query_anchor_spec(None, name, start_line, end_line) == ((start_line - 1) as u32, 0u32),
{
    let first = start_line - 1;
    let end = anchor_end(first, end_line, lines_of(content).len() as int);
    lemma_anchor_is_first(lines_of(content), name, first, end, k, p);
}

// ---- counts by file ----

proof fn lemma_counted_at(counts: Seq<FileCountText>, file: Seq<char>)
    ensures
        match counted_at(counts, file) {
            Some(i) => 0 <= i < counts.len() && counts[i].file == file,
            None => forall|i: int| 0 <= i < counts.len() ==> (#[trigger] counts[i]).file != file,
        },
    decreases counts.len(),
{
    if counts.len() > 0 {
        lemma_counted_at(counts.drop_last(), file);
        if counted_at(counts.drop_last(), file) is None {
            assert forall|i: int| 0 <= i < counts.len() - 1 implies (#[trigger] counts[i]).file
                != file by {
                assert(counts.drop_last()[i] == counts[i]);
            }
        }
    }
}

/// How often a file is named.
pub open spec fn times(files: Seq<Seq<char>>, file: Seq<char>) -> nat
    decreases files.len(),
{
    if files.len() == 0 {
        0
    } else {
        times(files.drop_last(), file) + if files.last() == file {
            1nat
        } else {
            0nat
        }
    }
}

proof fn lemma_times_bounded(files: Seq<Seq<char>>, file: Seq<char>)
    ensures
        times(files, file) <= files.len(),
    decreases files.len(),
{
    if files.len() > 0 {
        lemma_times_bounded(files.drop_last(), file);
    }
}

/// Every file named is counted, once for each time.
pub proof fn law_files_are_counted(files: Seq<Seq<char>>, k: int)
    requires
        files.len() <= usize::MAX,
        0 <= k < count_files(files).len(),
    ensures
        count_files(files)[k].count == times(files, count_files(files)[k].file),
    decreases files.len(),
{
    let front = count_files(files.drop_last());
    let all = count_files(files);
    let last = files.last();
    lemma_counted_at(front, last);
    lemma_times_bounded(files.drop_last(), last);
    match counted_at(front, last) {
        Some(i) => {
            law_files_are_counted(files.drop_last(), k);
            if k != i {
                lemma_counts_are_distinct(files.drop_last());
                assert(front[k].file != front[i].file) by {
                    if k < i {
                        assert(front[k].file != front[i].file);
                    } else {
                        assert(front[i].file != front[k].file);
                    }
                }
            }
        },
        None => {
            if k < front.len() {
                law_files_are_counted(files.drop_last(), k);
                assert(front[k].file != last);
            } else {
                lemma_uncounted(files.drop_last(), last);
            }
        },
    }
}

proof fn lemma_counts_are_distinct(files: Seq<Seq<char>>)
    ensures
        forall|i: int, j: int|
            0 <= i < j < count_files(files).len() ==> (#[trigger] count_files(files)[i]).file != (
            #[trigger] count_files(files)[j]).file,
    decreases files.len(),
{
    if files.len() > 0 {
        lemma_counts_are_distinct(files.drop_last());
        let front = count_files(files.drop_last());
        let all = count_files(files);
        lemma_counted_at(front, files.last());
        assert forall|i: int, j: int| 0 <= i < j < all.len() implies (#[trigger] all[i]).file != (
        #[trigger] all[j]).file by {
            match counted_at(front, files.last()) {
                Some(m) => {
                    assert(all[i].file == front[i].file && all[j].file == front[j].file);
                },
                None => {
                    assert(all[i] == front[i]);
                    if j < front.len() {
                        assert(all[j] == front[j]);
                    }
                },
            }
        }
    }
}

proof fn lemma_uncounted(files: Seq<Seq<char>>, file: Seq<char>)
    requires
        forall|i: int|
            0 <= i < count_files(files).len() ==> (#[trigger] count_files(files)[i]).file != file,
    ensures
        times(files, file) == 0,
    decreases files.len(),
{
    if files.len() > 0 {
        let front = count_files(files.drop_last());
        let all = count_files(files);
        lemma_counted_at(front, files.last());
        match counted_at(front, files.last()) {
            Some(m) => {
                assert(all[m].file == files.last());
                assert forall|i: int| 0 <= i < front.len() implies (#[trigger] front[i]).file
                    != file by {
                    assert(all[i].file == front[i].file);
                }
            },
            None => {
                assert(all[all.len() - 1].file == files.last());
                assert forall|i: int| 0 <= i < front.len() implies (#[trigger] front[i]).file
                    != file by {
                    assert(all[i] == front[i]);
                }
            },
        }
        lemma_uncounted(files.drop_last(), file);
    }
}

/// No file that is named is left out of the count.
pub proof fn law_every_file_is_counted(files: Seq<Seq<char>>, i: int)
    requires
        0 <= i < files.len(),
    ensures
        exists|k: int|
            0 <= k < count_files(files).len() && (#[trigger] count_files(files)[k]).file
                == files[i],
{
    if forall|k: int|
        0 <= k < count_files(files).len() ==> (#[trigger] count_files(files)[k]).file != files[i] {
        lemma_uncounted(files, files[i]);
        lemma_named(files, i);
    }
}

proof fn lemma_named(files: Seq<Seq<char>>, i: int)
    requires
        0 <= i < files.len(),
    ensures
        times(files, files[i]) > 0,
    decreases files.len(),
{
    if i < files.len() - 1 {
        assert(files.drop_last()[i] == files[i]);
        lemma_named(files.drop_last(), i);
    }
}

/// The files named most often are shown first, and all of them where there is room.
pub proof fn law_a_summary_shows_its_files(files: Seq<Seq<char>>, most: nat, k: int)
    requires
        count_files(files).len() <= most,
        0 <= k < count_files(files).len(),
    ensures
        contains_text(
            by_file_summary_spec(files, most),
            "- `"@ + count_files(files)[k].file + "`: "@ + decimal(
                count_files(files)[k].count as nat,
            ) + "\n"@,
        ),
{
    let counts = count_files(files);
    let sorted = sort_stable(counts, more_often());
    let row = count_row(counts[k]);
    assert(counts.contains(counts[k]));
    lemma_sorted_members(counts, more_often(), counts[k]);
    let j = choose|j: int| 0 <= j < sorted.len() && sorted[j] == counts[k];
    let rows = sorted.map_values(|c: FileCountText| count_row(c));
    assert(rows[j] == row);
    lemma_held_by_itself(row);
    lemma_held_by_part(rows, j, row);
}

/// Of two files the one named more often comes first.
pub proof fn law_the_most_named_come_first(files: Seq<Seq<char>>, i: int, j: int)
    requires
        0 <= i < j < sort_stable(count_files(files), more_often()).len(),
    ensures
        sort_stable(count_files(files), more_often())[i].count >= sort_stable(
            count_files(files),
            more_often(),
        )[j].count,
{
    let all = sort_stable(count_files(files), more_often());
    let lt = more_often();
    assert(is_strict_weak(lt));
    law_sorting_sorts(count_files(files), lt);
    assert(!lt(all[j], all[i]));
}

} // verus!
