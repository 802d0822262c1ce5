//! Searching the text of the indexed files.

use vstd::prelude::*;

use crate::languages::{get_language_id, get_language_id_spec};
use crate::lookup::{file_hit, file_matches};
use crate::order::{
    is_sorted_by, is_strict_weak, lemma_sort_maps, lemma_text_lt_irreflexive, lemma_text_lt_total,
    lemma_text_lt_transitive, rank_order, sort_ranked, sort_stable, text_less, text_lt, Ranked,
};
use crate::paths::{strip, strip_base};
use crate::text::{
    byte_len, concat, concat_texts, contains, contains_text, decimal, has_text, join, join_spec,
    lines, lines_of, lower_text, pad_four, padded_number, same_text, texts, to_lowercase,
    usize_text, words, words_of,
};

verus! {

// ---- what a line is worth ----

/// A line that looks like a definition.
pub open spec fn looks_like_definition(line: Seq<char>) -> bool {
    contains_text(line, "fn "@) || contains_text(line, "def "@) || contains_text(line, "func "@)
        || contains_text(line, "class "@) || contains_text(line, "struct "@)
}

/// How many of the words equal the query in small letters.
pub open spec fn equal_words(words: Seq<Seq<char>>, query: Seq<char>) -> nat
    decreases words.len(),
{
    if words.len() == 0 {
        0
    } else {
        equal_words(words.drop_last(), query) + if lower_text(words.last()) == query {
            1nat
        } else {
            0nat
        }
    }
}

/// What the relevance of a line is made of: whether it holds the query as written, how many
/// of its words equal the query, whether it looks like a definition, and its length.
#[derive(Debug, Clone, Copy, PartialEq, Eq, Structural)]
pub struct Relevance {
    pub holds_query: bool,
    pub equal_words: usize,
    pub definition: bool,
    pub line_bytes: usize,
}

pub open spec fn relevance_spec(line: Seq<char>, query: Seq<char>) -> Relevance {
    Relevance {
        holds_query: contains_text(line, query),
        equal_words: equal_words(words_of(line), query) as usize,
        definition: looks_like_definition(line),
        line_bytes: byte_len(line),
    }
}

proof fn lemma_equal_words_bounded(words: Seq<Seq<char>>, query: Seq<char>)
    ensures
        equal_words(words, query) <= words.len(),
    decreases words.len(),
{
    if words.len() > 0 {
        lemma_equal_words_bounded(words.drop_last(), query);
    }
}

/// Measures what the relevance of a line is made of. The query is in small letters.
pub fn line_relevance(line: &str, query: &str) -> (r: Relevance)
    ensures
        r == relevance_spec(line@, query@),
{
    let list = words(line);
    let ghost all = texts(list@);
    let mut count: usize = 0;
    let mut i: usize = 0;
    while i < list.len()
        invariant
            i <= list@.len(),
            all == texts(list@),
            count <= i,
            count == equal_words(all.take(i as int), query@),
        decreases list@.len() - i,
    {
        proof {
            assert(all.take(i + 1).drop_last() =~= all.take(i as int));
            assert(all.take(i + 1).last() == list@[i as int]@);
        }
        let small = to_lowercase(list[i].as_str());
        if same_text(small.as_str(), query) {
            count = count + 1;
        }
        i = i + 1;
    }
    proof {
        assert(all.take(all.len() as int) =~= all);
    }
    let definition = contains(line, "fn ") || contains(line, "def ") || contains(line, "func ")
        || contains(line, "class ") || contains(line, "struct ");
    Relevance {
        holds_query: contains(line, query),
        equal_words: count,
        definition,
        line_bytes: line.len(),
    }
}

// ---- where a multi-line hit is anchored ----

/// Lines a fallback hit spans.
pub const FALLBACK_WINDOW: usize = 5;

/// Tokens that count towards coverage.
pub const MAX_TOKENS: usize = 64;

/// Some line of the window holds the token and is code, or is a comment.
pub open spec fn window_holds(
    held: Seq<Seq<bool>>,
    code: Seq<bool>,
    from: int,
    to: int,
    token: int,
    in_code: bool,
) -> bool {
    exists|j: int| from <= j < to && #[trigger] held[j][token] && code[j] == in_code
}

/// The coverage of a window by the first `n` tokens, in quarters: a token in code counts
/// four, one that only a comment holds counts one.
pub open spec fn coverage(
    held: Seq<Seq<bool>>,
    code: Seq<bool>,
    from: int,
    to: int,
    n: nat,
) -> nat
    decreases n,
{
    if n == 0 {
        0
    } else {
        let before = coverage(held, code, from, to, (n - 1) as nat);
        if window_holds(held, code, from, to, n - 1, true) {
            before + 4
        } else if window_holds(held, code, from, to, n - 1, false) {
            before + 1
        } else {
            before
        }
    }
}

/// A line that holds any token.
pub open spec fn holds_any(row: Seq<bool>) -> bool {
    exists|t: int| 0 <= t < row.len() && #[trigger] row[t]
}

/// The first line from `from` on, before `to`, that holds any token; `from` where none does.
pub open spec fn first_holding(held: Seq<Seq<bool>>, from: int, at: int, to: int) -> int
    decreases to - at,
{
    if at >= to {
        from
    } else if holds_any(held[at]) {
        at
    } else {
        first_holding(held, from, at + 1, to)
    }
}

pub open spec fn window_end(start: int, len: int) -> int {
    if start + FALLBACK_WINDOW < len {
        start + FALLBACK_WINDOW
    } else {
        len
    }
}

/// The best of the first `n` windows: where to anchor the hit, and its coverage. The
/// earliest of equals wins.
pub open spec fn best_window_spec(held: Seq<Seq<bool>>, code: Seq<bool>, tokens: nat, n: nat) -> (
    int,
    nat,
)
    decreases n,
{
    if n == 0 {
        (0, 0)
    } else {
        let before = best_window_spec(held, code, tokens, (n - 1) as nat);
        let start = n - 1;
        let end = window_end(start, held.len() as int);
        let here = coverage(held, code, start, end, tokens);
        if here > before.1 {
            (first_holding(held, start, start, end), here)
        } else {
            before
        }
    }
}

fn column_held(
    held: &Vec<Vec<bool>>,
    code: &Vec<bool>,
    from: usize,
    to: usize,
    token: usize,
    in_code: bool,
) -> (r: bool)
    requires
        from <= to <= held@.len(),
        held@.len() == code@.len(),
        forall|j: int| 0 <= j < held@.len() ==> token < (#[trigger] held@[j])@.len(),
    ensures
        r == window_holds(
            held@.map_values(|row: Vec<bool>| row@),
            code@,
            from as int,
            to as int,
            token as int,
            in_code,
        ),
{
    let ghost rows = held@.map_values(|row: Vec<bool>| row@);
    let mut j: usize = from;
    while j < to
        invariant
            from <= j <= to <= held@.len(),
            held@.len() == code@.len(),
            rows == held@.map_values(|row: Vec<bool>| row@),
            forall|k: int| 0 <= k < held@.len() ==> token < (#[trigger] held@[k])@.len(),
            forall|k: int|
                from <= k < j ==> !(#[trigger] rows[k][token as int] && code@[k] == in_code),
        decreases to - j,
    {
        proof {
            assert(rows[j as int] == held@[j as int]@);
        }
        if held[j][token] && code[j] == in_code {
            proof {
                assert(rows[j as int][token as int]);
            }
            return true;
        }
        j = j + 1;
    }
    false
}

fn row_holds_any(row: &Vec<bool>) -> (r: bool)
    ensures
        r == holds_any(row@),
{
    let mut t: usize = 0;
    while t < row.len()
        invariant
            t <= row@.len(),
            forall|k: int| 0 <= k < t ==> !#[trigger] row@[k],
        decreases row@.len() - t,
    {
        if row[t] {
            return true;
        }
        t = t + 1;
    }
    false
}

proof fn lemma_coverage_bounded(held: Seq<Seq<bool>>, code: Seq<bool>, from: int, to: int, n: nat)
    ensures
        coverage(held, code, from, to, n) <= 4 * n,
    decreases n,
{
    if n > 0 {
        lemma_coverage_bounded(held, code, from, to, (n - 1) as nat);
    }
}

/// Finds the window of lines that covers the tokens best. `held` tells for each line which
/// of the tokens it holds, `code` which lines are code.
pub fn best_window(held: &Vec<Vec<bool>>, code: &Vec<bool>, tokens: usize) -> (r: (usize, usize))
    requires
        tokens <= MAX_TOKENS,
        held@.len() == code@.len(),
        forall|j: int| 0 <= j < held@.len() ==> (#[trigger] held@[j])@.len() == tokens,
    ensures
        (r.0 as int, r.1 as nat) == best_window_spec(
            held@.map_values(|row: Vec<bool>| row@),
            code@,
            tokens as nat,
            held@.len(),
        ),
        r.0 < held@.len() || r.0 == 0,
{
    let ghost rows = held@.map_values(|row: Vec<bool>| row@);
    let len: usize = held.len();
    let mut best: (usize, usize) = (0, 0);
    let mut start: usize = 0;
    while start < len
        invariant
            start <= len,
            len == held@.len(),
            tokens <= MAX_TOKENS,
            held@.len() == code@.len(),
            rows == held@.map_values(|row: Vec<bool>| row@),
            forall|j: int| 0 <= j < held@.len() ==> (#[trigger] held@[j])@.len() == tokens,
            (best.0 as int, best.1 as nat) == best_window_spec(
                rows,
                code@,
                tokens as nat,
                start as nat,
            ),
            best.0 < len || best.0 == 0,
        decreases len - start,
    {
        let end: usize = if len - start > FALLBACK_WINDOW {
            start + FALLBACK_WINDOW
        } else {
            len
        };
        let mut here: usize = 0;
        let mut t: usize = 0;
        while t < tokens
            invariant
                t <= tokens <= MAX_TOKENS,
                start <= end <= len,
                len == held@.len(),
                held@.len() == code@.len(),
                rows == held@.map_values(|row: Vec<bool>| row@),
                forall|j: int| 0 <= j < held@.len() ==> (#[trigger] held@[j])@.len() == tokens,
                here == coverage(rows, code@, start as int, end as int, t as nat),
            decreases tokens - t,
        {
            proof {
                lemma_coverage_bounded(rows, code@, start as int, end as int, t as nat);
            }
            if column_held(held, code, start, end, t, true) {
                here = here + 4;
            } else if column_held(held, code, start, end, t, false) {
                here = here + 1;
            }
            t = t + 1;
        }
        if here > best.1 {
            let mut at: usize = start;
            let mut found = false;
            while at < end && !found
                invariant
                    start <= at <= end <= len,
                    len == held@.len(),
                    rows == held@.map_values(|row: Vec<bool>| row@),
                    found ==> at < end,
                    first_holding(rows, start as int, start as int, end as int) == if found {
                        at as int
                    } else {
                        first_holding(rows, start as int, at as int, end as int)
                    },
                decreases
                    end - at + (if found {
                        0int
                    } else {
                        1int
                    }),
            {
                proof {
                    assert(rows[at as int] == held@[at as int]@);
                }
                if row_holds_any(&held[at]) {
                    found = true;
                } else {
                    at = at + 1;
                }
            }
            let anchor: usize = if found {
                at
            } else {
                start
            };
            best = (anchor, here);
        }
        start = start + 1;
    }
    best
}

/// Which of the tokens each line holds, in small letters.
pub open spec fn held_rows(lines: Seq<Seq<char>>, tokens: Seq<Seq<char>>) -> Seq<Seq<bool>> {
    lines.map_values(
        |l: Seq<char>| tokens.map_values(|t: Seq<char>| contains_text(lower_text(l), t)),
    )
}

/// The tokens that count.
pub open spec fn counted_tokens(tokens: Seq<Seq<char>>) -> Seq<Seq<char>> {
    if tokens.len() > MAX_TOKENS {
        tokens.take(MAX_TOKENS as int)
    } else {
        tokens
    }
}

/// A line is code unless it is listed as a comment.
pub open spec fn code_lines(n: nat, comment: Seq<bool>) -> Seq<bool> {
    Seq::new(n, |i: int| !(i < comment.len() && comment[i]))
}

pub open spec fn best_anchor_spec(
    lines: Seq<Seq<char>>,
    tokens: Seq<Seq<char>>,
    comment: Seq<bool>,
) -> (int, nat) {
    let counted = counted_tokens(tokens);
    best_window_spec(
        held_rows(lines, counted),
        code_lines(lines.len(), comment),
        counted.len(),
        lines.len(),
    )
}

fn hold_row(line: &str, tokens: &[String], count: usize) -> (r: Vec<bool>)
    requires
        count <= tokens@.len(),
    ensures
        r@ == texts(tokens@).take(count as int).map_values(
            |t: Seq<char>| contains_text(lower_text(line@), t),
        ),
{
    let small = to_lowercase(line);
    let mut out: Vec<bool> = Vec::new();
    let mut i: usize = 0;
    while i < count
        invariant
            i <= count <= tokens@.len(),
            small@ == lower_text(line@),
            out@.len() == i,
            forall|j: int| 0 <= j < i ==> #[trigger] out@[j] == contains_text(small@, tokens@[j]@),
        decreases count - i,
    {
        out.push(contains(small.as_str(), tokens[i].as_str()));
        i = i + 1;
    }
    proof {
        assert(out@ =~= texts(tokens@).take(count as int).map_values(
            |t: Seq<char>| contains_text(lower_text(line@), t),
        ));
    }
    out
}

/// The line to anchor a multi-line hit at, and how well the hit covers the query, in
/// quarters: the window of lines that holds the most distinct tokens, code counted before
/// comments. `comment` tells which lines are only comments.
pub fn best_anchor(lines: &[String], tokens: &[String], comment: &[bool]) -> (r: (usize, usize))
    ensures
        (r.0 as int, r.1 as nat) == best_anchor_spec(texts(lines@), texts(tokens@), comment@),
        r.0 < lines@.len() || r.0 == 0,
{
    let ghost ls = texts(lines@);
    let count: usize = if tokens.len() > MAX_TOKENS {
        MAX_TOKENS
    } else {
        tokens.len()
    };
    let ghost counted = texts(tokens@).take(count as int);
    let mut held: Vec<Vec<bool>> = Vec::new();
    let mut code: Vec<bool> = Vec::new();
    let mut i: usize = 0;
    while i < lines.len()
        invariant
            i <= lines@.len(),
            ls == texts(lines@),
            count <= tokens@.len(),
            counted == texts(tokens@).take(count as int),
            held@.len() == i,
            code@.len() == i,
            forall|j: int|
                0 <= j < i ==> (#[trigger] held@[j])@ == counted.map_values(
                    |t: Seq<char>| contains_text(lower_text(ls[j]), t),
                ),
            forall|j: int|
                0 <= j < i ==> #[trigger] code@[j] == !(j < comment@.len() && comment@[j]),
        decreases lines@.len() - i,
    {
        proof {
            assert(ls[i as int] == lines@[i as int]@);
        }
        held.push(hold_row(lines[i].as_str(), tokens, count));
        code.push(!(i < comment.len() && comment[i]));
        i = i + 1;
    }
    proof {
        assert(counted =~= counted_tokens(texts(tokens@)));
        assert(held@.map_values(|row: Vec<bool>| row@) =~= held_rows(ls, counted));
        assert(code@ =~= code_lines(ls.len(), comment@));
    }
    best_window(&held, &code, count)
}

/// No window covers more than the whole query.
pub proof fn law_coverage_is_bounded(
    held: Seq<Seq<bool>>,
    code: Seq<bool>,
    tokens: nat,
    n: nat,
)
    ensures
        best_window_spec(held, code, tokens, n).1 <= 4 * tokens,
    decreases n,
{
    if n > 0 {
        law_coverage_is_bounded(held, code, tokens, (n - 1) as nat);
        lemma_coverage_bounded(
            held,
            code,
            n - 1,
            window_end(n - 1, held.len() as int),
            tokens,
        );
    }
}

// ---- hits ----

/// A file of the index: its absolute path, its content, and which of its lines are only
/// comments.
#[derive(Debug)]
pub struct CachedFile {
    pub path: String,
    pub content: String,
    pub comment_lines: Vec<bool>,
}

pub struct CachedText {
    pub path: Seq<char>,
    pub content: Seq<char>,
    pub comment_lines: Seq<bool>,
}

impl View for CachedFile {
    type V = CachedText;

    open spec fn view(&self) -> CachedText {
        CachedText {
            path: self.path@,
            content: self.content@,
            comment_lines: self.comment_lines@,
        }
    }
}

pub open spec fn cached_texts(v: Seq<CachedFile>) -> Seq<CachedText> {
    v.map_values(|f: CachedFile| f@)
}

/// The repo-relative path of a file that a search looks at: one of the repository, no test
/// where tests are left out, and matching the file pattern.
pub open spec fn searched_as(
    path: Seq<char>,
    repo: Seq<char>,
    tests: Seq<Seq<char>>,
    pattern: Option<Seq<char>>,
) -> Option<Seq<char>> {
    match strip_base(path, repo) {
        Some(rel) => if !tests.contains(rel) && file_hit(rel, pattern) {
            Some(rel)
        } else {
            None
        },
        None => None,
    }
}

pub fn file_in_scope(path: &str, repo: &str, tests: &[String], pattern: &Option<String>) -> (r:
    Option<String>)
    ensures
        crate::text::opt_text(r) == searched_as(
            path@,
            repo@,
            texts(tests@),
            crate::text::opt_text(*pattern),
        ),
{
    match strip(path, repo) {
        Some(rel) => {
            if !has_text(tests, rel.as_str()) && file_matches(rel.as_str(), pattern) {
                Some(rel)
            } else {
                None
            }
        },
        None => None,
    }
}

/// Every token occurs in the text.
pub open spec fn holds_all(text: Seq<char>, tokens: Seq<Seq<char>>) -> bool {
    forall|i: int| 0 <= i < tokens.len() ==> contains_text(text, #[trigger] tokens[i])
}

fn has_all(text: &str, tokens: &[String]) -> (r: bool)
    ensures
        r == holds_all(text@, texts(tokens@)),
{
    let ghost all = texts(tokens@);
    let mut i: usize = 0;
    while i < tokens.len()
        invariant
            i <= tokens@.len(),
            all == texts(tokens@),
            forall|j: int| 0 <= j < i ==> contains_text(text@, #[trigger] all[j]),
        decreases tokens@.len() - i,
    {
        proof {
            assert(all[i as int] == tokens@[i as int]@);
        }
        if !contains(text, tokens[i].as_str()) {
            return false;
        }
        i = i + 1;
    }
    true
}

/// A line in small letters matches: it holds the query, or, where the query has several
/// words, every one of them.
pub open spec fn is_line_hit(line: Seq<char>, query: Seq<char>, tokens: Seq<Seq<char>>) -> bool {
    contains_text(line, query) || (tokens.len() > 1 && holds_all(line, tokens))
}

/// Whether a line matches a query. All of the texts are in small letters.
pub fn line_hit(line: &str, query: &str, tokens: &[String]) -> (r: bool)
    ensures
        r == is_line_hit(line@, query@, texts(tokens@)),
{
    proof {
        assert(texts(tokens@).len() == tokens@.len());
    }
    contains(line, query) || (tokens.len() > 1 && has_all(line, tokens))
}

/// A hit: an excerpt of a file with what its relevance is made of.
#[derive(Debug)]
pub struct Hit {
    pub repo: String,
    pub file_path: String,
    pub start_line: usize,
    pub end_line: usize,
    pub content: String,
    pub language: String,
    pub relevance: Relevance,
    /// How well a multi-line hit covers the query, in quarters.
    pub coverage: usize,
}

pub struct HitText {
    pub repo: Seq<char>,
    pub file_path: Seq<char>,
    pub start_line: usize,
    pub end_line: usize,
    pub content: Seq<char>,
    pub language: Seq<char>,
    pub relevance: Relevance,
    pub coverage: usize,
}

impl View for Hit {
    type V = HitText;

    open spec fn view(&self) -> HitText {
        HitText {
            repo: self.repo@,
            file_path: self.file_path@,
            start_line: self.start_line,
            end_line: self.end_line,
            content: self.content@,
            language: self.language@,
            relevance: self.relevance,
            coverage: self.coverage,
        }
    }
}

pub open spec fn hit_texts(v: Seq<Hit>) -> Seq<HitText> {
    v.map_values(|h: Hit| h@)
}

/// One line of an excerpt.
pub open spec fn excerpt_line(lines: Seq<Seq<char>>, i: int) -> Seq<char> {
    pad_four(decimal((i + 1) as nat)) + " | "@ + lines[i]
}

pub open spec fn excerpt_start(center: int) -> int {
    if center >= 3 {
        center - 3
    } else {
        0
    }
}

pub open spec fn excerpt_end(center: int, len: int) -> int {
    if center + 4 < len {
        center + 4
    } else {
        len
    }
}

/// An excerpt of a file around a line, counted from 0.
pub open spec fn excerpt_spec(
    repo: Seq<char>,
    rel: Seq<char>,
    lines: Seq<Seq<char>>,
    center: int,
    relevance: Relevance,
    coverage: usize,
) -> HitText {
    let start = excerpt_start(center);
    let end = excerpt_end(center, lines.len() as int);
    HitText {
        repo,
        file_path: rel,
        start_line: (start + 1) as usize,
        end_line: end as usize,
        content: join_spec(
            Seq::new((end - start) as nat, |k: int| excerpt_line(lines, start + k)),
            "\n"@,
        ),
        language: get_language_id_spec(rel),
        relevance,
        coverage,
    }
}

fn make_excerpt(
    repo: &str,
    rel: &str,
    all: &[String],
    center: usize,
    relevance: Relevance,
    coverage: usize,
) -> (r: Hit)
    requires
        center < all@.len() || center == 0,
    ensures
        r@ == excerpt_spec(repo@, rel@, texts(all@), center as int, relevance, coverage),
{
    let ghost ls = texts(all@);
    let len: usize = all.len();
    let start: usize = if center >= 3 {
        center - 3
    } else {
        0
    };
    let end: usize = if len >= 4 && center < len - 4 {
        center + 4
    } else {
        len
    };
    let mut rows: Vec<String> = Vec::new();
    let mut i: usize = start;
    while i < end
        invariant
            start <= i <= end <= all@.len(),
            ls == texts(all@),
            rows@.len() == i - start,
            forall|j: int|
                0 <= j < rows@.len() ==> #[trigger] rows@[j]@ == excerpt_line(ls, start + j),
        decreases end - i,
    {
        let mut row = padded_number(i + 1);
        row.append(" | ");
        row.append(all[i].as_str());
        rows.push(row);
        i = i + 1;
    }
    proof {
        assert(texts(rows@) =~= Seq::new(
            (end - start) as nat,
            |k: int| excerpt_line(ls, start + k),
        ));
    }
    Hit {
        repo: repo.to_owned(),
        file_path: rel.to_owned(),
        start_line: start + 1,
        end_line: end,
        content: join(rows.as_slice(), "\n"),
        language: get_language_id(rel).to_owned(),
        relevance,
        coverage,
    }
}

/// The hits among the first `n` lines of a file.
pub open spec fn line_hits(
    repo: Seq<char>,
    rel: Seq<char>,
    lines: Seq<Seq<char>>,
    query: Seq<char>,
    tokens: Seq<Seq<char>>,
    n: int,
) -> Seq<HitText>
    decreases n,
{
    if n <= 0 {
        Seq::empty()
    } else {
        let front = line_hits(repo, rel, lines, query, tokens, n - 1);
        if is_line_hit(lower_text(lines[n - 1]), query, tokens) {
            front.push(
                excerpt_spec(
                    repo,
                    rel,
                    lines,
                    n - 1,
                    relevance_spec(lines[n - 1], query),
                    0,
                ),
            )
        } else {
            front
        }
    }
}

/// What a search asks for, in small letters.
pub struct SearchText {
    pub query: Seq<char>,
    pub tokens: Seq<Seq<char>>,
    pub tests: Seq<Seq<char>>,
    pub pattern: Option<Seq<char>>,
}

/// The hits of a file: its matching lines, or, where the search looks for files that hold
/// all words anywhere, the place that covers them best.
pub open spec fn file_hits(
    repo: Seq<char>,
    f: CachedText,
    s: SearchText,
    fallback: bool,
) -> Seq<HitText> {
    match searched_as(f.path, repo, s.tests, s.pattern) {
        None => Seq::empty(),
        Some(rel) => {
            let ls = lines_of(f.content);
            if !fallback {
                line_hits(repo, rel, ls, s.query, s.tokens, ls.len() as int)
            } else if holds_all(lower_text(f.content), s.tokens) {
                let best = best_anchor_spec(ls, s.tokens, f.comment_lines);
                let line = if best.0 < ls.len() {
                    ls[best.0]
                } else {
                    Seq::empty()
                };
                seq![
                    excerpt_spec(
                        repo,
                        rel,
                        ls,
                        best.0,
                        relevance_spec(line, s.query),
                        best.1 as usize,
                    ),
                ]
            } else {
                Seq::empty()
            }
        },
    }
}

pub open spec fn repo_hits(
    repo: Seq<char>,
    files: Seq<CachedText>,
    s: SearchText,
    fallback: bool,
) -> Seq<HitText>
    decreases files.len(),
{
    if files.len() == 0 {
        Seq::empty()
    } else {
        repo_hits(repo, files.drop_last(), s, fallback) + file_hits(
            repo,
            files.last(),
            s,
            fallback,
        )
    }
}

pub open spec fn all_hits(
    repos: Seq<Seq<char>>,
    files: Seq<CachedText>,
    s: SearchText,
    fallback: bool,
) -> Seq<HitText>
    decreases repos.len(),
{
    if repos.len() == 0 {
        Seq::empty()
    } else {
        all_hits(repos.drop_last(), files, s, fallback) + repo_hits(
            repos.last(),
            files,
            s,
            fallback,
        )
    }
}

/// The hits of a search and whether they are the fallback's.
#[derive(Debug)]
pub struct Hits {
    pub hits: Vec<Hit>,
    pub fallback: bool,
}

fn push_line_hits(
    out: &mut Vec<Hit>,
    repo: &str,
    rel: &str,
    all: &[String],
    query: &str,
    tokens: &[String],
)
    ensures
        hit_texts(final(out)@) == hit_texts(old(out)@) + line_hits(
            repo@,
            rel@,
            texts(all@),
            query@,
            texts(tokens@),
            all@.len() as int,
        ),
{
    let ghost before = hit_texts(out@);
    let ghost ls = texts(all@);
    let ghost ts = texts(tokens@);
    let mut i: usize = 0;
    proof {
        assert(before + line_hits(repo@, rel@, ls, query@, ts, 0) =~= before);
    }
    while i < all.len()
        invariant
            i <= all@.len(),
            ls == texts(all@),
            ts == texts(tokens@),
            hit_texts(out@) == before + line_hits(repo@, rel@, ls, query@, ts, i as int),
        decreases all@.len() - i,
    {
        proof {
            assert(ls[i as int] == all@[i as int]@);
        }
        let small = to_lowercase(all[i].as_str());
        if line_hit(small.as_str(), query, tokens) {
            let relevance = line_relevance(all[i].as_str(), query);
            let hit = make_excerpt(repo, rel, all, i, relevance, 0);
            proof {
                assert(hit_texts(out@.push(hit)) =~= hit_texts(out@).push(hit@));
                let so_far = line_hits(repo@, rel@, ls, query@, ts, i as int);
                assert((before + so_far).push(hit@) =~= before + so_far.push(hit@));
            }
            out.push(hit);
        }
        i = i + 1;
    }
}

fn push_file_hits(
    out: &mut Vec<Hit>,
    repo: &str,
    file: &CachedFile,
    query: &str,
    tokens: &[String],
    tests: &[String],
    pattern: &Option<String>,
    fallback: bool,
)
    ensures
        hit_texts(final(out)@) == hit_texts(old(out)@) + file_hits(
            repo@,
            file@,
            (SearchText {
                query: query@,
                tokens: texts(tokens@),
                tests: texts(tests@),
                pattern: crate::text::opt_text(*pattern),
            }),
            fallback,
        ),
{
    let ghost before = hit_texts(out@);
    proof {
        assert(before + Seq::<HitText>::empty() =~= before);
    }
    match file_in_scope(file.path.as_str(), repo, tests, pattern) {
        None => {},
        Some(rel) => {
            let all = lines(file.content.as_str());
            let ghost ls = texts(all@);
            if !fallback {
                push_line_hits(out, repo, rel.as_str(), all.as_slice(), query, tokens);
            } else {
                let small = to_lowercase(file.content.as_str());
                if has_all(small.as_str(), tokens) {
                    let (anchor, covered) = best_anchor(
                        all.as_slice(),
                        tokens,
                        file.comment_lines.as_slice(),
                    );
                    let relevance = if anchor < all.len() {
                        proof {
                            assert(ls[anchor as int] == all@[anchor as int]@);
                        }
                        line_relevance(all[anchor].as_str(), query)
                    } else {
                        let empty = String::new();
                        proof {
                            assert(empty@ =~= Seq::<char>::empty());
                        }
                        line_relevance(empty.as_str(), query)
                    };
                    let hit = make_excerpt(
                        repo,
                        rel.as_str(),
                        all.as_slice(),
                        anchor,
                        relevance,
                        covered,
                    );
                    proof {
                        assert(hit_texts(out@.push(hit)) =~= hit_texts(out@).push(hit@));
                        assert(before.push(hit@) =~= before + seq![hit@]);
                    }
                    out.push(hit);
                }
            }
        },
    }
}

fn collect_hits(
    repos: &[String],
    files: &[CachedFile],
    query: &str,
    tokens: &[String],
    tests: &[String],
    pattern: &Option<String>,
    fallback: bool,
) -> (r: Vec<Hit>)
    ensures
        hit_texts(r@) == all_hits(
            texts(repos@),
            cached_texts(files@),
            (SearchText {
                query: query@,
                tokens: texts(tokens@),
                tests: texts(tests@),
                pattern: crate::text::opt_text(*pattern),
            }),
            fallback,
        ),
{
    let ghost s = SearchText {
        query: query@,
        tokens: texts(tokens@),
        tests: texts(tests@),
        pattern: crate::text::opt_text(*pattern),
    };
    let ghost rs = texts(repos@);
    let ghost fs = cached_texts(files@);
    let mut out: Vec<Hit> = Vec::new();
    let mut i: usize = 0;
    proof {
        assert(hit_texts(out@) =~= all_hits(rs.take(0), fs, s, fallback));
    }
    while i < repos.len()
        invariant
            i <= repos@.len(),
            rs == texts(repos@),
            fs == cached_texts(files@),
            s == (SearchText {
                query: query@,
                tokens: texts(tokens@),
                tests: texts(tests@),
                pattern: crate::text::opt_text(*pattern),
            }),
            hit_texts(out@) == all_hits(rs.take(i as int), fs, s, fallback),
        decreases repos@.len() - i,
    {
        let ghost before = hit_texts(out@);
        let ghost repo = repos@[i as int]@;
        proof {
            assert(rs.take(i + 1).drop_last() =~= rs.take(i as int));
            assert(rs.take(i + 1).last() == repo);
            assert(before + repo_hits(repo, fs.take(0), s, fallback) =~= before);
        }
        let mut k: usize = 0;
        while k < files.len()
            invariant
                i < repos@.len(),
                k <= files@.len(),
                fs == cached_texts(files@),
                repo == repos@[i as int]@,
                s == (SearchText {
                    query: query@,
                    tokens: texts(tokens@),
                    tests: texts(tests@),
                    pattern: crate::text::opt_text(*pattern),
                }),
                hit_texts(out@) == before + repo_hits(repo, fs.take(k as int), s, fallback),
            decreases files@.len() - k,
        {
            proof {
                assert(fs.take(k + 1).drop_last() =~= fs.take(k as int));
                assert(fs.take(k + 1).last() == files@[k as int]@);
                let so_far = repo_hits(repo, fs.take(k as int), s, fallback);
                let here = file_hits(repo, files@[k as int]@, s, fallback);
                assert((before + so_far) + here =~= before + (so_far + here));
            }
            push_file_hits(
                &mut out,
                repos[i].as_str(),
                &files[k],
                query,
                tokens,
                tests,
                pattern,
                fallback,
            );
            k = k + 1;
        }
        proof {
            assert(fs.take(fs.len() as int) =~= fs);
        }
        i = i + 1;
    }
    proof {
        assert(rs.take(rs.len() as int) =~= rs);
    }
    out
}

pub open spec fn search_of(
    query: Seq<char>,
    tests: Seq<Seq<char>>,
    pattern: Option<Seq<char>>,
) -> SearchText {
    SearchText { query: lower_text(query), tokens: words_of(lower_text(query)), tests, pattern }
}

/// The hits of a search, and whether they are the fallback's: where no line matches and the
/// query has several words, the files are looked at as a whole.
pub open spec fn hits_of(repos: Seq<Seq<char>>, files: Seq<CachedText>, s: SearchText) -> (
    Seq<HitText>,
    bool,
) {
    let by_line = all_hits(repos, files, s, false);
    if by_line.len() == 0 && s.tokens.len() > 1 {
        (all_hits(repos, files, s, true), true)
    } else {
        (by_line, false)
    }
}

/// Finds the lines that match a query. Where no single line matches a query of several
/// words, the files that hold all of them are found instead.
pub fn find_hits(
    repos: &[String],
    files: &[CachedFile],
    query: &str,
    tests: &[String],
    pattern: &Option<String>,
) -> (r: Hits)
    ensures
        (hit_texts(r.hits@), r.fallback) == hits_of(
            texts(repos@),
            cached_texts(files@),
            search_of(query@, texts(tests@), crate::text::opt_text(*pattern)),
        ),
{
    let small = to_lowercase(query);
    let tokens = words(small.as_str());
    let by_line = collect_hits(
        repos,
        files,
        small.as_str(),
        tokens.as_slice(),
        tests,
        pattern,
        false,
    );
    proof {
        assert(hit_texts(by_line@).len() == by_line@.len());
        assert(texts(tokens@).len() == tokens@.len());
    }
    if by_line.len() == 0 && tokens.len() > 1 {
        let hits = collect_hits(
            repos,
            files,
            small.as_str(),
            tokens.as_slice(),
            tests,
            pattern,
            true,
        );
        Hits { hits, fallback: true }
    } else {
        Hits { hits: by_line, fallback: false }
    }
}

// ---- regions ----

/// A hit with its score: a number that orders as the score does, and the score as shown.
#[derive(Debug)]
pub struct ScoredHit {
    pub repo: String,
    pub file_path: String,
    pub start_line: usize,
    pub end_line: usize,
    pub content: String,
    pub language: String,
    pub score: u32,
    pub score_text: String,
}

pub struct ScoredText {
    pub repo: Seq<char>,
    pub file_path: Seq<char>,
    pub start_line: usize,
    pub end_line: usize,
    pub content: Seq<char>,
    pub language: Seq<char>,
    pub score: u32,
    pub score_text: Seq<char>,
}

impl View for ScoredHit {
    type V = ScoredText;

    open spec fn view(&self) -> ScoredText {
        ScoredText {
            repo: self.repo@,
            file_path: self.file_path@,
            start_line: self.start_line,
            end_line: self.end_line,
            content: self.content@,
            language: self.language@,
            score: self.score,
            score_text: self.score_text@,
        }
    }
}

pub open spec fn scored_texts(v: Seq<ScoredHit>) -> Seq<ScoredText> {
    v.map_values(|h: ScoredHit| h@)
}

/// By file, and in a file by line.
pub open spec fn stands_before(a: ScoredText, b: ScoredText) -> bool {
    text_lt(a.file_path, b.file_path) || (a.file_path == b.file_path && a.start_line
        < b.start_line)
}

pub open spec fn place_order() -> spec_fn(ScoredText, ScoredText) -> bool {
    |a: ScoredText, b: ScoredText| stands_before(a, b)
}

impl Ranked for ScoredHit {
    open spec fn precedes(a: ScoredHit, b: ScoredHit) -> bool {
        stands_before(a@, b@)
    }

    fn is_before(&self, other: &ScoredHit) -> (r: bool) {
        text_less(self.file_path.as_str(), other.file_path.as_str()) || (same_text(
            self.file_path.as_str(),
            other.file_path.as_str(),
        ) && self.start_line < other.start_line)
    }
}

/// A hit that overlaps the region before it in the same file.
pub open spec fn same_region(prev: ScoredText, h: ScoredText) -> bool {
    prev.repo == h.repo && prev.file_path == h.file_path && h.start_line <= prev.end_line
}

/// One excerpt per region of a file, the best one.
pub open spec fn regions(sorted: Seq<ScoredText>) -> Seq<ScoredText>
    decreases sorted.len(),
{
    if sorted.len() == 0 {
        Seq::empty()
    } else {
        let front = regions(sorted.drop_last());
        let h = sorted.last();
        if front.len() > 0 && same_region(front.last(), h) {
            if h.score > front.last().score {
                front.drop_last().push(h)
            } else {
                front
            }
        } else {
            front.push(h)
        }
    }
}

fn is_same_region(prev: &ScoredHit, h: &ScoredHit) -> (r: bool)
    ensures
        r == same_region(prev@, h@),
{
    same_text(prev.repo.as_str(), h.repo.as_str()) && same_text(
        prev.file_path.as_str(),
        h.file_path.as_str(),
    ) && h.start_line <= prev.end_line
}

fn fold_regions(sorted: Vec<ScoredHit>) -> (r: Vec<ScoredHit>)
    ensures
        scored_texts(r@) == regions(scored_texts(sorted@)),
{
    let ghost all = scored_texts(sorted@);
    let ghost items = sorted@;
    let mut rest = sorted;
    let mut out: Vec<ScoredHit> = Vec::new();
    let mut done: Ghost<int> = Ghost(0);
    proof {
        assert(items.skip(0) =~= items);
        assert(scored_texts(out@) =~= regions(all.take(0)));
    }
    while rest.len() > 0
        invariant
            all == scored_texts(items),
            0 <= done@ <= items.len(),
            rest@ == items.skip(done@),
            scored_texts(out@) == regions(all.take(done@)),
        decreases rest@.len(),
    {
        let h = rest.remove(0);
        let ghost before = scored_texts(out@);
        proof {
            assert(h == items[done@]);
            assert(rest@ =~= items.skip(done@ + 1));
            assert(all.take(done@ + 1).drop_last() =~= all.take(done@));
            assert(all.take(done@ + 1).last() == h@);
            assert(before.len() == out@.len());
            if out@.len() > 0 {
                assert(before.last() == out@.last()@);
            }
        }
        let len: usize = out.len();
        if len > 0 && is_same_region(&out[len - 1], &h) {
            if h.score > out[len - 1].score {
                proof {
                    assert(scored_texts(out@.update(len - 1, h)) =~= before.drop_last().push(h@));
                }
                out.set(len - 1, h);
            }
        } else {
            proof {
                assert(scored_texts(out@.push(h)) =~= before.push(h@));
            }
            out.push(h);
        }
        done = Ghost(done@ + 1);
    }
    proof {
        assert(all.take(all.len() as int) =~= all);
    }
    out
}

/// A hit to be ranked by its score.
#[derive(Debug)]
pub struct ByScore {
    pub hit: ScoredHit,
}

impl Ranked for ByScore {
    open spec fn precedes(a: ByScore, b: ByScore) -> bool {
        a.hit.score > b.hit.score
    }

    fn is_before(&self, other: &ByScore) -> (r: bool) {
        self.hit.score > other.hit.score
    }
}

pub open spec fn score_order() -> spec_fn(ScoredText, ScoredText) -> bool {
    |a: ScoredText, b: ScoredText| a.score > b.score
}

/// The results of a search: one excerpt per region, the best scores first, at most `most`.
pub open spec fn results_spec(hits: Seq<ScoredText>, most: usize) -> Seq<ScoredText> {
    let ranked = sort_stable(regions(sort_stable(hits, place_order())), score_order());
    if ranked.len() > most {
        ranked.take(most as int)
    } else {
        ranked
    }
}

fn unwrap_hits(list: Vec<ByScore>) -> (r: Vec<ScoredHit>)
    ensures
        scored_texts(r@) == list@.map_values(|b: ByScore| b.hit@),
{
    let ghost items = list@;
    let mut rest = list;
    let mut out: Vec<ScoredHit> = Vec::new();
    proof {
        assert(items.skip(0) =~= items);
    }
    while rest.len() > 0
        invariant
            out@.len() + rest@.len() == items.len(),
            rest@ == items.skip(out@.len() as int),
            forall|j: int| 0 <= j < out@.len() ==> (#[trigger] out@[j])@ == items[j].hit@,
        decreases rest@.len(),
    {
        let b = rest.remove(0);
        proof {
            assert(rest@ =~= items.skip(out@.len() as int + 1));
        }
        out.push(b.hit);
    }
    proof {
        assert(scored_texts(out@) =~= items.map_values(|b: ByScore| b.hit@));
    }
    out
}

fn wrap_hits(list: Vec<ScoredHit>) -> (r: Vec<ByScore>)
    ensures
        r@.map_values(|b: ByScore| b.hit@) == scored_texts(list@),
{
    let ghost items = list@;
    let mut rest = list;
    let mut out: Vec<ByScore> = Vec::new();
    proof {
        assert(items.skip(0) =~= items);
    }
    while rest.len() > 0
        invariant
            out@.len() + rest@.len() == items.len(),
            rest@ == items.skip(out@.len() as int),
            forall|j: int| 0 <= j < out@.len() ==> (#[trigger] out@[j]).hit@ == items[j]@,
        decreases rest@.len(),
    {
        let hit = rest.remove(0);
        proof {
            assert(rest@ =~= items.skip(out@.len() as int + 1));
        }
        out.push(ByScore { hit });
    }
    proof {
        assert(out@.map_values(|b: ByScore| b.hit@) =~= scored_texts(items));
    }
    out
}

/// Folds hits into regions and ranks them. Hits on neighbouring lines show the same part of
/// a file; the best of them stands for it.
pub fn rank_hits(hits: Vec<ScoredHit>, most: usize) -> (r: Vec<ScoredHit>)
    ensures
        scored_texts(r@) == results_spec(scored_texts(hits@), most),
{
    let ghost all = scored_texts(hits@);
    let ghost view = |h: ScoredHit| h@;
    proof {
        lemma_sort_maps(hits@, view, rank_order::<ScoredHit>(), place_order());
        assert(hits@.map_values(view) =~= all);
    }
    let sorted = sort_ranked(hits);
    proof {
        assert(scored_texts(sorted@) =~= sort_stable(all, place_order()));
    }
    let folded = fold_regions(sorted);
    let ghost parts = scored_texts(folded@);
    let wrapped = wrap_hits(folded);
    let ghost inner = |b: ByScore| b.hit@;
    proof {
        lemma_sort_maps(wrapped@, inner, rank_order::<ByScore>(), score_order());
        assert(wrapped@.map_values(inner) =~= parts);
    }
    let by_score = sort_ranked(wrapped);
    let mut out = unwrap_hits(by_score);
    let ghost ranked = scored_texts(out@);
    proof {
        assert(ranked =~= sort_stable(parts, score_order()));
        assert(ranked.len() == out@.len());
    }
    if out.len() > most {
        out.truncate(most);
        proof {
            assert(scored_texts(out@) =~= ranked.take(most as int));
        }
    }
    out
}

/// Two excerpts that share no line.
pub open spec fn apart(a: ScoredText, b: ScoredText) -> bool {
    a.end_line < b.start_line || b.end_line < a.start_line
}

/// No two results of a search show the same line of a file. Where several repositories have a
/// file of the same path, their hits in it may be interleaved, so each path stands for one
/// repository here.
pub proof fn law_regions_do_not_overlap(hits: Seq<ScoredText>, most: usize)
    requires
        forall|i: int| 0 <= i < hits.len() ==> (#[trigger] hits[i]).start_line <= hits[i].end_line,
        forall|i: int, j: int|
            0 <= i < hits.len() && 0 <= j < hits.len() && (#[trigger] hits[i]).file_path == (
            #[trigger] hits[j]).file_path ==> hits[i].repo == hits[j].repo,
    ensures
        forall|i: int, j: int|
            0 <= i < j < results_spec(hits, most).len() && (#[trigger] results_spec(
                hits,
                most,
            )[i]).file_path == (#[trigger] results_spec(hits, most)[j]).file_path ==> apart(
                results_spec(hits, most)[i],
                results_spec(hits, most)[j],
            ),
{
    let sorted = sort_stable(hits, place_order());
    let parts = regions(sorted);
    let ranked = sort_stable(parts, score_order());
    let results = results_spec(hits, most);
    lemma_place_order_is_strict_weak();
    crate::order::law_sorting_sorts(hits, place_order());
    crate::order::law_sorting_keeps_items(hits, place_order());
    crate::order::law_sorting_keeps_items(parts, score_order());
    lemma_same_members(sorted, hits);
    lemma_same_members(ranked, parts);
    assert forall|i: int| 0 <= i < sorted.len() implies (#[trigger] sorted[i]).start_line
        <= sorted[i].end_line by {
        assert(hits.contains(sorted[i]));
    }
    assert forall|i: int, j: int| 0 <= i < sorted.len() && 0 <= j < sorted.len() && (
    #[trigger] sorted[i]).file_path == (#[trigger] sorted[j]).file_path implies sorted[i].repo
        == sorted[j].repo by {
        assert(hits.contains(sorted[i]) && hits.contains(sorted[j]));
        let a = choose|a: int| 0 <= a < hits.len() && hits[a] == sorted[i];
        let b = choose|b: int| 0 <= b < hits.len() && hits[b] == sorted[j];
        assert(hits[a].repo == hits[b].repo);
    }
    lemma_regions(sorted);
    lemma_regions_apart(sorted);
    assert(parts.no_duplicates()) by {
        assert forall|i: int, j: int| 0 <= i < parts.len() && 0 <= j < parts.len() && i
            != j implies parts[i] != parts[j] by {
            assert(sorted.contains(parts[i]) && sorted.contains(parts[j]));
            if parts[i] == parts[j] {
                let k = choose|k: int| 0 <= k < sorted.len() && sorted[k] == parts[i];
                assert(sorted[k].start_line <= sorted[k].end_line);
                if i < j {
                    assert(parts[i].end_line < parts[j].start_line);
                } else {
                    assert(parts[j].end_line < parts[i].start_line);
                }
            }
        }
    }
    assert(ranked.no_duplicates()) by {
        parts.lemma_multiset_has_no_duplicates();
        ranked.lemma_multiset_has_no_duplicates_conv();
    }
    assert forall|i: int, j: int| 0 <= i < j < results.len() && (#[trigger] results[i]).file_path
        == (#[trigger] results[j]).file_path implies apart(results[i], results[j]) by {
        assert(results[i] == ranked[i] && results[j] == ranked[j]);
        assert(ranked[i] != ranked[j]);
        assert(parts.contains(ranked[i]) && parts.contains(ranked[j]));
        let a = choose|a: int| 0 <= a < parts.len() && parts[a] == ranked[i];
        let b = choose|b: int| 0 <= b < parts.len() && parts[b] == ranked[j];
        if a < b {
            assert(parts[a].end_line < parts[b].start_line);
        } else {
            assert(parts[b].end_line < parts[a].start_line);
        }
    }
}

proof fn lemma_same_members(a: Seq<ScoredText>, b: Seq<ScoredText>)
    requires
        a.to_multiset() == b.to_multiset(),
    ensures
        forall|i: int| 0 <= i < a.len() ==> b.contains(#[trigger] a[i]),
{
    broadcast use vstd::seq_lib::group_to_multiset_ensures;

    assert forall|i: int| 0 <= i < a.len() implies b.contains(#[trigger] a[i]) by {
        assert(a.contains(a[i]));
        assert(a.to_multiset().count(a[i]) > 0);
        assert(b.to_multiset().count(a[i]) > 0);
    }
}

proof fn lemma_place_order_is_strict_weak()
    ensures
        is_strict_weak(place_order()),
{
    let lt = place_order();
    assert forall|a: ScoredText| !#[trigger] lt(a, a) by {
        lemma_text_lt_irreflexive(a.file_path);
    }
    assert forall|a: ScoredText, b: ScoredText, c: ScoredText| #[trigger] lt(a, b) && #[trigger] lt(
        b,
        c,
    ) implies lt(a, c) by {
        if text_lt(a.file_path, b.file_path) && text_lt(b.file_path, c.file_path) {
            lemma_text_lt_transitive(a.file_path, b.file_path, c.file_path);
        }
    }
    assert forall|a: ScoredText, b: ScoredText, c: ScoredText| !#[trigger] lt(b, a) && !#[trigger] lt(
        c,
        b,
    ) implies !lt(c, a) by {
        lemma_not_before(a, b);
        lemma_not_before(b, c);
        if lt(c, a) {
            lemma_text_lt_irreflexive(a.file_path);
            lemma_text_lt_irreflexive(b.file_path);
            lemma_text_lt_irreflexive(c.file_path);
            if text_lt(a.file_path, b.file_path) && text_lt(b.file_path, c.file_path) {
                lemma_text_lt_transitive(a.file_path, b.file_path, c.file_path);
            }
            if text_lt(a.file_path, c.file_path) && text_lt(c.file_path, a.file_path) {
                lemma_text_lt_transitive(a.file_path, c.file_path, a.file_path);
            }
            if text_lt(a.file_path, b.file_path) && text_lt(b.file_path, a.file_path) {
                lemma_text_lt_transitive(a.file_path, b.file_path, a.file_path);
            }
            if text_lt(c.file_path, b.file_path) && text_lt(b.file_path, c.file_path) {
                lemma_text_lt_transitive(c.file_path, b.file_path, c.file_path);
            }
        }
    }
}

/// What does not stand before another stands at the same place or behind it.
proof fn lemma_not_before(a: ScoredText, b: ScoredText)
    requires
        !stands_before(b, a),
    ensures
        text_lt(a.file_path, b.file_path) || (a.file_path == b.file_path && a.start_line
            <= b.start_line),
{
    lemma_text_lt_total(a.file_path, b.file_path);
}

proof fn lemma_regions(sorted: Seq<ScoredText>)
    requires
        is_sorted_by(sorted, place_order()),
    ensures
        forall|i: int|
            0 <= i && i + 1 < regions(sorted).len() ==> !same_region(
                #[trigger] regions(sorted)[i],
                regions(sorted)[i + 1],
            ),
        forall|i: int| 0 <= i < regions(sorted).len() ==> sorted.contains(#[trigger] regions(sorted)[i]),
        is_sorted_by(regions(sorted), place_order()),
    decreases sorted.len(),
{
    if sorted.len() > 0 {
        let front = sorted.drop_last();
        assert(is_sorted_by(front, place_order())) by {
            assert forall|i: int, j: int| 0 <= i < j < front.len() implies !place_order()(
                front[j],
                front[i],
            ) by {
                assert(!place_order()(sorted[j], sorted[i]));
            }
        }
        lemma_regions(front);
        let before = regions(front);
        let after = regions(sorted);
        let h = sorted.last();
        assert(sorted[sorted.len() - 1] == h);
        assert forall|i: int| 0 <= i < before.len() implies sorted.contains(#[trigger] before[i])
            && !place_order()(h, before[i]) by {
            assert(front.contains(before[i]));
            let k = choose|k: int| 0 <= k < front.len() && front[k] == before[i];
            assert(sorted[k] == before[i]);
            assert(!place_order()(sorted[sorted.len() - 1], sorted[k]));
        }
        assert forall|i: int| 0 <= i < after.len() implies sorted.contains(#[trigger] after[i]) by {
            if i < before.len() && after[i] == before[i] {
                assert(sorted.contains(before[i]));
            } else {
                assert(after[i] == h);
            }
        }
        assert forall|i: int, j: int| 0 <= i < j < after.len() implies !place_order()(
            after[j],
            after[i],
        ) by {
            assert(after[i] == before[i]);
            if j < before.len() && after[j] == before[j] {
                assert(!place_order()(before[j], before[i]));
            } else {
                assert(after[j] == h);
            }
        }
        assert forall|i: int| 0 <= i && i + 1 < after.len() implies !same_region(
            #[trigger] after[i],
            after[i + 1],
        ) by {
            if before.len() > 0 && same_region(before.last(), h) {
                if i + 1 < before.len() - 1 {
                    assert(!same_region(before[i], before[i + 1]));
                } else if i + 1 == before.len() - 1 {
                    assert(!same_region(before[i], before[i + 1]));
                    if h.score > before.last().score {
                        assert(after[i] == before[i]);
                        assert(after[i + 1] == h);
                        assert(!place_order()(h, before[before.len() - 1]));
                        lemma_not_before(before.last(), h);
                        lemma_text_lt_irreflexive(h.file_path);
                    }
                }
            } else if i + 1 < before.len() {
                assert(!same_region(before[i], before[i + 1]));
            }
        }
    }
}

proof fn lemma_regions_apart(sorted: Seq<ScoredText>)
    requires
        is_sorted_by(sorted, place_order()),
        forall|i: int, j: int|
            0 <= i < sorted.len() && 0 <= j < sorted.len() && (#[trigger] sorted[i]).file_path == (
            #[trigger] sorted[j]).file_path ==> sorted[i].repo == sorted[j].repo,
    ensures
        forall|i: int, j: int|
            0 <= i < j < regions(sorted).len() && (#[trigger] regions(sorted)[i]).file_path == (
            #[trigger] regions(sorted)[j]).file_path ==> regions(sorted)[i].end_line
                < regions(sorted)[j].start_line,
{
    let parts = regions(sorted);
    lemma_regions(sorted);
    assert forall|i: int, j: int| 0 <= i < j < parts.len() && (#[trigger] parts[i]).file_path == (
    #[trigger] parts[j]).file_path implies parts[i].end_line < parts[j].start_line by {
        let next = parts[i + 1];
        assert(!place_order()(parts[i + 1], parts[i]));
        lemma_not_before(parts[i], next);
        if i + 1 < j {
            assert(!place_order()(parts[j], parts[i + 1]));
            lemma_not_before(next, parts[j]);
        }
        lemma_text_lt_irreflexive(parts[i].file_path);
        if text_lt(parts[i].file_path, next.file_path) && text_lt(
            next.file_path,
            parts[j].file_path,
        ) {
            lemma_text_lt_transitive(parts[i].file_path, next.file_path, parts[j].file_path);
        }
        assert(next.file_path == parts[i].file_path);
        assert(sorted.contains(parts[i]) && sorted.contains(next));
        let a = choose|a: int| 0 <= a < sorted.len() && sorted[a] == parts[i];
        let b = choose|b: int| 0 <= b < sorted.len() && sorted[b] == next;
        assert(sorted[a].repo == sorted[b].repo);
        assert(!same_region(parts[i], parts[i + 1]));
    }
}

// ---- the answer ----

pub open spec fn result_row(i: int, h: ScoredText, several: bool) -> Seq<char> {
    let home = if several {
        "**Repo**: `"@ + h.repo + "`\n"@
    } else {
        Seq::empty()
    };
    "## "@ + decimal((i + 1) as nat) + ". `"@ + h.file_path + "`\n"@ + home + "Lines "@
        + decimal(h.start_line as nat) + "-"@ + decimal(h.end_line as nat) + " | Score: "@
        + h.score_text + "\n\n```"@ + h.language + "\n"@ + h.content + "\n```\n\n"@
}

/// The answer of a search. A hit names its repository where several were searched.
pub open spec fn search_answer(
    query: Seq<char>,
    results: Seq<ScoredText>,
    fallback: bool,
    several: bool,
) -> Seq<char> {
    let note = if fallback && results.len() > 0 {
        "*No single line contained all terms; showing files that contain every term across multiple lines.*\n\n"@
    } else {
        Seq::empty()
    };
    "# Search Results for: `"@ + query + "`\n\nFound "@ + decimal(results.len() as nat)
        + " results\n\n"@ + note + concat(
        Seq::new(results.len(), |i: int| result_row(i, results[i], several)),
    )
}

/// Renders the results of a search.
pub fn render_results(query: &str, results: &[ScoredHit], fallback: bool, several: bool) -> (r:
    String)
    ensures
        r@ == search_answer(query@, scored_texts(results@), fallback, several),
{
    let ghost all = scored_texts(results@);
    proof {
        assert(all.len() == results@.len());
    }
    let mut note = String::new();
    proof {
        assert(note@ =~= Seq::<char>::empty());
    }
    if fallback && results.len() > 0 {
        note =
        "*No single line contained all terms; showing files that contain every term across multiple lines.*\n\n".to_owned();
    }
    let mut out = "# Search Results for: `".to_owned();
    out.append(query);
    out.append("`\n\nFound ");
    out.append(usize_text(results.len()).as_str());
    out.append(" results\n\n");
    out.append(note.as_str());
    let mut rows: Vec<String> = Vec::new();
    let mut i: usize = 0;
    while i < results.len()
        invariant
            i <= results@.len(),
            all == scored_texts(results@),
            rows@.len() == i,
            forall|j: int| 0 <= j < i ==> #[trigger] rows@[j]@ == result_row(j, all[j], several),
        decreases results@.len() - i,
    {
        let h = &results[i];
        proof {
            assert(all[i as int] == h@);
        }
        let mut home = String::new();
        proof {
            assert(home@ =~= Seq::<char>::empty());
        }
        if several {
            home = "**Repo**: `".to_owned();
            home.append(h.repo.as_str());
            home.append("`\n");
        }
        let mut row = "## ".to_owned();
        row.append(usize_text(i + 1).as_str());
        row.append(". `");
        row.append(h.file_path.as_str());
        row.append("`\n");
        row.append(home.as_str());
        row.append("Lines ");
        row.append(usize_text(h.start_line).as_str());
        row.append("-");
        row.append(usize_text(h.end_line).as_str());
        row.append(" | Score: ");
        row.append(h.score_text.as_str());
        row.append("\n\n```");
        row.append(h.language.as_str());
        row.append("\n");
        row.append(h.content.as_str());
        row.append("\n```\n\n");
        rows.push(row);
        i = i + 1;
    }
    proof {
        assert(texts(rows@) =~= Seq::new(all.len(), |i: int| result_row(i, all[i], several)));
    }
    out.append(concat_texts(rows.as_slice()).as_str());
    out
}

} // verus!
