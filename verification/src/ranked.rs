//! The answers of the ranked searches.

use vstd::prelude::*;

use crate::text::{
    ascii_lower_text, byte_len, concat, concat_texts, contains, contains_text, decimal, has_text,
    join, join_spec, lines, lines_of, lower_text, opt_text, same_text, texts, to_ascii_lower,
    to_lowercase, usize_text, words, words_of,
};

verus! {

// ---- what is asked of the indexes ----

/// An index that ranks documents.
#[derive(Debug, Clone, Copy, PartialEq, Eq, Structural)]
pub enum RankedSearch {
    Bm25,
    TfIdf,
    /// Both, with their ranks fused.
    Both,
}

pub open spec fn mode_search(mode: Seq<char>) -> RankedSearch {
    if mode == "bm25"@ {
        RankedSearch::Bm25
    } else if mode == "tfidf"@ {
        RankedSearch::TfIdf
    } else {
        RankedSearch::Both
    }
}

/// Which index a hybrid search asks, and for how many results: twice those wanted, so that
/// enough are left once tests and partial matches are gone.
pub fn hybrid_plan(mode: &str, most: usize) -> (r: (RankedSearch, usize))
    requires
        most * 2 <= usize::MAX,
    ensures
        r.0 == mode_search(mode@),
        r.1 == most * 2,
{
    let search = if same_text(mode, "bm25") {
        RankedSearch::Bm25
    } else if same_text(mode, "tfidf") {
        RankedSearch::TfIdf
    } else {
        RankedSearch::Both
    };
    (search, most * 2)
}

/// How many results a semantic search asks for: enough to survive the filters.
pub fn semantic_plan(most: usize) -> (r: usize)
    requires
        most * 8 <= usize::MAX,
    ensures
        r == most * 8,
{
    most * 8
}

// ---- ranked documents ----

/// Part of a file around the terms that matched.
#[derive(Debug)]
pub struct Snippet {
    pub start_line: usize,
    pub end_line: usize,
    pub text: String,
}

pub struct SnippetText {
    pub start_line: usize,
    pub end_line: usize,
    pub text: Seq<char>,
}

impl View for Snippet {
    type V = SnippetText;

    open spec fn view(&self) -> SnippetText {
        SnippetText { start_line: self.start_line, end_line: self.end_line, text: self.text@ }
    }
}

pub open spec fn opt_snippet(o: Option<Snippet>) -> Option<SnippetText> {
    match o {
        Some(s) => Some(s@),
        None => None,
    }
}

/// A document the ranked search found, best scores first, with the snippet of its file.
#[derive(Debug)]
pub struct RankedDocument {
    pub repo: String,
    pub file_path: String,
    pub start_line: usize,
    pub end_line: usize,
    pub whole_file: bool,
    pub score_text: String,
    pub snippet: String,
    pub regenerated: Option<Snippet>,
}

pub struct DocumentText {
    pub repo: Seq<char>,
    pub file_path: Seq<char>,
    pub start_line: usize,
    pub end_line: usize,
    pub whole_file: bool,
    pub score_text: Seq<char>,
    pub snippet: Seq<char>,
    pub regenerated: Option<SnippetText>,
}

impl View for RankedDocument {
    type V = DocumentText;

    open spec fn view(&self) -> DocumentText {
        DocumentText {
            repo: self.repo@,
            file_path: self.file_path@,
            start_line: self.start_line,
            end_line: self.end_line,
            whole_file: self.whole_file,
            score_text: self.score_text@,
            snippet: self.snippet@,
            regenerated: opt_snippet(self.regenerated),
        }
    }
}

pub(crate) fn copy_snippet(o: &Option<Snippet>) -> (r: Option<Snippet>)
    ensures
        opt_snippet(r) == opt_snippet(*o),
{
    match o {
        Some(s) => Some(
            Snippet { start_line: s.start_line, end_line: s.end_line, text: s.text.clone() },
        ),
        None => None,
    }
}

pub open spec fn document_texts(v: Seq<RankedDocument>) -> Seq<DocumentText> {
    v.map_values(|d: RankedDocument| d@)
}

pub open spec fn same_place(a: DocumentText, b: DocumentText) -> bool {
    a.repo == b.repo && a.file_path == b.file_path && a.start_line == b.start_line && a.end_line
        == b.end_line
}

pub open spec fn place_taken(list: Seq<DocumentText>, d: DocumentText) -> bool {
    exists|i: int| 0 <= i < list.len() && same_place(#[trigger] list[i], d)
}

/// A document belongs to the repository asked for and stands in no test file.
pub open spec fn document_wanted(
    d: DocumentText,
    repo: Option<Seq<char>>,
    tests: Seq<Seq<char>>,
) -> bool {
    (repo matches Some(r) ==> d.repo == r) && !tests.contains(d.file_path)
}

/// The documents shown: those wanted, each place once, at its best score.
pub open spec fn distinct_documents(
    list: Seq<DocumentText>,
    repo: Option<Seq<char>>,
    tests: Seq<Seq<char>>,
) -> Seq<DocumentText>
    decreases list.len(),
{
    if list.len() == 0 {
        Seq::empty()
    } else {
        let front = distinct_documents(list.drop_last(), repo, tests);
        let d = list.last();
        if document_wanted(d, repo, tests) && !place_taken(front, d) {
            front.push(d)
        } else {
            front
        }
    }
}

pub open spec fn semantic_results(
    list: Seq<DocumentText>,
    repo: Option<Seq<char>>,
    tests: Seq<Seq<char>>,
    most: usize,
) -> Seq<DocumentText> {
    let all = distinct_documents(list, repo, tests);
    if all.len() > most {
        all.take(most as int)
    } else {
        all
    }
}

/// No place comes back twice.
pub proof fn law_a_location_is_returned_once(
    list: Seq<DocumentText>,
    repo: Option<Seq<char>>,
    tests: Seq<Seq<char>>,
)
    ensures
        forall|i: int, j: int|
            0 <= i < j < distinct_documents(list, repo, tests).len() ==> !same_place(
                #[trigger] distinct_documents(list, repo, tests)[i],
                #[trigger] distinct_documents(list, repo, tests)[j],
            ),
    decreases list.len(),
{
    if list.len() > 0 {
        law_a_location_is_returned_once(list.drop_last(), repo, tests);
        let front = distinct_documents(list.drop_last(), repo, tests);
        let all = distinct_documents(list, repo, tests);
        assert forall|i: int, j: int| 0 <= i < j < all.len() implies !same_place(
            #[trigger] all[i],
            #[trigger] all[j],
        ) by {
            if j < front.len() {
                assert(!same_place(front[i], front[j]));
            } else {
                assert(front[i] == all[i]);
            }
        }
    }
}

fn is_same_place(a: &RankedDocument, b: &RankedDocument) -> (r: bool)
    ensures
        r == same_place(a@, b@),
{
    a.start_line == b.start_line && a.end_line == b.end_line && same_text(
        a.repo.as_str(),
        b.repo.as_str(),
    ) && same_text(a.file_path.as_str(), b.file_path.as_str())
}

/// The documents of an answer, as places in the list of what was found.
pub fn select_documents(
    list: &[RankedDocument],
    repo: Option<&str>,
    tests: &[String],
    most: usize,
) -> (r: Vec<usize>)
    ensures
        ({
            let wanted = semantic_results(
                document_texts(list@),
                match repo {
                    Some(x) => Some(x@),
                    None => None,
                },
                texts(tests@),
                most,
            );
            &&& r@.len() == wanted.len()
            &&& forall|i: int|
                0 <= i < r@.len() ==> (#[trigger] r@[i]) < list@.len() && list@[r@[i] as int]@
                    == wanted[i]
        }),
{
    let ghost all = document_texts(list@);
    let ghost home = match repo {
        Some(x) => Some(x@),
        None => None,
    };
    let ghost ts = texts(tests@);
    let mut out: Vec<usize> = Vec::new();
    let mut i: usize = 0;
    while i < list.len()
        invariant
            i <= list@.len(),
            all == document_texts(list@),
            home == (match repo {
                Some(x) => Some(x@),
                None => None,
            }),
            ts == texts(tests@),
            out@.len() == distinct_documents(all.take(i as int), home, ts).len(),
            forall|j: int|
                0 <= j < out@.len() ==> (#[trigger] out@[j]) < list@.len() && list@[out@[j] as int]@
                    == distinct_documents(all.take(i as int), home, ts)[j],
        decreases list@.len() - i,
    {
        let d = &list[i];
        let ghost front = distinct_documents(all.take(i as int), home, ts);
        proof {
            assert(all.take(i + 1).drop_last() =~= all.take(i as int));
            assert(all.take(i + 1).last() == d@);
        }
        let of_repo = match repo {
            Some(x) => same_text(d.repo.as_str(), x),
            None => true,
        };
        if of_repo && !has_text(tests, d.file_path.as_str()) {
            let mut taken = false;
            let mut k: usize = 0;
            while k < out.len()
                invariant
                    k <= out@.len(),
                    i < list@.len(),
                    d@ == list@[i as int]@,
                    out@.len() == front.len(),
                    forall|j: int|
                        0 <= j < out@.len() ==> (#[trigger] out@[j]) < list@.len()
                            && list@[out@[j] as int]@ == front[j],
                    taken == exists|j: int| 0 <= j < k && same_place(#[trigger] front[j], d@),
                decreases out@.len() - k,
            {
                let at: usize = out[k];
                if is_same_place(&list[at], d) {
                    proof {
                        assert(same_place(front[k as int], d@));
                    }
                    taken = true;
                }
                k = k + 1;
            }
            if !taken {
                out.push(i);
            }
        }
        i = i + 1;
    }
    proof {
        assert(all.take(all.len() as int) =~= all);
    }
    if out.len() > most {
        out.truncate(most);
    }
    out
}

/// The lines a document covers: for a whole file, those of the snippet.
pub open spec fn shown_lines(d: DocumentText) -> (usize, usize) {
    match d.regenerated {
        Some(s) => if d.whole_file {
            (s.start_line, s.end_line)
        } else {
            (d.start_line, d.end_line)
        },
        None => (d.start_line, d.end_line),
    }
}

pub open spec fn shown_snippet(d: DocumentText) -> Seq<char> {
    if d.snippet.len() > 0 {
        d.snippet
    } else {
        match d.regenerated {
            Some(s) => s.text,
            None => Seq::empty(),
        }
    }
}

pub open spec fn document_row(i: int, d: DocumentText) -> Seq<char> {
    "## "@ + decimal((i + 1) as nat) + ". "@ + d.file_path + " (score: "@ + d.score_text
        + ")\nLines "@ + decimal(shown_lines(d).0 as nat) + "-"@
        + decimal(shown_lines(d).1 as nat) + "\n\n```\n"@ + shown_snippet(d) + "\n```\n\n"@
}

/// The answer of the semantic search.
pub open spec fn semantic_answer(
    query: Seq<char>,
    repo: Option<Seq<char>>,
    results: Seq<DocumentText>,
) -> Seq<char> {
    let home = match repo {
        Some(r) => "Repository: "@ + r + "\n"@,
        None => Seq::empty(),
    };
    let tail = if results.len() == 0 {
        "*No results found.*\n"@
    } else {
        Seq::empty()
    };
    "# Semantic Search: `"@ + query + "`\n\n"@ + home + "Found "@ + decimal(results.len() as nat)
        + " results\n\n"@ + concat(
        Seq::new(results.len(), |i: int| document_row(i, results[i])),
    ) + tail
}

fn render_document(i: usize, d: &RankedDocument) -> (r: String)
    requires
        i < usize::MAX,
    ensures
        r@ == document_row(i as int, d@),
{
    let (start, end) = match &d.regenerated {
        Some(s) => if d.whole_file {
            (s.start_line, s.end_line)
        } else {
            (d.start_line, d.end_line)
        },
        None => (d.start_line, d.end_line),
    };
    let mut snippet = d.snippet.clone();
    if d.snippet.as_str().is_empty() {
        snippet =
        match &d.regenerated {
            Some(s) => s.text.clone(),
            None => String::new(),
        };
    }
    proof {
        if d.snippet@.len() == 0 && d.regenerated is None {
            assert(snippet@ =~= Seq::<char>::empty());
        }
    }
    let mut out = "## ".to_owned();
    out.append(usize_text(i + 1).as_str());
    out.append(". ");
    out.append(d.file_path.as_str());
    out.append(" (score: ");
    out.append(d.score_text.as_str());
    out.append(")\nLines ");
    out.append(usize_text(start).as_str());
    out.append("-");
    out.append(usize_text(end).as_str());
    out.append("\n\n```\n");
    out.append(snippet.as_str());
    out.append("\n```\n\n");
    out
}

/// Searches what the index ranked: keeps the documents wanted, each place once, and renders
/// them.
pub fn render_semantic(
    query: &str,
    repo: Option<&str>,
    list: &[RankedDocument],
    tests: &[String],
    most: usize,
) -> (r: String)
    ensures
        ({
            let home = match repo {
                Some(x) => Some(x@),
                None => None,
            };
            r@ == semantic_answer(
                query@,
                home,
                semantic_results(document_texts(list@), home, texts(tests@), most),
            )
        }),
{
    let chosen = select_documents(list, repo, tests, most);
    let ghost home = match repo {
        Some(x) => Some(x@),
        None => None,
    };
    let ghost results = semantic_results(document_texts(list@), home, texts(tests@), most);
    let mut home_line = String::new();
    proof {
        assert(home_line@ =~= Seq::<char>::empty());
    }
    match repo {
        Some(x) => {
            home_line = "Repository: ".to_owned();
            home_line.append(x);
            home_line.append("\n");
        },
        None => {},
    }
    let mut out = "# Semantic Search: `".to_owned();
    out.append(query);
    out.append("`\n\n");
    out.append(home_line.as_str());
    out.append("Found ");
    out.append(usize_text(chosen.len()).as_str());
    out.append(" results\n\n");
    let mut rows: Vec<String> = Vec::new();
    let mut i: usize = 0;
    while i < chosen.len()
        invariant
            i <= chosen@.len(),
            chosen@.len() == results.len(),
            forall|j: int|
                0 <= j < chosen@.len() ==> (#[trigger] chosen@[j]) < list@.len()
                    && list@[chosen@[j] as int]@ == results[j],
            rows@.len() == i,
            forall|j: int| 0 <= j < i ==> #[trigger] rows@[j]@ == document_row(j, results[j]),
        decreases chosen@.len() - i,
    {
        let at: usize = chosen[i];
        rows.push(render_document(i, &list[at]));
        i = i + 1;
    }
    proof {
        assert(texts(rows@) =~= Seq::new(results.len(), |i: int| document_row(i, results[i])));
    }
    out.append(concat_texts(rows.as_slice()).as_str());
    let mut tail = String::new();
    if chosen.len() == 0 {
        tail = "*No results found.*\n".to_owned();
    }
    proof {
        if chosen@.len() > 0 {
            assert(tail@ =~= Seq::<char>::empty());
        }
    }
    out.append(tail.as_str());
    out
}

// ---- hybrid search ----

/// A result of the hybrid search, with the content of its file where it is cached.
#[derive(Debug)]
pub struct HybridResult {
    pub file_path: String,
    pub start_line: usize,
    pub end_line: usize,
    pub content: String,
    pub score_text: String,
    pub whole_file: bool,
    pub bm25_rank: Option<usize>,
    pub tfidf_rank: Option<usize>,
    pub matched_terms: Vec<String>,
    pub regenerated: Option<Snippet>,
    pub file_content: Option<String>,
}

pub struct HybridText {
    pub file_path: Seq<char>,
    pub start_line: usize,
    pub end_line: usize,
    pub content: Seq<char>,
    pub score_text: Seq<char>,
    pub whole_file: bool,
    pub bm25_rank: Option<usize>,
    pub tfidf_rank: Option<usize>,
    pub matched_terms: Seq<Seq<char>>,
    pub regenerated: Option<SnippetText>,
    pub file_content: Option<Seq<char>>,
}

impl View for HybridResult {
    type V = HybridText;

    open spec fn view(&self) -> HybridText {
        HybridText {
            file_path: self.file_path@,
            start_line: self.start_line,
            end_line: self.end_line,
            content: self.content@,
            score_text: self.score_text@,
            whole_file: self.whole_file,
            bm25_rank: self.bm25_rank,
            tfidf_rank: self.tfidf_rank,
            matched_terms: texts(self.matched_terms@),
            regenerated: opt_snippet(self.regenerated),
            file_content: opt_text(self.file_content),
        }
    }
}

pub open spec fn hybrid_texts(v: Seq<HybridResult>) -> Seq<HybridText> {
    v.map_values(|h: HybridResult| h@)
}

/// The words of a query in small letters, without those of a single byte.
pub open spec fn typed_terms(query: Seq<char>) -> Seq<Seq<char>> {
    words_of(query).map_values(|w: Seq<char>| lower_text(w)).filter(
        |t: Seq<char>| byte_len(t) >= 2,
    )
}

/// The typed terms of a query.
pub fn terms_as_typed(query: &str) -> (r: Vec<String>)
    ensures
        texts(r@) == typed_terms(query@),
{
    let list = words(query);
    let ghost all = texts(list@).map_values(|w: Seq<char>| lower_text(w));
    let ghost pred = |t: Seq<char>| byte_len(t) >= 2;
    let mut out: Vec<String> = Vec::new();
    let mut i: usize = 0;
    proof {
        reveal(Seq::filter);
        assert(texts(out@) =~= all.take(0).filter(pred));
    }
    while i < list.len()
        invariant
            i <= list@.len(),
            all == texts(list@).map_values(|w: Seq<char>| lower_text(w)),
            pred == (|t: Seq<char>| byte_len(t) >= 2),
            texts(out@) == all.take(i as int).filter(pred),
        decreases list@.len() - i,
    {
        let term = to_lowercase(list[i].as_str());
        proof {
            reveal(Seq::filter);
            assert(all.take(i + 1).drop_last() =~= all.take(i as int));
            assert(all.take(i + 1).last() == term@);
        }
        if term.as_str().len() >= 2 {
            proof {
                assert(texts(out@.push(term)) =~= texts(out@).push(term@));
            }
            out.push(term);
        }
        i = i + 1;
    }
    proof {
        assert(all.take(all.len() as int) =~= all);
    }
    out
}

/// Two texts equal but for the case of ASCII letters.
pub open spec fn same_ignoring_case(a: Seq<char>, b: Seq<char>) -> bool {
    ascii_lower_text(a) == ascii_lower_text(b)
}

/// One of the matched terms is one that was typed.
pub open spec fn matched_as_typed(matched: Seq<Seq<char>>, typed: Seq<Seq<char>>) -> bool {
    exists|i: int, j: int|
        0 <= i < matched.len() && 0 <= j < typed.len() && same_ignoring_case(
            #[trigger] matched[i],
            #[trigger] typed[j],
        )
}

/// Some typed term occurs in the text.
pub open spec fn holds_some(text: Seq<char>, typed: Seq<Seq<char>>) -> bool {
    exists|i: int| 0 <= i < typed.len() && contains_text(text, #[trigger] typed[i])
}

/// A result carries a term as it was typed: one of its matched terms is one, or its file
/// holds one. `content` is the file in small letters.
pub open spec fn carries_typed(
    matched: Seq<Seq<char>>,
    content: Option<Seq<char>>,
    typed: Seq<Seq<char>>,
) -> bool {
    matched_as_typed(matched, typed) || (content matches Some(c) && holds_some(c, typed))
}

/// Whether a result carries a term as it was typed.
pub fn carries_typed_term(matched: &[String], content: Option<&str>, typed: &[String]) -> (r: bool)
    ensures
        r == carries_typed(
            texts(matched@),
            match content {
                Some(c) => Some(c@),
                None => None,
            },
            texts(typed@),
        ),
{
    let ghost ms = texts(matched@);
    let ghost ts = texts(typed@);
    let mut i: usize = 0;
    while i < matched.len()
        invariant
            i <= matched@.len(),
            ms == texts(matched@),
            ts == texts(typed@),
            forall|a: int, b: int|
                0 <= a < i && 0 <= b < ts.len() ==> !same_ignoring_case(
                    #[trigger] ms[a],
                    #[trigger] ts[b],
                ),
        decreases matched@.len() - i,
    {
        let small = to_ascii_lower(matched[i].as_str());
        proof {
            assert(ms[i as int] == matched@[i as int]@);
        }
        let mut k: usize = 0;
        while k < typed.len()
            invariant
                i < matched@.len(),
                k <= typed@.len(),
                ms == texts(matched@),
                ts == texts(typed@),
                small@ == ascii_lower_text(ms[i as int]),
                forall|b: int|
                    0 <= b < k ==> !same_ignoring_case(ms[i as int], #[trigger] ts[b]),
            decreases typed@.len() - k,
        {
            let other = to_ascii_lower(typed[k].as_str());
            proof {
                assert(ts[k as int] == typed@[k as int]@);
            }
            if same_text(small.as_str(), other.as_str()) {
                proof {
                    assert(same_ignoring_case(ms[i as int], ts[k as int]));
                }
                return true;
            }
            k = k + 1;
        }
        i = i + 1;
    }
    match content {
        Some(c) => {
            let mut k: usize = 0;
            while k < typed.len()
                invariant
                    k <= typed@.len(),
                    content == Some(c),
                    ts == texts(typed@),
                    forall|b: int| 0 <= b < k ==> !contains_text(c@, #[trigger] ts[b]),
                decreases typed@.len() - k,
            {
                proof {
                    assert(ts[k as int] == typed@[k as int]@);
                }
                if contains(c, typed[k].as_str()) {
                    return true;
                }
                k = k + 1;
            }
            false
        },
        None => false,
    }
}

pub open spec fn result_carries(h: HybridText, typed: Seq<Seq<char>>) -> bool {
    carries_typed(
        h.matched_terms,
        match h.file_content {
            Some(c) => Some(lower_text(c)),
            None => None,
        },
        typed,
    )
}

/// What is left of the results, and whether they match parts of the terms only.
pub open spec fn hybrid_kept(
    results: Seq<HybridText>,
    tests: Seq<Seq<char>>,
    typed: Seq<Seq<char>>,
) -> (Seq<HybridText>, bool) {
    let all = results.filter(|h: HybridText| !tests.contains(h.file_path));
    let exact = all.filter(|h: HybridText| result_carries(h, typed));
    if exact.len() > 0 {
        (exact, false)
    } else {
        (all, all.len() > 0)
    }
}

pub open spec fn first_of<T>(list: Seq<T>, most: usize) -> Seq<T> {
    if list.len() > most {
        list.take(most as int)
    } else {
        list
    }
}

/// The first lines of a snippet, at most ten.
pub open spec fn cut_snippet(text: Seq<char>) -> Seq<char> {
    let all = lines_of(text);
    if all.len() > 10 {
        join_spec(all.take(10), "\n"@) + "\n... (truncated)"@
    } else {
        join_spec(all, "\n"@)
    }
}

fn short_snippet(text: &str) -> (r: String)
    ensures
        r@ == cut_snippet(text@),
{
    let all = lines(text);
    proof {
        assert(texts(all@).len() == all@.len());
    }
    if all.len() > 10 {
        let head = vstd::slice::slice_subrange(all.as_slice(), 0, 10);
        proof {
            assert(texts(head@) =~= texts(all@).take(10));
        }
        let mut out = join(head, "\n");
        out.append("\n... (truncated)");
        out
    } else {
        join(all.as_slice(), "\n")
    }
}

/// The lines and the text shown of a result.
pub open spec fn hybrid_part(h: HybridText) -> SnippetText {
    match h.regenerated {
        Some(s) => if h.whole_file || h.content.len() == 0 {
            s
        } else {
            SnippetText { start_line: h.start_line, end_line: h.end_line, text: h.content }
        },
        None => SnippetText { start_line: h.start_line, end_line: h.end_line, text: h.content },
    }
}

pub open spec fn rank_line(label: Seq<char>, rank: Option<usize>) -> Seq<char> {
    match rank {
        Some(r) => "- **"@ + label + " rank**: "@ + decimal((r + 1) as nat) + "\n"@,
        None => Seq::empty(),
    }
}

pub open spec fn hybrid_row(i: int, h: HybridText) -> Seq<char> {
    let part = hybrid_part(h);
    let terms = if h.matched_terms.len() > 0 {
        "- **Matched terms**: "@ + join_spec(h.matched_terms, ", "@) + "\n"@
    } else {
        Seq::empty()
    };
    "## "@ + decimal((i + 1) as nat) + ". "@ + h.file_path + "\n- **Score**: "@ + h.score_text
        + "\n- **Lines**: "@ + decimal(part.start_line as nat) + "-"@
        + decimal(part.end_line as nat) + "\n"@ + rank_line("BM25"@, h.bm25_rank)
        + rank_line("TF-IDF"@, h.tfidf_rank) + terms + "\n```\n"@ + cut_snippet(part.text)
        + "\n```\n\n"@
}

/// The answer of the hybrid search.
pub open spec fn hybrid_answer(
    query: Seq<char>,
    mode: Seq<char>,
    repo: Option<Seq<char>>,
    results: Seq<HybridText>,
    partial: bool,
) -> Seq<char> {
    let home = match repo {
        Some(r) => "**Repository**: "@ + r + "\n"@,
        None => Seq::empty(),
    };
    let note = if partial {
        "*No result contains the query terms as written; these match parts of them only.*\n\n"@
    } else {
        Seq::empty()
    };
    let tail = if results.len() == 0 {
        "No results found.\n"@
    } else {
        Seq::empty()
    };
    "# Hybrid Search Results for: `"@ + query + "`\n\n**Mode**: "@ + mode + "\n"@ + home
        + "**Results**: "@ + decimal(results.len() as nat) + "\n\n"@ + note + concat(
        Seq::new(results.len(), |i: int| hybrid_row(i, results[i])),
    ) + tail
}

fn render_rank(label: &str, rank: Option<usize>) -> (r: String)
    requires
        rank matches Some(n) ==> n < usize::MAX,
    ensures
        r@ == rank_line(label@, rank),
{
    match rank {
        Some(n) => {
            let mut out = "- **".to_owned();
            out.append(label);
            out.append(" rank**: ");
            out.append(usize_text(n + 1).as_str());
            out.append("\n");
            out
        },
        None => {
            let out = String::new();
            proof {
                assert(out@ =~= Seq::<char>::empty());
            }
            out
        },
    }
}

/// The ranks of a result can be counted from 1.
pub open spec fn ranks_countable(h: HybridText) -> bool {
    (h.bm25_rank matches Some(n) ==> n < usize::MAX) && (h.tfidf_rank matches Some(n) ==> n
        < usize::MAX)
}

fn render_hybrid_row(i: usize, h: &HybridResult) -> (r: String)
    requires
        i < usize::MAX,
        ranks_countable(h@),
    ensures
        r@ == hybrid_row(i as int, h@),
{
    let own = match &h.regenerated {
        Some(_) => !(h.whole_file || h.content.as_str().is_empty()),
        None => true,
    };
    let mut start: usize = h.start_line;
    let mut end: usize = h.end_line;
    let mut text = h.content.clone();
    match &h.regenerated {
        Some(s) => {
            if !own {
                start = s.start_line;
                end = s.end_line;
                text = s.text.clone();
            }
        },
        None => {},
    }
    let mut terms = String::new();
    proof {
        assert(terms@ =~= Seq::<char>::empty());
        assert(h@.matched_terms.len() == h.matched_terms@.len());
    }
    if h.matched_terms.len() > 0 {
        terms = "- **Matched terms**: ".to_owned();
        terms.append(join(h.matched_terms.as_slice(), ", ").as_str());
        terms.append("\n");
    }
    let mut out = "## ".to_owned();
    out.append(usize_text(i + 1).as_str());
    out.append(". ");
    out.append(h.file_path.as_str());
    out.append("\n- **Score**: ");
    out.append(h.score_text.as_str());
    out.append("\n- **Lines**: ");
    out.append(usize_text(start).as_str());
    out.append("-");
    out.append(usize_text(end).as_str());
    out.append("\n");
    out.append(render_rank("BM25", h.bm25_rank).as_str());
    out.append(render_rank("TF-IDF", h.tfidf_rank).as_str());
    out.append(terms.as_str());
    out.append("\n```\n");
    out.append(short_snippet(text.as_str()).as_str());
    out.append("\n```\n\n");
    out
}

fn without_tests(results: &[HybridResult], tests: &[String]) -> (r: Vec<usize>)
    ensures
        ({
            let kept = hybrid_texts(results@).filter(
                |h: HybridText| !texts(tests@).contains(h.file_path),
            );
            &&& r@.len() == kept.len()
            &&& forall|i: int|
                0 <= i < r@.len() ==> (#[trigger] r@[i]) < results@.len() && results@[r@[i] as int]@
                    == kept[i]
        }),
{
    let ghost all = hybrid_texts(results@);
    let ghost pred = |h: HybridText| !texts(tests@).contains(h.file_path);
    let mut out: Vec<usize> = Vec::new();
    let mut i: usize = 0;
    proof {
        reveal(Seq::filter);
    }
    while i < results.len()
        invariant
            i <= results@.len(),
            all == hybrid_texts(results@),
            pred == (|h: HybridText| !texts(tests@).contains(h.file_path)),
            out@.len() == all.take(i as int).filter(pred).len(),
            forall|j: int|
                0 <= j < out@.len() ==> (#[trigger] out@[j]) < results@.len()
                    && results@[out@[j] as int]@ == all.take(i as int).filter(pred)[j],
        decreases results@.len() - i,
    {
        proof {
            reveal(Seq::filter);
            assert(all.take(i + 1).drop_last() =~= all.take(i as int));
            assert(all.take(i + 1).last() == results@[i as int]@);
        }
        if !has_text(tests, results[i].file_path.as_str()) {
            out.push(i);
        }
        i = i + 1;
    }
    proof {
        assert(all.take(all.len() as int) =~= all);
    }
    out
}

fn that_carry(results: &[HybridResult], list: &Vec<usize>, typed: &[String]) -> (r: Vec<usize>)
    requires
        forall|i: int| 0 <= i < list@.len() ==> (#[trigger] list@[i]) < results@.len(),
    ensures
        ({
            let kept = list@.map_values(|i: usize| results@[i as int]@).filter(
                |h: HybridText| result_carries(h, texts(typed@)),
            );
            &&& r@.len() == kept.len()
            &&& forall|i: int|
                0 <= i < r@.len() ==> (#[trigger] r@[i]) < results@.len() && results@[r@[i] as int]@
                    == kept[i]
        }),
{
    let ghost all = list@.map_values(|i: usize| results@[i as int]@);
    let ghost pred = |h: HybridText| result_carries(h, texts(typed@));
    let mut out: Vec<usize> = Vec::new();
    let mut i: usize = 0;
    proof {
        reveal(Seq::filter);
    }
    while i < list.len()
        invariant
            i <= list@.len(),
            forall|i: int| 0 <= i < list@.len() ==> (#[trigger] list@[i]) < results@.len(),
            all == list@.map_values(|i: usize| results@[i as int]@),
            pred == (|h: HybridText| result_carries(h, texts(typed@))),
            out@.len() == all.take(i as int).filter(pred).len(),
            forall|j: int|
                0 <= j < out@.len() ==> (#[trigger] out@[j]) < results@.len()
                    && results@[out@[j] as int]@ == all.take(i as int).filter(pred)[j],
        decreases list@.len() - i,
    {
        let at: usize = list[i];
        let h = &results[at];
        proof {
            reveal(Seq::filter);
            assert(all.take(i + 1).drop_last() =~= all.take(i as int));
            assert(all.take(i + 1).last() == h@);
        }
        let carries = match &h.file_content {
            Some(c) => {
                let small = to_lowercase(c.as_str());
                carries_typed_term(h.matched_terms.as_slice(), Some(small.as_str()), typed)
            },
            None => carries_typed_term(h.matched_terms.as_slice(), None, typed),
        };
        if carries {
            out.push(at);
        }
        i = i + 1;
    }
    proof {
        assert(all.take(all.len() as int) =~= all);
    }
    out
}

/// Keeps the results that carry a term as it was typed, or, where none does, all of them
/// with a note, and renders them.
pub fn render_hybrid(
    query: &str,
    mode: &str,
    repo: Option<&str>,
    results: &[HybridResult],
    tests: &[String],
    most: usize,
) -> (r: String)
    requires
        forall|i: int| 0 <= i < results@.len() ==> ranks_countable((#[trigger] results@[i])@),
    ensures
        ({
            let kept = hybrid_kept(hybrid_texts(results@), texts(tests@), typed_terms(query@));
            r@ == hybrid_answer(
                query@,
                mode@,
                match repo {
                    Some(x) => Some(x@),
                    None => None,
                },
                first_of(kept.0, most),
                kept.1,
            )
        }),
{
    let typed = terms_as_typed(query);
    let ghost ts = texts(typed@);
    let listed = without_tests(results, tests);
    let ghost all = hybrid_texts(results@).filter(
        |h: HybridText| !texts(tests@).contains(h.file_path),
    );
    let exact = that_carry(results, &listed, typed.as_slice());
    proof {
        assert(listed@.map_values(|i: usize| results@[i as int]@) =~= all);
    }
    let ghost kept = hybrid_kept(hybrid_texts(results@), texts(tests@), ts);
    let partial = exact.len() == 0 && listed.len() > 0;
    let mut chosen = if exact.len() > 0 {
        exact
    } else {
        listed
    };
    proof {
        assert(chosen@.len() == kept.0.len());
        assert(forall|j: int|
            0 <= j < chosen@.len() ==> (#[trigger] chosen@[j]) < results@.len()
                && results@[chosen@[j] as int]@ == kept.0[j]);
    }
    if chosen.len() > most {
        chosen.truncate(most);
    }
    let ghost shown = first_of(kept.0, most);
    let mut home = String::new();
    proof {
        assert(home@ =~= Seq::<char>::empty());
    }
    match repo {
        Some(x) => {
            home = "**Repository**: ".to_owned();
            home.append(x);
            home.append("\n");
        },
        None => {},
    }
    let mut note = String::new();
    proof {
        assert(note@ =~= Seq::<char>::empty());
    }
    if partial {
        note =
        "*No result contains the query terms as written; these match parts of them only.*\n\n".to_owned();
    }
    let mut out = "# Hybrid Search Results for: `".to_owned();
    out.append(query);
    out.append("`\n\n**Mode**: ");
    out.append(mode);
    out.append("\n");
    out.append(home.as_str());
    out.append("**Results**: ");
    out.append(usize_text(chosen.len()).as_str());
    out.append("\n\n");
    out.append(note.as_str());
    let mut rows: Vec<String> = Vec::new();
    let mut i: usize = 0;
    while i < chosen.len()
        invariant
            i <= chosen@.len(),
            chosen@.len() == shown.len(),
            forall|i: int| 0 <= i < results@.len() ==> ranks_countable((#[trigger] results@[i])@),
            forall|j: int|
                0 <= j < chosen@.len() ==> (#[trigger] chosen@[j]) < results@.len()
                    && results@[chosen@[j] as int]@ == shown[j],
            rows@.len() == i,
            forall|j: int| 0 <= j < i ==> #[trigger] rows@[j]@ == hybrid_row(j, shown[j]),
        decreases chosen@.len() - i,
    {
        let at: usize = chosen[i];
        rows.push(render_hybrid_row(i, &results[at]));
        i = i + 1;
    }
    proof {
        assert(texts(rows@) =~= Seq::new(shown.len(), |i: int| hybrid_row(i, shown[i])));
    }
    out.append(concat_texts(rows.as_slice()).as_str());
    let mut tail = String::new();
    if chosen.len() == 0 {
        tail = "No results found.\n".to_owned();
    }
    proof {
        if chosen@.len() > 0 {
            assert(tail@ =~= Seq::<char>::empty());
        }
    }
    out.append(tail.as_str());
    out
}

/// Results are never withheld: where something was found outside the tests, something is
/// kept, and partial matches are kept only where no result carries a typed term.
pub proof fn law_partial_matches_beat_nothing(
    results: Seq<HybridText>,
    tests: Seq<Seq<char>>,
    typed: Seq<Seq<char>>,
)
    ensures
        ({
            let all = results.filter(|h: HybridText| !tests.contains(h.file_path));
            let kept = hybrid_kept(results, tests, typed);
            &&& all.len() > 0 ==> kept.0.len() > 0
            &&& !kept.1 ==> forall|i: int|
                0 <= i < kept.0.len() ==> result_carries(#[trigger] kept.0[i], typed)
            &&& kept.1 ==> forall|i: int|
                0 <= i < all.len() ==> !result_carries(#[trigger] all[i], typed)
        }),
{
    let all = results.filter(|h: HybridText| !tests.contains(h.file_path));
    let pred = |h: HybridText| result_carries(h, typed);
    crate::order::lemma_filtered_are_members(all, pred);
    let exact = all.filter(pred);
    if exact.len() == 0 {
        assert forall|i: int| 0 <= i < all.len() implies !result_carries(#[trigger] all[i], typed) by {
            if pred(all[i]) {
                all.lemma_filter_contains_rev(pred, all[i]);
            }
        }
    }
    assert forall|i: int| 0 <= i < exact.len() implies result_carries(#[trigger] exact[i], typed) by {
        assert(pred(exact[i]));
    }
}

} // verus!
