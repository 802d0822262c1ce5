//! What the answers of the tools show.

use vstd::prelude::*;

use crate::budget::{fitting, utf8_len, ListWindow};
use crate::callgraph::{EdgeText, ReferenceText};
use crate::calltools::{direct_spec, edge_row, edges_kept, EdgeTool};
use crate::laws::lists::lemma_filter_members;
use crate::lookup::{
    by_relevance, find_symbols_spec, grouped_symbols, is_unfiltered, kind_group, kinds_of,
    selected_symbols, symbol_row, symbols_answer, QueryText,
};
use crate::references::{outside_tests, reference_row, references_answer};
use crate::search::{result_row, search_answer, ScoredText};
use crate::show::{
    definition_answer, file_answer, last_shown, listed_to, listing, listing_budget, marked_line,
    marked_lines, numbered_line, range_end, range_error, range_start, window_start,
};
use crate::symbols::{SourceSet, SymbolKind, SymbolText};
use crate::text::{concat, contains_text, decimal, occurs_at};
use crate::tools::found_references;

verus! {

// ---- texts inside texts ----

/// A text held by a part is held by the whole.
pub proof fn lemma_held_within(before: Seq<char>, s: Seq<char>, after: Seq<char>, p: Seq<char>)
    requires
        contains_text(s, p),
    ensures
        contains_text(before + s + after, p),
        contains_text(before + s, p),
        contains_text(s + after, p),
{
    let i = choose|i: int| occurs_at(s, p, i);
    let k = before.len() + i;
    let whole = before + s + after;
    assert(whole.subrange(k, k + p.len()) =~= s.subrange(i, i + p.len()));
    assert(occurs_at(whole, p, k));
    assert((before + s).subrange(k, k + p.len()) =~= s.subrange(i, i + p.len()));
    assert(occurs_at(before + s, p, k));
    assert((s + after).subrange(i, i + p.len()) =~= s.subrange(i, i + p.len()));
    assert(occurs_at(s + after, p, i));
}

/// What the beginning of a text holds, the text holds.
pub proof fn lemma_held_by_front(s: Seq<char>, rest: Seq<char>, p: Seq<char>)
    requires
        contains_text(s, p),
    ensures
        contains_text(s + rest, p),
{
    lemma_held_within(Seq::empty(), s, rest, p);
}

/// What the end of a text holds, the text holds.
pub proof fn lemma_held_by_end(front: Seq<char>, s: Seq<char>, p: Seq<char>)
    requires
        contains_text(s, p),
    ensures
        contains_text(front + s, p),
{
    lemma_held_within(front, s, Seq::empty(), p);
}

/// A text holds itself.
pub proof fn lemma_held_by_itself(s: Seq<char>)
    ensures
        contains_text(s, s),
{
    assert(s.subrange(0, s.len() as int) =~= s);
    assert(occurs_at(s, s, 0));
}

/// Four texts behind another are held as one.
proof fn lemma_four_held(x: Seq<char>, a: Seq<char>, b: Seq<char>, c: Seq<char>, d: Seq<char>)
    ensures
        contains_text(x + a + b + c + d, a + b + c + d),
{
    let item = a + b + c + d;
    lemma_held_by_itself(item);
    lemma_held_by_end(x, item, item);
    lemma_grouped(x, a, b);
    lemma_grouped(x, a + b, c);
    lemma_grouped(x, a + b + c, d);
}

proof fn lemma_grouped(x: Seq<char>, y: Seq<char>, z: Seq<char>)
    ensures
        x + y + z == x + (y + z),
{
    assert(x + y + z =~= x + (y + z));
}

/// What one of several parts holds, their concatenation holds.
pub proof fn lemma_held_by_part(parts: Seq<Seq<char>>, i: int, p: Seq<char>)
    requires
        0 <= i < parts.len(),
        contains_text(parts[i], p),
    ensures
        contains_text(concat(parts), p),
    decreases parts.len(),
{
    let front = parts.drop_last();
    if i < front.len() {
        assert(front[i] == parts[i]);
        lemma_held_by_part(front, i, p);
        lemma_held_within(Seq::empty(), concat(front), parts.last(), p);
    } else {
        lemma_held_within(concat(front), parts.last(), Seq::empty(), p);
    }
}

// ---- references ----

/// A reference's row names its file and line.
pub proof fn law_a_reference_row_names_its_place(r: ReferenceText)
    ensures
        contains_text(
            reference_row(r),
            "- `"@ + r.file_path + ":"@ + decimal(r.line as nat),
        ),
{
    let place = "- `"@ + r.file_path + ":"@ + decimal(r.line as nat);
    let shown = r.content.take(fitting(r.content, 80) as int);
    lemma_held_by_itself(place);
    lemma_held_by_front(place, "` - `"@, place);
    lemma_held_by_front(place + "` - `"@, shown, place);
    lemma_held_by_front(place + "` - `"@ + shown, "`\n"@, place);
}

/// Every reference of the page is shown, with its file and line.
pub proof fn law_every_reference_of_the_page_is_shown(
    list: Seq<ReferenceText>,
    lsp: bool,
    symbol: Seq<char>,
    window: ListWindow,
    i: int,
)
    requires
        window.start(list.len()) <= window.end(list.len()) <= list.len(),
        window.start(list.len()) <= i < window.end(list.len()),
    ensures
        contains_text(
            references_answer(list, lsp, symbol, window),
            "- `"@ + list[i].file_path + ":"@ + decimal(list[i].line as nat),
        ),
{
    let from = window.start(list.len());
    let page = list.subrange(from, window.end(list.len()));
    let f = |r: ReferenceText| reference_row(r);
    let rows = page.map_values(f);
    let place = "- `"@ + list[i].file_path + ":"@ + decimal(list[i].line as nat);
    law_a_reference_row_names_its_place(list[i]);
    assert(rows[i - from] == reference_row(list[i]));
    lemma_held_by_part(rows, i - from, place);
    let mark = if lsp {
        " (LSP enhanced)"@
    } else {
        ""@
    };
    let head = "# References to `"@ + symbol + "`"@ + mark + "\n\nFound "@ + decimal(
        list.len() as nat,
    ) + " references\n\n"@;
    let tail = crate::references::references_rest(
        list,
        crate::budget::capped_spec(window, list.len()),
    );
    lemma_held_by_end(head, concat(rows), place);
    lemma_held_by_front(head + concat(rows), tail, place);
}

/// The total of the references is told.
pub proof fn law_references_are_counted(
    list: Seq<ReferenceText>,
    lsp: bool,
    symbol: Seq<char>,
    window: ListWindow,
)
    ensures
        contains_text(
            references_answer(list, lsp, symbol, window),
            "\n\nFound "@ + decimal(list.len() as nat) + " references\n\n"@,
        ),
{
    let page = list.subrange(window.start(list.len()), window.end(list.len()));
    let f = |r: ReferenceText| reference_row(r);
    let rows = page.map_values(f);
    let mark = if lsp {
        " (LSP enhanced)"@
    } else {
        ""@
    };
    let lead = "# References to `"@ + symbol + "`"@ + mark;
    let tail = crate::references::references_rest(
        list,
        crate::budget::capped_spec(window, list.len()),
    );
    let a = "\n\nFound "@;
    let b = decimal(list.len() as nat);
    let c = " references\n\n"@;
    let count = a + b + c;
    lemma_held_by_itself(count);
    lemma_held_by_end(lead, count, count);
    lemma_grouped(lead, a, b);
    lemma_grouped(lead, a + b, c);
    lemma_held_by_front(lead + a + b + c, concat(rows), count);
    lemma_held_by_front(lead + a + b + c + concat(rows), tail, count);
}

/// Listing everything shows every mention outside the tests, the text's and the server's.
pub proof fn law_references_show_both_sources(
    text: Seq<ReferenceText>,
    server: Seq<ReferenceText>,
    tests: Seq<Seq<char>>,
    symbol: Seq<char>,
    r: ReferenceText,
)
    requires
        text.contains(r) || server.contains(r),
        !tests.contains(r.file_path),
    ensures
        contains_text(
            found_references(text, Some(server), tests, symbol, ListWindow { offset: 0, limit: 0 }),
            "- `"@ + r.file_path + ":"@ + decimal(r.line as nat),
        ),
        text.contains(r) ==> contains_text(
            found_references(text, None, tests, symbol, ListWindow { offset: 0, limit: 0 }),
            "- `"@ + r.file_path + ":"@ + decimal(r.line as nat),
        ),
{
    let all = ListWindow { offset: 0, limit: 0 };
    let pred = |x: ReferenceText| !tests.contains(x.file_path);
    lemma_filter_members(text, pred, r);
    lemma_filter_members(server, pred, r);
    let a = outside_tests(text, tests);
    let b = outside_tests(server, tests);
    let merged = crate::references::merged_references(a, b);
    crate::references::law_merging_unions_both_sources(a, b);
    assert(crate::references::spot_taken(merged, r)) by {
        if a.contains(r) {
            let k = choose|k: int| 0 <= k < a.len() && a[k] == r;
            assert(crate::references::spot_taken(merged, a[k]));
        } else {
            let k = choose|k: int| 0 <= k < b.len() && b[k] == r;
            assert(crate::references::spot_taken(merged, b[k]));
        }
    }
    let m = choose|m: int|
        0 <= m < merged.len() && crate::references::same_spot(#[trigger] merged[m], r);
    law_every_reference_of_the_page_is_shown(merged, b.len() > 0, symbol, all, m);
    if text.contains(r) {
        let k = choose|k: int| 0 <= k < a.len() && a[k] == r;
        law_every_reference_of_the_page_is_shown(a, false, symbol, all, k);
    }
}

// ---- symbols ----

/// A symbol's row names it, its file and where it begins.
pub proof fn law_a_symbol_row_names_its_place(s: SymbolText, cxx: SourceSet, other: SourceSet)
    ensures
        contains_text(
            symbol_row(s, cxx, other),
            "- **"@ + s.name + "** (`"@ + s.file_path + ":"@ + decimal(s.start_line as nat),
        ),
{
    let entry = "- **"@ + s.name + "** (`"@ + s.file_path + ":"@ + decimal(s.start_line as nat);
    let signature = match s.signature {
        Some(t) => t,
        None => Seq::empty(),
    };
    let annotation = match crate::lookup::symbol_annotation(s, cxx, other) {
        Some(a) => " _("@ + a + ")_"@,
        None => Seq::empty(),
    };
    lemma_held_by_itself(entry);
    lemma_held_by_front(entry, "`) "@, entry);
    lemma_held_by_front(entry + "`) "@, signature, entry);
    lemma_held_by_front(entry + "`) "@ + signature, annotation, entry);
    lemma_held_by_front(entry + "`) "@ + signature + annotation, "\n"@, entry);
}

proof fn lemma_kind_is_listed(list: Seq<SymbolText>, i: int)
    requires
        0 <= i < list.len(),
    ensures
        kinds_of(list).contains(list[i].kind),
    decreases list.len(),
{
    let front = list.drop_last();
    let before = kinds_of(front);
    let all = kinds_of(list);
    if i < front.len() {
        assert(front[i] == list[i]);
        lemma_kind_is_listed(front, i);
        let k = choose|k: int| 0 <= k < before.len() && before[k] == list[i].kind;
        assert(all[k] == list[i].kind);
    } else if !before.contains(list[i].kind) {
        assert(all[all.len() - 1] == list[i].kind);
    }
}

proof fn lemma_symbol_is_grouped(
    list: Seq<SymbolText>,
    i: int,
    cxx: SourceSet,
    other: SourceSet,
    entry: Seq<char>,
)
    requires
        0 <= i < list.len(),
        contains_text(symbol_row(list[i], cxx, other), entry),
    ensures
        contains_text(grouped_symbols(list, cxx, other), entry),
{
    let kind = list[i].kind;
    lemma_kind_is_listed(list, i);
    let kinds = kinds_of(list);
    let g = choose|g: int| 0 <= g < kinds.len() && kinds[g] == kind;
    let pred = |s: SymbolText| s.kind == kind;
    let f = |s: SymbolText| symbol_row(s, cxx, other);
    let own = list.filter(pred);
    assert(list.contains(list[i]));
    lemma_filter_members(list, pred, list[i]);
    let k = choose|k: int| 0 <= k < own.len() && own[k] == list[i];
    let rows = own.map_values(f);
    assert(rows[k] == symbol_row(list[i], cxx, other));
    lemma_held_by_part(rows, k, entry);
    let title = "## "@ + kind.name_spec() + "s\n\n"@;
    lemma_held_by_end(title, concat(rows), entry);
    lemma_held_by_front(title + concat(rows), "\n"@, entry);
    assert(contains_text(kind_group(list, kind, cxx, other), entry));
    let h = |x: SymbolKind| kind_group(list, x, cxx, other);
    let groups = kinds.map_values(h);
    assert(groups[g] == kind_group(list, kind, cxx, other));
    lemma_held_by_part(groups, g, entry);
}

/// Each of the first symbols, up to the limit, is shown with its file and line.
pub proof fn law_the_first_symbols_are_shown(
    repo: Seq<char>,
    symbols: Seq<SymbolText>,
    q: QueryText,
    tests: Seq<Seq<char>>,
    filtered: Seq<Seq<char>>,
    submodules: Seq<Seq<char>>,
    cxx: SourceSet,
    other: SourceSet,
    i: int,
)
    requires
        !is_unfiltered(q),
        0 <= i < by_relevance(selected_symbols(symbols, q, tests), q.pattern).len(),
        i < q.limit,
    ensures
        ({
            let s = by_relevance(selected_symbols(symbols, q, tests), q.pattern)[i];
            contains_text(
                find_symbols_spec(repo, symbols, q, tests, filtered, submodules, cxx, other),
                "- **"@ + s.name + "** (`"@ + s.file_path + ":"@ + decimal(s.start_line as nat),
            )
        }),
{
    let ranked = by_relevance(selected_symbols(symbols, q, tests), q.pattern);
    let s = ranked[i];
    let entry = "- **"@ + s.name + "** (`"@ + s.file_path + ":"@ + decimal(s.start_line as nat);
    let shown = if ranked.len() > q.limit {
        ranked.take(q.limit as int)
    } else {
        ranked
    };
    assert(shown[i] == s);
    law_a_symbol_row_names_its_place(s, cxx, other);
    lemma_symbol_is_grouped(shown, i, cxx, other, entry);
    let note = Seq::<char>::empty();
    let head = "# Symbols in "@ + repo + "\n\n"@ + crate::lookup::found_line(ranked.len(), q.limit)
        + note;
    let tail = crate::lookup::submodule_note_spec(repo, submodules);
    let body = grouped_symbols(shown, cxx, other);
    lemma_held_by_end(head, body, entry);
    lemma_held_by_front(head + body, tail, entry);
    assert(symbols_answer(repo, ranked, q.limit, note, submodules, cxx, other) == head + body
        + tail);
}

// ---- callers and callees ----

/// An edge's row names the function, and where the call stands.
pub proof fn law_an_edge_row_names_its_place(
    tool: EdgeTool,
    e: EdgeText,
    cxx: SourceSet,
    other: SourceSet,
)
    ensures
        contains_text(
            edge_row(tool, e, cxx, other),
            "- `"@ + e.target + "` at `"@ + e.file_path + ":"@ + decimal(e.line as nat),
        ),
{
    let entry = "- `"@ + e.target + "` at `"@ + e.file_path + ":"@ + decimal(e.line as nat);
    let annotation = if tool == EdgeTool::Callers {
        crate::calltools::edge_annotation(e, cxx, other)
    } else {
        Seq::empty()
    };
    lemma_held_by_itself(entry);
    lemma_held_by_front(entry, "`"@, entry);
    lemma_held_by_front(entry + "`"@, annotation, entry);
    lemma_held_by_front(entry + "`"@ + annotation, " ("@, entry);
    lemma_held_by_front(entry + "`"@ + annotation + " ("@, e.call_type, entry);
    lemma_held_by_front(entry + "`"@ + annotation + " ("@ + e.call_type, ")\n"@, entry);
}

/// Every edge of the page is shown.
pub proof fn law_every_edge_of_the_page_is_shown(
    tool: EdgeTool,
    function: Seq<char>,
    note: Seq<char>,
    edges: Seq<EdgeText>,
    tests: Seq<Seq<char>>,
    window: ListWindow,
    cxx: SourceSet,
    other: SourceSet,
    i: int,
)
    requires
        ({
            let kept = edges_kept(tool, edges, tests);
            &&& window.start(kept.len()) <= window.end(kept.len()) <= kept.len()
            &&& window.start(kept.len()) <= i < window.end(kept.len())
        }),
    ensures
        ({
            let e = edges_kept(tool, edges, tests)[i];
            contains_text(
                direct_spec(tool, function, note, edges, tests, window, cxx, other),
                "- `"@ + e.target + "` at `"@ + e.file_path + ":"@ + decimal(e.line as nat),
            )
        }),
{
    let kept = edges_kept(tool, edges, tests);
    let e = kept[i];
    let entry = "- `"@ + e.target + "` at `"@ + e.file_path + ":"@ + decimal(e.line as nat);
    let from = window.start(kept.len());
    let page = kept.subrange(from, window.end(kept.len()));
    let f = |x: EdgeText| edge_row(tool, x, cxx, other);
    let rows = page.map_values(f);
    law_an_edge_row_names_its_place(tool, e, cxx, other);
    assert(rows[i - from] == edge_row(tool, e, cxx, other));
    lemma_held_by_part(rows, i - from, entry);
    let head = crate::calltools::edges_header(tool, function, note) + "Found "@ + decimal(
        kept.len(),
    ) + " direct "@ + tool.noun_spec() + "\n\n"@;
    let tail = crate::calltools::edges_rest(
        tool,
        kept,
        crate::budget::capped_spec(window, kept.len()),
    );
    lemma_held_by_end(head, concat(rows), entry);
    lemma_held_by_front(head + concat(rows), tail, entry);
    let body = head + concat(rows) + tail;
    lemma_held_by_front(body, "*No "@, entry);
    lemma_held_by_front(body + "*No "@, tool.noun_spec(), entry);
    lemma_held_by_front(body + "*No "@ + tool.noun_spec(), " found.*\n"@, entry);
}

// ---- search results ----

/// Every result of a search is shown with its file, lines and text.
pub proof fn law_every_result_is_shown(
    query: Seq<char>,
    results: Seq<ScoredText>,
    fallback: bool,
    several: bool,
    i: int,
)
    requires
        0 <= i < results.len(),
    ensures
        contains_text(search_answer(query, results, fallback, several), results[i].file_path),
        contains_text(search_answer(query, results, fallback, several), results[i].content),
        contains_text(
            search_answer(query, results, fallback, several),
            "Lines "@ + decimal(results[i].start_line as nat) + "-"@ + decimal(
                results[i].end_line as nat,
            ),
        ),
{
    let h = results[i];
    let span = "Lines "@ + decimal(h.start_line as nat) + "-"@ + decimal(h.end_line as nat);
    lemma_result_row(i, h, several);
    lemma_row_is_shown(query, results, fallback, several, i, h.file_path);
    lemma_row_is_shown(query, results, fallback, several, i, h.content);
    lemma_row_is_shown(query, results, fallback, several, i, span);
}

proof fn lemma_result_row(i: int, h: ScoredText, several: bool)
    ensures
        contains_text(result_row(i, h, several), h.file_path),
        contains_text(result_row(i, h, several), h.content),
        contains_text(
            result_row(i, h, several),
            "Lines "@ + decimal(h.start_line as nat) + "-"@ + decimal(h.end_line as nat),
        ),
{
    let home = if several {
        "**Repo**: `"@ + h.repo + "`\n"@
    } else {
        Seq::empty()
    };
    let span = "Lines "@ + decimal(h.start_line as nat) + "-"@ + decimal(h.end_line as nat);
    let a = "## "@ + decimal((i + 1) as nat) + ". `"@;
    let b = a + h.file_path;
    let c = b + "`\n"@ + home;
    let d = c + "Lines "@ + decimal(h.start_line as nat) + "-"@ + decimal(h.end_line as nat);
    lemma_held_by_itself(h.file_path);
    lemma_held_by_end(a, h.file_path, h.file_path);
    lemma_held_by_front(b, "`\n"@, h.file_path);
    lemma_held_by_front(b + "`\n"@, home, h.file_path);
    lemma_four_held(
        c,
        "Lines "@,
        decimal(h.start_line as nat),
        "-"@,
        decimal(h.end_line as nat),
    );
    lemma_held_by_front(c, "Lines "@, h.file_path);
    lemma_held_by_front(c + "Lines "@, decimal(h.start_line as nat), h.file_path);
    lemma_held_by_front(c + "Lines "@ + decimal(h.start_line as nat), "-"@, h.file_path);
    lemma_held_by_front(
        c + "Lines "@ + decimal(h.start_line as nat) + "-"@,
        decimal(h.end_line as nat),
        h.file_path,
    );
    let e = d + " | Score: "@ + h.score_text + "\n\n```"@ + h.language + "\n"@;
    lemma_result_tail(d, h, h.file_path);
    lemma_result_tail(d, h, span);
    lemma_held_by_itself(h.content);
    lemma_held_by_end(e, h.content, h.content);
    lemma_held_by_front(e + h.content, "\n```\n\n"@, h.content);
}

proof fn lemma_result_tail(d: Seq<char>, h: ScoredText, p: Seq<char>)
    requires
        contains_text(d, p),
    ensures
        contains_text(
            d + " | Score: "@ + h.score_text + "\n\n```"@ + h.language + "\n"@ + h.content
                + "\n```\n\n"@,
            p,
        ),
{
    let d1 = d + " | Score: "@;
    let d2 = d1 + h.score_text;
    let d3 = d2 + "\n\n```"@;
    let d4 = d3 + h.language;
    let d5 = d4 + "\n"@;
    let d6 = d5 + h.content;
    lemma_held_by_front(d, " | Score: "@, p);
    lemma_held_by_front(d1, h.score_text, p);
    lemma_held_by_front(d2, "\n\n```"@, p);
    lemma_held_by_front(d3, h.language, p);
    lemma_held_by_front(d4, "\n"@, p);
    lemma_held_by_front(d5, h.content, p);
    lemma_held_by_front(d6, "\n```\n\n"@, p);
}

proof fn lemma_row_is_shown(
    query: Seq<char>,
    results: Seq<ScoredText>,
    fallback: bool,
    several: bool,
    i: int,
    p: Seq<char>,
)
    requires
        0 <= i < results.len(),
        contains_text(result_row(i, results[i], several), p),
    ensures
        contains_text(search_answer(query, results, fallback, several), p),
{
    let rows = Seq::new(results.len(), |k: int| result_row(k, results[k], several));
    assert(rows[i] == result_row(i, results[i], several));
    lemma_held_by_part(rows, i, p);
    let note = if fallback && results.len() > 0 {
        "*No single line contained all terms; showing files that contain every term across multiple lines.*\n\n"@
    } else {
        Seq::empty()
    };
    let head = "# Search Results for: `"@ + query + "`\n\nFound "@ + decimal(results.len() as nat)
        + " results\n\n"@ + note;
    lemma_held_by_end(head, concat(rows), p);
}

// ---- definitions ----

/// A definition is shown with every line of its body, marked and numbered.
pub proof fn law_a_definition_shows_its_body(
    matches: Seq<SymbolText>,
    s: SymbolText,
    lines: Seq<Seq<char>>,
    context: usize,
    cxx: SourceSet,
    other: SourceSet,
    hover: Option<Seq<char>>,
    i: int,
)
    requires
        s.start_line >= 1,
        s.start_line <= i + 1 <= s.end_line,
        i < lines.len(),
    ensures
        contains_text(
            definition_answer(matches, s, lines, context, cxx, other, hover),
            "→"@ + " "@ + crate::text::pad_four(decimal((i + 1) as nat)) + " │ "@ + lines[i] + "\n"@,
        ),
{
    let end = crate::show::smaller(s.end_line + context, lines.len() as int);
    let start = window_start(s.start_line, context, end);
    let row = "→"@ + " "@ + crate::text::pad_four(decimal((i + 1) as nat)) + " │ "@ + lines[i]
        + "\n"@;
    assert(start <= i < end);
    let rows = Seq::new(
        (end - start) as nat,
        |k: int| marked_line(lines, start + k, s.start_line, s.end_line),
    );
    assert(rows[i - start] == row);
    lemma_held_by_itself(row);
    lemma_held_by_part(rows, i - start, row);
    let provenance = match crate::lookup::symbol_annotation(s, cxx, other) {
        Some(a) => "**Provenance**: "@ + a + "\n\n"@,
        None => Seq::empty(),
    };
    let types = match hover {
        Some(h) => "\n## Type Information (LSP enhanced)\n\n"@ + h + "\n"@,
        None => Seq::empty(),
    };
    let head = "# "@ + s.name + "\n\n"@ + crate::symbols::definition_note_spec(matches, s)
        + "**File**: `"@ + s.file_path + "`\n**Lines**: "@ + decimal(s.start_line as nat) + "-"@
        + decimal(s.end_line as nat) + "\n**Kind**: "@ + s.kind.name_spec() + "\n\n"@ + provenance
        + "```"@ + crate::languages::get_language_id_spec(s.file_path) + "\n"@ + types;
    let body = marked_lines(lines, start, end, s.start_line, s.end_line);
    lemma_held_by_end(head, body, row);
    lemma_held_by_front(head + body, "```\n"@, row);
}

// ---- files ----

/// A file is shown from the line asked for to the line asked for, counted from one, as far as
/// it goes.
pub proof fn law_the_lines_asked_for(first: usize, last: usize, total: nat)
    requires
        1 <= first <= last,
        first <= total,
    ensures
        range_error(Some(first), Some(last), total) is None,
        range_start(Some(first)) == first - 1,
        range_end(Some(last), total) == (if last <= total {
            last as int
        } else {
            total as int
        }),
        range_start(None) == 0,
        range_end(None, total) == total,
{
}

/// A range that is turned round or begins behind the end is refused.
pub proof fn law_an_empty_range_is_refused(first: usize, last: usize, total: nat)
    requires
        first > last || first > total,
        first > 1,
    ensures
        range_error(Some(first), Some(last), total) is Some,
        first > total ==> range_error(Some(first), None, total) is Some,
{
}

/// Every line that the answer says it shows is there, with its number.
pub proof fn law_every_line_of_the_range_is_shown(
    path: Seq<char>,
    lines: Seq<Seq<char>>,
    start: int,
    end: int,
    max_bytes: usize,
    i: int,
)
    requires
        0 <= start <= i < last_shown(lines, start, end, max_bytes),
        end <= lines.len(),
    ensures
        contains_text(
            file_answer(path, lines, start, end, max_bytes),
            crate::text::pad_four(decimal((i + 1) as nat)) + " │ "@ + lines[i] + "\n"@,
        ),
{
    let to = last_shown(lines, start, end, max_bytes);
    let row = numbered_line(lines, i);
    let rows = Seq::new((to - start) as nat, |k: int| numbered_line(lines, start + k));
    assert(rows[i - start] == row);
    lemma_held_by_itself(row);
    lemma_held_by_part(rows, i - start, row);
    let note = if to < end {
        "\n*Stopped at the "@ + decimal((max_bytes / 1024) as nat) + " KB response budget, "@
            + decimal((end - to) as nat) + " lines short of the requested line "@
            + decimal(end as nat) + ". Continue with `start_line="@ + decimal((to + 1) as nat)
            + "`.*\n"@
    } else {
        Seq::empty()
    };
    let head = "# "@ + path + "\n\nLines "@ + decimal((start + 1) as nat) + "-"@ + decimal(
        to as nat,
    ) + " of "@ + decimal(lines.len() as nat) + "\n\n```"@
        + crate::languages::get_language_id_spec(path) + "\n"@;
    let body = listing(lines, start, to);
    lemma_held_by_end(head, body, row);
    lemma_held_by_front(head + body, "```\n"@, row);
    lemma_held_by_front(head + body + "```\n"@, note, row);
}

/// The size of a range of a file as it is listed.
pub open spec fn listed_size(lines: Seq<Seq<char>>, from: int, to: int) -> int
    decreases to - from,
{
    if from >= to {
        0
    } else {
        utf8_len(numbered_line(lines, from)) + listed_size(lines, from + 1, to)
    }
}

proof fn lemma_all_listed(lines: Seq<Seq<char>>, i: int, end: int, room: int)
    requires
        i <= end,
        listed_size(lines, i, end) <= room,
    ensures
        listed_to(lines, i, end, room) == end,
    decreases end - i,
{
    if i < end {
        lemma_size_is_no_debt(lines, i + 1, end);
        lemma_all_listed(lines, i + 1, end, room - utf8_len(numbered_line(lines, i)));
    }
}

proof fn lemma_size_is_no_debt(lines: Seq<Seq<char>>, i: int, end: int)
    ensures
        listed_size(lines, i, end) >= 0,
    decreases end - i,
{
    if i < end {
        lemma_size_is_no_debt(lines, i + 1, end);
    }
}

/// A range that fits the budget is shown to its end.
pub proof fn law_a_range_that_fits_is_shown_whole(
    lines: Seq<Seq<char>>,
    start: int,
    end: int,
    max_bytes: usize,
)
    requires
        0 <= start <= end <= lines.len(),
        max_bytes >= 1024,
        listed_size(lines, start, end) <= max_bytes - 1024,
    ensures
        last_shown(lines, start, end, max_bytes) == end,
{
    lemma_all_listed(lines, start, end, listing_budget(max_bytes));
}

// ---- pages ----

/// A page begins at its offset and has as many entries as asked for, or as there are.
pub proof fn law_a_page_has_what_was_asked_for(window: ListWindow, total: nat)
    requires
        window.offset <= total,
    ensures
        window.start(total) == window.offset,
        window.limit == 0 ==> window.end(total) == total,
        window.limit > 0 && window.offset + window.limit <= total ==> window.end(total)
            == window.offset + window.limit,
        window.limit > 0 && window.offset + window.limit > total ==> window.end(total) == total,
{
}

} // verus!
