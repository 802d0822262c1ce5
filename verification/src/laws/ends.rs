//! What a tool answers, from what was asked to what is said.

use vstd::prelude::*;

use crate::budget::ListWindow;
use crate::callgraph::{folded, EdgeText, ReferenceText};
use crate::calltools::{ambiguity_spec, edge_home, edges_kept, EdgeTool};
use crate::engine::{symbols_of, ArgText, EngineText};
use crate::laws::answers::{
    law_a_definition_shows_its_body, law_every_edge_of_the_page_is_shown,
    law_every_line_of_the_range_is_shown, law_every_reference_of_the_page_is_shown,
    law_the_first_symbols_are_shown,
};
use crate::laws::lists::lemma_filter_members;
use crate::laws::mentions::law_every_mention_is_listed;
use crate::laws::selections::{
    is_asked_for, is_plain, law_every_name_that_holds_the_pattern_is_selected,
    law_relevance_only_reorders,
};
use crate::lookup::{by_relevance, selected_symbols, QueryText};
use crate::paths::strip_base;
use crate::references::{outside_tests, text_references};
use crate::scope::glob_valid;
use crate::show::{best_definition, last_shown, symbols_named};
use crate::symbols::{SourceSet, SymbolText};
use crate::text::{contains_text, decimal, lines_of, lower_text, pad_four, trim_spec};
use crate::tools::{
    callers_said, definition_said, file_said, read_from, references_said, symbols_said, usages_said,
    DiskText,
};
use crate::usages::AnswerText;

verus! {

/// Where the repository cannot be told, every one of these tools answers with that error.
pub proof fn law_an_unknown_repo_is_an_error(
    state: EngineText,
    arg: ArgText,
    text: Seq<char>,
    q: QueryText,
    tests: Seq<Seq<char>>,
    disk: Seq<DiskText>,
    server: Option<Seq<ReferenceText>>,
    edges: Seq<EdgeText>,
    answers: Seq<AnswerText>,
    window: ListWindow,
    n: usize,
    sources: SourceSet,
)
    requires
        state.resolved(arg) is Err,
    ensures
        symbols_said(state, arg, q, tests, tests, tests, sources, sources) == state.resolved(arg),
        definition_said(state, arg, text, n, None, disk, None, sources, sources)
            == state.resolved(arg),
        file_said(state, arg, text, None, None, n, disk) == state.resolved(arg),
        references_said(state, arg, text, server, tests, window) == state.resolved(arg),
        usages_said(state, arg, text, true, tests, answers) == state.resolved(arg),
        callers_said(state, arg, text, tests, edges, None, tests, window, sources, sources)
            == state.resolved(arg),
{
}

/// Asked for all references of a symbol, the answer names every line of the repository's files
/// that holds it, tests left out.
pub proof fn law_every_mention_is_answered(
    state: EngineText,
    arg: ArgText,
    key: Seq<char>,
    symbol: Seq<char>,
    tests: Seq<Seq<char>>,
    i: int,
    k: int,
    before: Seq<char>,
    after: Seq<char>,
)
    requires
        state.resolved(arg) == Ok::<Seq<char>, Seq<char>>(key),
        0 <= i < state.files.len(),
        strip_base(state.files[i].path, key) is Some,
        !tests.contains(strip_base(state.files[i].path, key)->0),
        0 <= k < lines_of(state.files[i].content).len() <= usize::MAX,
        lines_of(state.files[i].content)[k] == before + symbol + after,
    ensures
        references_said(
            state,
            arg,
            symbol,
            None,
            tests,
            (ListWindow { offset: 0, limit: 0 }),
        ) matches Ok(text) && contains_text(
            text,
            "- `"@ + strip_base(state.files[i].path, key)->0 + ":"@ + decimal((k + 1) as nat),
        ),
{
    let window = ListWindow { offset: 0, limit: 0 };
    let all = text_references(state.files, key, symbol);
    let r = ReferenceText {
        file_path: strip_base(state.files[i].path, key)->0,
        line: (k + 1) as usize,
        content: trim_spec(before + symbol + after),
    };
    law_every_mention_is_listed(state.files, key, symbol, i, k, before, after);
    let pred = |q: ReferenceText| !tests.contains(q.file_path);
    lemma_filter_members(all, pred, r);
    let list = outside_tests(all, tests);
    assert(list =~= all.filter(pred));
    let j = choose|j: int| 0 <= j < list.len() && list[j] == r;
    law_every_reference_of_the_page_is_shown(list, false, symbol, window, j);
}

/// Asked for symbols by a pattern without wildcards, with room for all that were selected, the
/// answer names every one of the wanted kind and file whose name holds the pattern.
pub proof fn law_every_name_that_holds_the_pattern_is_answered(
    state: EngineText,
    arg: ArgText,
    key: Seq<char>,
    list: Seq<SymbolText>,
    q: QueryText,
    tests: Seq<Seq<char>>,
    filtered: Seq<Seq<char>>,
    submodules: Seq<Seq<char>>,
    cxx: SourceSet,
    other: SourceSet,
    s: SymbolText,
    before: Seq<char>,
    after: Seq<char>,
)
    requires
        state.resolved(arg) == Ok::<Seq<char>, Seq<char>>(key),
        symbols_of(state.repos, key) == Some(list),
        q.pattern is Some,
        is_plain(q.pattern->0) || !glob_valid(q.pattern->0),
        list.contains(s),
        is_asked_for(s, q, tests),
        lower_text(s.name) == before + lower_text(q.pattern->0) + after,
        by_relevance(selected_symbols(list, q, tests), q.pattern).len() <= q.limit,
    ensures
        symbols_said(
            state,
            arg,
            q,
            tests,
            filtered,
            submodules,
            cxx,
            other,
        ) matches Ok(text) && contains_text(
            text,
            "- **"@ + s.name + "** (`"@ + s.file_path + ":"@ + decimal(s.start_line as nat),
        ),
{
    let ranked = by_relevance(selected_symbols(list, q, tests), q.pattern);
    law_every_name_that_holds_the_pattern_is_selected(list, q, tests, s, before, after);
    law_relevance_only_reorders(selected_symbols(list, q, tests), q.pattern, s);
    let i = choose|i: int| 0 <= i < ranked.len() && ranked[i] == s;
    law_the_first_symbols_are_shown(
        key,
        list,
        q,
        tests,
        filtered,
        submodules,
        cxx,
        other,
        i,
    );
}

/// Asked for the definition of a name that the index knows, the answer shows every line of its
/// body, as the file has it.
pub proof fn law_the_body_of_a_definition_is_answered(
    state: EngineText,
    arg: ArgText,
    key: Seq<char>,
    list: Seq<SymbolText>,
    name: Seq<char>,
    context: usize,
    tag: Option<(Seq<char>, usize)>,
    disk: Seq<DiskText>,
    hover: Option<Seq<char>>,
    cxx: SourceSet,
    other: SourceSet,
    content: Seq<char>,
    n: int,
    k: int,
)
    requires
        state.resolved(arg) == Ok::<Seq<char>, Seq<char>>(key),
        symbols_of(state.repos, key) == Some(list),
        best_definition(symbols_named(list, name)) == Some(n),
        read_from(disk, key, symbols_named(list, name)[n].file_path) == Ok::<
            Seq<char>,
            Seq<char>,
        >(content),
        1 <= symbols_named(list, name)[n].start_line <= k <= symbols_named(list, name)[n].end_line,
        k <= lines_of(content).len(),
    ensures
        definition_said(
            state,
            arg,
            name,
            context,
            tag,
            disk,
            hover,
            cxx,
            other,
        ) matches Ok(text) && contains_text(
            text,
            "→"@ + " "@ + pad_four(decimal(k as nat)) + " │ "@ + lines_of(content)[k - 1]
                + "\n"@,
        ),
{
    let found = symbols_named(list, name);
    law_a_definition_shows_its_body(
        found,
        found[n],
        lines_of(content),
        context,
        cxx,
        other,
        hover,
        k - 1,
    );
}

/// Asked for a file, the answer shows its lines as they are, numbered, as far as it says it goes.
pub proof fn law_the_lines_of_a_file_are_answered(
    state: EngineText,
    arg: ArgText,
    key: Seq<char>,
    path: Seq<char>,
    max_bytes: usize,
    disk: Seq<DiskText>,
    content: Seq<char>,
    k: int,
)
    requires
        state.resolved(arg) == Ok::<Seq<char>, Seq<char>>(key),
        read_from(disk, key, path) == Ok::<Seq<char>, Seq<char>>(content),
        0 <= k < last_shown(lines_of(content), 0, lines_of(content).len() as int, max_bytes),
    ensures
        file_said(state, arg, path, None, None, max_bytes, disk) matches Ok(text)
            && contains_text(
            text,
            pad_four(decimal((k + 1) as nat)) + " │ "@ + lines_of(content)[k] + "\n"@,
        ),
{
    let lines = lines_of(content);
    law_every_line_of_the_range_is_shown(path, lines, 0, lines.len() as int, max_bytes, k);
}

/// Asked for all callers of a function, without a server, the answer names every call site that
/// the call graph has, tests left out.
pub proof fn law_every_call_site_is_answered(
    state: EngineText,
    arg: ArgText,
    key: Seq<char>,
    function: Seq<char>,
    definitions: Seq<Seq<char>>,
    edges: Seq<EdgeText>,
    tests: Seq<Seq<char>>,
    cxx: SourceSet,
    other: SourceSet,
    e: EdgeText,
)
    requires
        state.resolved(arg) == Ok::<Seq<char>, Seq<char>>(key),
        trim_spec(function).len() > 0,
        state.initialized,
        state.call_graphs.contains(key),
        folded(edges).contains(e),
        !tests.contains(e.file_path),
    ensures
        callers_said(
            state,
            arg,
            function,
            definitions,
            edges,
            None,
            tests,
            (ListWindow { offset: 0, limit: 0 }),
            cxx,
            other,
        ) matches Ok(text) && contains_text(
            text,
            "- `"@ + e.target + "` at `"@ + e.file_path + ":"@ + decimal(e.line as nat),
        ),
{
    let tool = EdgeTool::Callers;
    let window = ListWindow { offset: 0, limit: 0 };
    let all = folded(edges);
    let pred = |x: EdgeText| !tests.contains(edge_home(tool, x));
    lemma_filter_members(all, pred, e);
    let kept = edges_kept(tool, all, tests);
    assert(kept =~= all.filter(pred));
    let i = choose|i: int| 0 <= i < kept.len() && kept[i] == e;
    law_every_edge_of_the_page_is_shown(
        tool,
        function,
        ambiguity_spec(definitions, function),
        all,
        tests,
        window,
        cxx,
        other,
        i,
    );
}

} // verus!
