//! Who calls whom.

use vstd::prelude::*;

use crate::callgraph::{
    called_at, calls_from, cxx_functions_of, folded, hierarchy_edges, is_call, is_cxx_file,
    key_file, key_of, merged_callers, outgoing_edges, tag_edge, CxxFunctionText, EdgeText,
    ReferenceText, TagReferenceText,
};
use crate::calltools::{
    call_graph_gap_spec, distant_kept, edges_kept, hotspots_kept, CallGraphGap, EdgeTool,
    HotspotText,
};
use crate::laws::lists::lemma_filter_members;
use crate::laws::texts::law_a_held_text_can_be_cut_out;
use crate::symbols::{SourceSet, SymbolKind, SymbolText};
use crate::text::{contains_text, find_from, is_space_spec, lemma_find_from, occurs_at};

verus! {

/// A function's key names its file.
pub proof fn law_a_key_names_its_file(file: Seq<char>, name: Seq<char>)
    requires
        !file.contains(':'),
    ensures
        key_file(key_of(file, name)) == file,
{
    reveal_strlit("::");
    let sep = "::"@;
    let key = key_of(file, name);
    lemma_find_from(key, sep, 0);
    let at = file.len() as int;
    assert(key.subrange(at, at + 2) =~= sep);
    assert(occurs_at(key, sep, at));
    let k = find_from(key, sep, 0)->0;
    if k < at {
        assert(key.subrange(k, k + 2)[0] == ':');
        assert(file[k] == ':');
    }
    assert(key.take(k) =~= file);
}

/// Functions of one file with the same key have the same name.
pub proof fn law_keys_tell_functions_apart(file: Seq<char>, a: Seq<char>, b: Seq<char>)
    requires
        key_of(file, a) == key_of(file, b),
    ensures
        a == b,
{
    let home = file + "::"@;
    assert(key_of(file, a).skip(home.len() as int) =~= a);
    assert(key_of(file, b).skip(home.len() as int) =~= b);
}

/// A line calls a function only where it holds its name, with something in brackets to come
/// and no letter of a longer name before it.
pub proof fn law_a_call_names_the_function(text: Seq<char>, name: Seq<char>, from: int)
    requires
        0 <= from <= text.len(),
        name.len() > 0,
        calls_from(text, name, from),
    ensures
        exists|before: Seq<char>, after: Seq<char>|
            text == #[trigger] (before + name + after) && (before.len() > 0
                ==> !crate::text::is_name_char(before.last())) && after.contains('('),
    decreases text.len() - from,
{
    lemma_find_from(text, name, from);
    let start = find_from(text, name, from)->0;
    if called_at(text, name, start) {
        let before = text.take(start);
        let after = text.skip(start + name.len());
        assert(text =~= before + name + after);
        let none = Seq::<char>::empty();
        let rest = crate::text::trim_start_class(after, none, true);
        crate::text::lemma_trim_start_is_suffix(after, none, true);
        assert(rest[0] == after[after.len() - rest.len()]);
        if before.len() > 0 {
            assert(before.last() == text[start - 1]);
        }
        assert(after.contains('('));
    } else {
        law_a_call_names_the_function(text, name, start + name.len());
    }
}

/// A name with its bracket right behind it, at the beginning of a line, is a call.
pub proof fn law_a_name_with_brackets_is_a_call(name: Seq<char>, rest: Seq<char>)
    requires
        name.len() > 0,
    ensures
        is_call(name + seq!['('] + rest, name, false),
        !is_call(name + seq!['('] + rest, name, true),
{
    let text = name + seq!['('] + rest;
    lemma_find_from(text, name, 0);
    assert(text.subrange(0, name.len() as int) =~= name);
    assert(occurs_at(text, name, 0));
    assert(find_from(text, name, 0) == Some(0int));
    let after = text.skip(name.len() as int);
    assert(after =~= seq!['('] + rest);
    assert(!is_space_spec('('));
    assert(!crate::text::in_class('(', Seq::empty(), true));
    assert(called_at(text, name, 0));
}

/// Every C or C++ function and method is asked about, where it begins.
pub proof fn law_every_cxx_function_is_asked_about(symbols: Seq<SymbolText>, i: int)
    requires
        0 <= i < symbols.len(),
        symbols[i].kind == SymbolKind::Function || symbols[i].kind == SymbolKind::Method,
        is_cxx_file(symbols[i].file_path),
    ensures
        cxx_functions_of(symbols).contains(
            (CxxFunctionText {
                name: symbols[i].name,
                file_path: symbols[i].file_path,
                line: symbols[i].start_line,
            }),
        ),
    decreases symbols.len(),
{
    let front = cxx_functions_of(symbols.drop_last());
    let all = cxx_functions_of(symbols);
    let item = CxxFunctionText {
        name: symbols[i].name,
        file_path: symbols[i].file_path,
        line: symbols[i].start_line,
    };
    if i == symbols.len() - 1 {
        assert(all[all.len() - 1] == item);
    } else {
        assert(symbols.drop_last()[i] == symbols[i]);
        law_every_cxx_function_is_asked_about(symbols.drop_last(), i);
        let j = choose|j: int| 0 <= j < front.len() && front[j] == item;
        assert(all[j] == item);
    }
}

/// Each call that a server answers becomes an edge of the function that was asked about: from
/// its key, to the callee, at the line of the call, marked with the server.
pub proof fn law_every_answered_call_is_an_edge(
    file: Seq<char>,
    functions: Seq<CxxFunctionText>,
    answers: Seq<Seq<(Seq<char>, usize)>>,
    backend: SourceSet,
    f: int,
    c: int,
)
    requires
        0 <= f < functions.len(),
        f < answers.len(),
        0 <= c < answers[f].len(),
    ensures
        exists|e: int|
            0 <= e < hierarchy_edges(file, functions, answers, backend).len() && (
            #[trigger] hierarchy_edges(file, functions, answers, backend)[e]).caller == key_of(
                file,
                functions[f].name,
            ) && hierarchy_edges(file, functions, answers, backend)[e].edge.target == answers[f][c].0
                && hierarchy_edges(file, functions, answers, backend)[e].edge.line
                == answers[f][c].1 && hierarchy_edges(
                file,
                functions,
                answers,
                backend,
            )[e].edge.file_path == file && hierarchy_edges(
                file,
                functions,
                answers,
                backend,
            )[e].edge.confirmed_by == backend,
    decreases functions.len(),
{
    let first = outgoing_edges(file, functions[0].name, answers[0], backend);
    let rest = hierarchy_edges(file, functions.skip(1), answers.skip(1), backend);
    let all = hierarchy_edges(file, functions, answers, backend);
    if f == 0 {
        assert(all[c] == first[c]);
    } else {
        assert(functions.skip(1)[f - 1] == functions[f]);
        assert(answers.skip(1)[f - 1] == answers[f]);
        law_every_answered_call_is_an_edge(
            file,
            functions.skip(1),
            answers.skip(1),
            backend,
            f - 1,
            c,
        );
        let e = choose|e: int|
            0 <= e < rest.len() && (#[trigger] rest[e]).caller == key_of(
                file,
                functions[f].name,
            ) && rest[e].edge.target == answers[f][c].0 && rest[e].edge.line == answers[f][c].1
                && rest[e].edge.file_path == file && rest[e].edge.confirmed_by == backend;
        assert(all[first.len() + e] == rest[e]);
    }
}

/// A use that is a call, inside a function other than the one it calls, becomes an edge of the
/// first function or method around it.
pub proof fn law_a_tagged_call_is_an_edge(
    callee: Seq<char>,
    t: TagReferenceText,
    symbols: Seq<SymbolText>,
    i: int,
)
    requires
        is_call(t.text, callee, t.comment_only),
        0 <= i < symbols.len(),
        symbols[i].kind == SymbolKind::Function || symbols[i].kind == SymbolKind::Method,
        symbols[i].file_path == t.file_path,
        symbols[i].start_line <= t.line <= symbols[i].end_line,
        symbols[i].name != callee,
        forall|j: int|
            0 <= j < i ==> (#[trigger] symbols[j]).file_path != t.file_path || t.line
                < symbols[j].start_line || symbols[j].end_line < t.line,
    ensures
        tag_edge(callee, t, symbols) matches Some(e) && e.caller == key_of(
            symbols[i].file_path,
            symbols[i].name,
        ) && e.edge.target == callee && e.edge.file_path == t.file_path && e.edge.line == t.line,
{
    lemma_first_covering(symbols, t.file_path, t.line, i);
}

proof fn lemma_first_covering(symbols: Seq<SymbolText>, file: Seq<char>, line: usize, i: int)
    requires
        0 <= i < symbols.len(),
        crate::symbols::covers(symbols[i], file, line),
        forall|j: int|
            0 <= j < i ==> (#[trigger] symbols[j]).file_path != file || line
                < symbols[j].start_line || symbols[j].end_line < line,
    ensures
        crate::callgraph::first_covering(symbols, file, line) == Some(symbols[i]),
    decreases symbols.len(),
{
    if i > 0 {
        let rest = symbols.skip(1);
        assert(rest[i - 1] == symbols[i]);
        assert forall|j: int| 0 <= j < i - 1 implies (#[trigger] rest[j]).file_path != file || line
            < rest[j].start_line || rest[j].end_line < line by {
            assert(rest[j] == symbols[j + 1]);
        }
        assert(symbols[0].file_path != file || line < symbols[0].start_line || symbols[0].end_line
            < line);
        lemma_first_covering(rest, file, line, i - 1);
    }
}

/// A use that a comment alone makes is no edge.
pub proof fn law_a_comment_calls_nothing(
    callee: Seq<char>,
    t: TagReferenceText,
    symbols: Seq<SymbolText>,
)
    requires
        t.comment_only,
    ensures
        tag_edge(callee, t, symbols) is None,
{
}

/// A reference that a server names, on a line that holds the function's name, where no symbol
/// of that name begins and no caller is known, adds one caller there.
pub proof fn law_a_new_reference_adds_a_caller(
    ast: Seq<EdgeText>,
    r: ReferenceText,
    function: Seq<char>,
    symbols: Seq<SymbolText>,
    source: SourceSet,
    before: Seq<char>,
    after: Seq<char>,
)
    requires
        r.content == before + function + after,
        forall|i: int| 0 <= i < ast.len() ==> (#[trigger] ast[i]).file_path != r.file_path
            || ast[i].line != r.line,
        forall|i: int|
            0 <= i < symbols.len() ==> (#[trigger] symbols[i]).name != function
                || symbols[i].file_path != r.file_path || symbols[i].start_line != r.line,
    ensures
        ({
            let merged = merged_callers(ast, seq![r], function, symbols, source);
            &&& merged.len() == ast.len() + 1
            &&& merged.last().file_path == r.file_path
            &&& merged.last().line == r.line
            &&& merged.last().confirmed_by == source
        }),
{
    law_a_held_text_can_be_cut_out(r.content, function);
    let refs = seq![r];
    assert(refs.drop_last() =~= Seq::<ReferenceText>::empty());
    assert(merged_callers(ast, refs.drop_last(), function, symbols, source) == ast);
    assert(refs.last() == r);
    assert(contains_text(r.content, function));
    assert(!crate::callgraph::edge_at(ast, r.file_path, r.line));
}

/// A reference at a caller that is known confirms it and adds none.
pub proof fn law_a_known_caller_is_confirmed(
    ast: Seq<EdgeText>,
    r: ReferenceText,
    function: Seq<char>,
    symbols: Seq<SymbolText>,
    source: SourceSet,
    i: int,
)
    requires
        0 <= i < ast.len(),
        ast[i].file_path == r.file_path,
        ast[i].line == r.line,
    ensures
        ({
            let merged = merged_callers(ast, seq![r], function, symbols, source);
            merged.len() == ast.len() && merged[i].target == ast[i].target
                && merged[i].confirmed_by.holds(source)
        }),
{
    let refs = seq![r];
    assert(refs.drop_last() =~= Seq::<ReferenceText>::empty());
    assert(merged_callers(ast, refs.drop_last(), function, symbols, source) == ast);
    assert(refs.last() == r);
    assert(crate::callgraph::edge_at(ast, r.file_path, r.line));
}

/// Folding loses no site: every edge's target, file and line is still listed, confirmed at
/// least by the sources of the edge.
pub proof fn law_folding_keeps_every_site(edges: Seq<EdgeText>, i: int)
    requires
        0 <= i < edges.len(),
    ensures
        exists|j: int|
            0 <= j < folded(edges).len() && (#[trigger] folded(edges)[j]).target == edges[i].target
                && folded(edges)[j].file_path == edges[i].file_path && folded(edges)[j].line
                == edges[i].line && folded(edges)[j].confirmed_by.holds(edges[i].confirmed_by),
    decreases edges.len(),
{
    let front = folded(edges.drop_last());
    let all = folded(edges);
    let e = edges.last();
    lemma_site(front, e);
    if i == edges.len() - 1 {
        match crate::callgraph::site_index(front, e) {
            Some(k) => {
                assert(all[k].confirmed_by.holds(e.confirmed_by));
                assert(all[k].target == e.target);
            },
            None => {
                assert(all[all.len() - 1] == e);
            },
        }
    } else {
        assert(edges.drop_last()[i] == edges[i]);
        law_folding_keeps_every_site(edges.drop_last(), i);
        let j = choose|j: int|
            0 <= j < front.len() && (#[trigger] front[j]).target == edges[i].target
                && front[j].file_path == edges[i].file_path && front[j].line == edges[i].line
                && front[j].confirmed_by.holds(edges[i].confirmed_by);
        assert(all[j].target == edges[i].target);
        assert(all[j].confirmed_by.holds(edges[i].confirmed_by));
    }
}

proof fn lemma_site(edges: Seq<EdgeText>, e: EdgeText)
    ensures
        crate::callgraph::site_index(edges, e) matches Some(i) ==> 0 <= i < edges.len()
            && edges[i].target == e.target && edges[i].file_path == e.file_path && edges[i].line
            == e.line,
    decreases edges.len(),
{
    if edges.len() > 0 {
        lemma_site(edges.drop_last(), e);
    }
}

/// Leaving tests out takes the callers in test files, and the callees that test files define,
/// and no others.
pub proof fn law_only_test_edges_are_left_out(
    edges: Seq<EdgeText>,
    tests: Seq<Seq<char>>,
    e: EdgeText,
)
    ensures
        edges_kept(EdgeTool::Callers, edges, tests).contains(e) <==> edges.contains(e)
            && !tests.contains(e.file_path),
        edges_kept(EdgeTool::Callees, edges, tests).contains(e) <==> edges.contains(e)
            && !tests.contains(key_file(e.target)),
{
    let callers = |x: EdgeText| !tests.contains(crate::calltools::edge_home(EdgeTool::Callers, x));
    let callees = |x: EdgeText| !tests.contains(crate::calltools::edge_home(EdgeTool::Callees, x));
    lemma_filter_members(edges, callers, e);
    lemma_filter_members(edges, callees, e);
}

/// The same of functions further away and of hotspots.
pub proof fn law_only_test_functions_are_left_out(
    list: Seq<(Seq<char>, usize)>,
    spots: Seq<HotspotText>,
    tests: Seq<Seq<char>>,
    d: (Seq<char>, usize),
    h: HotspotText,
)
    ensures
        distant_kept(list, tests).contains(d) <==> list.contains(d) && !tests.contains(
            key_file(d.0),
        ),
        hotspots_kept(spots, tests).contains(h) <==> spots.contains(h) && !tests.contains(
            key_file(h.key),
        ),
{
    let far = |x: (Seq<char>, usize)| !tests.contains(key_file(x.0));
    let hot = |x: HotspotText| !tests.contains(key_file(x.key));
    lemma_filter_members(list, far, d);
    lemma_filter_members(spots, hot, h);
}

/// A question about calls is answered once the start is over and there is a graph, and only
/// if it names a function.
pub proof fn law_a_call_question_is_answered(
    function: Seq<char>,
    initialized: bool,
    graph: bool,
)
    ensures
        call_graph_gap_spec(Some(function), initialized, graph) is None <==> initialized && graph
            && crate::text::trim_spec(function).len() > 0,
        call_graph_gap_spec(None, initialized, graph) is None <==> initialized && graph,
        crate::text::trim_spec(function).len() > 0 && !initialized ==> call_graph_gap_spec(
            Some(function),
            initialized,
            graph,
        ) == Some(CallGraphGap::Initializing),
{
}

} // verus!
