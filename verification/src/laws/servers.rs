//! What is asked of the language servers and of this one.

use vstd::prelude::*;

use crate::expose::expose_rejection_spec;
use crate::laws::answers::lemma_held_by_itself;
use crate::laws::ranked::lemma_held_by_joined;
use crate::lsp::{
    definition_places, flattened, hover_text, is_server_path, kind_spec, language_id_spec,
    marked_text, name_anchor_spec, outlined, path_of, switch_of, DocumentSymbol,
    GotoDefinitionResponse, Hover, HoverContents, LspManager, MarkedString,
};
use crate::mcp::{
    json_string_at, listed_tools, method_spec, parse_error_id, session_after, tool_named,
    JsonRpcRequest, McpServer, Method, Outcome, ToolFailure,
};
use crate::paths::ext_or_empty;
use crate::references::{anchor_from, utf16_col, whole_word_at, word_from};
use crate::symbols::{SourceSet, SymbolKind, SymbolText};
use crate::text::{ascii_lower_text, contains_text, lemma_find_from, occurs_at};

verus! {

// ---- language servers ----

/// A program's path may hold nothing that a shell would act on.
pub proof fn law_shell_characters_are_refused(path: Seq<char>, i: int)
    requires
        0 <= i < path.len(),
        path[i] == ';' || path[i] == '|' || path[i] == '&' || path[i] == '$' || path[i] == '`'
            || path[i] == '<' || path[i] == '>' || path[i] == '(' || path[i] == ')' || path[i]
            == '\n' || path[i] == '\r',
    ensures
        !is_server_path(path),
{
}

/// The path of a server that is configured first for a language is the one used.
pub proof fn law_a_configured_path_is_used(
    table: Seq<(String, String)>,
    language: Seq<char>,
    i: int,
)
    requires
        0 <= i < table.len(),
        table[i].0@ == language,
        forall|j: int| 0 <= j < i ==> (#[trigger] table[j]).0@ != language,
    ensures
        path_of(table, language) == Some(table[i].1@),
    decreases table.len(),
{
    if i > 0 {
        let rest = table.skip(1);
        assert(table[0].0@ != language);
        assert(rest[i - 1] == table[i]);
        assert forall|j: int| 0 <= j < i - 1 implies (#[trigger] rest[j]).0@ != language by {
            assert(rest[j] == table[j + 1]);
        }
        law_a_configured_path_is_used(rest, language, i - 1);
    }
}

/// A language has a server exactly where servers are on at all and its switch is on.
pub proof fn law_when_a_language_has_a_server(manager: LspManager, language: Seq<char>)
    ensures
        manager.enabled_for(language) <==> manager.config.enabled && switch_of(
            manager.config.enabled_languages@,
            language,
        ) == Some(true),
        !manager.config.enabled ==> manager.active_sources().len() == 0,
        manager.config.enabled ==> manager.active_sources().len()
            == manager.config.cxx_lsp_backends@.len(),
{
}

/// Where a server is found, in a language of C's family one for each configured backend.
pub proof fn law_each_backend_is_a_server(manager: LspManager, language: Seq<char>, i: int)
    requires
        language == "c"@ || language == "cpp"@,
        0 <= i < manager.config.cxx_lsp_backends@.len(),
    ensures
        manager.servers_of(language)[i].1 == language + ":"@
            + manager.config.cxx_lsp_backends@[i].label_spec(),
        manager.primary_key(language) == language + ":"@
            + manager.config.cxx_lsp_backends@[0].label_spec(),
{
}

/// A file is C++ by its extension, in capitals or not; every other one is C.
pub proof fn law_which_files_are_cxx(path: Seq<char>)
    ensures
        ({
            let ext = ascii_lower_text(ext_or_empty(path));
            let cxx = ext == "cpp"@ || ext == "cxx"@ || ext == "cc"@ || ext == "c++"@ || ext
                == "hpp"@ || ext == "hxx"@ || ext == "hh"@ || ext == "h++"@ || ext == "ipp"@ || ext
                == "tpp"@;
            &&& cxx ==> language_id_spec(path) == "cpp"@
            &&& !cxx ==> language_id_spec(path) == "c"@
        }),
{
}

/// The protocol's numbers stand for these kinds.
pub proof fn law_what_the_kinds_are(kind: i32)
    ensures
        kind_spec(kind) == SymbolKind::Function <==> kind == 12,
        kind_spec(kind) == SymbolKind::Method <==> kind == 6,
        kind_spec(kind) == SymbolKind::Constructor <==> kind == 9,
        kind_spec(kind) == SymbolKind::Struct <==> kind == 23,
        kind_spec(kind) == SymbolKind::Class <==> kind == 5,
        kind_spec(kind) == SymbolKind::Enum <==> kind == 10,
        kind_spec(kind) == SymbolKind::Interface <==> kind == 11,
        kind_spec(kind) == SymbolKind::Namespace <==> kind == 3,
        kind_spec(kind) == SymbolKind::Variable <==> kind == 13,
        kind_spec(kind) == SymbolKind::TypeAlias <==> kind == 26,
        kind_spec(kind) == SymbolKind::Constant <==> kind == 14 || kind == 22,
        kind_spec(kind) == SymbolKind::Module <==> kind == 2 || kind == 4,
        kind_spec(kind) == SymbolKind::Field <==> kind == 7 || kind == 8,
{
}

/// An outlined symbol has its name, and its lines counted from one.
pub proof fn law_an_outlined_symbol(ds: DocumentSymbol, backend: SourceSet)
    requires
        ds.name_line < u32::MAX,
        ds.end_line < u32::MAX,
    ensures
        outlined(ds, backend).name == ds.name@,
        outlined(ds, backend).start_line == ds.name_line + 1,
        outlined(ds, backend).end_line == ds.end_line + 1,
        outlined(ds, backend).confirmed_by == backend,
{
}

/// Every symbol of an outline is reported, and so is everything below it.
pub proof fn law_an_outline_is_reported_whole(
    symbols: Seq<DocumentSymbol>,
    backend: SourceSet,
    i: int,
)
    requires
        0 <= i < symbols.len(),
    ensures
        flattened(symbols, backend).contains(outlined(symbols[i], backend)),
        forall|s: SymbolText| #[trigger]
            flattened(symbols[i].children@, backend).contains(s) ==> flattened(
                symbols,
                backend,
            ).contains(s),
    decreases symbols.len(),
{
    let before = flattened(symbols.drop_last(), backend);
    let own = outlined(symbols.last(), backend);
    let below = flattened(symbols.last().children@, backend);
    let all = flattened(symbols, backend);
    assert(all == before.push(own) + below);
    if i == symbols.len() - 1 {
        assert(all[before.len() as int] == own);
        assert forall|s: SymbolText| #[trigger] below.contains(s) implies all.contains(s) by {
            let k = choose|k: int| 0 <= k < below.len() && below[k] == s;
            assert(all[before.len() + 1 + k] == s);
        }
    } else {
        assert(symbols.drop_last()[i] == symbols[i]);
        law_an_outline_is_reported_whole(symbols.drop_last(), backend, i);
        assert forall|s: SymbolText| #[trigger] before.contains(s) implies all.contains(s) by {
            let k = choose|k: int| 0 <= k < before.len() && before[k] == s;
            assert(all[k] == s);
        }
    }
}

/// A hover shows every part of what the server said.
pub proof fn law_a_hover_shows_every_part(hover: Hover, i: int)
    ensures
        hover.contents matches HoverContents::Array(parts) ==> 0 <= i < parts@.len()
            ==> contains_text(hover_text(hover), marked_text(parts@[i])),
        hover.contents matches HoverContents::Scalar(part) ==> hover_text(hover) == marked_text(
            part,
        ),
        hover.contents matches HoverContents::Markup(part) ==> hover_text(hover) == part.value@,
{
    match hover.contents {
        HoverContents::Array(parts) => {
            if 0 <= i < parts@.len() {
                let all = parts@.map_values(|m: MarkedString| marked_text(m));
                assert(all[i] == marked_text(parts@[i]));
                lemma_held_by_itself(all[i]);
                lemma_held_by_joined(all, "\n\n"@, i, all[i]);
            }
        },
        _ => {},
    }
}

proof fn lemma_word(line: Seq<char>, name: Seq<char>, from: int)
    requires
        0 <= from <= line.len(),
        name.len() > 0,
    ensures
        word_from(line, name, from) matches Some(p) ==> occurs_at(line, name, p) && from <= p
            && whole_word_at(line, name, p),
    decreases line.len() - from,
{
    lemma_find_from(line, name, from);
    match crate::text::find_from(line, name, from) {
        Some(start) => {
            if !whole_word_at(line, name, start) {
                lemma_word(line, name, start + name.len());
            }
        },
        None => {},
    }
}

proof fn lemma_anchor(lines: Seq<Seq<char>>, name: Seq<char>, i: int, end: int, at: (u32, u32))
    requires
        0 <= i,
        end <= lines.len() <= u32::MAX,
        name.len() > 0,
        anchor_from(lines, name, i, end) == Some(at),
    ensures
        i <= at.0 < end,
        exists|p: int|
            #[trigger] occurs_at(lines[at.0 as int], name, p) && whole_word_at(
                lines[at.0 as int],
                name,
                p,
            ) && at.1 == utf16_col(lines[at.0 as int].take(p)),
    decreases end - i,
{
    match word_from(lines[i], name, 0) {
        Some(start) => {
            lemma_word(lines[i], name, 0);
            assert(occurs_at(lines[i], name, start));
        },
        None => {
            lemma_anchor(lines, name, i + 1, end, at);
        },
    }
}

/// The place of a definition's name is a line of its first eight where the name stands as a whole
/// word, and the column of that word.
pub proof fn law_an_anchor_is_at_the_name(
    lines: Seq<Seq<char>>,
    name: Seq<char>,
    start: usize,
    at: (u32, u32),
)
    requires
        lines.len() <= u32::MAX,
        name_anchor_spec(lines, name, start) == Some(at),
    ensures
        start <= at.0 < start + 8,
        at.0 < lines.len(),
        exists|p: int|
            #[trigger] occurs_at(lines[at.0 as int], name, p) && whole_word_at(
                lines[at.0 as int],
                name,
                p,
            ) && at.1 == utf16_col(lines[at.0 as int].take(p)),
{
    let end = crate::show::smaller(start + 8, lines.len() as int);
    lemma_anchor(lines, name, start as int, end, at);
}

/// A reply of places is read whole.
pub proof fn law_a_reply_of_places_is_read(reply: GotoDefinitionResponse)
    ensures
        reply matches GotoDefinitionResponse::Scalar(l) ==> definition_places(reply) == Some(
            seq![l@],
        ),
        reply matches GotoDefinitionResponse::Array(ls) ==> definition_places(reply) is Some
            && definition_places(reply)->0.len() == ls@.len() && forall|i: int|
            0 <= i < ls@.len() ==> #[trigger] definition_places(reply)->0[i] == ls@[i]@,
{
}

// ---- this server ----

/// A method that is none of the protocol's is answered by an error that names it.
pub proof fn law_an_unknown_method_is_an_error(
    server: McpServer,
    request: JsonRpcRequest,
    enabled: Seq<Seq<char>>,
    known: Seq<(Seq<char>, Seq<char>, Seq<char>)>,
    r: Outcome,
)
    requires
        request.method@ != "initialize"@ && request.method@ != "initialized"@ && request.method@
            != "tools/list"@ && request.method@ != "tools/call"@ && request.method@
            != "resources/list"@ && request.method@ != "resources/read"@ && request.method@
            != "prompts/list"@ && request.method@ != "prompts/get"@,
        server.leads_to(request, enabled, known, r),
    ensures
        r matches Outcome::Respond(response) && response.id == request.id && response.result is None
            && response.error is Some && response.error->0.code == -32601
            && response.error->0.message@ == "Method not found: "@ + request.method@,
{
}

/// A call of a tool leads to that tool, unless it is refused.
pub proof fn law_a_call_leads_to_its_tool(
    server: McpServer,
    request: JsonRpcRequest,
    enabled: Seq<Seq<char>>,
    known: Seq<(Seq<char>, Seq<char>, Seq<char>)>,
    tool: Seq<char>,
    r: Outcome,
)
    requires
        request.method@ == "tools/call"@,
        json_string_at(request.params@, "/name"@) == Some(tool),
        server.leads_to(request, enabled, known, r),
    ensures
        expose_rejection_spec(server.expose@, tool) is None ==> (r matches Outcome::CallTool {
            id,
            name,
        } && id == request.id && name@ == tool),
        expose_rejection_spec(server.expose@, tool) is Some ==> (r matches Outcome::Respond(
            response,
        ) && response.id == request.id && response.error is Some && response.error->0.code
            == -32000),
{
    lemma_call_is_told();
}

proof fn lemma_call_is_told()
    ensures
        method_spec("tools/call"@) == Some(Method::ToolsCall),
{
    reveal_strlit("tools/call");
    reveal_strlit("tools/list");
    reveal_strlit("initialize");
    reveal_strlit("initialized");
    assert("tools/call"@[0] == 't' && "initialize"@[0] == 'i' && "initialized"@[0] == 'i');
    assert("tools/call"@[6] == 'c' && "tools/list"@[6] == 'l');
}

proof fn lemma_tool_named(known: Seq<(Seq<char>, Seq<char>, Seq<char>)>, name: Seq<char>)
    ensures
        match tool_named(known, name) {
            Some(entry) => entry.0 == name && known.contains(entry),
            None => forall|i: int| 0 <= i < known.len() ==> (#[trigger] known[i]).0 != name,
        },
    decreases known.len(),
{
    if known.len() > 0 && known[0].0 != name {
        let rest = known.skip(1);
        lemma_tool_named(rest, name);
        match tool_named(rest, name) {
            Some(entry) => {
                let k = choose|k: int| 0 <= k < rest.len() && rest[k] == entry;
                assert(known[k + 1] == entry);
            },
            None => {
                assert forall|i: int| 0 <= i < known.len() implies (#[trigger] known[i]).0
                    != name by {
                    if i > 0 {
                        assert(rest[i - 1] == known[i]);
                    }
                }
            },
        }
    } else if known.len() > 0 {
        assert(known.contains(known[0]));
    }
}

/// Every tool that is known and switched on is listed, and every tool listed is both.
pub proof fn law_which_tools_are_listed(
    enabled: Seq<Seq<char>>,
    known: Seq<(Seq<char>, Seq<char>, Seq<char>)>,
)
    ensures
        forall|i: int, k: int|
            0 <= i < enabled.len() && 0 <= k < known.len() && #[trigger] enabled[i]
                == #[trigger] known[k].0 ==> exists|j: int|
                0 <= j < listed_tools(enabled, known).len() && (#[trigger] listed_tools(
                    enabled,
                    known,
                )[j]).0 == enabled[i],
        forall|j: int|
            0 <= j < listed_tools(enabled, known).len() ==> known.contains(
                #[trigger] listed_tools(enabled, known)[j],
            ) && enabled.contains(listed_tools(enabled, known)[j].0),
    decreases enabled.len(),
{
    if enabled.len() > 0 {
        let before = enabled.drop_last();
        let front = listed_tools(before, known);
        let all = listed_tools(enabled, known);
        law_which_tools_are_listed(before, known);
        lemma_tool_named(known, enabled.last());
        assert(enabled[enabled.len() - 1] == enabled.last());
        assert forall|i: int, k: int|
            0 <= i < enabled.len() && 0 <= k < known.len() && #[trigger] enabled[i]
                == #[trigger] known[k].0 implies exists|j: int|
            0 <= j < all.len() && (#[trigger] all[j]).0 == enabled[i] by {
            if i < before.len() {
                assert(before[i] == enabled[i]);
                let j = choose|j: int|
                    0 <= j < front.len() && (#[trigger] front[j]).0 == enabled[i];
                assert(all[j] == front[j]);
            } else {
                assert(all[all.len() - 1].0 == enabled[i]);
            }
        }
        assert forall|j: int| 0 <= j < all.len() implies known.contains(#[trigger] all[j])
            && enabled.contains(all[j].0) by {
            if j < front.len() {
                assert(all[j] == front[j]);
                let k = choose|k: int| 0 <= k < before.len() && before[k] == front[j].0;
                assert(enabled[k] == all[j].0);
            }
        }
    }
}

/// A client that introduces itself is known from then on; nothing else changes who it is.
pub proof fn law_a_client_introduces_itself(
    request: JsonRpcRequest,
    before: Option<(Seq<char>, Option<Seq<char>>)>,
    name: Seq<char>,
)
    ensures
        request.method@ == "initialize"@ && json_string_at(request.params@, "/clientInfo/name"@)
            == Some(name) ==> (session_after(request, before) matches Some(
            client,
        ) && client.0 == name),
        request.method@ != "initialize"@ ==> session_after(request, before) == before,
{
}

/// An error speaks of the request it answers, unless that had no id.
pub proof fn law_an_error_speaks_of_its_request(id: Seq<char>)
    ensures
        id != "null"@ ==> parse_error_id(Some(id)) == Some(id),
        parse_error_id(Some("null"@)) is None,
        parse_error_id(None) is None,
{
}

/// Only a busy index is told apart by its code.
pub proof fn law_a_busy_index_has_its_own_code(failure: ToolFailure)
    ensures
        failure is Busy <==> failure.code() == -32001,
        !(failure is Busy) <==> failure.code() == -32000,
{
}

} // verus!
