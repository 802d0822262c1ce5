//! What the tools read, and what they say of it.

use vstd::prelude::*;

use crate::calltools::{
    call_path_spec, health_spec, hotspots_kept, path_step, FunctionMetrics, HotspotText,
};
use crate::engine::file_index;
use crate::laws::answers::{
    lemma_held_by_end, lemma_held_by_front, lemma_held_by_itself, lemma_held_by_part,
};
use crate::laws::lists::{
    lemma_dedup_members, lemma_filter_members, lemma_map_sources, lemma_sorted_members,
};
use crate::laws::ranked::lemma_held_by_joined;
use crate::laws::texts::law_a_held_text_can_be_cut_out;
use crate::order::{sort_texts, text_order};
use crate::paths::{is_absolute_spec, is_under, join_path_spec};
use crate::position::{
    candidate_row, candidates, go_to_answer, hover_answer, index_fallback, place_row, places_part,
    symbol_at, symbol_part, type_answer, DefinitionText, PlaceText, ServerText,
};
use crate::registry::RegisteredText;
use crate::reports::{behind_of, first_named, flow_answer};
use crate::search::CachedText;
use crate::show::{
    best_definition, definition_answer, gtags_definition_answer, hints_spec, missing_text,
    symbols_named,
};
use crate::symbols::{SourceSet, SymbolText};
use crate::text::{concat, contains_text, decimal, join_spec, lines_of, lower_text};
use crate::tools::{
    definition_shown, drawn_call_graph, first_cached, history_files, on_disk, place_on_disk,
    read_from, DiskText,
};

verus! {

// ---- files ----

proof fn lemma_on_disk(disk: Seq<DiskText>, path: Seq<char>, k: int)
    requires
        0 <= k < disk.len(),
        disk[k].path == path,
        forall|j: int| 0 <= j < k ==> (#[trigger] disk[j]).path != path,
    ensures
        on_disk(disk, path) == Some(disk[k]),
    decreases disk.len(),
{
    if k > 0 {
        let rest = disk.skip(1);
        assert(disk[0].path != path);
        assert(rest[k - 1] == disk[k]);
        assert forall|j: int| 0 <= j < k - 1 implies (#[trigger] rest[j]).path != path by {
            assert(rest[j] == disk[j + 1]);
        }
        lemma_on_disk(rest, path, k - 1);
    }
}

/// A file that is there, and really lies in the repository, is read.
pub proof fn law_a_file_of_the_repo_is_read(
    disk: Seq<DiskText>,
    root: Seq<char>,
    rel: Seq<char>,
    k: int,
)
    requires
        !is_absolute_spec(rel),
        0 <= k < disk.len(),
        disk[k].path == join_path_spec(root, rel),
        forall|j: int| 0 <= j < k ==> (#[trigger] disk[j]).path != disk[k].path,
        disk[k].canonical is Some,
        is_under(disk[k].canonical->0, root),
        disk[k].content is Some,
    ensures
        read_from(disk, root, rel) == Ok::<Seq<char>, Seq<char>>(disk[k].content->0),
{
    lemma_on_disk(disk, join_path_spec(root, rel), k);
}

/// An absolute path is not read, nor one that leads out of the repository, nor one of no file.
pub proof fn law_no_file_outside_is_read(
    disk: Seq<DiskText>,
    root: Seq<char>,
    rel: Seq<char>,
    k: int,
)
    ensures
        is_absolute_spec(rel) ==> read_from(disk, root, rel) is Err,
        0 <= k < disk.len() && disk[k].path == join_path_spec(root, rel) && (forall|j: int|
            0 <= j < k ==> (#[trigger] disk[j]).path != disk[k].path) && (disk[k].canonical is None
            || !is_under(disk[k].canonical->0, root)) ==> read_from(disk, root, rel) is Err,
        (forall|j: int|
            0 <= j < disk.len() ==> (#[trigger] disk[j]).path != join_path_spec(root, rel))
            ==> read_from(disk, root, rel) is Err,
{
    if 0 <= k < disk.len() && disk[k].path == join_path_spec(root, rel) && (forall|j: int|
        0 <= j < k ==> (#[trigger] disk[j]).path != disk[k].path) {
        lemma_on_disk(disk, join_path_spec(root, rel), k);
    }
    if forall|j: int|
        0 <= j < disk.len() ==> (#[trigger] disk[j]).path != join_path_spec(root, rel) {
        lemma_not_on_disk(disk, join_path_spec(root, rel));
    }
}

proof fn lemma_not_on_disk(disk: Seq<DiskText>, path: Seq<char>)
    requires
        forall|j: int| 0 <= j < disk.len() ==> (#[trigger] disk[j]).path != path,
    ensures
        on_disk(disk, path) is None,
    decreases disk.len(),
{
    if disk.len() > 0 {
        let rest = disk.skip(1);
        assert(disk[0].path != path);
        assert forall|j: int| 0 <= j < rest.len() implies (#[trigger] rest[j]).path != path by {
            assert(rest[j] == disk[j + 1]);
        }
        lemma_not_on_disk(rest, path);
    }
}

// ---- definitions ----

proof fn lemma_some_definition(matches: Seq<SymbolText>)
    requires
        matches.len() > 0,
    ensures
        best_definition(matches) is Some,
        0 <= best_definition(matches)->0 < matches.len(),
    decreases matches.len(),
{
    if matches.len() > 1 {
        lemma_some_definition(matches.drop_last());
    } else {
        assert(best_definition(matches.drop_last()) is None);
    }
}

/// Where the index knows a symbol of the name, its definition is shown, from its own file; a tag
/// only helps where the index knows none.
pub proof fn law_a_known_symbol_is_shown(
    key: Seq<char>,
    symbols: Seq<SymbolText>,
    name: Seq<char>,
    context: usize,
    tag: Option<(Seq<char>, usize)>,
    disk: Seq<DiskText>,
    hover: Option<Seq<char>>,
    cxx: SourceSet,
    other: SourceSet,
)
    requires
        symbols_named(symbols, name).len() > 0,
    ensures
        ({
            let found = symbols_named(symbols, name);
            let i = best_definition(found)->0;
            let shown = definition_shown(
                key,
                symbols,
                name,
                context,
                tag,
                disk,
                hover,
                cxx,
                other,
            );
            &&& 0 <= i < found.len()
            &&& read_from(disk, key, found[i].file_path) matches Ok(content) ==> shown == Ok::<
                Seq<char>,
                Seq<char>,
            >(
                definition_answer(
                    found,
                    found[i],
                    lines_of(content),
                    context,
                    cxx,
                    other,
                    hover,
                ),
            )
            &&& shown == definition_shown(
                key,
                symbols,
                name,
                context,
                None,
                disk,
                hover,
                cxx,
                other,
            )
        }),
{
    lemma_some_definition(symbols_named(symbols, name));
}

/// Where neither the index nor a tag knows it, the error says so, and names what comes near.
pub proof fn law_an_unknown_symbol_is_an_error(
    key: Seq<char>,
    symbols: Seq<SymbolText>,
    name: Seq<char>,
    context: usize,
    tag: Option<(Seq<char>, usize)>,
    disk: Seq<DiskText>,
    hover: Option<Seq<char>>,
    cxx: SourceSet,
    other: SourceSet,
    i: int,
)
    requires
        symbols_named(symbols, name).len() == 0,
    ensures
        ({
            let shown = definition_shown(
                key,
                symbols,
                name,
                context,
                tag,
                disk,
                hover,
                cxx,
                other,
            );
            let hints = hints_spec(symbols, name);
            &&& tag is None ==> shown is Err
            &&& tag is None && 0 <= i < hints.len() ==> contains_text(shown->Err_0, hints[i])
            &&& tag matches Some(t) ==> read_from(disk, key, t.0) matches Ok(content) ==> shown
                == Ok::<Seq<char>, Seq<char>>(
                gtags_definition_answer(name, t.0, t.1, context, lines_of(content)),
            )
        }),
{
    let hints = hints_spec(symbols, name);
    if tag is None && 0 <= i < hints.len() {
        let p = hints[i];
        lemma_held_by_itself(p);
        lemma_held_by_joined(hints, ", "@, i, p);
        let list = join_spec(hints, ", "@);
        lemma_held_by_end(" Did you mean: "@, list, p);
        lemma_held_by_end(
            "Symbol '"@ + name + "' not found in repository '"@ + key + "'."@,
            " Did you mean: "@ + list,
            p,
        );
        assert(missing_text(name, key, hints) == "Symbol '"@ + name
            + "' not found in repository '"@ + key + "'."@ + (" Did you mean: "@ + list));
    }
}

/// A name comes near where it holds what was asked, in any case; ten of them are named at most.
pub proof fn law_which_names_come_near(symbols: Seq<SymbolText>, name: Seq<char>, near: Seq<char>)
    ensures
        hints_spec(symbols, name).len() <= 10,
        hints_spec(symbols, name).contains(near) ==> contains_text(lower_text(near), lower_text(name))
            && exists|i: int| 0 <= i < symbols.len() && (#[trigger] symbols[i]).name == near,
        hints_spec(symbols, name).len() < 10 && contains_text(lower_text(near), lower_text(name))
            && (exists|i: int| 0 <= i < symbols.len() && (#[trigger] symbols[i]).name == near)
            ==> hints_spec(symbols, name).contains(near),
{
    let get = |s: SymbolText| s.name;
    let pred = |n: Seq<char>| contains_text(lower_text(n), lower_text(name));
    let names = symbols.map_values(get);
    let kept = names.filter(pred);
    let all = crate::order::dedup_texts(sort_texts(kept));
    lemma_dedup_members(sort_texts(kept), near);
    lemma_sorted_members(kept, text_order(), near);
    lemma_filter_members(names, pred, near);
    lemma_map_sources(symbols, get, near);
    let hints = hints_spec(symbols, name);
    assert(hints =~= if all.len() > 10 {
        all.take(10)
    } else {
        all
    });
    if hints.contains(near) {
        let k = choose|k: int| 0 <= k < hints.len() && hints[k] == near;
        assert(all[k] == near);
        let i = choose|i: int| 0 <= i < symbols.len() && get(#[trigger] symbols[i]) == near;
        assert(symbols[i].name == near);
    }
    if exists|i: int| 0 <= i < symbols.len() && (#[trigger] symbols[i]).name == near {
        let i = choose|i: int| 0 <= i < symbols.len() && (#[trigger] symbols[i]).name == near;
        assert(get(symbols[i]) == near);
    }
}

/// The history of a symbol is read from the file that was named, where one was, and else from all
/// that define it.
pub proof fn law_where_a_history_is_read(
    symbols: Seq<SymbolText>,
    disk: Seq<DiskText>,
    key: Seq<char>,
    path: Seq<char>,
    symbol: Seq<char>,
)
    ensures
        path.len() > 0 && place_on_disk(disk, key, path) is Ok ==> history_files(
            symbols,
            disk,
            key,
            path,
            symbol,
        ) == Ok::<Seq<Seq<char>>, Seq<char>>(seq![path]),
        path.len() > 0 && place_on_disk(disk, key, path) is Err ==> history_files(
            symbols,
            disk,
            key,
            path,
            symbol,
        ) is Err,
        path.len() == 0 ==> match history_files(symbols, disk, key, path, symbol) {
            Ok(files) => files.len() > 0 && files == crate::history::symbol_files_spec(
                symbols,
                symbol,
            ),
            Err(_) => crate::history::symbol_files_spec(symbols, symbol).len() == 0,
        },
{
}

// ---- cached content ----

proof fn lemma_first_cached(
    registered: Seq<RegisteredText>,
    files: Seq<CachedText>,
    rel: Seq<char>,
    r: int,
)
    requires
        0 <= r < registered.len(),
        file_index(files, join_path_spec(registered[r].path, rel)) is Some,
        forall|j: int|
            0 <= j < r ==> file_index(files, join_path_spec((#[trigger] registered[j]).path, rel))
                is None,
    ensures
        first_cached(registered, files, rel) == Some(
            files[file_index(files, join_path_spec(registered[r].path, rel))->0].content,
        ),
    decreases registered.len(),
{
    let front = registered.drop_last();
    if r < front.len() {
        assert(front[r] == registered[r]);
        assert forall|j: int| 0 <= j < r implies file_index(
            files,
            join_path_spec((#[trigger] front[j]).path, rel),
        ) is None by {
            assert(front[j] == registered[j]);
        }
        lemma_first_cached(front, files, rel, r);
    } else {
        assert forall|j: int| 0 <= j < front.len() implies file_index(
            files,
            join_path_spec((#[trigger] front[j]).path, rel),
        ) is None by {
            assert(front[j] == registered[j]);
        }
        lemma_none_cached(front, files, rel);
    }
}

proof fn lemma_none_cached(registered: Seq<RegisteredText>, files: Seq<CachedText>, rel: Seq<char>)
    requires
        forall|j: int|
            0 <= j < registered.len() ==> file_index(
                files,
                join_path_spec((#[trigger] registered[j]).path, rel),
            ) is None,
    ensures
        first_cached(registered, files, rel) is None,
    decreases registered.len(),
{
    if registered.len() > 0 {
        let front = registered.drop_last();
        assert forall|j: int| 0 <= j < front.len() implies file_index(
            files,
            join_path_spec((#[trigger] front[j]).path, rel),
        ) is None by {
            assert(front[j] == registered[j]);
        }
        lemma_none_cached(front, files, rel);
        assert(registered[registered.len() - 1] == registered.last());
    }
}

/// A relative path is that of the first registered repository that has a file there.
pub proof fn law_the_first_repo_with_the_file_counts(
    registered: Seq<RegisteredText>,
    files: Seq<CachedText>,
    rel: Seq<char>,
    r: int,
)
    requires
        0 <= r < registered.len(),
        file_index(files, join_path_spec(registered[r].path, rel)) is Some,
        forall|j: int|
            0 <= j < r ==> file_index(files, join_path_spec((#[trigger] registered[j]).path, rel))
                is None,
    ensures
        first_cached(registered, files, rel) == Some(
            files[file_index(files, join_path_spec(registered[r].path, rel))->0].content,
        ),
{
    lemma_first_cached(registered, files, rel, r);
}

// ---- places ----

/// A hover shows what the server said, and else what the index knows of the place.
pub proof fn law_a_hover_is_answered(
    path: Seq<char>,
    line: usize,
    character: usize,
    text: Seq<char>,
    server: ServerText,
    symbols: Seq<SymbolText>,
)
    ensures
        contains_text(
            hover_answer(path, line, character, ServerText::Text(text), symbols),
            text,
        ),
        !(server is Text) && symbol_at(symbols, path, line) is Some ==> contains_text(
            hover_answer(path, line, character, server, symbols),
            symbol_part(symbol_at(symbols, path, line)->0),
        ),
        contains_text(type_answer(path, line, character, ServerText::Text(text)), text),
{
    let header = crate::position::place_header("Hover Info"@, path, line, character);
    lemma_held_by_itself(text);
    let lead = header + "## LSP Hover Information (LSP enhanced)\n\n"@;
    lemma_held_by_end(lead, text, text);
    lemma_held_by_front(lead + text, "\n\n"@, text);
    let typed = crate::position::place_header("Type Information"@, path, line, character);
    lemma_held_by_end("## Type Information (LSP enhanced)\n\n"@, text, text);
    lemma_held_by_end(typed, "## Type Information (LSP enhanced)\n\n"@ + text, text);
    if symbol_at(symbols, path, line) is Some {
        let p = symbol_part(symbol_at(symbols, path, line)->0);
        let fallback = "## Symbol Information (tree-sitter)\n\n"@ + p;
        lemma_held_by_itself(p);
        lemma_held_by_end("## Symbol Information (tree-sitter)\n\n"@, p, p);
        lemma_held_by_end(header, fallback, p);
        match server {
            ServerText::Nothing => {
                lemma_held_by_end(
                    header + "*No hover information available from LSP*\n\n"@,
                    fallback,
                    p,
                );
            },
            ServerText::Failed(e) => {
                lemma_held_by_end(
                    header + "*LSP error: "@ + e + "*\n\n"@,
                    fallback,
                    p,
                );
            },
            _ => {},
        }
    }
}

/// Every place that the server named is shown, its line counted from one.
pub proof fn law_every_place_is_shown(
    path: Seq<char>,
    line: usize,
    character: usize,
    places: Seq<PlaceText>,
    repo: Seq<char>,
    symbols: Seq<SymbolText>,
    lines: Seq<Seq<char>>,
    i: int,
)
    requires
        0 <= i < places.len(),
    ensures
        contains_text(
            go_to_answer(
                path,
                line,
                character,
                DefinitionText::Places(places),
                repo,
                symbols,
                lines,
            ),
            ":"@ + decimal((places[i].line + 1) as nat) + ":"@ + decimal(
                places[i].character as nat,
            ),
        ),
        contains_text(
            go_to_answer(
                path,
                line,
                character,
                DefinitionText::Places(places),
                repo,
                symbols,
                lines,
            ),
            place_row(places[i], repo),
        ),
{
    let place = places[i];
    let row = place_row(place, repo);
    let shown = if place.in_file {
        crate::paths::relative_spec(place.path, repo)
    } else {
        place.path
    };
    let p = ":"@ + decimal((place.line + 1) as nat) + ":"@ + decimal(place.character as nat);
    let lead = "- `"@ + shown;
    lemma_held_by_itself(p);
    lemma_held_by_end(lead, p, p);
    assert(lead + ":"@ + decimal((place.line + 1) as nat) =~= lead + (":"@ + decimal(
        (place.line + 1) as nat,
    )));
    assert(lead + ":"@ + decimal((place.line + 1) as nat) + ":"@ =~= lead + (":"@ + decimal(
        (place.line + 1) as nat,
    ) + ":"@));
    assert(lead + ":"@ + decimal((place.line + 1) as nat) + ":"@ + decimal(place.character as nat)
        =~= lead + p);
    lemma_held_by_front(lead + p, "`\n"@, p);
    let rows = places.map_values(|q: PlaceText| place_row(q, repo));
    assert(rows[i] == row);
    lemma_held_by_itself(row);
    lemma_held_by_part(rows, i, row);
    lemma_held_by_part(rows, i, p);
    let count = "Found "@ + decimal(places.len() as nat) + " definition(s):\n\n"@;
    lemma_held_by_end(count, concat(rows), row);
    lemma_held_by_end(count, concat(rows), p);
    let header = crate::position::place_header("Go to Definition"@, path, line, character);
    lemma_held_by_end(header, places_part(places, repo), row);
    lemma_held_by_end(header, places_part(places, repo), p);
}

/// Without a server's places, every symbol named in the line is offered.
pub proof fn law_every_candidate_is_offered(
    symbols: Seq<SymbolText>,
    lines: Seq<Seq<char>>,
    line: usize,
    i: int,
)
    requires
        0 < line <= lines.len(),
        0 <= i < symbols.len(),
        exists|before: Seq<char>, after: Seq<char>|
            lines[line - 1] == #[trigger] (before + symbols[i].name + after),
    ensures
        contains_text(index_fallback(symbols, lines, line), candidate_row(symbols[i])),
{
    let text = lines[line - 1];
    law_a_held_text_can_be_cut_out(text, symbols[i].name);
    let pred = |s: SymbolText| contains_text(text, s.name);
    assert(symbols.contains(symbols[i]));
    lemma_filter_members(symbols, pred, symbols[i]);
    let kept = candidates(symbols, text);
    assert(kept =~= symbols.filter(pred));
    let k = choose|k: int| 0 <= k < kept.len() && kept[k] == symbols[i];
    let rows = kept.map_values(|s: SymbolText| candidate_row(s));
    let row = candidate_row(symbols[i]);
    assert(rows[k] == row);
    lemma_held_by_itself(row);
    lemma_held_by_part(rows, k, row);
    lemma_held_by_end("\n## Symbol Index Fallback\n\n"@, concat(rows), row);
}

// ---- functions ----

proof fn lemma_first_named(names: Seq<Seq<char>>, name: Seq<char>)
    ensures
        match first_named(names, name) {
            Some(i) => 0 <= i < names.len() && names[i] == name && forall|j: int|
                0 <= j < i ==> #[trigger] names[j] != name,
            None => !names.contains(name),
        },
    decreases names.len(),
{
    if names.len() > 0 {
        let front = names.drop_last();
        lemma_first_named(front, name);
        match first_named(front, name) {
            Some(i) => {
                assert forall|j: int| 0 <= j < i implies #[trigger] names[j] != name by {
                    assert(front[j] == names[j]);
                }
            },
            None => {
                assert forall|j: int| 0 <= j < front.len() implies #[trigger] names[j] != name by {
                    assert(front[j] == names[j]);
                    assert(front.contains(front[j]));
                }
            },
        }
    }
}

/// The report shown is that of the function asked for; where the file has none of the name, that
/// is an error.
pub proof fn law_the_report_is_of_the_function(
    content: Seq<char>,
    names: Seq<Seq<char>>,
    reports: Seq<Seq<char>>,
    function: Seq<char>,
    path: Seq<char>,
)
    ensures
        match flow_answer(Ok(content), Ok((names, reports)), function, path) {
            Ok(text) => exists|i: int|
                0 <= i < names.len() && #[trigger] names[i] == function && text == reports[i],
            Err(_) => !names.contains(function),
        },
{
    lemma_first_named(names, function);
}

/// Every function of a call path is shown.
pub proof fn law_every_step_is_shown(
    from: Seq<char>,
    to: Seq<char>,
    steps: Seq<Seq<char>>,
    i: int,
)
    requires
        0 <= i < steps.len(),
    ensures
        contains_text(
            call_path_spec(from, to, Some(steps)),
            decimal((i + 1) as nat) + ". `"@ + steps[i] + "`\n"@,
        ),
{
    let rows = Seq::new(steps.len(), |k: int| path_step(k, steps[k]));
    let p = decimal((i + 1) as nat) + ". `"@ + steps[i] + "`\n"@;
    lemma_held_by_itself(p);
    assert(rows[i] == path_step(i, steps[i]));
    if i > 0 {
        let arrow = "  ↓\n"@;
        let n = decimal((i + 1) as nat);
        lemma_held_by_end(arrow, p, p);
        assert(arrow + n + ". `"@ =~= arrow + (n + ". `"@));
        assert(arrow + n + ". `"@ + steps[i] =~= arrow + (n + ". `"@ + steps[i]));
        assert(path_step(i, steps[i]) =~= arrow + p);
    }
    lemma_held_by_part(rows, i, p);
    let head = "# Call Path: `"@ + from + "` → `"@ + to + "`\n\n"@ + "Found path with "@ + decimal(
        (steps.len() - 1) as nat,
    ) + " steps:\n\n"@;
    lemma_held_by_end(head, concat(rows), p);
}

/// A function is called complex above ten branches, moderately so above five; deep nesting is
/// named above four levels.
pub proof fn law_when_a_function_is_complex(m: FunctionMetrics)
    ensures
        m.cyclomatic > 10 ==> contains_text(
            health_spec(m),
            "⚠️ **High cyclomatic complexity** - Consider refactoring into smaller functions.\n"@,
        ),
        5 < m.cyclomatic <= 10 ==> contains_text(
            health_spec(m),
            "⚡ **Moderate complexity** - Function is manageable but could be simplified.\n"@,
        ),
        m.cyclomatic <= 5 ==> contains_text(
            health_spec(m),
            "✅ **Low complexity** - Function is well-structured.\n"@,
        ),
        m.max_depth > 4 ==> contains_text(
            health_spec(m),
            "⚠️ **Deep nesting** - Consider early returns or extracting nested logic.\n"@,
        ),
{
    let branches = if m.cyclomatic > 10 {
        "⚠️ **High cyclomatic complexity** - Consider refactoring into smaller functions.\n"@
    } else if m.cyclomatic > 5 {
        "⚡ **Moderate complexity** - Function is manageable but could be simplified.\n"@
    } else {
        "✅ **Low complexity** - Function is well-structured.\n"@
    };
    let deep = "⚠️ **Deep nesting** - Consider early returns or extracting nested logic.\n"@;
    lemma_held_by_itself(branches);
    lemma_held_by_itself(deep);
    lemma_held_by_front(branches, deep, branches);
    lemma_held_by_end(branches, deep, deep);
}

/// A highly connected function outside the tests is kept, and no other.
pub proof fn law_which_hotspots_are_kept(
    list: Seq<HotspotText>,
    tests: Seq<Seq<char>>,
    h: HotspotText,
)
    ensures
        hotspots_kept(list, tests).contains(h) <==> list.contains(h) && !tests.contains(
            crate::callgraph::key_file(h.key),
        ),
{
    let pred = |h: HotspotText| !tests.contains(crate::callgraph::key_file(h.key));
    lemma_filter_members(list, pred, h);
    assert(hotspots_kept(list, tests) =~= list.filter(pred));
}

/// The call graph drawn is that of the repository asked for, or the first where none was.
pub proof fn law_which_call_graph_is_drawn(graphs: Seq<Seq<char>>, repo: Seq<char>)
    ensures
        drawn_call_graph(false, graphs, repo) is Err,
        repo.len() > 0 ==> (drawn_call_graph(true, graphs, repo) is Ok <==> graphs.contains(repo)),
        repo.len() > 0 && graphs.contains(repo) ==> drawn_call_graph(true, graphs, repo) == Ok::<
            Seq<char>,
            Seq<char>,
        >(repo),
        repo.len() == 0 && graphs.len() > 0 ==> drawn_call_graph(true, graphs, repo) == Ok::<
            Seq<char>,
            Seq<char>,
        >(graphs[0]),
{
}

/// How far a manifest is behind is what is known of its repository, and nothing where nothing is.
pub proof fn law_how_far_a_manifest_is_behind(
    behind: Seq<(Seq<char>, usize)>,
    key: Seq<char>,
    i: int,
)
    requires
        0 <= i < behind.len(),
        behind[i].0 == key,
        forall|j: int| 0 <= j < i ==> (#[trigger] behind[j]).0 != key,
    ensures
        behind_of(behind, key) == behind[i].1,
    decreases behind.len(),
{
    if i > 0 {
        let rest = behind.skip(1);
        assert(behind[0].0 != key);
        assert(rest[i - 1] == behind[i]);
        assert forall|j: int| 0 <= j < i - 1 implies (#[trigger] rest[j]).0 != key by {
            assert(rest[j] == behind[j + 1]);
        }
        law_how_far_a_manifest_is_behind(rest, key, i - 1);
    }
}

} // verus!
