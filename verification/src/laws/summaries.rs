//! What the summaries say.

use vstd::prelude::*;

use crate::budget::ListWindow;
use crate::callgraph::{
    cxx_functions_of, folded, grouped, is_cxx_file, merged_callers, EdgeText, ReferenceText,
};
use crate::callpass::files_to_ask;
use crate::engine::{lemma_repo_index, symbols_of, ArgText, EngineText, IndexedText};
use crate::graphs::first_target;
use crate::history::{
    branch_answer, bullet_page, churn_answer, churn_row, contributors_answer, contributors_page,
    symbol_history_answer, validation_answer, ChurnText, UpstreamText,
};
use crate::imports::{import_lines, is_import_line};
use crate::laws::answers::{
    lemma_held_by_end, lemma_held_by_front, lemma_held_by_itself, lemma_held_by_part,
};
use crate::laws::histories::law_every_bullet_of_the_page_is_shown;
use crate::laws::ranked::lemma_held_by_joined;
use crate::laws::texts::law_a_held_text_can_be_cut_out;
use crate::mcp::preset_spec;
use crate::paths::validate_pathspec_spec;
use crate::ranked::HybridText;
use crate::reports::{behind_of, flow_symbol, limited_to, status_of, statuses};
use crate::search::CachedText;
use crate::status::{
    breakdown_part, incremental_answer, persisted_part, rss_of_line, rss_spec, structure_answer,
    PersistedIndexState, TreeBudget,
};
use crate::store::{
    bullet, dependencies_answer, excerpt_part, excerpts_answer, importers, module_name, ExcerptText,
};
use crate::symbols::{SourceSet, SymbolText};
use crate::text::{
    concat, contains_text, decimal, join_spec, lines_of, parse_usize_spec, trim_spec, words_of,
};
use crate::tools::{
    all_callers, defined_in_cxx, first_cached, optional_key, path_checked, pathspec_checked,
    place_on_disk, summaries, summary_of, symbols_or_none, usages_shown, with_own_content, DiskText,
};
use crate::usages::{
    definition_rows, definitions_part, mentions, plain_part, telling_answers, usage_table,
    usages_answer, validated_part, validated_rows, AnswerText, UsageText,
};

verus! {

// ---- dependencies ----

/// Whether a text begins with another.
pub open spec fn begins_with(t: Seq<char>, p: Seq<char>) -> bool {
    exists|rest: Seq<char>| t == #[trigger] (p + rest)
}

/// Whether a line brings something in, in one of the languages.
pub open spec fn brings_in(t: Seq<char>) -> bool {
    ||| begins_with(t, "use "@)
    ||| begins_with(t, "import "@)
    ||| begins_with(t, "from "@)
    ||| begins_with(t, "#include"@)
    ||| exists|before: Seq<char>, after: Seq<char>| t == #[trigger] (before + "require("@ + after)
}

proof fn lemma_begins(t: Seq<char>, p: Seq<char>)
    ensures
        begins_with(t, p) <==> p.is_prefix_of(t),
{
    if begins_with(t, p) {
        let rest = choose|rest: Seq<char>| t == #[trigger] (p + rest);
        assert((p + rest).subrange(0, p.len() as int) =~= p);
    }
    if p.is_prefix_of(t) {
        let rest = t.skip(p.len() as int);
        assert(t =~= p + rest);
    }
}

proof fn lemma_brings_in(t: Seq<char>)
    ensures
        brings_in(t) <==> is_import_line(t),
{
    lemma_begins(t, "use "@);
    lemma_begins(t, "import "@);
    lemma_begins(t, "from "@);
    lemma_begins(t, "#include"@);
    law_a_held_text_can_be_cut_out(t, "require("@);
}

proof fn lemma_import_is_listed(all: Seq<Seq<char>>, i: int)
    requires
        0 <= i < all.len(),
        is_import_line(trim_spec(all[i])),
    ensures
        import_lines(all).contains(trim_spec(all[i])),
    decreases all.len(),
{
    let front = import_lines(all.drop_last());
    let listed = import_lines(all);
    if i == all.len() - 1 {
        assert(listed[listed.len() - 1] == trim_spec(all[i]));
    } else {
        assert(all.drop_last()[i] == all[i]);
        lemma_import_is_listed(all.drop_last(), i);
        let k = choose|k: int| 0 <= k < front.len() && front[k] == trim_spec(all[i]);
        assert(listed[k] == trim_spec(all[i]));
    }
}

/// Where imports are asked for, every import line of the file is shown.
pub proof fn law_every_import_line_is_shown(
    repo: Seq<char>,
    path: Seq<char>,
    file: Seq<char>,
    content: Seq<char>,
    direction: Seq<char>,
    cached: Seq<CachedText>,
    i: int,
)
    requires
        direction == "imports"@ || direction == "both"@,
        0 <= i < lines_of(content).len(),
        brings_in(trim_spec(lines_of(content)[i])),
    ensures
        contains_text(
            dependencies_answer(repo, path, file, content, direction, cached),
            trim_spec(lines_of(content)[i]),
        ),
{
    let p = trim_spec(lines_of(content)[i]);
    let list = import_lines(lines_of(content));
    lemma_brings_in(p);
    lemma_import_is_listed(lines_of(content), i);
    let k = choose|k: int| 0 <= k < list.len() && list[k] == p;
    let rows = list.map_values(|s: Seq<char>| bullet(s));
    assert(rows[k] == bullet(p));
    lemma_bullet(p);
    lemma_held_by_part(rows, k, p);
    let imports = "## Imports\n\n"@ + concat(rows) + "\n"@;
    lemma_held_by_end("## Imports\n\n"@, concat(rows), p);
    lemma_held_by_front("## Imports\n\n"@ + concat(rows), "\n"@, p);
    let by = if direction == "imported_by"@ || direction == "both"@ {
        "## Imported By\n\n"@ + concat(
            importers(cached, repo, file, module_name(path)).map_values(
                |s: Seq<char>| bullet(s),
            ),
        )
    } else {
        Seq::empty()
    };
    let head = "# Dependencies for `"@ + path + "`\n\n"@;
    lemma_held_by_end(head, imports, p);
    lemma_held_by_front(head + imports, by, p);
}

proof fn lemma_bullet(p: Seq<char>)
    ensures
        contains_text(bullet(p), p),
{
    lemma_held_by_itself(p);
    lemma_held_by_end("- `"@, p, p);
    lemma_held_by_front("- `"@ + p, "`\n"@, p);
}

/// Where importers are asked for, every one of them is shown.
pub proof fn law_every_importer_is_shown(
    repo: Seq<char>,
    path: Seq<char>,
    file: Seq<char>,
    content: Seq<char>,
    direction: Seq<char>,
    cached: Seq<CachedText>,
    i: int,
)
    requires
        direction == "imported_by"@ || direction == "both"@,
        0 <= i < importers(cached, repo, file, module_name(path)).len(),
    ensures
        contains_text(
            dependencies_answer(repo, path, file, content, direction, cached),
            importers(cached, repo, file, module_name(path))[i],
        ),
{
    let list = importers(cached, repo, file, module_name(path));
    let p = list[i];
    let rows = list.map_values(|s: Seq<char>| bullet(s));
    assert(rows[i] == bullet(p));
    lemma_bullet(p);
    lemma_held_by_part(rows, i, p);
    let by = "## Imported By\n\n"@ + concat(rows);
    lemma_held_by_end("## Imported By\n\n"@, concat(rows), p);
    let imports = if direction == "imports"@ || direction == "both"@ {
        "## Imports\n\n"@ + concat(
            import_lines(lines_of(content)).map_values(|s: Seq<char>| bullet(s)),
        ) + "\n"@
    } else {
        Seq::empty()
    };
    let head = "# Dependencies for `"@ + path + "`\n\n"@;
    lemma_held_by_end(head + imports, by, p);
}

/// Every excerpt is shown, with its content.
pub proof fn law_every_excerpt_is_shown(
    path: Seq<char>,
    best: Seq<ExcerptText>,
    matches: usize,
    i: int,
)
    requires
        0 <= i < best.len(),
    ensures
        contains_text(excerpts_answer(path, best, matches), best[i].content),
{
    let e = best[i];
    let p = e.content;
    let language = crate::languages::get_language_id_spec(path);
    let lead = "## Excerpt "@ + decimal((i + 1) as nat) + "\nLines "@ + decimal(
        e.start_line as nat,
    ) + "-"@ + decimal(e.end_line as nat) + " | Relevance: "@ + e.relevance + "\n\n```"@ + language
        + "\n"@;
    lemma_held_by_itself(p);
    lemma_held_by_end(lead, p, p);
    lemma_held_by_front(lead + p, "\n```\n\n"@, p);
    let rows = Seq::new(best.len(), |k: int| excerpt_part(best[k], (k + 1) as nat, path));
    assert(rows[i] == excerpt_part(e, (i + 1) as nat, path));
    lemma_held_by_part(rows, i, p);
    let head = "# Code Excerpt: `"@ + path + "`\n\nExtracted "@ + decimal(best.len() as nat)
        + " excerpt(s) from "@ + decimal(matches as nat) + " match line(s)\n\n"@;
    lemma_held_by_end(head, concat(rows), p);
    lemma_held_by_front(head + concat(rows), Seq::empty(), p);
}

// ---- history ----

/// Each of the first twenty files that change often is shown.
pub proof fn law_often_changed_files_are_shown(days: usize, files: Seq<ChurnText>, i: int)
    requires
        0 <= i < files.len(),
        i < 20,
    ensures
        contains_text(
            churn_answer(days, files),
            "| `"@ + files[i].file_path + "` | "@ + decimal(files[i].total_commits as nat) + " | "@
                + decimal(files[i].unique_authors as nat),
        ),
{
    let c = files[i];
    let shown = crate::history::top_twenty(files);
    let p = "| `"@ + c.file_path + "` | "@ + decimal(c.total_commits as nat) + " | "@ + decimal(
        c.unique_authors as nat,
    );
    lemma_held_by_itself(p);
    lemma_held_by_front(p, " | "@, p);
    lemma_held_by_front(p + " | "@, c.churn_score, p);
    lemma_held_by_front(p + " | "@ + c.churn_score, " |\n"@, p);
    let rows = shown.map_values(|q: ChurnText| churn_row(q));
    assert(rows[i] == churn_row(c));
    lemma_held_by_part(rows, i, p);
    let answer = churn_answer(days, files);
    let body = concat(rows);
    let head = answer.take(answer.len() - body.len());
    lemma_held_by_end(head, body, p);
    assert(answer =~= head + body);
}

/// A history over several files names them.
pub proof fn law_searched_files_are_named(history: Seq<char>, searched: Seq<Seq<char>>, i: int)
    requires
        0 <= i < searched.len(),
    ensures
        contains_text(symbol_history_answer(history, Seq::empty(), searched), searched[i]),
        contains_text(symbol_history_answer(history, Seq::empty(), searched), history),
{
    let p = searched[i];
    let list = join_spec(searched, ", "@);
    lemma_held_by_itself(p);
    lemma_held_by_itself(history);
    lemma_held_by_joined(searched, ", "@, i, p);
    let lead = history + "\n**Files searched**: "@;
    lemma_held_by_end(lead, list, p);
    lemma_held_by_front(lead + list, "\n"@, p);
    lemma_held_by_front(history, "\n**Files searched**: "@, history);
    lemma_held_by_front(lead, list, history);
    lemma_held_by_front(lead + list, "\n"@, history);
}

/// A path is said to be a repository exactly where it is found to be one.
pub proof fn law_what_a_validation_says(path: Seq<char>, name: Seq<char>, error: Seq<char>)
    ensures
        contains_text(validation_answer(path, name, Ok(true)), "\n**Is Repository**: "@ + "Yes"@),
        contains_text(
            validation_answer(path, name, Ok(false)),
            "\n**Is Repository**: "@ + "No (no VCS or project markers detected)"@,
        ),
        contains_text(validation_answer(path, name, Err(error)), error),
{
    let yes = "\n**Is Repository**: "@ + "Yes"@;
    let no = "\n**Is Repository**: "@ + "No (no VCS or project markers detected)"@;
    let head = "# Repository Validation: `"@ + path + "`\n\n**Name**: "@ + name + "\n**Path**: "@
        + path;
    lemma_verdict(
        head,
        "Yes"@,
        "\nThis path can be indexed with `--repos` flag.\n"@,
    );
    lemma_verdict(
        head,
        "No (no VCS or project markers detected)"@,
        "\nWarning: No VCS (.git) or project markers detected. It may still be indexable but might not be a proper repository.\n"@,
    );
    let lead = "# Repository Validation: `"@ + path + "`\n\n**Status**: Invalid\n\n**Error**: "@;
    lemma_held_by_itself(error);
    lemma_held_by_end(lead, error, error);
    lemma_held_by_front(lead + error, "\n"@, error);
}

proof fn lemma_verdict(head: Seq<char>, verdict: Seq<char>, advice: Seq<char>)
    ensures
        contains_text(
            head + "\n**Is Repository**: "@ + verdict + "\n**Readable**: Yes\n"@ + advice,
            "\n**Is Repository**: "@ + verdict,
        ),
{
    let p = "\n**Is Repository**: "@ + verdict;
    lemma_held_by_itself(p);
    lemma_held_by_end(head, p, p);
    assert(head + "\n**Is Repository**: "@ + verdict =~= head + p);
    lemma_held_by_front(head + p, "\n**Readable**: Yes\n"@, p);
    lemma_held_by_front(head + p + "\n**Readable**: Yes\n"@, advice, p);
}

// ---- layout and memory ----

/// The drawn layout is shown, and said to be cut exactly where its budget was spent.
pub proof fn law_a_layout_is_shown(repo: Seq<char>, tree: Seq<char>, b: TreeBudget)
    ensures
        contains_text(structure_answer(repo, tree, b), tree),
        b.max_total == 0 || b.emitted < b.max_total ==> structure_answer(repo, tree, b)
            == "# Project Structure: "@ + repo + "\n\n```\n"@ + tree + "```\n"@,
{
    let head = "# Project Structure: "@ + repo + "\n\n```\n"@;
    let answer = structure_answer(repo, tree, b);
    let note = answer.skip((head + tree + "```\n"@).len() as int);
    lemma_held_by_itself(tree);
    lemma_held_by_end(head, tree, tree);
    lemma_held_by_front(head + tree, "```\n"@, tree);
    lemma_held_by_front(head + tree + "```\n"@, note, tree);
    assert(answer =~= head + tree + "```\n"@ + note);
    if b.max_total == 0 || b.emitted < b.max_total {
        assert(answer =~= head + tree + "```\n"@);
    }
}

/// The memory in use is read from its line, in kilobytes.
pub proof fn law_the_memory_in_use_is_read(lines: Seq<Seq<char>>, kilobytes: nat, rest: Seq<char>)
    requires
        lines.len() > 0,
        lines[0] == "VmRSS:"@ + rest,
        words_of(rest).len() > 0,
        parse_usize_spec(words_of(rest)[0]) is Some,
        parse_usize_spec(words_of(rest)[0])->0 == kilobytes,
        kilobytes * 1024 <= usize::MAX,
    ensures
        rss_spec(lines) == Some((kilobytes * 1024) as nat),
{
    let mark = "VmRSS:"@;
    let line = lines[0];
    assert(line.subrange(0, mark.len() as int) =~= mark);
    assert(line.skip(mark.len() as int) =~= rest);
    assert(rss_of_line(line) == Some(Some((kilobytes * 1024) as nat)));
}

// ---- usages and callers ----

/// The uses of a symbol are shown with its definitions, and with what the servers say where they
/// say anything.
pub proof fn law_a_use_answer_has_its_parts(
    symbol: Seq<char>,
    definitions: Seq<UsageText>,
    usages: Seq<UsageText>,
    answers: Seq<AnswerText>,
)
    ensures
        contains_text(
            usages_answer(symbol, definitions, usages, None),
            definitions_part(definitions),
        ),
        contains_text(usages_answer(symbol, definitions, usages, None), plain_part(usages)),
        contains_text(
            usages_answer(symbol, definitions, usages, Some(answers)),
            validated_part(
                validated_rows(usages, answers),
                answers.map_values(|a: AnswerText| a.label),
            ),
        ),
{
    let plain = plain_part(usages);
    let checked = validated_part(
        validated_rows(usages, answers),
        answers.map_values(|a: AnswerText| a.label),
    );
    let defined = definitions_part(definitions);
    let a = usages_answer(symbol, definitions, usages, None);
    let b = usages_answer(symbol, definitions, usages, Some(answers));
    let n = a.len() - plain.len();
    let m = n - defined.len();
    let head = a.take(m);
    lemma_held_by_itself(plain);
    lemma_held_by_itself(checked);
    lemma_held_by_itself(defined);
    lemma_held_by_end(head + defined, plain, plain);
    lemma_held_by_end(head, defined, defined);
    lemma_held_by_front(head + defined, plain, defined);
    assert(a =~= head + defined + plain);
    lemma_held_by_end(head + defined, checked, checked);
    assert(b =~= head + defined + checked);
}

/// The rows of uses stand in their part.
pub proof fn law_uses_stand_in_their_part(usages: Seq<UsageText>)
    requires
        usages.len() > 0,
    ensures
        contains_text(plain_part(usages), usage_table(usages)),
        contains_text(plain_part(usages), "## Usages ("@ + decimal(usages.len() as nat)),
{
    let table = usage_table(usages);
    let count = "## Usages ("@ + decimal(usages.len() as nat);
    let more = " found)\n\n| File | Line | Context |\n|------|------|--------|\n"@;
    lemma_held_by_itself(table);
    lemma_held_by_end(count + more, table, table);
    lemma_held_by_itself(count);
    lemma_held_by_front(count, more, count);
    lemma_held_by_front(count + more, table, count);
}

/// The uses shown are those of the repository's files, beside the definitions of its index.
pub proof fn law_which_uses_are_shown(
    state: EngineText,
    key: Seq<char>,
    symbol: Seq<char>,
    imports: bool,
    tests: Seq<Seq<char>>,
)
    ensures
        usages_shown(state, key, symbol, imports, tests, Seq::empty()) == usages_answer(
            symbol,
            definition_rows(symbols_or_none(state.repos, key), symbol, tests),
            mentions(state.files, key, symbol, imports, tests),
            None,
        ),
        symbols_of(state.repos, key) matches Some(list) ==> symbols_or_none(state.repos, key)
            == list,
        symbols_of(state.repos, key) is None ==> symbols_or_none(state.repos, key).len() == 0,
{
    assert(telling_answers(Seq::empty()).len() == 0) by {
        reveal(Seq::filter);
    }
}

proof fn lemma_first_asked_for(symbols: Seq<SymbolText>, function: Seq<char>, i: int)
    requires
        0 <= i < symbols.len(),
        symbols[i].name == function || symbols[i].qualified_name == Some(function),
        forall|j: int|
            0 <= j < i ==> (#[trigger] symbols[j]).name != function && symbols[j].qualified_name
                != Some(function),
    ensures
        defined_in_cxx(symbols, function) == is_cxx_file(symbols[i].file_path),
    decreases symbols.len(),
{
    if i > 0 {
        let rest = symbols.skip(1);
        assert(symbols[0].name != function);
        assert(rest[i - 1] == symbols[i]);
        assert forall|j: int| 0 <= j < i - 1 implies (#[trigger] rest[j]).name != function
            && rest[j].qualified_name != Some(function) by {
            assert(rest[j] == symbols[j + 1]);
        }
        lemma_first_asked_for(rest, function, i - 1);
    }
}

/// What a server says of a function's callers is taken in where the function's first symbol is of
/// C's family, and only there.
pub proof fn law_when_a_server_adds_callers(
    edges: Seq<EdgeText>,
    references: Seq<ReferenceText>,
    source: SourceSet,
    function: Seq<char>,
    symbols: Seq<SymbolText>,
    i: int,
)
    requires
        0 <= i < symbols.len(),
        symbols[i].name == function || symbols[i].qualified_name == Some(function),
        forall|j: int|
            0 <= j < i ==> (#[trigger] symbols[j]).name != function && symbols[j].qualified_name
                != Some(function),
    ensures
        is_cxx_file(symbols[i].file_path) ==> all_callers(
            edges,
            Some((references, source)),
            function,
            Some(symbols),
        ) == folded(merged_callers(edges, references, function, symbols, source)),
        !is_cxx_file(symbols[i].file_path) ==> all_callers(
            edges,
            Some((references, source)),
            function,
            Some(symbols),
        ) == folded(edges),
        all_callers(edges, None, function, Some(symbols)) == folded(edges),
{
    lemma_first_asked_for(symbols, function, i);
}

/// A call pass asks about the functions of C's family that the index has, file by file.
pub proof fn law_what_a_call_pass_asks(state: EngineText, key: Seq<char>)
    ensures
        symbols_of(state.repos, key) matches Some(list) ==> files_to_ask(state, key) == grouped(
            cxx_functions_of(list),
        ),
        symbols_of(state.repos, key) is None ==> files_to_ask(state, key).len() == 0,
{
}

// ---- repositories ----

/// A status is that of its repository.
pub proof fn law_a_status_is_of_its_repo(
    repo: IndexedText,
    git: Seq<Seq<char>>,
    behind: Seq<(Seq<char>, usize)>,
)
    requires
        repo.symbols.len() <= usize::MAX,
    ensures
        ({
            let s = status_of(repo, git, behind);
            &&& s.key == repo.key
            &&& s.name == repo.metadata.name
            &&& s.file_count == repo.metadata.file_count
            &&& s.symbol_count == repo.symbols.len()
            &&& s.git <==> git.contains(repo.key)
            &&& s.commits_behind == behind_of(behind, repo.key)
        }),
        summary_of(repo).key == repo.key,
        summary_of(repo).name == repo.metadata.name,
        summary_of(repo).file_count == repo.metadata.file_count,
        summary_of(repo).total_lines == repo.metadata.total_lines,
{
}

/// A tool is about the repository that was named, and about all where none was.
pub proof fn law_which_repos_a_tool_is_about(state: EngineText, arg: ArgText)
    ensures
        optional_key(state, None) == Ok::<Option<Seq<char>>, Seq<char>>(None),
        state.resolved(arg) matches Ok(key) ==> optional_key(state, Some(arg)) == Ok::<
            Option<Seq<char>>,
            Seq<char>,
        >(Some(key)),
        state.resolved(arg) is Err ==> optional_key(state, Some(arg)) is Err,
        limited_to(state, None) is None,
        arg.input.len() == 0 ==> limited_to(state, Some(arg)) is None,
        arg.input.len() > 0 && state.key_of(arg) is Ok ==> limited_to(state, Some(arg)) == Some(
            state.key_of(arg)->Ok_0,
        ),
{
}

/// Every indexed repository has its status and its summary.
pub proof fn law_every_repo_is_reported(
    state: EngineText,
    behind: Seq<(Seq<char>, usize)>,
    i: int,
)
    requires
        0 <= i < state.repos.len(),
    ensures
        statuses(state, behind).len() == state.repos.len(),
        statuses(state, behind)[i].key == state.repos[i].key,
        statuses(state, behind)[i].git <==> state.git_repos.contains(state.repos[i].key),
        summaries(state.repos).len() == state.repos.len(),
        summaries(state.repos)[i].key == state.repos[i].key,
        summaries(state.repos)[i].file_count == state.repos[i].metadata.file_count,
{
}

/// A state of the branch names it, what it tracks and how far apart they are.
pub proof fn law_a_branch_is_described(
    repo: Seq<char>,
    branch: Seq<char>,
    up: UpstreamText,
    modified: Seq<Seq<char>>,
    window: ListWindow,
    i: int,
)
    requires
        window.start(modified.len()) <= i < window.end(modified.len()),
    ensures
        contains_text(
            branch_answer(repo, branch, Some(up), modified, window),
            "**Upstream**: `"@ + up.upstream + "`\n**Ahead**: "@ + decimal(up.ahead as nat)
                + " | **Behind**: "@ + decimal(up.behind as nat),
        ),
        contains_text(branch_answer(repo, branch, Some(up), modified, window), branch),
        contains_text(branch_answer(repo, branch, Some(up), modified, window), modified[i]),
{
    let p = "**Upstream**: `"@ + up.upstream + "`\n**Ahead**: "@ + decimal(up.ahead as nat)
        + " | **Behind**: "@ + decimal(up.behind as nat);
    let tracks = p + "\n"@;
    let page = bullet_page(modified, true, window, "get_branch_info"@);
    let tree = "## Working Tree Changes\n\n"@ + page;
    let unpushed = if up.unpushed.len() > 0 {
        "\n## Unpushed Commits\n\n"@ + bullet_page(up.unpushed, false, window, "get_branch_info"@)
    } else {
        Seq::empty()
    };
    let lead = "# Git Status: "@ + repo + "\n\n**Current Branch**: `"@;
    let count = decimal(modified.len() as nat);
    lemma_held_by_itself(branch);
    lemma_held_by_end(lead, branch, branch);
    let a = lead + branch;
    lemma_held_by_front(a, "`\n"@, branch);
    let b = a + "`\n"@;
    lemma_held_by_front(b, tracks, branch);
    lemma_held_by_itself(p);
    lemma_held_by_front(p, "\n"@, p);
    lemma_held_by_end(b, tracks, p);
    let c = b + tracks;
    lemma_held_by_front(c, "**Modified Files**: "@, branch);
    lemma_held_by_front(c, "**Modified Files**: "@, p);
    let d = c + "**Modified Files**: "@;
    lemma_held_by_front(d, count, branch);
    lemma_held_by_front(d, count, p);
    let e = d + count;
    lemma_held_by_front(e, "\n\n"@, branch);
    lemma_held_by_front(e, "\n\n"@, p);
    let f = e + "\n\n"@;
    lemma_held_by_front(f, tree, branch);
    lemma_held_by_front(f, tree, p);
    law_every_bullet_of_the_page_is_shown(modified, true, window, "get_branch_info"@, i);
    lemma_held_by_end("## Working Tree Changes\n\n"@, page, modified[i]);
    lemma_held_by_end(f, tree, modified[i]);
    let g = f + tree;
    lemma_held_by_front(g, unpushed, branch);
    lemma_held_by_front(g, unpushed, p);
    lemma_held_by_front(g, unpushed, modified[i]);
}

/// The contributors of a page are shown, of a file or of the repository.
pub proof fn law_contributors_are_shown(
    repo: Seq<char>,
    path: Option<Seq<char>>,
    list: Seq<(Seq<char>, usize)>,
    window: ListWindow,
)
    requires
        list.len() > 0,
    ensures
        contains_text(
            contributors_answer(repo, path, list, window),
            contributors_page(list, window),
        ),
{
    let page = contributors_page(list, window);
    lemma_held_by_itself(page);
    match path {
        Some(p) => {
            lemma_held_by_end("# Contributors to `"@ + p + "`\n\n"@, page, page);
        },
        None => {
            let lead = "**Total contributors**: "@ + decimal(list.len() as nat) + "\n\n"@;
            lemma_held_by_end(lead, page, page);
            lemma_held_by_end(
                "# Repository Contributors: "@ + repo + "\n\n"@,
                lead + page,
                page,
            );
        },
    }
}

/// The state of an index counts its symbols and cached files.
pub proof fn law_an_index_state_counts(
    repo: Seq<char>,
    symbols: Seq<SymbolText>,
    cached: usize,
    state: PersistedIndexState,
)
    ensures
        contains_text(
            incremental_answer(repo, Some(symbols), cached, state),
            "\n- **Indexed Symbols**: "@ + decimal(symbols.len() as nat)
                + "\n- **Cached Files**: "@ + decimal(cached as nat),
        ),
{
    let p = "\n- **Indexed Symbols**: "@ + decimal(symbols.len() as nat)
        + "\n- **Cached Files**: "@ + decimal(cached as nat);
    let head = "# Incremental Index Status: "@ + repo
        + "\n\n## Index Statistics\n\n- **Repository**: "@ + repo;
    let x = "\n- **Indexed Symbols**: "@;
    let y = decimal(symbols.len() as nat);
    let z = "\n- **Cached Files**: "@;
    let w = decimal(cached as nat);
    lemma_held_by_itself(p);
    lemma_held_by_end(head, p, p);
    assert(head + x + y =~= head + (x + y));
    assert(head + x + y + z =~= head + (x + y + z));
    assert(head + x + y + z + w =~= head + p);
    let a = head + p;
    lemma_held_by_front(a, "\n"@, p);
    lemma_held_by_front(a + "\n"@, persisted_part(state), p);
    lemma_held_by_front(
        a + "\n"@ + persisted_part(state),
        breakdown_part(Some(symbols)),
        p,
    );
}

// ---- paths and presets ----

/// A path is checked where one is given.
pub proof fn law_given_paths_are_checked(
    disk: Seq<DiskText>,
    root: Seq<char>,
    path: Seq<char>,
)
    ensures
        path_checked(disk, root, Some(path)) is Ok <==> place_on_disk(disk, root, path) is Ok,
        path_checked(disk, root, None) is Ok,
        pathspec_checked(Some(path)) is Ok <==> validate_pathspec_spec(path) is Ok,
        pathspec_checked(None) is Ok,
{
}

/// A preset that a client asks for wins over the configured one.
pub proof fn law_the_preset_asked_for_wins(configured: Option<Seq<char>>, asked: Seq<char>)
    ensures
        preset_spec(configured, Some(asked)) == Some(asked),
        preset_spec(configured, None) == configured,
{
}

/// A result is filled in from the files of the registered repositories, where one has it.
pub proof fn law_results_are_filled_from_the_cache(state: EngineText, h: HybridText)
    ensures
        with_own_content(state, h).file_content == first_cached(
            state.registered,
            state.files,
            h.file_path,
        ),
        with_own_content(state, h).file_path == h.file_path,
        first_cached(state.registered, state.files, h.file_path) is None ==> with_own_content(
            state,
            h,
        ).regenerated is None,
        first_cached(state.registered, state.files, h.file_path) is Some ==> with_own_content(
            state,
            h,
        ).regenerated == h.regenerated,
{
}

/// The function whose flow is asked for is looked for among the symbols of the repository.
pub proof fn law_where_a_function_is_looked_for(
    state: EngineText,
    arg: ArgText,
    function: Seq<char>,
)
    ensures
        flow_symbol(state, arg, function) matches Ok(found) ==> 0 <= found.0 < state.repos.len()
            && state.resolved(arg) == Ok::<Seq<char>, Seq<char>>(state.repos[found.0].key)
            && first_target(state.repos[found.0].symbols, function) == Some(found.1),
        state.resolved(arg) is Err ==> flow_symbol(state, arg, function) is Err,
{
    if state.resolved(arg) is Ok {
        lemma_repo_index(state.repos, state.resolved(arg)->Ok_0);
    }
}

} // verus!
