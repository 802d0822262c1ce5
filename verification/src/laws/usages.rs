//! Where a symbol is used, what a file exports, and what stands at a place.

use vstd::prelude::*;

use crate::callgraph::ReferenceText;
use crate::laws::lists::{lemma_filter_members, lemma_sorted_members};
use crate::laws::texts::{law_a_held_text_can_be_cut_out, law_what_stands_in_between_is_held};
use crate::order::{
    is_strict_weak, law_sorting_sorts, lemma_text_lt_irreflexive, lemma_text_lt_total,
    lemma_text_lt_transitive, text_lt,
};
use crate::paths::{relative_spec, strip_base};
use crate::position::{candidates, symbol_at};
use crate::references::{
    first_mentions, first_queried, location_seen, merged_references, outside_tests, reference_of,
    reference_order, server_references, spot_taken, LocationText,
};
use crate::search::CachedText;
use crate::symbols::{enclosing_spec, SymbolKind, SymbolText};
use crate::text::{contains_text, lines_of, trim_spec};
use crate::usages::{
    definition_rows, export_statements, exported_symbols, file_mentions, is_import_line,
    line_mentions, line_order, mentions, UsageText,
};

verus! {

// ---- usages ----

proof fn lemma_line_is_used(
    rel: Seq<char>,
    lines: Seq<Seq<char>>,
    symbol: Seq<char>,
    imports: bool,
    n: int,
    k: int,
)
    requires
        0 <= k < n <= lines.len(),
        contains_text(lines[k], symbol),
        imports || !is_import_line(lines[k]),
    ensures
        exists|j: int|
            0 <= j < line_mentions(rel, lines, symbol, imports, n).len() && (
            #[trigger] line_mentions(rel, lines, symbol, imports, n)[j]).file == rel
                && line_mentions(rel, lines, symbol, imports, n)[j].line == (k + 1) as usize,
    decreases n,
{
    let all = line_mentions(rel, lines, symbol, imports, n);
    let front = line_mentions(rel, lines, symbol, imports, n - 1);
    if k == n - 1 {
        assert(all[all.len() - 1].line == (k + 1) as usize);
    } else {
        lemma_line_is_used(rel, lines, symbol, imports, n - 1, k);
        let j = choose|j: int|
            0 <= j < front.len() && (#[trigger] front[j]).file == rel && front[j].line == (k
                + 1) as usize;
        assert(all[j] == front[j]);
    }
}

/// Some row stands at a line of a file.
pub open spec fn has_row(rows: Seq<UsageText>, file: Seq<char>, line: usize) -> bool {
    exists|j: int| 0 <= j < rows.len() && (#[trigger] rows[j]).file == file && rows[j].line == line
}

/// Every line outside the tests that holds the symbol's text is a usage; a line that imports
/// is one where imports are asked for.
pub proof fn law_every_use_is_listed(
    files: Seq<CachedText>,
    repo: Seq<char>,
    symbol: Seq<char>,
    imports: bool,
    tests: Seq<Seq<char>>,
    i: int,
    k: int,
    before: Seq<char>,
    after: Seq<char>,
)
    requires
        0 <= i < files.len(),
        strip_base(files[i].path, repo) is Some,
        !tests.contains(strip_base(files[i].path, repo)->0),
        0 <= k < lines_of(files[i].content).len(),
        lines_of(files[i].content)[k] == before + symbol + after,
        imports || !is_import_line(lines_of(files[i].content)[k]),
    ensures
        has_row(
            mentions(files, repo, symbol, imports, tests),
            strip_base(files[i].path, repo)->0,
            (k + 1) as usize,
        ),
    decreases files.len(),
{
    law_what_stands_in_between_is_held(before, symbol, after);
    let rel = strip_base(files[i].path, repo)->0;
    let ls = lines_of(files[i].content);
    let front = mentions(files.drop_last(), repo, symbol, imports, tests);
    let last = file_mentions(files.last(), repo, symbol, imports, tests);
    if i == files.len() - 1 {
        lemma_line_is_used(rel, ls, symbol, imports, ls.len() as int, k);
        let j = choose|j: int|
            0 <= j < last.len() && (#[trigger] last[j]).file == rel && last[j].line == (k
                + 1) as usize;
        assert((front + last)[front.len() + j] == last[j]);
    } else {
        assert(files.drop_last()[i] == files[i]);
        law_every_use_is_listed(
            files.drop_last(),
            repo,
            symbol,
            imports,
            tests,
            i,
            k,
            before,
            after,
        );
        let j = choose|j: int|
            0 <= j < front.len() && (#[trigger] front[j]).file == rel && front[j].line == (k
                + 1) as usize;
        assert((front + last)[j] == front[j]);
    }
}

/// A row stands for a line of a file that holds the symbol's text, outside the tests, and says
/// whether the line imports.
pub open spec fn is_use(
    f: CachedText,
    repo: Seq<char>,
    symbol: Seq<char>,
    imports: bool,
    tests: Seq<Seq<char>>,
    k: int,
    u: UsageText,
) -> bool {
    &&& strip_base(f.path, repo) == Some(u.file)
    &&& !tests.contains(u.file)
    &&& 0 <= k < lines_of(f.content).len()
    &&& u.line == (k + 1) as usize
    &&& imports || !is_import_line(lines_of(f.content)[k])
    &&& u.label == (if is_import_line(lines_of(f.content)[k]) {
        "import"@
    } else {
        "usage"@
    })
    &&& exists|before: Seq<char>, after: Seq<char>|
        lines_of(f.content)[k] == #[trigger] (before + symbol + after)
}

proof fn lemma_used_lines(
    f: CachedText,
    repo: Seq<char>,
    rel: Seq<char>,
    symbol: Seq<char>,
    imports: bool,
    tests: Seq<Seq<char>>,
    n: int,
    j: int,
)
    requires
        strip_base(f.path, repo) == Some(rel),
        !tests.contains(rel),
        0 <= n <= lines_of(f.content).len(),
        0 <= j < line_mentions(rel, lines_of(f.content), symbol, imports, n).len(),
    ensures
        exists|k: int| #[trigger]
            is_use(
                f,
                repo,
                symbol,
                imports,
                tests,
                k,
                line_mentions(rel, lines_of(f.content), symbol, imports, n)[j],
            ),
    decreases n,
{
    let ls = lines_of(f.content);
    let all = line_mentions(rel, ls, symbol, imports, n);
    let front = line_mentions(rel, ls, symbol, imports, n - 1);
    if j < front.len() {
        lemma_used_lines(f, repo, rel, symbol, imports, tests, n - 1, j);
        assert(all[j] == front[j]);
    } else {
        law_a_held_text_can_be_cut_out(ls[n - 1], symbol);
        assert(is_use(f, repo, symbol, imports, tests, n - 1, all[j]));
    }
}

/// Only such lines are usages.
pub proof fn law_only_uses_are_listed(
    files: Seq<CachedText>,
    repo: Seq<char>,
    symbol: Seq<char>,
    imports: bool,
    tests: Seq<Seq<char>>,
    j: int,
)
    requires
        0 <= j < mentions(files, repo, symbol, imports, tests).len(),
    ensures
        exists|i: int, k: int|
            0 <= i < files.len() && #[trigger] is_use(
                files[i],
                repo,
                symbol,
                imports,
                tests,
                k,
                mentions(files, repo, symbol, imports, tests)[j],
            ),
    decreases files.len(),
{
    let all = mentions(files, repo, symbol, imports, tests);
    let front = mentions(files.drop_last(), repo, symbol, imports, tests);
    if j < front.len() {
        law_only_uses_are_listed(files.drop_last(), repo, symbol, imports, tests, j);
        let (i, k) = choose|i: int, k: int|
            0 <= i < files.drop_last().len() && #[trigger] is_use(
                files.drop_last()[i],
                repo,
                symbol,
                imports,
                tests,
                k,
                front[j],
            );
        assert(files.drop_last()[i] == files[i]);
        assert(is_use(files[i], repo, symbol, imports, tests, k, all[j]));
    } else {
        let f = files.last();
        let rel = strip_base(f.path, repo)->0;
        let ls = lines_of(f.content);
        let last = file_mentions(f, repo, symbol, imports, tests);
        lemma_used_lines(
            f,
            repo,
            rel,
            symbol,
            imports,
            tests,
            ls.len() as int,
            j - front.len(),
        );
        let k = choose|k: int| #[trigger]
            is_use(f, repo, symbol, imports, tests, k, last[j - front.len()]);
        assert(all[j] == last[j - front.len()]);
        assert(is_use(files[files.len() - 1], repo, symbol, imports, tests, k, all[j]));
    }
}

/// A line that says `import `, `use `, `from ` or `require(` is an import, and no other.
pub proof fn law_what_an_import_line_is(line: Seq<char>)
    ensures
        is_import_line(line) <==> exists|word: Seq<char>, before: Seq<char>, after: Seq<char>|
            line == #[trigger] (before + word + after) && (word == "import "@ || word == "use "@
                || word == "from "@ || word == "require("@),
{
    law_a_held_text_can_be_cut_out(line, "import "@);
    law_a_held_text_can_be_cut_out(line, "use "@);
    law_a_held_text_can_be_cut_out(line, "from "@);
    law_a_held_text_can_be_cut_out(line, "require("@);
}

/// The definitions listed are those of the name outside the tests, each where it begins.
pub proof fn law_every_definition_is_listed(
    symbols: Seq<SymbolText>,
    symbol: Seq<char>,
    tests: Seq<Seq<char>>,
    i: int,
)
    requires
        0 <= i < symbols.len(),
        symbols[i].name == symbol,
        !tests.contains(symbols[i].file_path),
    ensures
        has_row(
            definition_rows(symbols, symbol, tests),
            symbols[i].file_path,
            symbols[i].start_line,
        ),
    decreases symbols.len(),
{
    let front = definition_rows(symbols.drop_last(), symbol, tests);
    let all = definition_rows(symbols, symbol, tests);
    if i == symbols.len() - 1 {
        assert(all[all.len() - 1].file == symbols[i].file_path);
    } else {
        assert(symbols.drop_last()[i] == symbols[i]);
        law_every_definition_is_listed(symbols.drop_last(), symbol, tests, i);
        let j = choose|j: int|
            0 <= j < front.len() && (#[trigger] front[j]).file == symbols[i].file_path
                && front[j].line == symbols[i].start_line;
        assert(all[j] == front[j]);
    }
}

/// Only definitions of the name outside the tests are listed.
pub proof fn law_only_definitions_are_listed(
    symbols: Seq<SymbolText>,
    symbol: Seq<char>,
    tests: Seq<Seq<char>>,
    j: int,
)
    requires
        0 <= j < definition_rows(symbols, symbol, tests).len(),
    ensures
        exists|i: int|
            0 <= i < symbols.len() && (#[trigger] symbols[i]).name == symbol && !tests.contains(
                symbols[i].file_path,
            ) && definition_rows(symbols, symbol, tests)[j].file == symbols[i].file_path
                && definition_rows(symbols, symbol, tests)[j].line == symbols[i].start_line,
    decreases symbols.len(),
{
    let front = definition_rows(symbols.drop_last(), symbol, tests);
    if j < front.len() {
        law_only_definitions_are_listed(symbols.drop_last(), symbol, tests, j);
        let i = choose|i: int|
            0 <= i < symbols.drop_last().len() && (#[trigger] symbols.drop_last()[i]).name == symbol
                && !tests.contains(symbols.drop_last()[i].file_path) && front[j].file
                == symbols.drop_last()[i].file_path && front[j].line
                == symbols.drop_last()[i].start_line;
        assert(symbols[i] == symbols.drop_last()[i]);
    } else {
        assert(symbols[symbols.len() - 1].name == symbol);
    }
}

// ---- exports ----

proof fn lemma_line_order_is_strict_weak()
    ensures
        is_strict_weak(line_order()),
{
}

/// A file exports its own symbols, all of them, by their lines.
pub proof fn law_a_file_exports_its_symbols_by_line(
    symbols: Seq<SymbolText>,
    path: Seq<char>,
    s: SymbolText,
)
    ensures
        exported_symbols(symbols, path).contains(s) <==> symbols.contains(s) && s.file_path == path,
        forall|i: int, j: int|
            0 <= i < j < exported_symbols(symbols, path).len() ==> (#[trigger] exported_symbols(
                symbols,
                path,
            )[i]).start_line <= (#[trigger] exported_symbols(symbols, path)[j]).start_line,
{
    let pred = |t: SymbolText| t.file_path == path;
    lemma_filter_members(symbols, pred, s);
    let own = symbols.filter(pred);
    lemma_sorted_members(own, line_order(), s);
    lemma_line_order_is_strict_weak();
    law_sorting_sorts(own, line_order());
    let all = exported_symbols(symbols, path);
    assert forall|i: int, j: int| 0 <= i < j < all.len() implies (#[trigger] all[i]).start_line <= (
    #[trigger] all[j]).start_line by {
        let lt = line_order();
        assert(!lt(all[j], all[i]));
    }
}

/// A line whose trimmed text begins with an export mark is among the export statements.
pub proof fn law_every_export_statement_is_shown(lines: Seq<Seq<char>>, n: int, k: int)
    requires
        0 <= k < n <= lines.len(),
        "export "@.is_prefix_of(trim_spec(lines[k])) || "pub "@.is_prefix_of(trim_spec(lines[k]))
            || "module.exports"@.is_prefix_of(trim_spec(lines[k])) || "__all__"@.is_prefix_of(
            trim_spec(lines[k]),
        ),
    ensures
        export_statements(lines, n).contains(crate::usages::export_statement(lines, k + 1)),
    decreases n,
{
    let front = export_statements(lines, n - 1);
    let all = export_statements(lines, n);
    let item = crate::usages::export_statement(lines, k + 1);
    if k == n - 1 {
        assert(all[all.len() - 1] == item);
    } else {
        law_every_export_statement_is_shown(lines, n - 1, k);
        let j = choose|j: int| 0 <= j < front.len() && front[j] == item;
        assert(all[j] == item);
    }
}

// ---- what stands at a place ----

/// The symbol at a place is the first of the file that spans the line; there is one wherever
/// some symbol of the file spans it.
pub proof fn law_a_place_is_in_the_symbol_found(
    symbols: Seq<SymbolText>,
    path: Seq<char>,
    line: usize,
)
    ensures
        symbol_at(symbols, path, line) matches Some(s) ==> symbols.contains(s) && s.file_path
            == path && s.start_line <= line <= s.end_line,
        symbol_at(symbols, path, line) is None ==> forall|i: int|
            0 <= i < symbols.len() && (#[trigger] symbols[i]).file_path == path
                ==> line < symbols[i].start_line || symbols[i].end_line < line,
    decreases symbols.len(),
{
    if symbols.len() > 0 {
        let rest = symbols.skip(1);
        law_a_place_is_in_the_symbol_found(rest, path, line);
        if symbols[0].file_path == path && symbols[0].start_line <= line <= symbols[0].end_line {
            assert(symbols.contains(symbols[0]));
        } else {
            if symbol_at(rest, path, line) is Some {
                let s = symbol_at(rest, path, line)->0;
                let k = choose|k: int| 0 <= k < rest.len() && rest[k] == s;
                assert(symbols[k + 1] == s);
            }
            assert forall|i: int|
                0 <= i < symbols.len() && (#[trigger] symbols[i]).file_path == path
                    && symbol_at(symbols, path, line) is None implies line < symbols[i].start_line
                || symbols[i].end_line < line by {
                if i > 0 {
                    assert(rest[i - 1] == symbols[i]);
                }
            }
        }
    }
}

/// The candidates for a line are the symbols whose names it holds.
pub proof fn law_candidates_are_named_in_the_line(
    symbols: Seq<SymbolText>,
    line: Seq<char>,
    s: SymbolText,
)
    ensures
        candidates(symbols, line).contains(s) <==> symbols.contains(s) && exists|
            before: Seq<char>,
            after: Seq<char>,
        |
            line == #[trigger] (before + s.name + after),
{
    let pred = |t: SymbolText| contains_text(line, t.name);
    lemma_filter_members(symbols, pred, s);
    law_a_held_text_can_be_cut_out(line, s.name);
}

/// The function around a line is a function or method of the file that spans the line, and no
/// other that does spans fewer lines.
pub proof fn law_the_function_around_a_line(
    symbols: Seq<SymbolText>,
    file: Seq<char>,
    line: usize,
    j: int,
)
    requires
        0 <= j < symbols.len(),
        symbols[j].kind == SymbolKind::Function || symbols[j].kind == SymbolKind::Method,
        symbols[j].file_path == file,
        symbols[j].start_line <= line <= symbols[j].end_line,
    ensures
        enclosing_spec(symbols, file, line) matches Some(i) && 0 <= i < symbols.len() && (
        symbols[i].kind == SymbolKind::Function || symbols[i].kind == SymbolKind::Method)
            && symbols[i].file_path == file && symbols[i].start_line <= line <= symbols[i].end_line
            && symbols[i].end_line - symbols[i].start_line <= symbols[j].end_line
            - symbols[j].start_line,
{
    crate::symbols::law_enclosing_function_is_tightest(symbols, file, line);
    assert(crate::symbols::covers(symbols[j], file, line));
}

// ---- references of several sources ----

/// What a server names is listed with the line's text, counted from one, under the path
/// relative to the repository.
pub proof fn law_a_server_location_is_read_from_its_file(l: LocationText, repo: Seq<char>)
    requires
        l.content is Some,
        l.line < lines_of(l.content->0).len(),
        l.line < usize::MAX,
    ensures
        reference_of(l, repo) matches Some(r) && r.file_path == relative_spec(l.path, repo)
            && r.line == l.line + 1 && r.content == trim_spec(lines_of(l.content->0)[l.line as int]),
{
}

/// No readable location that a server names is lost.
pub proof fn law_every_server_location_is_listed(
    list: Seq<LocationText>,
    repo: Seq<char>,
    once: bool,
    i: int,
)
    requires
        0 <= i < list.len(),
        reference_of(list[i], repo) is Some,
        forall|j: int| 0 <= j < i ==> (#[trigger] list[j]).path != list[i].path || list[j].line
            != list[i].line,
    ensures
        server_references(list, repo, once).contains(reference_of(list[i], repo)->0),
    decreases list.len(),
{
    let front = list.drop_last();
    let before = server_references(front, repo, once);
    let all = server_references(list, repo, once);
    let item = reference_of(list[i], repo)->0;
    if i < front.len() {
        assert(front[i] == list[i]);
        assert forall|j: int| 0 <= j < i implies (#[trigger] front[j]).path != front[i].path
            || front[j].line != front[i].line by {
            assert(front[j] == list[j]);
        }
        law_every_server_location_is_listed(front, repo, once, i);
        let k = choose|k: int| 0 <= k < before.len() && before[k] == item;
        assert(all[k] == item);
    } else {
        assert(!location_seen(front, list.last())) by {
            if location_seen(front, list.last()) {
                let j = choose|j: int|
                    0 <= j < front.len() && crate::references::same_location(
                        #[trigger] front[j],
                        list.last(),
                    );
                assert(front[j] == list[j]);
            }
        }
        assert(all[all.len() - 1] == item);
    }
}

/// Leaving tests out takes the references in test files and no others.
pub proof fn law_only_test_references_are_left_out(
    list: Seq<ReferenceText>,
    tests: Seq<Seq<char>>,
    r: ReferenceText,
)
    ensures
        outside_tests(list, tests).contains(r) <==> list.contains(r) && !tests.contains(r.file_path),
{
    let pred = |x: ReferenceText| !tests.contains(x.file_path);
    lemma_filter_members(list, pred, r);
}

proof fn lemma_reference_order_is_strict_weak()
    ensures
        is_strict_weak(reference_order()),
{
    let lt = reference_order();
    assert forall|a: ReferenceText| !#[trigger] lt(a, a) by {
        lemma_text_lt_irreflexive(a.file_path);
    }
    assert forall|a: ReferenceText, b: ReferenceText, c: ReferenceText| #[trigger]
        lt(a, b) && #[trigger] lt(b, c) implies lt(a, c) by {
        if text_lt(a.file_path, b.file_path) && text_lt(b.file_path, c.file_path) {
            lemma_text_lt_transitive(a.file_path, b.file_path, c.file_path);
        }
    }
    assert forall|a: ReferenceText, b: ReferenceText, c: ReferenceText|
        !#[trigger] lt(b, a) && !#[trigger] lt(c, b) implies !lt(c, a) by {
        lemma_text_lt_total(a.file_path, b.file_path);
        lemma_text_lt_total(b.file_path, c.file_path);
        lemma_text_lt_total(a.file_path, c.file_path);
        if text_lt(a.file_path, b.file_path) && text_lt(b.file_path, c.file_path) {
            lemma_text_lt_transitive(a.file_path, b.file_path, c.file_path);
        }
        lemma_text_lt_irreflexive(a.file_path);
        if text_lt(c.file_path, a.file_path) && text_lt(a.file_path, c.file_path) {
            lemma_text_lt_transitive(a.file_path, c.file_path, a.file_path);
        }
    }
}

proof fn lemma_first_mentions_apart(list: Seq<ReferenceText>)
    ensures
        forall|i: int, j: int|
            0 <= i < j < first_mentions(list).len() ==> (#[trigger] first_mentions(
                list,
            )[i]).file_path != (#[trigger] first_mentions(list)[j]).file_path || first_mentions(
                list,
            )[i].line != first_mentions(list)[j].line,
    decreases list.len(),
{
    if list.len() > 0 {
        lemma_first_mentions_apart(list.drop_last());
        let front = first_mentions(list.drop_last());
        let all = first_mentions(list);
        assert forall|i: int, j: int| 0 <= i < j < all.len() implies (
        #[trigger] all[i]).file_path != (#[trigger] all[j]).file_path || all[i].line
            != all[j].line by {
            assert(all[i] == front[i]);
            if j < front.len() {
                assert(all[j] == front[j]);
            } else if all[i].file_path == all[j].file_path && all[i].line == all[j].line {
                assert(crate::references::same_spot(front[i], list.last()));
                assert(spot_taken(front, list.last()));
            }
        }
    }
}

/// A merged list goes by file, within a file by line, and names no place twice.
pub proof fn law_merged_references_are_in_order(
    primary: Seq<ReferenceText>,
    secondary: Seq<ReferenceText>,
    i: int,
    j: int,
)
    requires
        0 <= i < j < merged_references(primary, secondary).len(),
    ensures
        ({
            let a = merged_references(primary, secondary)[i];
            let b = merged_references(primary, secondary)[j];
            &&& text_lt(a.file_path, b.file_path) || a.file_path == b.file_path
            &&& a.file_path == b.file_path ==> a.line <= b.line
        }),
{
    let once = first_mentions(primary + secondary);
    let all = merged_references(primary, secondary);
    lemma_reference_order_is_strict_weak();
    law_sorting_sorts(once, reference_order());
    let lt = reference_order();
    assert(!lt(all[j], all[i]));
    lemma_text_lt_total(all[i].file_path, all[j].file_path);
    lemma_text_lt_irreflexive(all[i].file_path);
}

/// The symbol a question is about is one of that name, or qualified name, inside the
/// repository.
pub proof fn law_the_queried_symbol_has_the_name(
    symbols: Seq<SymbolText>,
    inside: Seq<bool>,
    symbol: Seq<char>,
)
    ensures
        first_queried(symbols, inside, symbol) matches Some(i) ==> 0 <= i < symbols.len()
            && inside[i] && (symbols[i].name == symbol || symbols[i].qualified_name == Some(symbol)),
        first_queried(symbols, inside, symbol) is None ==> forall|i: int|
            0 <= i < symbols.len() && #[trigger] inside[i] ==> symbols[i].name != symbol
                && symbols[i].qualified_name != Some(symbol),
    decreases symbols.len(),
{
    if symbols.len() > 0 {
        let front = symbols.drop_last();
        law_the_queried_symbol_has_the_name(front, inside, symbol);
        if first_queried(symbols, inside, symbol) is None {
            assert forall|i: int| 0 <= i < symbols.len() && #[trigger] inside[i] implies symbols[
                i
            ].name != symbol && symbols[i].qualified_name != Some(symbol) by {
                if i < front.len() {
                    assert(front[i] == symbols[i]);
                }
            }
        }
    }
}

} // verus!
