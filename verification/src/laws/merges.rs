//! How the reports of several sources are put together, and what is said of it.

use vstd::prelude::*;

use crate::laws::answers::{lemma_held_by_end, lemma_held_by_front, lemma_held_by_itself};
use crate::laws::lists::{
    lemma_dedup_members, lemma_filter_members, lemma_map_members, lemma_map_sources,
    lemma_sorted_members,
};
use crate::laws::ranked::lemma_held_by_joined;
use crate::order::{sort_texts, text_order};
use crate::symbols::{
    best_match, confirmation_text, defining_files, definition_note_spec, fold_spec,
    is_other_definition, line_distance, line_entries, merge_one, other_files, provenance_spec,
    quoted, source_line_text, ProvenanceSubject, SourceLine, SourceSet, SymbolKind, SymbolText,
};
use crate::text::{contains_text, decimal, join_spec};

verus! {

/// Whether two reports may be of one symbol: the same name in the same file, three lines apart at
/// most.
pub open spec fn are_close(a: SymbolText, b: SymbolText) -> bool {
    &&& a.name == b.name
    &&& a.file_path == b.file_path
    &&& a.start_line <= b.start_line + 3
    &&& b.start_line <= a.start_line + 3
}

proof fn lemma_best_match(existing: Seq<SymbolText>, inc: SymbolText)
    ensures
        match best_match(existing, inc) {
            Some(i) => 0 <= i < existing.len() && are_close(existing[i], inc) && forall|j: int|
                0 <= j < existing.len() && are_close(#[trigger] existing[j], inc)
                    ==> line_distance(existing[i].start_line, inc.start_line) <= line_distance(
                    existing[j].start_line,
                    inc.start_line,
                ),
            None => forall|j: int|
                0 <= j < existing.len() ==> !are_close(#[trigger] existing[j], inc),
        },
    decreases existing.len(),
{
    if existing.len() > 0 {
        let front = existing.drop_last();
        lemma_best_match(front, inc);
        assert forall|j: int| 0 <= j < front.len() implies #[trigger] existing[j] == front[j] by {}
        match best_match(existing, inc) {
            Some(i) => {
                assert forall|j: int|
                    0 <= j < existing.len() && are_close(
                        #[trigger] existing[j],
                        inc,
                    ) implies line_distance(existing[i].start_line, inc.start_line)
                    <= line_distance(existing[j].start_line, inc.start_line) by {
                    if j < front.len() {
                        assert(front[j] == existing[j]);
                    }
                }
            },
            None => {
                assert forall|j: int| 0 <= j < existing.len() implies !are_close(
                    #[trigger] existing[j],
                    inc,
                ) by {
                    if j < front.len() {
                        assert(front[j] == existing[j]);
                    }
                }
            },
        }
    }
}

/// A report is of the symbol of its name and file that begins nearest to it, three lines away at
/// most, where there is one.
pub proof fn law_a_report_is_of_the_nearest_symbol(
    existing: Seq<SymbolText>,
    inc: SymbolText,
    j: int,
)
    requires
        0 <= j < existing.len(),
        are_close(existing[j], inc),
    ensures
        best_match(existing, inc) is Some,
        ({
            let i = best_match(existing, inc)->0;
            &&& 0 <= i < existing.len()
            &&& are_close(existing[i], inc)
            &&& line_distance(existing[i].start_line, inc.start_line) <= line_distance(
                existing[j].start_line,
                inc.start_line,
            )
        }),
{
    lemma_best_match(existing, inc);
}

/// A report of no known symbol adds one, confirmed by its source alone.
pub proof fn law_a_new_report_adds_a_symbol(
    existing: Seq<SymbolText>,
    inc: SymbolText,
    source: SourceSet,
)
    requires
        forall|j: int| 0 <= j < existing.len() ==> !are_close(#[trigger] existing[j], inc),
    ensures
        merge_one(existing, inc, source).len() == existing.len() + 1,
        existing.is_prefix_of(merge_one(existing, inc, source)),
        merge_one(existing, inc, source).last().name == inc.name,
        merge_one(existing, inc, source).last().file_path == inc.file_path,
        merge_one(existing, inc, source).last().start_line == inc.start_line,
        merge_one(existing, inc, source).last().end_line == inc.end_line,
        merge_one(existing, inc, source).last().kind == inc.kind,
        merge_one(existing, inc, source).last().confirmed_by == source,
{
    lemma_best_match(existing, inc);
    assert(merge_one(existing, inc, source).subrange(0, existing.len() as int) =~= existing);
}

/// A report of a known symbol adds none: it confirms that one and leaves the others alone.
pub proof fn law_a_report_confirms_its_symbol(
    existing: Seq<SymbolText>,
    inc: SymbolText,
    source: SourceSet,
    j: int,
)
    requires
        0 <= j < existing.len(),
        are_close(existing[j], inc),
    ensures
        ({
            let i = best_match(existing, inc)->0;
            let all = merge_one(existing, inc, source);
            &&& all.len() == existing.len()
            &&& all[i].name == existing[i].name
            &&& all[i].file_path == existing[i].file_path
            &&& source.clangd || existing[i].confirmed_by.clangd <==> all[i].confirmed_by.clangd
            &&& source.ccls || existing[i].confirmed_by.ccls <==> all[i].confirmed_by.ccls
            &&& source.tree_sitter || existing[i].confirmed_by.tree_sitter
                <==> all[i].confirmed_by.tree_sitter
            &&& source.gtags || existing[i].confirmed_by.gtags <==> all[i].confirmed_by.gtags
            &&& forall|k: int|
                0 <= k < existing.len() && k != i ==> #[trigger] all[k] == existing[k]
        }),
{
    lemma_best_match(existing, inc);
}

/// Sources are trusted in this order: clangd, ccls, the parser, the tag database.
pub open spec fn is_trusted_more(a: SourceSet, b: SourceSet) -> bool {
    ||| a.clangd && !b.clangd
    ||| !a.clangd && !b.clangd && a.ccls && !b.ccls
    ||| !a.clangd && !b.clangd && !a.ccls && !b.ccls && a.tree_sitter && !b.tree_sitter
    ||| !a.clangd && !b.clangd && !a.ccls && !b.ccls && !a.tree_sitter && !b.tree_sitter && a.gtags
        && !b.gtags
}

/// A source that is trusted more than those before it says where a symbol is; any other only
/// confirms it.
pub proof fn law_the_most_trusted_source_places_a_symbol(
    sym: SymbolText,
    inc: SymbolText,
    source: SourceSet,
)
    ensures
        is_trusted_more(source, sym.confirmed_by) ==> fold_spec(sym, inc, source).start_line
            == inc.start_line && fold_spec(sym, inc, source).end_line == inc.end_line,
        !is_trusted_more(source, sym.confirmed_by) ==> fold_spec(sym, inc, source).start_line
            == sym.start_line && fold_spec(sym, inc, source).end_line == sym.end_line && fold_spec(
            sym,
            inc,
            source,
        ).kind == sym.kind && fold_spec(sym, inc, source).signature == sym.signature && fold_spec(
            sym,
            inc,
            source,
        ).qualified_name == sym.qualified_name && fold_spec(sym, inc, source).doc_comment
            == sym.doc_comment,
{
}

/// What is known of a symbol is never lost to a report that does not say it.
pub proof fn law_no_report_takes_knowledge_away(
    sym: SymbolText,
    inc: SymbolText,
    source: SourceSet,
)
    ensures
        sym.signature is Some ==> fold_spec(sym, inc, source).signature is Some,
        sym.qualified_name is Some ==> fold_spec(sym, inc, source).qualified_name is Some,
        sym.doc_comment is Some ==> fold_spec(sym, inc, source).doc_comment is Some,
        sym.kind != SymbolKind::Unknown ==> fold_spec(sym, inc, source).kind
            != SymbolKind::Unknown,
        inc.kind == SymbolKind::Unknown ==> fold_spec(sym, inc, source).kind == sym.kind,
        is_trusted_more(source, sym.confirmed_by) && inc.signature is Some ==> fold_spec(
            sym,
            inc,
            source,
        ).signature == inc.signature,
        is_trusted_more(source, sym.confirmed_by) && inc.kind != SymbolKind::Unknown ==> fold_spec(
            sym,
            inc,
            source,
        ).kind == inc.kind,
{
}

/// A source that puts a symbol on another line is on record, whichever of the two is believed.
pub proof fn law_disagreement_is_recorded(sym: SymbolText, inc: SymbolText, source: SourceSet)
    ensures
        sym.start_line == inc.start_line ==> fold_spec(sym, inc, source).line_conflicts
            == sym.line_conflicts,
        sym.start_line != inc.start_line ==> {
            let noted = fold_spec(sym, inc, source).line_conflicts;
            &&& noted.len() == sym.line_conflicts.len() + 1
            &&& is_trusted_more(source, sym.confirmed_by) ==> noted.last().line == sym.start_line
            &&& !is_trusted_more(source, sym.confirmed_by) ==> noted.last()
                == SourceLine { source, line: inc.start_line }
        },
{
}

// ---- what is said of the sources ----

/// Something is said of a symbol's sources exactly where at least two are in use and one of them
/// does not confirm it, or they put it on different lines.
pub proof fn law_when_sources_are_spoken_of(
    subject: ProvenanceSubject,
    enabled: SourceSet,
    confirmed: SourceSet,
    line: usize,
    conflicts: Seq<SourceLine>,
)
    ensures
        provenance_spec(subject, enabled, confirmed, line, conflicts) is Some <==> {
            &&& (enabled.clangd && enabled.ccls) || (enabled.clangd && enabled.tree_sitter) || (
            enabled.clangd && enabled.gtags) || (enabled.ccls && enabled.tree_sitter) || (
            enabled.ccls && enabled.gtags) || (enabled.tree_sitter && enabled.gtags)
            &&& conflicts.len() > 0 || (enabled.clangd && !confirmed.clangd) || (enabled.ccls
                && !confirmed.ccls) || (enabled.tree_sitter && !confirmed.tree_sitter) || (
            enabled.gtags && !confirmed.gtags)
        },
{
}

/// Every line on which a source disagrees is named.
pub proof fn law_every_disagreement_is_named(
    subject: ProvenanceSubject,
    enabled: SourceSet,
    confirmed: SourceSet,
    line: usize,
    conflicts: Seq<SourceLine>,
    i: int,
)
    requires
        provenance_spec(subject, enabled, confirmed, line, conflicts) is Some,
        0 <= i < conflicts.len(),
    ensures
        contains_text(
            provenance_spec(subject, enabled, confirmed, line, conflicts)->0,
            conflicts[i].source.label_spec() + " "@ + decimal(conflicts[i].line as nat),
        ),
{
    let entries = line_entries(confirmed, line, conflicts);
    let p = source_line_text(conflicts[i].source, conflicts[i].line);
    assert(entries[i + 1] == p);
    lemma_held_by_itself(p);
    lemma_held_by_joined(entries, ", "@, i + 1, p);
    let head = confirmation_text(subject, enabled, confirmed) + "; WARNING line disagreement: "@;
    lemma_held_by_end(head, join_spec(entries, ", "@), p);
}

/// The sources that confirm and those that do not are told apart by name.
pub proof fn law_sources_are_named(
    subject: ProvenanceSubject,
    enabled: SourceSet,
    confirmed: SourceSet,
    i: int,
    j: int,
)
    requires
        subject != ProvenanceSubject::CallEdge || confirmed != SourceSet::gtags(),
        0 <= i < confirmed.labels_spec().len(),
        0 <= j < enabled.without(confirmed).labels_spec().len(),
    ensures
        contains_text(
            confirmation_text(subject, enabled, confirmed),
            confirmed.labels_spec()[i],
        ),
        contains_text(
            confirmation_text(subject, enabled, confirmed),
            enabled.without(confirmed).labels_spec()[j],
        ),
{
    let missing = enabled.without(confirmed);
    let p = confirmed.labels_spec()[i];
    let q = missing.labels_spec()[j];
    assert(missing != SourceSet::none()) by {
        assert(SourceSet::none().labels_spec().len() == 0);
    }
    let known = join_spec(confirmed.labels_spec(), ", "@);
    let other = join_spec(missing.labels_spec(), ", "@);
    lemma_held_by_itself(p);
    lemma_held_by_itself(q);
    lemma_held_by_joined(confirmed.labels_spec(), ", "@, i, p);
    lemma_held_by_joined(missing.labels_spec(), ", "@, j, q);
    lemma_held_by_end("confirmed by "@, known, p);
    lemma_held_by_front("confirmed by "@ + known, "; not by "@, p);
    lemma_held_by_front("confirmed by "@ + known + "; not by "@, other, p);
    lemma_held_by_end("confirmed by "@ + known + "; not by "@, other, q);
}

/// The name of a source is among the labels exactly where the source is in the set.
pub proof fn law_a_label_stands_for_its_source(s: SourceSet)
    ensures
        s.labels_spec().contains("clangd"@) <==> s.clangd,
        s.labels_spec().contains("ccls"@) <==> s.ccls,
        s.labels_spec().contains("tree-sitter"@) <==> s.tree_sitter,
        s.labels_spec().contains("gtags"@) <==> s.gtags,
{
    reveal_strlit("clangd");
    reveal_strlit("ccls");
    reveal_strlit("tree-sitter");
    reveal_strlit("gtags");
    assert("clangd"@.len() == 6 && "ccls"@.len() == 4 && "tree-sitter"@.len() == 11
        && "gtags"@.len() == 5);
    let a: Seq<Seq<char>> = if s.clangd {
        seq!["clangd"@]
    } else {
        Seq::empty()
    };
    let b: Seq<Seq<char>> = if s.ccls {
        seq!["ccls"@]
    } else {
        Seq::empty()
    };
    let c: Seq<Seq<char>> = if s.tree_sitter {
        seq!["tree-sitter"@]
    } else {
        Seq::empty()
    };
    let d: Seq<Seq<char>> = if s.gtags {
        seq!["gtags"@]
    } else {
        Seq::empty()
    };
    let all = s.labels_spec();
    assert(all == a + b + c + d);
    if s.clangd {
        assert(all[0] == "clangd"@);
    }
    if s.ccls {
        assert(all[a.len() as int] == "ccls"@);
    }
    if s.tree_sitter {
        assert(all[(a + b).len() as int] == "tree-sitter"@);
    }
    if s.gtags {
        assert(all[(a + b + c).len() as int] == "gtags"@);
    }
    assert forall|k: int| 0 <= k < all.len() implies (#[trigger] all[k] == "clangd"@ ==> s.clangd)
        && (all[k] == "ccls"@ ==> s.ccls) && (all[k] == "tree-sitter"@ ==> s.tree_sitter) && (all[k]
        == "gtags"@ ==> s.gtags) by {
        assert(all[k] == "clangd"@ || all[k] == "ccls"@ || all[k] == "tree-sitter"@ || all[k]
            == "gtags"@);
    }
}

// ---- several definitions ----

/// The files of a note are those that define a symbol of the kind, with a body.
pub proof fn law_which_files_define_it(matches: Seq<SymbolText>, kind: SymbolKind, file: Seq<char>)
    requires
        kind != SymbolKind::Implementation,
    ensures
        defining_files(matches, kind).contains(file) <==> exists|i: int|
            0 <= i < matches.len() && (#[trigger] matches[i]).file_path == file && matches[i].kind
                == kind && matches[i].end_line > matches[i].start_line,
{
    let pred = |s: SymbolText| is_other_definition(s, kind);
    let path = |s: SymbolText| s.file_path;
    let kept = matches.filter(pred);
    let paths = kept.map_values(path);
    lemma_dedup_members(sort_texts(paths), file);
    lemma_sorted_members(paths, text_order(), file);
    lemma_map_sources(kept, path, file);
    assert(defining_files(matches, kind) =~= crate::order::dedup_texts(sort_texts(paths)));
    if paths.contains(file) {
        let k = choose|k: int| 0 <= k < kept.len() && path(#[trigger] kept[k]) == file;
        assert(kept.contains(kept[k]));
        lemma_filter_members(matches, pred, kept[k]);
        let i = choose|i: int| 0 <= i < matches.len() && matches[i] == kept[k];
        assert(matches[i].file_path == file);
    }
    if exists|i: int|
        0 <= i < matches.len() && (#[trigger] matches[i]).file_path == file && matches[i].kind
            == kind && matches[i].end_line > matches[i].start_line {
        let i = choose|i: int|
            0 <= i < matches.len() && (#[trigger] matches[i]).file_path == file && matches[i].kind
                == kind && matches[i].end_line > matches[i].start_line;
        assert(matches.contains(matches[i]));
        lemma_filter_members(matches, pred, matches[i]);
        lemma_map_members(kept, path, matches[i]);
    }
}

proof fn lemma_other_files(files: Seq<Seq<char>>, chosen: Seq<char>, file: Seq<char>)
    ensures
        other_files(files, chosen).contains(file) <==> files.contains(file) && file != chosen,
    decreases files.len(),
{
    reveal(Seq::filter);
    let others = other_files(files, chosen);
    if files.len() > 0 {
        let front = files.drop_last();
        let before = other_files(front, chosen);
        lemma_other_files(front, chosen, file);
        assert(files[files.len() - 1] == files.last());
        if front.contains(file) {
            let k = choose|k: int| 0 <= k < front.len() && front[k] == file;
            assert(files[k] == file);
        }
        if files.contains(file) && !front.contains(file) {
            let k = choose|k: int| 0 <= k < files.len() && files[k] == file;
            if k < front.len() {
                assert(front[k] == file);
            }
        }
        if files.last() != chosen {
            assert(others == before.push(files.last()));
            assert(others[others.len() - 1] == files.last());
            if before.contains(file) {
                let k = choose|k: int| 0 <= k < before.len() && before[k] == file;
                assert(others[k] == file);
            }
            if others.contains(file) && !before.contains(file) {
                let k = choose|k: int| 0 <= k < others.len() && others[k] == file;
                if k < before.len() {
                    assert(before[k] == file);
                }
            }
        } else {
            assert(others == before);
        }
    }
}

/// Where a symbol is defined in several files, the note names each of the others.
pub proof fn law_other_definitions_are_named(
    matches: Seq<SymbolText>,
    chosen: SymbolText,
    file: Seq<char>,
)
    requires
        defining_files(matches, chosen.kind).len() >= 2,
        defining_files(matches, chosen.kind).contains(file),
        file != chosen.file_path,
    ensures
        contains_text(definition_note_spec(matches, chosen), "`"@ + file + "`"@),
{
    let files = defining_files(matches, chosen.kind);
    let others = other_files(files, chosen.file_path);
    lemma_other_files(files, chosen.file_path, file);
    let i = choose|i: int| 0 <= i < others.len() && others[i] == file;
    let names = others.map_values(|f: Seq<char>| quoted(f));
    let p = quoted(file);
    assert(names[i] == p);
    lemma_held_by_itself(p);
    lemma_held_by_joined(names, ", "@, i, p);
    let list = join_spec(names, ", "@);
    let head = "> `"@ + chosen.name + "` has "@ + decimal(files.len()) + " definitions. Showing `"@
        + chosen.name + "` ("@ + chosen.file_path + ":"@ + decimal(chosen.start_line as nat)
        + ").\n> Also defined in: "@;
    lemma_held_by_end(head, list, p);
    lemma_held_by_front(head + list, ".\n\n"@, p);
}

} // verus!
