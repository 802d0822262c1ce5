//! What a changed build manifest does to an indexed repository.

use vstd::prelude::*;

use crate::batch::{
    augment_file_symbols, merge_reports, place_symbols, placed, tag_symbols, tag_texts,
    BackendReport, ReportText,
};
use crate::changes::without_file;
use crate::engine::{
    copy_cached, law_a_removal_touches_one_repo, law_an_edit_touches_one_repo, lemma_edit_keeps_wf,
    lemma_filtered, lemma_put_repo, lemma_removal_keeps_wf, lemma_repo_index, repo_index,
    symbols_of, CodeIntelEngine, EngineText, IndexedText,
};
use crate::indexing::is_c_source;
use crate::paths::{join_path, join_path_spec, strip_base};
use crate::pullin::{
    indexed_source_files, indexed_sources, is_added, is_dropped, manifest_additions,
    manifest_removals, source_texts, IndexedSource,
};
use crate::scope::{rule_texts, ScopeRule};
use crate::search::{CachedFile, CachedText};
use crate::symbols::{lemma_best_match, merge_all, symbol_texts, SourceSet, Symbol, SymbolText};
use crate::text::texts;

verus! {

/// A source that the manifest has come to list, read and parsed, with what the backends have
/// on it.
#[derive(Debug)]
pub struct AddedFile {
    pub relative_path: String,
    pub symbols: Vec<Symbol>,
    pub reports: Vec<BackendReport>,
    pub tags: Vec<(String, usize)>,
    pub file: CachedFile,
}

pub struct AddedText {
    pub relative_path: Seq<char>,
    pub symbols: Seq<SymbolText>,
    pub reports: Seq<ReportText>,
    pub tags: Seq<(Seq<char>, usize)>,
    pub file: CachedText,
}

impl View for AddedFile {
    type V = AddedText;

    open spec fn view(&self) -> AddedText {
        AddedText {
            relative_path: self.relative_path@,
            symbols: symbol_texts(self.symbols@),
            reports: self.reports@.map_values(|b: BackendReport| b@),
            tags: tag_texts(self.tags@),
            file: self.file@,
        }
    }
}

pub open spec fn added_texts(v: Seq<AddedFile>) -> Seq<AddedText> {
    v.map_values(|a: AddedFile| a@)
}

/// The symbols of an added source: its own, with what the backends have folded in.
pub open spec fn added_symbols(a: AddedText) -> Seq<SymbolText> {
    merge_all(
        merge_reports(placed(a.symbols, a.relative_path), a.reports, a.relative_path),
        tag_symbols(a.tags, a.relative_path),
        SourceSet::gtags(),
    )
}

/// The engine with the added sources taken in, one after another.
pub open spec fn with_added(state: EngineText, key: Seq<char>, added: Seq<AddedText>) -> EngineText
    decreases added.len(),
{
    if added.len() == 0 {
        state
    } else {
        let a = added.last();
        with_added(state, key, added.drop_last()).with_file(
            key,
            a.relative_path,
            added_symbols(a),
            a.file,
        )
    }
}

/// The engine with the dropped sources taken out, one after another.
pub open spec fn with_dropped(
    state: EngineText,
    key: Seq<char>,
    root: Seq<char>,
    dropped: Seq<Seq<char>>,
) -> EngineText
    decreases dropped.len(),
{
    if dropped.len() == 0 {
        state
    } else {
        with_dropped(state, key, root, dropped.drop_last()).without(
            key,
            dropped.last(),
            join_path_spec(root, dropped.last()),
        )
    }
}

/// The C and C++ sources of a repository that carry symbols.
pub open spec fn sources_of(state: EngineText, key: Seq<char>) -> Seq<Seq<char>> {
    match symbols_of(state.repos, key) {
        Some(symbols) => indexed_sources(symbols),
        None => Seq::empty(),
    }
}

impl CodeIntelEngine {
    /// The C and C++ sources of a repository that carry symbols, by their relative paths.
    pub fn source_files(&self, key: &str) -> (r: Vec<String>)
        ensures
            texts(r@) == sources_of(self@, key@),
    {
        match self.find_repo(key) {
            Some(i) => indexed_source_files(self.repos[i].symbols.as_slice()),
            None => {
                let none: Vec<String> = Vec::new();
                proof {
                    assert(texts(none@) =~= Seq::<Seq<char>>::empty());
                }
                none
            },
        }
    }

    /// What a manifest changes: the sources it has come to list, by their full paths, and
    /// those it no longer lists, by their relative ones. `filtered` tells that the index
    /// filter is in force, and `indexed` holds the repository's sources with the paths they
    /// resolve to.
    pub fn compile_commands_delta(
        &self,
        key: &str,
        root: &str,
        compiled: &[String],
        indexed: &[IndexedSource],
        filtered: bool,
        rules: &[ScopeRule],
    ) -> (r: (Vec<String>, Vec<String>))
        ensures
            texts(r.0@) == texts(compiled@).filter(
                |f: Seq<char>|
                    is_added(f, root@, sources_of(self@, key@), filtered, rule_texts(rules@)),
            ),
            texts(r.1@) == dropped_sources(source_texts(indexed@), texts(compiled@)),
    {
        let known = self.source_files(key);
        let additions = manifest_additions(compiled, root, known.as_slice(), filtered, rules);
        let removals = manifest_removals(indexed, compiled);
        (additions, removals)
    }

    /// Follows a changed manifest and tells how many sources it touched.
    pub fn reindex_compile_commands_delta(
        &mut self,
        key: &str,
        root: &str,
        added: &[AddedFile],
        dropped: &[String],
    ) -> (r: usize)
        requires
            old(self)@.wf(),
            added@.len() + dropped@.len() <= usize::MAX,
        ensures
            final(self)@.wf(),
            final(self).options == old(self).options,
            final(self)@ == with_dropped(
                with_added(old(self)@, key@, added_texts(added@)),
                key@,
                root@,
                texts(dropped@),
            ),
            r == added@.len() + dropped@.len(),
    {
        let ghost start = self@;
        let ghost all = added_texts(added@);
        let mut i: usize = 0;
        proof {
            assert(all.take(0) =~= Seq::<AddedText>::empty());
        }
        while i < added.len()
            invariant
                i <= added@.len(),
                all == added_texts(added@),
                self@.wf(),
                self.options == old(self).options,
                self@ == with_added(start, key@, all.take(i as int)),
            decreases added@.len() - i,
        {
            proof {
                assert(all.take(i + 1).drop_last() =~= all.take(i as int));
                assert(all.take(i + 1).last() == added@[i as int]@);
            }
            let a = &added[i];
            let own = place_symbols(a.symbols.as_slice(), a.relative_path.as_str());
            let symbols = augment_file_symbols(
                own,
                a.relative_path.as_str(),
                a.reports.as_slice(),
                a.tags.as_slice(),
            );
            self.reindex_file(key, a.relative_path.as_str(), symbols, copy_cached(&a.file));
            i = i + 1;
        }
        let ghost middle = self@;
        let ghost gone = texts(dropped@);
        let mut k: usize = 0;
        proof {
            assert(all.take(all.len() as int) =~= all);
            assert(gone.take(0) =~= Seq::<Seq<char>>::empty());
        }
        while k < dropped.len()
            invariant
                k <= dropped@.len(),
                gone == texts(dropped@),
                self@.wf(),
                self.options == old(self).options,
                self@ == with_dropped(middle, key@, root@, gone.take(k as int)),
            decreases dropped@.len() - k,
        {
            proof {
                assert(gone.take(k + 1).drop_last() =~= gone.take(k as int));
                assert(gone.take(k + 1).last() == dropped@[k as int]@);
            }
            let path = join_path(root, dropped[k].as_str());
            self.remove_file(key, dropped[k].as_str(), path.as_str());
            k = k + 1;
        }
        proof {
            assert(gone.take(gone.len() as int) =~= gone);
        }
        added.len() + dropped.len()
    }
}

/// A manifest that changes in one repository leaves what the others answer from as it was.
pub proof fn law_a_manifest_touches_one_repo(
    state: EngineText,
    key: Seq<char>,
    root: Seq<char>,
    added: Seq<AddedText>,
    dropped: Seq<Seq<char>>,
    other: Seq<char>,
)
    requires
        state.wf(),
        other != key,
    ensures
        symbols_of(with_dropped(with_added(state, key, added), key, root, dropped).repos, other)
            == symbols_of(state.repos, other),
{
    lemma_added(state, key, added, other);
    lemma_dropped(with_added(state, key, added), key, root, dropped, other);
}

proof fn lemma_added(state: EngineText, key: Seq<char>, added: Seq<AddedText>, other: Seq<char>)
    requires
        state.wf(),
        other != key,
    ensures
        with_added(state, key, added).wf(),
        symbols_of(with_added(state, key, added).repos, other) == symbols_of(state.repos, other),
    decreases added.len(),
{
    if added.len() > 0 {
        lemma_added(state, key, added.drop_last(), other);
        let before = with_added(state, key, added.drop_last());
        let a = added.last();
        lemma_edit_keeps_wf(before, key, a.relative_path, added_symbols(a), a.file);
        law_an_edit_touches_one_repo(before, key, a.relative_path, added_symbols(a), a.file, other);
    }
}

proof fn lemma_dropped(
    state: EngineText,
    key: Seq<char>,
    root: Seq<char>,
    dropped: Seq<Seq<char>>,
    other: Seq<char>,
)
    requires
        state.wf(),
        other != key,
    ensures
        with_dropped(state, key, root, dropped).wf(),
        symbols_of(with_dropped(state, key, root, dropped).repos, other) == symbols_of(
            state.repos,
            other,
        ),
    decreases dropped.len(),
{
    if dropped.len() > 0 {
        lemma_dropped(state, key, root, dropped.drop_last(), other);
        let before = with_dropped(state, key, root, dropped.drop_last());
        let path = join_path_spec(root, dropped.last());
        lemma_removal_keeps_wf(before, key, dropped.last(), path);
        law_a_removal_touches_one_repo(before, key, dropped.last(), path, other);
    }
}

/// The manifest lists a source: by the path it has in the repository, or by the one it
/// resolves to.
pub open spec fn is_listed(
    rel: Seq<char>,
    root: Seq<char>,
    compiled: Seq<Seq<char>>,
    indexed: Seq<(Seq<char>, Option<Seq<char>>)>,
) -> bool {
    ||| exists|f: Seq<char>| #[trigger] compiled.contains(f) && strip_base(f, root) == Some(rel)
    ||| exists|i: int|
        0 <= i < indexed.len() && (#[trigger] indexed[i]).0 == rel && !is_dropped(
            indexed[i],
            compiled,
        )
}

/// Once a changed manifest was followed, no symbol lies in a C or C++ source that it does not
/// list. `indexed` names every source that had symbols, `dropped` are those of them that the
/// delta takes out, and each file taken in is one that the manifest lists.
pub proof fn law_a_followed_manifest_lists_every_source(
    state: EngineText,
    key: Seq<char>,
    root: Seq<char>,
    compiled: Seq<Seq<char>>,
    indexed: Seq<(Seq<char>, Option<Seq<char>>)>,
    added: Seq<AddedText>,
)
    requires
        state.wf(),
        forall|rel: Seq<char>| #[trigger]
            sources_of(state, key).contains(rel) ==> exists|i: int|
                0 <= i < indexed.len() && (#[trigger] indexed[i]).0 == rel,
        forall|k: int|
            0 <= k < added.len() ==> exists|f: Seq<char>| #[trigger]
                compiled.contains(f) && strip_base(f, root) == Some(
                    (#[trigger] added[k]).relative_path,
                ),
    ensures
        ({
            let dropped = dropped_sources(indexed, compiled);
            let after = with_dropped(with_added(state, key, added), key, root, dropped);
            symbols_of(after.repos, key) matches Some(symbols) ==> forall|i: int|
                0 <= i < symbols.len() && is_c_source((#[trigger] symbols[i]).file_path)
                    ==> is_listed(symbols[i].file_path, root, compiled, indexed)
        }),
{
    let dropped = dropped_sources(indexed, compiled);
    let middle = with_added(state, key, added);
    let after = with_dropped(middle, key, root, dropped);
    lemma_added_symbols(state, key, added);
    lemma_dropped_symbols(middle, key, root, dropped);
    if let Some(symbols) = symbols_of(after.repos, key) {
        assert forall|i: int| 0 <= i < symbols.len() && is_c_source(
            (#[trigger] symbols[i]).file_path,
        ) implies is_listed(symbols[i].file_path, root, compiled, indexed) by {
            let x = symbols[i];
            let rel = x.file_path;
            assert(symbols_of(after.repos, key)->0.contains(x));
            assert(symbols_of(middle.repos, key)->0.contains(x));
            if exists|k: int| 0 <= k < added.len() && (#[trigger] added[k]).relative_path == rel {
                let k = choose|k: int|
                    0 <= k < added.len() && (#[trigger] added[k]).relative_path == rel;
                assert(added[k].relative_path == rel);
            } else {
                let before = symbols_of(state.repos, key)->0;
                assert(before.contains(x));
                let j = choose|j: int| 0 <= j < before.len() && before[j] == x;
                lemma_sources_hold(before, j);
                assert(sources_of(state, key).contains(rel));
                let k = choose|k: int| 0 <= k < indexed.len() && (#[trigger] indexed[k]).0 == rel;
                if is_dropped(indexed[k], compiled) {
                    lemma_dropped_holds(indexed, compiled, k);
                    assert(dropped.contains(rel));
                }
            }
        }
    }
}

/// The sources a manifest takes out.
pub open spec fn dropped_sources(
    indexed: Seq<(Seq<char>, Option<Seq<char>>)>,
    compiled: Seq<Seq<char>>,
) -> Seq<Seq<char>> {
    indexed.filter(|s: (Seq<char>, Option<Seq<char>>)| is_dropped(s, compiled)).map_values(
        |s: (Seq<char>, Option<Seq<char>>)| s.0,
    )
}

proof fn lemma_dropped_holds(
    indexed: Seq<(Seq<char>, Option<Seq<char>>)>,
    compiled: Seq<Seq<char>>,
    k: int,
)
    requires
        0 <= k < indexed.len(),
        is_dropped(indexed[k], compiled),
    ensures
        dropped_sources(indexed, compiled).contains(indexed[k].0),
{
    let pred = |s: (Seq<char>, Option<Seq<char>>)| is_dropped(s, compiled);
    lemma_filtered(indexed, pred);
    let kept = indexed.filter(pred);
    assert(indexed.contains(indexed[k]));
    assert(kept.contains(indexed[k]));
    let j = choose|j: int| 0 <= j < kept.len() && kept[j] == indexed[k];
    assert(dropped_sources(indexed, compiled)[j] == indexed[k].0);
}

proof fn lemma_sources_hold(symbols: Seq<SymbolText>, j: int)
    requires
        0 <= j < symbols.len(),
        is_c_source(symbols[j].file_path),
    ensures
        indexed_sources(symbols).contains(symbols[j].file_path),
    decreases symbols.len(),
{
    let front = indexed_sources(symbols.drop_last());
    let all = indexed_sources(symbols);
    let rel = symbols[j].file_path;
    if j < symbols.len() - 1 {
        lemma_sources_hold(symbols.drop_last(), j);
        let k = choose|k: int| 0 <= k < front.len() && front[k] == rel;
        assert(all[k] == rel);
    } else if !front.contains(rel) {
        assert(all[front.len() as int] == rel);
    }
}

/// What is in a file stays in it when reports are merged.
proof fn lemma_merged_in_file(
    existing: Seq<SymbolText>,
    incoming: Seq<SymbolText>,
    source: SourceSet,
    rel: Seq<char>,
)
    requires
        forall|i: int| 0 <= i < existing.len() ==> (#[trigger] existing[i]).file_path == rel,
        forall|i: int| 0 <= i < incoming.len() ==> (#[trigger] incoming[i]).file_path == rel,
    ensures
        forall|i: int|
            0 <= i < merge_all(existing, incoming, source).len() ==> (#[trigger] merge_all(
                existing,
                incoming,
                source,
            )[i]).file_path == rel,
    decreases incoming.len(),
{
    if incoming.len() > 0 {
        let front = incoming.drop_last();
        assert forall|i: int| 0 <= i < front.len() implies (#[trigger] front[i]).file_path
            == rel by {
            assert(front[i] == incoming[i]);
        }
        lemma_merged_in_file(existing, front, source, rel);
        let before = merge_all(existing, front, source);
        let inc = incoming.last();
        assert(incoming[incoming.len() - 1].file_path == rel);
        let after = merge_all(existing, incoming, source);
        lemma_best_match(before, inc);
        assert forall|i: int| 0 <= i < after.len() implies (#[trigger] after[i]).file_path
            == rel by {
            if i < before.len() {
                assert(before[i].file_path == rel);
            }
        }
    }
}

proof fn lemma_reports_in_file(symbols: Seq<SymbolText>, reports: Seq<ReportText>, rel: Seq<char>)
    requires
        forall|i: int| 0 <= i < symbols.len() ==> (#[trigger] symbols[i]).file_path == rel,
    ensures
        forall|i: int|
            0 <= i < merge_reports(symbols, reports, rel).len() ==> (#[trigger] merge_reports(
                symbols,
                reports,
                rel,
            )[i]).file_path == rel,
    decreases reports.len(),
{
    if reports.len() > 0 {
        lemma_reports_in_file(symbols, reports.drop_last(), rel);
        lemma_merged_in_file(
            merge_reports(symbols, reports.drop_last(), rel),
            placed(reports.last().symbols, rel),
            reports.last().source,
            rel,
        );
    }
}

/// Every symbol of an added source lies in that source.
proof fn lemma_added_in_file(a: AddedText)
    ensures
        forall|i: int|
            0 <= i < added_symbols(a).len() ==> (#[trigger] added_symbols(a)[i]).file_path
                == a.relative_path,
{
    lemma_reports_in_file(placed(a.symbols, a.relative_path), a.reports, a.relative_path);
    lemma_merged_in_file(
        merge_reports(placed(a.symbols, a.relative_path), a.reports, a.relative_path),
        tag_symbols(a.tags, a.relative_path),
        SourceSet::gtags(),
        a.relative_path,
    );
}

/// A symbol in the index stood there before, or lies in a file that was taken in.
proof fn lemma_added_symbols(state: EngineText, key: Seq<char>, added: Seq<AddedText>)
    requires
        state.wf(),
    ensures
        with_added(state, key, added).wf(),
        symbols_of(with_added(state, key, added).repos, key) is Some ==> symbols_of(
            state.repos,
            key,
        ) is Some,
        symbols_of(with_added(state, key, added).repos, key) is Some ==> forall|x: SymbolText|
         #[trigger]
            symbols_of(with_added(state, key, added).repos, key)->0.contains(x) ==> symbols_of(
                state.repos,
                key,
            )->0.contains(x) || exists|k: int|
                0 <= k < added.len() && (#[trigger] added[k]).relative_path == x.file_path,
    decreases added.len(),
{
    if added.len() > 0 {
        let front = added.drop_last();
        lemma_added_symbols(state, key, front);
        let before = with_added(state, key, front);
        let a = added.last();
        let after = with_added(state, key, added);
        lemma_edit_keeps_wf(before, key, a.relative_path, added_symbols(a), a.file);
        lemma_repo_index(before.repos, key);
        lemma_added_in_file(a);
        match repo_index(before.repos, key) {
            Some(i) => {
                let kept = without_file(before.repos[i].symbols, a.relative_path);
                let item = IndexedText {
                    symbols: kept + added_symbols(a),
                    ..before.repos[i]
                };
                lemma_put_repo(before.repos, item);
                let symbols = symbols_of(after.repos, key)->0;
                assert(symbols == kept + added_symbols(a));
                lemma_without_file(before.repos[i].symbols, a.relative_path);
                assert forall|x: SymbolText| #[trigger] symbols.contains(x) implies symbols_of(
                    state.repos,
                    key,
                )->0.contains(x) || exists|k: int|
                    0 <= k < added.len() && (#[trigger] added[k]).relative_path == x.file_path by {
                    let j = choose|j: int| 0 <= j < symbols.len() && symbols[j] == x;
                    if j < kept.len() {
                        assert(kept[j] == x);
                        assert(kept.contains(x));
                        assert(symbols_of(before.repos, key)->0.contains(x));
                        if exists|k: int|
                            0 <= k < front.len() && (#[trigger] front[k]).relative_path
                                == x.file_path {
                            let k = choose|k: int|
                                0 <= k < front.len() && (#[trigger] front[k]).relative_path
                                    == x.file_path;
                            assert(added[k].relative_path == x.file_path);
                        }
                    } else {
                        assert(added_symbols(a)[j - kept.len()] == x);
                        assert(added[added.len() - 1].relative_path == x.file_path);
                    }
                }
            },
            None => {},
        }
    }
}

proof fn lemma_without_file(symbols: Seq<SymbolText>, rel: Seq<char>)
    ensures
        forall|x: SymbolText| #[trigger]
            without_file(symbols, rel).contains(x) ==> symbols.contains(x) && x.file_path != rel,
{
    lemma_filtered(symbols, |s: SymbolText| s.file_path != rel);
}

/// A symbol that is left stood there before, and not in a file that was taken out.
proof fn lemma_dropped_symbols(
    state: EngineText,
    key: Seq<char>,
    root: Seq<char>,
    dropped: Seq<Seq<char>>,
)
    requires
        state.wf(),
    ensures
        with_dropped(state, key, root, dropped).wf(),
        symbols_of(with_dropped(state, key, root, dropped).repos, key) is Some ==> symbols_of(
            state.repos,
            key,
        ) is Some,
        symbols_of(with_dropped(state, key, root, dropped).repos, key) is Some ==> forall|
            x: SymbolText,
        | #[trigger]
            symbols_of(with_dropped(state, key, root, dropped).repos, key)->0.contains(x)
                ==> symbols_of(state.repos, key)->0.contains(x) && !dropped.contains(x.file_path),
    decreases dropped.len(),
{
    if dropped.len() > 0 {
        let front = dropped.drop_last();
        lemma_dropped_symbols(state, key, root, front);
        let before = with_dropped(state, key, root, front);
        let rel = dropped.last();
        let path = join_path_spec(root, rel);
        let after = with_dropped(state, key, root, dropped);
        lemma_removal_keeps_wf(before, key, rel, path);
        lemma_repo_index(before.repos, key);
        match repo_index(before.repos, key) {
            Some(i) => {
                let item = IndexedText {
                    symbols: without_file(before.repos[i].symbols, rel),
                    ..before.repos[i]
                };
                lemma_put_repo(before.repos, item);
                let symbols = symbols_of(after.repos, key)->0;
                assert(symbols == item.symbols);
                lemma_without_file(before.repos[i].symbols, rel);
                assert forall|x: SymbolText| #[trigger] symbols.contains(x) implies symbols_of(
                    state.repos,
                    key,
                )->0.contains(x) && !dropped.contains(x.file_path) by {
                    assert(symbols_of(before.repos, key)->0.contains(x));
                    if dropped.contains(x.file_path) {
                        let k = choose|k: int|
                            0 <= k < dropped.len() && dropped[k] == x.file_path;
                        if k < front.len() {
                            assert(front[k] == x.file_path);
                        }
                    }
                }
            },
            None => {},
        }
    }
}

} // verus!
