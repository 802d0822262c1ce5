//! An index run: the parsed files are sorted, the backends are asked about the C and C++
//! files among them, and the engine takes in what came out.

use vstd::prelude::*;

use crate::batch::{
    append_symbols, augment_file_symbols, batch_of, index_parsed_files, language_texts,
    merge_reports, tag_symbols, tag_texts, BackendReport, BatchContext, BatchText, CxxFileSymbols,
    CxxFileText, IndexBatch, LanguageStats, ParsedFile, ReportText,
};
use crate::engine::{
    copy_cached, law_a_published_index_answers, lemma_repo_index, put_file, repo_index, symbols_of,
    CodeIntelEngine, EngineText, IndexedRepo, IndexedText, MetadataText, RepoMetadata,
};
use crate::search::{cached_texts, CachedFile, CachedText};
use crate::status::{language_counts, LanguageCount, LanguageCountText};
use crate::symbols::{copy_symbols, merge_all, symbol_texts, SourceSet, Symbol, SymbolText};
use crate::text::opt_text;

verus! {

/// What the backends have on one queued file: nothing where none was asked.
#[derive(Debug)]
pub struct QueuedAnswer {
    pub reports: Vec<BackendReport>,
    pub tags: Vec<(String, usize)>,
}

pub struct QueuedText {
    pub reports: Seq<ReportText>,
    pub tags: Seq<(Seq<char>, usize)>,
}

impl View for QueuedAnswer {
    type V = QueuedText;

    open spec fn view(&self) -> QueuedText {
        QueuedText {
            reports: self.reports@.map_values(|b: BackendReport| b@),
            tags: tag_texts(self.tags@),
        }
    }
}

pub open spec fn queued_texts(v: Seq<QueuedAnswer>) -> Seq<QueuedText> {
    v.map_values(|a: QueuedAnswer| a@)
}

/// What a run knows of the state it indexed.
#[derive(Debug)]
pub struct RunFacts {
    pub path: String,
    pub now: u64,
    pub head_hash: Option<String>,
    pub cdb_hash: Option<String>,
    pub cdb_head_hash: Option<String>,
    pub logic_version: u32,
}

/// The symbols of a queued file, with what the backends have folded in.
pub open spec fn augmented(q: CxxFileText, a: QueuedText) -> Seq<SymbolText> {
    merge_all(
        merge_reports(q.symbols, a.reports, q.relative_path),
        tag_symbols(a.tags, q.relative_path),
        SourceSet::gtags(),
    )
}

/// The symbols of the queued files, one file after another.
pub open spec fn all_augmented(queued: Seq<CxxFileText>, answers: Seq<QueuedText>) -> Seq<SymbolText>
    decreases queued.len(),
{
    if queued.len() == 0 {
        Seq::empty()
    } else {
        all_augmented(queued.drop_last(), answers) + augmented(
            queued.last(),
            answers[queued.len() - 1],
        )
    }
}

/// The symbols a run came to.
pub open spec fn run_symbols(b: BatchText, answers: Seq<QueuedText>) -> Seq<SymbolText> {
    b.symbols + all_augmented(b.queued, answers)
}

pub open spec fn counts_of(list: Seq<(Seq<char>, LanguageStats)>) -> Seq<LanguageCountText> {
    list.map_values(
        |e: (Seq<char>, LanguageStats)|
            LanguageCountText {
                language: e.0,
                file_count: e.1.file_count,
                line_count: e.1.line_count,
            },
    )
}

pub open spec fn run_metadata(key: Seq<char>, b: BatchText, f: RunFacts) -> MetadataText {
    MetadataText {
        name: key,
        path: f.path@,
        file_count: b.file_count,
        total_lines: b.total_lines,
        languages: counts_of(b.languages),
        last_indexed: f.now,
        head_hash: opt_text(f.head_hash),
        cdb_hash: opt_text(f.cdb_hash),
        cdb_head_hash: opt_text(f.cdb_head_hash),
        logic_version: f.logic_version,
    }
}

/// The engine after a run. Cached symbols that are still valid stay, and only gain those of
/// files that came in since; otherwise the run's symbols take the place of the old ones.
pub open spec fn after_run(
    state: EngineText,
    key: Seq<char>,
    cached: bool,
    b: BatchText,
    answers: Seq<QueuedText>,
    f: RunFacts,
) -> EngineText {
    if cached {
        match repo_index(state.repos, key) {
            Some(i) => EngineText {
                repos: state.repos.update(
                    i,
                    IndexedText { symbols: state.repos[i].symbols + b.late, ..state.repos[i] },
                ),
                ..state
            },
            None => state,
        }
    } else {
        state.published(
            IndexedText {
                key,
                metadata: run_metadata(key, b, f),
                symbols: run_symbols(b, answers),
            },
        )
    }
}

/// Files put into the cache, one after another.
pub open spec fn files_put(files: Seq<CachedText>, more: Seq<CachedText>) -> Seq<CachedText>
    decreases more.len(),
{
    if more.len() == 0 {
        files
    } else {
        put_file(files_put(files, more.drop_last()), more.last())
    }
}

fn count_languages(list: &Vec<(String, LanguageStats)>) -> (r: Vec<LanguageCount>)
    ensures
        language_counts(r@) == counts_of(language_texts(list@)),
{
    let ghost all = language_texts(list@);
    let mut out: Vec<LanguageCount> = Vec::new();
    let mut i: usize = 0;
    while i < list.len()
        invariant
            i <= list@.len(),
            out@.len() == i,
            all == language_texts(list@),
            forall|j: int|
                0 <= j < i ==> (#[trigger] out@[j]).language@ == all[j].0 && out@[j].file_count
                    == all[j].1.file_count && out@[j].line_count == all[j].1.line_count,
        decreases list@.len() - i,
    {
        proof {
            assert(all[i as int] == (list@[i as int].0@, list@[i as int].1));
        }
        out.push(
            LanguageCount {
                language: list[i].0.clone(),
                file_count: list[i].1.file_count,
                line_count: list[i].1.line_count,
            },
        );
        i = i + 1;
    }
    proof {
        assert(language_counts(out@) =~= counts_of(all));
    }
    out
}

/// Folds what the backends have into the queued files.
fn fold_answers(queued: Vec<CxxFileSymbols>, answers: &[QueuedAnswer]) -> (r: Vec<Symbol>)
    requires
        queued@.len() == answers@.len(),
    ensures
        symbol_texts(r@) == all_augmented(
            queued@.map_values(|q: CxxFileSymbols| q@),
            queued_texts(answers@),
        ),
{
    let ghost qs = queued@.map_values(|q: CxxFileSymbols| q@);
    let ghost all = queued_texts(answers@);
    let mut out: Vec<Symbol> = Vec::new();
    let mut i: usize = 0;
    proof {
        assert(symbol_texts(out@) =~= all_augmented(qs.take(0), all));
    }
    while i < queued.len()
        invariant
            i <= queued@.len(),
            queued@.len() == answers@.len(),
            qs == queued@.map_values(|q: CxxFileSymbols| q@),
            all == queued_texts(answers@),
            symbol_texts(out@) == all_augmented(qs.take(i as int), all),
        decreases queued@.len() - i,
    {
        proof {
            assert(qs.take(i + 1).drop_last() =~= qs.take(i as int));
            assert(qs.take(i + 1).last() == queued@[i as int]@);
            assert(all[i as int] == answers@[i as int]@);
        }
        let own = copy_symbols(queued[i].symbols.as_slice());
        let merged = augment_file_symbols(
            own,
            queued[i].relative_path.as_str(),
            answers[i].reports.as_slice(),
            answers[i].tags.as_slice(),
        );
        append_symbols(&mut out, merged);
        i = i + 1;
    }
    proof {
        assert(qs.take(qs.len() as int) =~= qs);
    }
    out
}

impl CodeIntelEngine {
    /// Sorts the parsed files of a run and caches their contents. The C and C++ files it
    /// queues wait for the backends.
    pub fn begin_index(
        &mut self,
        context: &BatchContext,
        files: &[ParsedFile],
        contents: Vec<CachedFile>,
    ) -> (r: IndexBatch)
        requires
            old(self)@.wf(),
        ensures
            final(self)@.wf(),
            final(self).options == old(self).options,
            r@ == batch_of(context@, files@.map_values(|f: ParsedFile| f@)),
            final(self)@ == (EngineText {
                files: files_put(old(self)@.files, cached_texts(contents@)),
                ..old(self)@
            }),
    {
        let ghost all = cached_texts(contents@);
        let ghost start = self@;
        let mut i: usize = 0;
        proof {
            assert(all.take(0) =~= Seq::<CachedText>::empty());
        }
        while i < contents.len()
            invariant
                i <= contents@.len(),
                all == cached_texts(contents@),
                self@.wf(),
                self.options == old(self).options,
                self@ == (EngineText { files: files_put(start.files, all.take(i as int)), ..start }),
            decreases contents@.len() - i,
        {
            proof {
                assert(all.take(i + 1).drop_last() =~= all.take(i as int));
                assert(all.take(i + 1).last() == contents@[i as int]@);
            }
            self.cache_file(copy_cached(&contents[i]));
            i = i + 1;
        }
        proof {
            assert(all.take(all.len() as int) =~= all);
        }
        index_parsed_files(context, files)
    }

    /// Takes in what a run came to. There is one answer for each queued file.
    pub fn finish_index(
        &mut self,
        key: &str,
        cached: bool,
        batch: IndexBatch,
        answers: &[QueuedAnswer],
        facts: RunFacts,
    )
        requires
            old(self)@.wf(),
            batch.queued@.len() == answers@.len(),
        ensures
            final(self)@.wf(),
            final(self).options == old(self).options,
            final(self)@ == after_run(
                old(self)@,
                key@,
                cached,
                batch@,
                queued_texts(answers@),
                facts,
            ),
    {
        let ghost b = batch@;
        let ghost state = self@;
        if cached {
            proof {
                lemma_repo_index(self@.repos, key@);
            }
            match self.find_repo(key) {
                Some(i) => {
                    let mut table = copy_symbols(self.repos[i].symbols.as_slice());
                    append_symbols(&mut table, batch.late);
                    self.set_symbols(i, table);
                },
                None => {},
            }
        } else {
            let languages = count_languages(&batch.languages);
            let mut symbols = batch.symbols;
            let folded = fold_answers(batch.queued, answers);
            append_symbols(&mut symbols, folded);
            let metadata = RepoMetadata {
                name: key.to_owned(),
                path: facts.path,
                file_count: batch.file_count,
                total_lines: batch.total_lines,
                languages,
                last_indexed: facts.now,
                head_hash: facts.head_hash,
                cdb_hash: facts.cdb_hash,
                cdb_head_hash: facts.cdb_head_hash,
                logic_version: facts.logic_version,
            };
            let item = IndexedRepo { key: key.to_owned(), metadata, symbols };
            proof {
                assert(item@.symbols == run_symbols(b, queued_texts(answers@)));
                assert(item@.metadata == run_metadata(key@, b, facts));
            }
            self.publish(item);
        }
    }
}

/// A run touches one repository: what the others answer from stays.
pub proof fn law_a_run_touches_one_repo(
    state: EngineText,
    key: Seq<char>,
    cached: bool,
    b: BatchText,
    answers: Seq<QueuedText>,
    f: RunFacts,
    other: Seq<char>,
)
    requires
        state.wf(),
        other != key,
    ensures
        symbols_of(after_run(state, key, cached, b, answers, f).repos, other) == symbols_of(
            state.repos,
            other,
        ),
{
    lemma_repo_index(state.repos, key);
    if cached {
        match repo_index(state.repos, key) {
            Some(i) => {
                let item = IndexedText {
                    symbols: state.repos[i].symbols + b.late,
                    ..state.repos[i]
                };
                law_a_published_index_answers(state, item, other);
                assert(state.published(item).repos == state.repos.update(i, item));
            },
            None => {},
        }
    } else {
        let item = IndexedText {
            key,
            metadata: run_metadata(key, b, f),
            symbols: run_symbols(b, answers),
        };
        law_a_published_index_answers(state, item, other);
    }
}

/// After a fresh run the repository answers from exactly the symbols the run came to.
pub proof fn law_a_run_is_answered_from(
    state: EngineText,
    key: Seq<char>,
    b: BatchText,
    answers: Seq<QueuedText>,
    f: RunFacts,
)
    requires
        state.wf(),
    ensures
        symbols_of(after_run(state, key, false, b, answers, f).repos, key) == Some(
            run_symbols(b, answers),
        ),
{
    let item = IndexedText {
        key,
        metadata: run_metadata(key, b, f),
        symbols: run_symbols(b, answers),
    };
    law_a_published_index_answers(state, item, key);
}

/// Without backends the symbols of a queued file are the parsed ones.
pub proof fn law_no_backend_changes_nothing(q: CxxFileText)
    ensures
        augmented(q, QueuedText { reports: Seq::empty(), tags: Seq::empty() }) == q.symbols,
{
    let none = Seq::<(Seq<char>, usize)>::empty();
    assert(tag_symbols(none, q.relative_path) =~= Seq::<SymbolText>::empty());
}

} // verus!
