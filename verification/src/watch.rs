//! What a batch of file changes does to the engine.

use vstd::prelude::*;

use crate::batch::{
    augment_file_symbols, capped_sum, merge_reports, place_symbols, placed, tag_symbols, tag_texts,
    BackendReport, ReportText,
};
use crate::changes::{
    change_action, lemma_owner, merge_file_tags, no_account, place_texts, route_change,
    tagged_table, with_delete, with_dirty, with_edit, with_upsert, AccountText, ActionText,
    ChangeAction, ChangeBatch, ChangeContext, ChangeType, PathFacts, PathText, PlaceText,
    RepoPlace,
};
use crate::definitions::{
    found_text, map_edit, update_definition_map, FileDefinitions, FoundText, MapEditText,
};
use crate::delta::{added_texts, with_added, with_dropped, AddedFile, AddedText};
use crate::engine::{
    copy_cached, file_index, law_a_removal_touches_one_repo, law_an_edit_touches_one_repo,
    lemma_repo_index, repo_index, symbols_of, CodeIntelEngine, EngineText, IndexedText,
};
use crate::scope::{rule_texts, RuleText};
use crate::search::{CachedFile, CachedText};
use crate::symbols::{copy_symbols, symbol_texts, Symbol, SymbolText};
use crate::text::texts;

verus! {

/// What became of a file that was created or edited: its symbols, what the language servers
/// report on it, and its content.
#[derive(Debug)]
pub struct ParsedChange {
    pub symbols: Vec<Symbol>,
    pub reports: Vec<BackendReport>,
    pub file: CachedFile,
}

pub struct ParsedChangeText {
    pub symbols: Seq<SymbolText>,
    pub reports: Seq<ReportText>,
    pub file: CachedText,
}

impl View for ParsedChange {
    type V = ParsedChangeText;

    open spec fn view(&self) -> ParsedChangeText {
        ParsedChangeText {
            symbols: symbol_texts(self.symbols@),
            reports: self.reports@.map_values(|b: BackendReport| b@),
            file: self.file@,
        }
    }
}

/// A change the watcher saw. `parsed` is absent where the file cannot be read or parsed.
#[derive(Debug)]
pub struct SeenChange {
    pub place: PathFacts,
    pub change: ChangeType,
    pub context: ChangeContext,
    pub parsed: Option<ParsedChange>,
    /// What the file defines, where it can be read and parsed.
    pub definitions: Option<FileDefinitions>,
}

pub struct SeenText {
    pub place: PathText,
    pub change: ChangeType,
    pub git_ignored: bool,
    pub index_filtered: bool,
    pub rules: Seq<RuleText>,
    pub parsed: Option<ParsedChangeText>,
    pub definitions: Option<FoundText>,
}

impl View for SeenChange {
    type V = SeenText;

    open spec fn view(&self) -> SeenText {
        SeenText {
            place: self.place@,
            change: self.change,
            git_ignored: self.context.git_ignored,
            index_filtered: self.context.index_filtered,
            rules: rule_texts(self.context.index_filter@),
            parsed: match self.parsed {
                Some(p) => Some(p@),
                None => None,
            },
            definitions: found_text(self.definitions),
        }
    }
}

pub open spec fn seen_texts(v: Seq<SeenChange>) -> Seq<SeenText> {
    v.map_values(|c: SeenChange| c@)
}

/// What a change leads to, as the engine stands.
pub open spec fn action_of(state: EngineText, c: SeenText, repos: Seq<PlaceText>) -> ActionText {
    change_action(
        c.place,
        c.change,
        repos,
        c.git_ignored,
        c.index_filtered,
        c.rules,
        file_index(state.files, c.place.path) is Some,
    )
}

/// The symbols a changed file gets: its own, with what the servers report folded in.
pub open spec fn changed_symbols(p: ParsedChangeText, rel: Seq<char>) -> Seq<SymbolText> {
    merge_reports(placed(p.symbols, rel), p.reports, rel)
}

pub open spec fn dirtied(a: AccountText, dirty: bool, repo: Seq<char>, file: Seq<char>) -> AccountText {
    if dirty {
        with_dirty(a, repo, file)
    } else {
        a
    }
}

/// What a change does to a definition map. The map covers the whole repository, so it follows
/// the files outside the index filter too.
pub open spec fn edit_of(state: EngineText, c: SeenText, repos: Seq<PlaceText>) -> MapEditText {
    match action_of(state, c, repos) {
        ActionText::MapOnly { repo, relative_path } => map_edit(
            repos[repo].canonical->0,
            relative_path,
            c.change,
            c.definitions,
        ),
        ActionText::Reindex { repo, relative_path, dirty } => map_edit(
            repos[repo].canonical->0,
            relative_path,
            c.change,
            c.definitions,
        ),
        ActionText::Remove { repo, relative_path, dirty } => map_edit(
            repos[repo].canonical->0,
            relative_path,
            c.change,
            c.definitions,
        ),
        _ => MapEditText::Leave,
    }
}

/// The engine and the account after one change.
pub open spec fn change_step(
    state: EngineText,
    account: AccountText,
    c: SeenText,
    repos: Seq<PlaceText>,
) -> (EngineText, AccountText) {
    index_step(state, with_edit(account, edit_of(state, c, repos)), c, repos)
}

/// What a change does to the index, and the account of it.
pub open spec fn index_step(
    state: EngineText,
    account: AccountText,
    c: SeenText,
    repos: Seq<PlaceText>,
) -> (EngineText, AccountText) {
    match action_of(state, c, repos) {
        ActionText::Reindex { repo, relative_path, dirty } => {
            let noted = dirtied(account, dirty, repos[repo].path, c.place.path);
            let key = repos[repo].canonical->0;
            match c.parsed {
                Some(p) => (
                    state.with_file(key, relative_path, changed_symbols(p, relative_path), p.file),
                    with_upsert(noted, key, c.place.path),
                ),
                None => (state, noted),
            }
        },
        ActionText::Remove { repo, relative_path, dirty } => {
            let noted = dirtied(account, dirty, repos[repo].path, c.place.path);
            let key = repos[repo].canonical->0;
            (
                state.without(key, relative_path, c.place.path),
                with_delete(noted, key, c.place.path),
            )
        },
        _ => (state, account),
    }
}

/// The engine and the account after a list of changes.
pub open spec fn change_steps(
    state: EngineText,
    account: AccountText,
    changes: Seq<SeenText>,
    repos: Seq<PlaceText>,
) -> (EngineText, AccountText)
    decreases changes.len(),
{
    if changes.len() == 0 {
        (state, account)
    } else {
        let before = change_steps(state, account, changes.drop_last(), repos);
        change_step(before.0, before.1, changes.last(), repos)
    }
}

/// The repository whose build manifest a change is, where it is one. It has to be followed
/// before later changes are looked at.
pub open spec fn manifest_of(state: EngineText, c: SeenText, repos: Seq<PlaceText>) -> Option<
    Option<int>,
> {
    match action_of(state, c, repos) {
        ActionText::ManifestChanged { manifest_repo } => Some(manifest_repo),
        _ => None,
    }
}

pub open spec fn opt_int(o: Option<usize>) -> Option<int> {
    match o {
        Some(i) => Some(i as int),
        None => None,
    }
}

/// The symbols of a changed file.
fn fold_reports(p: &ParsedChange, rel: &str) -> (r: Vec<Symbol>)
    ensures
        symbol_texts(r@) == changed_symbols(p@, rel@),
{
    let own = place_symbols(p.symbols.as_slice(), rel);
    let none: Vec<(String, usize)> = Vec::new();
    proof {
        assert(tag_symbols(tag_texts(none@), rel@) =~= Seq::<SymbolText>::empty());
    }
    augment_file_symbols(own, rel, p.reports.as_slice(), none.as_slice())
}

fn note_edit(account: &mut ChangeBatch, repo: &RepoPlace, rel: &str, c: &SeenChange)
    requires
        repo.canonical is Some,
    ensures
        final(account)@ == with_edit(
            old(account)@,
            map_edit(repo@.canonical->0, rel@, c@.change, c@.definitions),
        ),
{
    match &repo.canonical {
        Some(key) => {
            let edit = update_definition_map(key.as_str(), rel, c.change, &c.definitions);
            account.record_edit(edit);
        },
        None => {},
    }
}

impl CodeIntelEngine {
    /// Takes in one change. A manifest that changed is handed back for the caller to follow.
    pub fn process_file_change(
        &mut self,
        account: &mut ChangeBatch,
        c: &SeenChange,
        repos: &[RepoPlace],
    ) -> (r: Option<Option<usize>>)
        requires
            old(self)@.wf(),
        ensures
            final(self)@.wf(),
            final(self).options == old(self).options,
            (final(self)@, final(account)@) == change_step(
                old(self)@,
                old(account)@,
                c@,
                place_texts(repos@),
            ),
            (match r {
                Some(o) => Some(opt_int(o)),
                None => None,
            }) == manifest_of(old(self)@, c@, place_texts(repos@)),
    {
        let cached = self.has_file(c.place.path.as_str());
        let action = route_change(&c.place, c.change, repos, &c.context, cached);
        proof {
            lemma_owner(c.place@, place_texts(repos@));
        }
        match action {
            ChangeAction::ManifestChanged { manifest_repo } => Some(manifest_repo),
            ChangeAction::Skip => None,
            ChangeAction::MapOnly { repo, relative_path } => {
                proof {
                    assert(place_texts(repos@)[repo as int] == repos@[repo as int]@);
                }
                note_edit(account, &repos[repo], relative_path.as_str(), c);
                None
            },
            ChangeAction::Reindex { repo, relative_path, dirty } => {
                proof {
                    assert(place_texts(repos@)[repo as int] == repos@[repo as int]@);
                }
                note_edit(account, &repos[repo], relative_path.as_str(), c);
                if dirty {
                    account.mark_dirty(repos[repo].path.as_str(), c.place.path.as_str());
                }
                match (&c.parsed, &repos[repo].canonical) {
                    (Some(p), Some(key)) => {
                        let symbols = fold_reports(p, relative_path.as_str());
                        self.reindex_file(
                            key.as_str(),
                            relative_path.as_str(),
                            symbols,
                            copy_cached(&p.file),
                        );
                        account.record_upsert(key.as_str(), c.place.path.as_str());
                    },
                    _ => {},
                }
                None
            },
            ChangeAction::Remove { repo, relative_path, dirty } => {
                proof {
                    assert(place_texts(repos@)[repo as int] == repos@[repo as int]@);
                }
                note_edit(account, &repos[repo], relative_path.as_str(), c);
                if dirty {
                    account.mark_dirty(repos[repo].path.as_str(), c.place.path.as_str());
                }
                match &repos[repo].canonical {
                    Some(key) => {
                        self.remove_file(
                            key.as_str(),
                            relative_path.as_str(),
                            c.place.path.as_str(),
                        );
                        account.record_delete(key.as_str(), c.place.path.as_str());
                    },
                    None => {},
                }
                None
            },
        }
    }

    /// Takes in a batch of changes, up to and with the first manifest among them, and adds to
    /// the account what was done. Tells how many changes were taken in, and of a manifest whose
    /// it is. The caller follows the manifest and goes on behind it.
    pub fn process_file_changes(
        &mut self,
        account: &mut ChangeBatch,
        changes: &[SeenChange],
        repos: &[RepoPlace],
    ) -> (r: (usize, Option<Option<usize>>))
        requires
            old(self)@.wf(),
        ensures
            final(self)@.wf(),
            final(self).options == old(self).options,
            r.0 <= changes@.len(),
            ({
                let all = seen_texts(changes@);
                let places = place_texts(repos@);
                let start = (old(self)@, old(account)@);
                let stop = r.0 - (if r.1 is Some {
                    1int
                } else {
                    0
                });
                &&& (final(self)@, final(account)@) == change_steps(
                    start.0,
                    start.1,
                    all.take(r.0 as int),
                    places,
                )
                &&& forall|k: int|
                    0 <= k < stop ==> manifest_of(
                        change_steps(start.0, start.1, all.take(k), places).0,
                        #[trigger] all[k],
                        places,
                    ) is None
                &&& (match r.1 {
                    None => r.0 == changes@.len(),
                    Some(o) => r.0 > 0 && manifest_of(
                        change_steps(start.0, start.1, all.take(stop), places).0,
                        all[stop],
                        places,
                    ) == Some(opt_int(o)),
                })
            }),
    {
        let ghost all = seen_texts(changes@);
        let ghost places = place_texts(repos@);
        let ghost start = (self@, account@);
        let mut i: usize = 0;
        proof {
            assert(all.take(0) =~= Seq::<SeenText>::empty());
        }
        while i < changes.len()
            invariant
                i <= changes@.len(),
                all == seen_texts(changes@),
                places == place_texts(repos@),
                start == (old(self)@, old(account)@),
                self@.wf(),
                self.options == old(self).options,
                (self@, account@) == change_steps(start.0, start.1, all.take(i as int), places),
                forall|k: int|
                    0 <= k < i ==> manifest_of(
                        change_steps(start.0, start.1, all.take(k), places).0,
                        #[trigger] all[k],
                        places,
                    ) is None,
            decreases changes@.len() - i,
        {
            proof {
                assert(all.take(i + 1).drop_last() =~= all.take(i as int));
                assert(all.take(i + 1).last() == changes@[i as int]@);
                assert(all[i as int] == changes@[i as int]@);
            }
            let manifest = self.process_file_change(account, &changes[i], repos);
            i = i + 1;
            match manifest {
                Some(o) => {
                    return (i, Some(o));
                },
                None => {},
            }
        }
        (i, None)
    }

    /// Follows a changed manifest: the sources it brings in are indexed, those it drops go, and
    /// both are added to the account.
    pub fn follow_manifest(
        &mut self,
        account: &mut ChangeBatch,
        key: &str,
        root: &str,
        added: &[AddedFile],
        dropped: &[String],
    )
        requires
            old(self)@.wf(),
            added@.len() + dropped@.len() <= usize::MAX,
        ensures
            final(self)@.wf(),
            final(self).options == old(self).options,
            (final(self)@, final(account)@) == delta_step(
                old(self)@,
                old(account)@,
                DeltaText {
                    key: key@,
                    root: root@,
                    added: added_texts(added@),
                    dropped: texts(dropped@),
                },
            ),
    {
        let changed = self.reindex_compile_commands_delta(key, root, added, dropped);
        account.record_manifest(changed);
    }

    /// Folds the tags of a file into its symbols, once the tag database has caught up.
    pub fn merge_tags(&mut self, key: &str, rel: &str, tags: &[(String, usize)])
        requires
            old(self)@.wf(),
        ensures
            final(self)@.wf(),
            final(self).options == old(self).options,
            final(self)@ == tags_step(old(self)@, key@, rel@, tag_texts(tags@)),
    {
        proof {
            lemma_repo_index(self@.repos, key@);
        }
        match self.find_repo(key) {
            Some(i) => {
                let mut table = copy_symbols(self.repos[i].symbols.as_slice());
                merge_file_tags(&mut table, rel, tags);
                self.set_symbols(i, table);
            },
            None => {},
        }
    }
}

/// The engine once the tags of a file were folded into its symbols.
pub open spec fn tags_step(
    state: EngineText,
    key: Seq<char>,
    rel: Seq<char>,
    tags: Seq<(Seq<char>, usize)>,
) -> EngineText {
    match repo_index(state.repos, key) {
        Some(i) => EngineText {
            repos: state.repos.update(
                i,
                IndexedText {
                    symbols: tagged_table(state.repos[i].symbols, rel, tags),
                    ..state.repos[i]
                },
            ),
            ..state
        },
        None => state,
    }
}

// ---- whole batches ----

/// What a changed manifest brings in and drops.
pub struct DeltaText {
    pub key: Seq<char>,
    pub root: Seq<char>,
    pub added: Seq<AddedText>,
    pub dropped: Seq<Seq<char>>,
}

impl DeltaText {
    /// How many sources are touched.
    pub open spec fn size(self) -> nat {
        self.added.len() + self.dropped.len()
    }
}

/// The engine and the account once a manifest was followed.
pub open spec fn delta_step(state: EngineText, account: AccountText, d: DeltaText) -> (
    EngineText,
    AccountText,
) {
    (
        with_dropped(with_added(state, d.key, d.added), d.key, d.root, d.dropped),
        AccountText { count: capped_sum(account.count, d.size() as usize), ..account },
    )
}

/// A step of a batch: a change, or the manifest that was followed behind one.
pub enum BatchStep {
    Change(SeenText),
    Delta(DeltaText),
}

/// The engine and the account after a whole batch.
pub open spec fn batch_steps(
    state: EngineText,
    account: AccountText,
    steps: Seq<BatchStep>,
    repos: Seq<PlaceText>,
) -> (EngineText, AccountText)
    decreases steps.len(),
{
    if steps.len() == 0 {
        (state, account)
    } else {
        let before = batch_steps(state, account, steps.drop_last(), repos);
        match steps.last() {
            BatchStep::Change(c) => change_step(before.0, before.1, c, repos),
            BatchStep::Delta(d) => delta_step(before.0, before.1, d),
        }
    }
}

/// How many files a step touches.
pub open spec fn step_size(state: EngineText, step: BatchStep, repos: Seq<PlaceText>) -> nat {
    match step {
        BatchStep::Change(c) => match action_of(state, c, repos) {
            ActionText::Reindex { .. } => if c.parsed is Some {
                1
            } else {
                0
            },
            ActionText::Remove { .. } => 1,
            _ => 0,
        },
        BatchStep::Delta(d) => d.size(),
    }
}

/// How many files a batch touches.
pub open spec fn batch_size(
    state: EngineText,
    account: AccountText,
    steps: Seq<BatchStep>,
    repos: Seq<PlaceText>,
) -> nat
    decreases steps.len(),
{
    if steps.len() == 0 {
        0
    } else {
        let front = steps.drop_last();
        batch_size(state, account, front, repos) + step_size(
            batch_steps(state, account, front, repos).0,
            steps.last(),
            repos,
        )
    }
}

/// The account of a batch counts each file that was indexed again or taken out, and each one
/// that a followed manifest brought in or dropped; it stops at what a number holds.
pub proof fn law_a_batch_counts_every_file(
    state: EngineText,
    steps: Seq<BatchStep>,
    repos: Seq<PlaceText>,
)
    requires
        forall|i: int|
            0 <= i < steps.len() ==> ((#[trigger] steps[i]) matches BatchStep::Delta(d) ==> d.size()
                <= usize::MAX),
    ensures
        ({
            let n = batch_size(state, no_account(), steps, repos);
            batch_steps(state, no_account(), steps, repos).1.count == if n <= usize::MAX {
                n as int
            } else {
                usize::MAX as int
            }
        }),
    decreases steps.len(),
{
    if steps.len() > 0 {
        let front = steps.drop_last();
        assert forall|i: int| 0 <= i < front.len() implies ((
        #[trigger] front[i]) matches BatchStep::Delta(d) ==> d.size() <= usize::MAX) by {
            assert(front[i] == steps[i]);
        }
        law_a_batch_counts_every_file(state, front, repos);
        assert(steps[steps.len() - 1] == steps.last());
    }
}

/// A change of a file of a repository reaches its definition map, whether or not the index
/// filter covers the file.
pub proof fn law_a_change_reaches_the_map(
    state: EngineText,
    account: AccountText,
    c: SeenText,
    repos: Seq<PlaceText>,
)
    ensures
        change_step(state, account, c, repos).1.edits == with_edit(
            account,
            edit_of(state, c, repos),
        ).edits,
        (action_of(state, c, repos) is MapOnly || action_of(state, c, repos) is Reindex
            || action_of(state, c, repos) is Remove) && (c.change == ChangeType::Deleted
            || c.definitions is Some) ==> !(edit_of(state, c, repos) is Leave),
{
}

/// A change in one repository leaves what every other one answers from as it was.
pub proof fn law_a_change_touches_one_repo(
    state: EngineText,
    account: AccountText,
    c: SeenText,
    repos: Seq<PlaceText>,
    other: Seq<char>,
)
    requires
        state.wf(),
        forall|i: int| 0 <= i < repos.len() ==> (#[trigger] repos[i]).canonical != Some(other),
    ensures
        symbols_of(change_step(state, account, c, repos).0.repos, other)
            == symbols_of(state.repos, other),
{
    match action_of(state, c, repos) {
        ActionText::Reindex { repo, relative_path, dirty } => {
            lemma_owner(c.place, repos);
            let key = repos[repo].canonical->0;
            match c.parsed {
                Some(p) => {
                    law_an_edit_touches_one_repo(
                        state,
                        key,
                        relative_path,
                        changed_symbols(p, relative_path),
                        p.file,
                        other,
                    );
                },
                None => {},
            }
        },
        ActionText::Remove { repo, relative_path, dirty } => {
            lemma_owner(c.place, repos);
            let key = repos[repo].canonical->0;
            law_a_removal_touches_one_repo(
                state,
                key,
                relative_path,
                c.place.path,
                other,
            );
        },
        _ => {},
    }
}

} // verus!
