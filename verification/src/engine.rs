//! The engine: the repositories it answers for, what is indexed of them, and how that
//! changes as repositories are indexed, edited and forgotten.

use vstd::prelude::*;

use crate::changes::{remove_file_symbols, replace_file_symbols, without_file};
use crate::registry::{
    deadline_spec, has_path, idle_spec, is_done, keeps_cached_file, key_result,
    law_configured_repos_are_never_swept, lemma_share, lemma_sum_without,
    lemma_without_stays_well, listed_well, met, passed_at, paths_distinct, repo_key_for,
    repo_key_spec, share_of, stamped, stays_cached, sum_of, to_index, with_name, without_path,
    RegisteredText, RepoError, RepoErrorText, RepoOrigin, RepoRegistry,
};
use crate::search::{cached_texts, CachedFile, CachedText};
use crate::settings::EngineOptions;
use crate::status::{language_counts, LanguageCount, LanguageCountText};
use crate::symbols::{copy_symbols, symbol_texts, Symbol, SymbolText};
use crate::text::{has_text, opt_text, same_text, texts};

verus! {

// ---- state ----

/// What is known of an indexed repository.
#[derive(Debug)]
pub struct RepoMetadata {
    pub name: String,
    pub path: String,
    pub file_count: usize,
    pub total_lines: usize,
    pub languages: Vec<LanguageCount>,
    /// Unix seconds of the index run.
    pub last_indexed: u64,
    /// The commit and the manifest the index was built from.
    pub head_hash: Option<String>,
    pub cdb_hash: Option<String>,
    /// The commit the manifest was applied at.
    pub cdb_head_hash: Option<String>,
    pub logic_version: u32,
}

pub struct MetadataText {
    pub name: Seq<char>,
    pub path: Seq<char>,
    pub file_count: usize,
    pub total_lines: usize,
    pub languages: Seq<LanguageCountText>,
    pub last_indexed: u64,
    pub head_hash: Option<Seq<char>>,
    pub cdb_hash: Option<Seq<char>>,
    pub cdb_head_hash: Option<Seq<char>>,
    pub logic_version: u32,
}

impl View for RepoMetadata {
    type V = MetadataText;

    open spec fn view(&self) -> MetadataText {
        MetadataText {
            name: self.name@,
            path: self.path@,
            file_count: self.file_count,
            total_lines: self.total_lines,
            languages: language_counts(self.languages@),
            last_indexed: self.last_indexed,
            head_hash: opt_text(self.head_hash),
            cdb_hash: opt_text(self.cdb_hash),
            cdb_head_hash: opt_text(self.cdb_head_hash),
            logic_version: self.logic_version,
        }
    }
}

/// An indexed repository under its key, the canonical path.
#[derive(Debug)]
pub struct IndexedRepo {
    pub key: String,
    pub metadata: RepoMetadata,
    pub symbols: Vec<Symbol>,
}

pub struct IndexedText {
    pub key: Seq<char>,
    pub metadata: MetadataText,
    pub symbols: Seq<SymbolText>,
}

impl View for IndexedRepo {
    type V = IndexedText;

    open spec fn view(&self) -> IndexedText {
        IndexedText {
            key: self.key@,
            metadata: self.metadata@,
            symbols: symbol_texts(self.symbols@),
        }
    }
}

pub open spec fn indexed_texts(v: Seq<IndexedRepo>) -> Seq<IndexedText> {
    v.map_values(|r: IndexedRepo| r@)
}

/// The engine. Its call graphs and git handles live with the caller; the engine holds the
/// keys of the repositories that have them.
#[derive(Debug)]
pub struct CodeIntelEngine {
    pub options: EngineOptions,
    pub registry: RepoRegistry,
    pub repos: Vec<IndexedRepo>,
    pub files: Vec<CachedFile>,
    pub call_graphs: Vec<String>,
    pub git_repos: Vec<String>,
}

pub struct EngineText {
    pub registered: Seq<RegisteredText>,
    pub initialized: bool,
    pub repos: Seq<IndexedText>,
    pub files: Seq<CachedText>,
    pub call_graphs: Seq<Seq<char>>,
    pub git_repos: Seq<Seq<char>>,
}

impl View for CodeIntelEngine {
    type V = EngineText;

    open spec fn view(&self) -> EngineText {
        EngineText {
            registered: self.registry.list(),
            initialized: self.registry.initialized,
            repos: indexed_texts(self.repos@),
            files: cached_texts(self.files@),
            call_graphs: texts(self.call_graphs@),
            git_repos: texts(self.git_repos@),
        }
    }
}

pub open spec fn repo_keys(repos: Seq<IndexedText>) -> Seq<Seq<char>> {
    repos.map_values(|r: IndexedText| r.key)
}

pub open spec fn registered_paths(list: Seq<RegisteredText>) -> Seq<Seq<char>> {
    list.map_values(|r: RegisteredText| r.path)
}

/// No repository is indexed twice.
pub open spec fn keys_distinct(repos: Seq<IndexedText>) -> bool {
    forall|i: int, j: int|
        0 <= i < j < repos.len() ==> #[trigger] repos[i].key != #[trigger] repos[j].key
}

/// The place of a repository among the indexed ones.
pub open spec fn repo_index(repos: Seq<IndexedText>, key: Seq<char>) -> Option<int>
    decreases repos.len(),
{
    if repos.len() == 0 {
        None
    } else {
        match repo_index(repos.drop_last(), key) {
            Some(i) => Some(i),
            None => if repos.last().key == key {
                Some(repos.len() - 1)
            } else {
                None
            },
        }
    }
}

/// The symbols of a repository, once it is indexed.
pub open spec fn symbols_of(repos: Seq<IndexedText>, key: Seq<char>) -> Option<Seq<SymbolText>> {
    match repo_index(repos, key) {
        Some(i) => Some(repos[i].symbols),
        None => None,
    }
}

/// A repository put under its key, in place of what stood there.
pub open spec fn put_repo(repos: Seq<IndexedText>, item: IndexedText) -> Seq<IndexedText> {
    match repo_index(repos, item.key) {
        Some(i) => repos.update(i, item),
        None => repos.push(item),
    }
}

pub open spec fn without_repo(repos: Seq<IndexedText>, key: Seq<char>) -> Seq<IndexedText> {
    repos.filter(|r: IndexedText| r.key != key)
}

pub open spec fn file_index(files: Seq<CachedText>, path: Seq<char>) -> Option<int>
    decreases files.len(),
{
    if files.len() == 0 {
        None
    } else {
        match file_index(files.drop_last(), path) {
            Some(i) => Some(i),
            None => if files.last().path == path {
                Some(files.len() - 1)
            } else {
                None
            },
        }
    }
}

/// A file put under its path, in place of what was cached there.
pub open spec fn put_file(files: Seq<CachedText>, file: CachedText) -> Seq<CachedText> {
    match file_index(files, file.path) {
        Some(i) => files.update(i, file),
        None => files.push(file),
    }
}

pub open spec fn without_cached(files: Seq<CachedText>, path: Seq<char>) -> Seq<CachedText> {
    files.filter(|f: CachedText| f.path != path)
}

/// The files that stay cached when a repository is rebuilt or forgotten.
pub open spec fn files_kept(files: Seq<CachedText>, key: Seq<char>, registered: Seq<Seq<char>>) -> Seq<
    CachedText,
> {
    files.filter(|f: CachedText| stays_cached(f.path, key, registered))
}

pub open spec fn other_than(key: Seq<char>) -> spec_fn(Seq<char>) -> bool {
    |k: Seq<char>| k != key
}

pub open spec fn without_text(list: Seq<Seq<char>>, key: Seq<char>) -> Seq<Seq<char>> {
    list.filter(other_than(key))
}

/// A repository argument, and what the file system says of it.
#[derive(Debug)]
pub struct RepoArg {
    pub input: String,
    /// The path it names, resolved, where it is one that exists.
    pub resolved: Option<String>,
    /// The directories on the way that have a `.git` entry.
    pub git_dirs: Vec<String>,
    /// Known repositories whose directory is gone.
    pub missing: Vec<String>,
    /// Unix seconds now.
    pub now: u64,
}

pub struct ArgText {
    pub input: Seq<char>,
    pub resolved: Option<Seq<char>>,
    pub git_dirs: Seq<Seq<char>>,
    pub missing: Seq<Seq<char>>,
    pub now: u64,
}

impl View for RepoArg {
    type V = ArgText;

    open spec fn view(&self) -> ArgText {
        ArgText {
            input: self.input@,
            resolved: opt_text(self.resolved),
            git_dirs: texts(self.git_dirs@),
            missing: texts(self.missing@),
            now: self.now,
        }
    }
}

pub open spec fn present(list: Seq<Seq<char>>, missing: Seq<Seq<char>>) -> Seq<Seq<char>> {
    list.filter(|p: Seq<char>| !missing.contains(p))
}

impl EngineText {
    /// No repository is registered or indexed twice.
    pub open spec fn wf(self) -> bool {
        listed_well(self.registered) && keys_distinct(self.repos)
    }

    /// How many of the repositories the server was started with the first pass has indexed.
    pub open spec fn indexed(self) -> nat {
        sum_of(self.registered, is_done())
    }

    /// How many repositories the server was started with.
    pub open spec fn total(self) -> nat {
        sum_of(self.registered, to_index())
    }

    /// The engine once the first pass has indexed a repository.
    pub open spec fn passed(self, key: Seq<char>) -> EngineText {
        EngineText { registered: passed_at(self.registered, key), ..self }
    }

    /// The engine with a repository that was met while it ran.
    pub open spec fn adopted(self, path: Seq<char>, now: u64) -> EngineText {
        EngineText {
            registered: if has_path(self.registered, path) {
                self.registered
            } else {
                self.registered.push(met(path, now))
            },
            ..self
        }
    }

    /// The key an argument names.
    pub open spec fn key_of(self, arg: ArgText) -> Result<Seq<char>, RepoErrorText> {
        repo_key_spec(
            arg.input,
            arg.resolved,
            present(repo_keys(self.repos), arg.missing),
            present(registered_paths(self.registered), arg.missing),
            arg.git_dirs,
        )
    }

    /// The key an argument names, or what is said instead.
    pub open spec fn resolved(self, arg: ArgText) -> Result<Seq<char>, Seq<char>> {
        match self.key_of(arg) {
            Ok(key) => Ok(key),
            Err(e) => Err(e.text(repo_keys(self.repos))),
        }
    }

    /// The engine once an argument has named a repository: that one is stamped as used.
    pub open spec fn named(self, arg: ArgText) -> EngineText {
        match self.key_of(arg) {
            Ok(key) => EngineText { registered: stamped(self.registered, key, arg.now), ..self },
            Err(_) => self,
        }
    }

    /// The engine with a repository's index in place.
    pub open spec fn published(self, item: IndexedText) -> EngineText {
        EngineText { repos: put_repo(self.repos, item), ..self }
    }

    /// The engine once a repository was emptied to be indexed anew.
    pub open spec fn emptied(self, key: Seq<char>, call_graphs: bool) -> EngineText {
        EngineText {
            repos: without_repo(self.repos, key),
            files: files_kept(self.files, key, registered_paths(self.registered)),
            call_graphs: if call_graphs && !self.call_graphs.contains(key) {
                self.call_graphs.push(key)
            } else {
                self.call_graphs
            },
            ..self
        }
    }

    /// The engine once a repository was forgotten.
    pub open spec fn forgotten(self, key: Seq<char>) -> EngineText {
        EngineText {
            registered: without_path(self.registered, key),
            initialized: self.initialized,
            repos: without_repo(self.repos, key),
            files: files_kept(self.files, key, registered_paths(self.registered)),
            call_graphs: without_text(self.call_graphs, key),
            git_repos: without_text(self.git_repos, key),
        }
    }

    /// The engine once several repositories were forgotten, one after another.
    pub open spec fn all_forgotten(self, keys: Seq<Seq<char>>) -> EngineText
        decreases keys.len(),
    {
        if keys.len() == 0 {
            self
        } else {
            self.all_forgotten(keys.drop_last()).forgotten(keys.last())
        }
    }

    /// The repositories nobody has asked about for a while.
    pub open spec fn idle(self, now: u64, ttl: u64) -> Seq<Seq<char>> {
        if self.initialized {
            idle_spec(self.registered, deadline_spec(now, ttl))
        } else {
            Seq::empty()
        }
    }

    /// The engine with the symbols of one file replaced and its content cached.
    pub open spec fn with_file(
        self,
        key: Seq<char>,
        rel: Seq<char>,
        symbols: Seq<SymbolText>,
        file: CachedText,
    ) -> EngineText {
        EngineText {
            repos: match repo_index(self.repos, key) {
                Some(i) => self.repos.update(
                    i,
                    IndexedText {
                        symbols: without_file(self.repos[i].symbols, rel) + symbols,
                        ..self.repos[i]
                    },
                ),
                None => self.repos,
            },
            files: put_file(self.files, file),
            ..self
        }
    }

    /// The engine without a file.
    pub open spec fn without(self, key: Seq<char>, rel: Seq<char>, path: Seq<char>) -> EngineText {
        EngineText {
            repos: match repo_index(self.repos, key) {
                Some(i) => self.repos.update(
                    i,
                    IndexedText {
                        symbols: without_file(self.repos[i].symbols, rel),
                        ..self.repos[i]
                    },
                ),
                None => self.repos,
            },
            files: without_cached(self.files, path),
            ..self
        }
    }
}

// ---- lemmas on the tables ----

pub proof fn lemma_repo_index(repos: Seq<IndexedText>, key: Seq<char>)
    ensures
        repo_index(repos, key) matches Some(i) ==> 0 <= i < repos.len() && repos[i].key == key,
        repo_index(repos, key) is None ==> forall|j: int|
            0 <= j < repos.len() ==> #[trigger] repos[j].key != key,
    decreases repos.len(),
{
    if repos.len() > 0 {
        lemma_repo_index(repos.drop_last(), key);
        assert forall|j: int| 0 <= j < repos.len() - 1 implies repos[j] == repos.drop_last()[j] by {}
    }
}

pub proof fn lemma_repo_index_is(repos: Seq<IndexedText>, i: int)
    requires
        keys_distinct(repos),
        0 <= i < repos.len(),
    ensures
        repo_index(repos, repos[i].key) == Some(i),
{
    lemma_repo_index(repos, repos[i].key);
    let k = repo_index(repos, repos[i].key);
    if k is None {
        assert(repos[i].key != repos[i].key);
    } else if k->0 < i {
        assert(repos[k->0].key != repos[i].key);
    } else if k->0 > i {
        assert(repos[i].key != repos[k->0].key);
    }
}

proof fn lemma_file_index(files: Seq<CachedText>, path: Seq<char>)
    ensures
        file_index(files, path) matches Some(i) ==> 0 <= i < files.len() && files[i].path == path,
        file_index(files, path) is None ==> forall|j: int|
            0 <= j < files.len() ==> #[trigger] files[j].path != path,
    decreases files.len(),
{
    if files.len() > 0 {
        lemma_file_index(files.drop_last(), path);
        assert forall|j: int| 0 <= j < files.len() - 1 implies files[j] == files.drop_last()[j] by {}
    }
}

/// What a filter keeps is what stood there and is wanted.
pub proof fn lemma_filtered<T>(s: Seq<T>, pred: spec_fn(T) -> bool)
    ensures
        forall|x: T| #[trigger] s.filter(pred).contains(x) <==> s.contains(x) && pred(x),
    decreases s.len(),
{
    reveal(Seq::filter);
    if s.len() > 0 {
        let front = s.drop_last();
        lemma_filtered(front, pred);
        let kept = front.filter(pred);
        let all = s.filter(pred);
        assert forall|x: T| #[trigger] all.contains(x) <==> s.contains(x) && pred(x) by {
            if all.contains(x) {
                let k = choose|k: int| 0 <= k < all.len() && all[k] == x;
                if k < kept.len() {
                    assert(kept[k] == x);
                    assert(kept.contains(x));
                    let j = choose|j: int| 0 <= j < front.len() && front[j] == x;
                    assert(s[j] == x);
                } else {
                    assert(s[s.len() - 1] == x);
                }
            }
            if s.contains(x) && pred(x) {
                let k = choose|k: int| 0 <= k < s.len() && s[k] == x;
                if k < s.len() - 1 {
                    assert(front[k] == x);
                    assert(front.contains(x));
                    assert(kept.contains(x));
                    let j = choose|j: int| 0 <= j < kept.len() && kept[j] == x;
                    assert(all[j] == x);
                } else {
                    assert(all[kept.len() as int] == x);
                }
            }
        }
    }
}

proof fn lemma_without_repo(repos: Seq<IndexedText>, key: Seq<char>)
    requires
        keys_distinct(repos),
    ensures
        keys_distinct(without_repo(repos, key)),
        repo_index(without_repo(repos, key), key) is None,
        forall|other: Seq<char>|
            other != key ==> #[trigger] symbols_of(without_repo(repos, key), other) == symbols_of(
                repos,
                other,
            ),
    decreases repos.len(),
{
    reveal(Seq::filter);
    let pred = |r: IndexedText| r.key != key;
    let rest = without_repo(repos, key);
    if repos.len() > 0 {
        let front = repos.drop_last();
        let last = repos.last();
        assert forall|i: int, j: int| 0 <= i < j < front.len() implies #[trigger] front[i].key
            != #[trigger] front[j].key by {
            assert(repos[i].key != repos[j].key);
        }
        lemma_without_repo(front, key);
        let kept = without_repo(front, key);
        lemma_filtered(front, pred);
        if last.key != key {
            assert(rest == kept.push(last));
            assert(rest.drop_last() =~= kept);
            assert forall|i: int, j: int| 0 <= i < j < rest.len() implies #[trigger] rest[i].key
                != #[trigger] rest[j].key by {
                if j < kept.len() {
                    assert(kept[i].key != kept[j].key);
                } else {
                    assert(kept.contains(kept[i]));
                    let k = choose|k: int| 0 <= k < front.len() && front[k] == kept[i];
                    assert(repos[k].key != repos[repos.len() - 1].key);
                }
            }
        }
        assert forall|other: Seq<char>| other != key implies #[trigger] symbols_of(rest, other)
            == symbols_of(repos, other) by {
            assert(symbols_of(kept, other) == symbols_of(front, other));
            lemma_repo_index(kept, other);
            lemma_repo_index(front, other);
            match repo_index(front, other) {
                Some(i) => {
                    assert(repos[i] == front[i]);
                },
                None => {},
            }
            match repo_index(kept, other) {
                Some(i) => {
                    assert(rest[i] == kept[i]);
                },
                None => {},
            }
        }
    }
}

pub proof fn lemma_put_repo(repos: Seq<IndexedText>, item: IndexedText)
    requires
        keys_distinct(repos),
    ensures
        keys_distinct(put_repo(repos, item)),
        symbols_of(put_repo(repos, item), item.key) == Some(item.symbols),
        forall|other: Seq<char>|
            other != item.key ==> #[trigger] symbols_of(put_repo(repos, item), other) == symbols_of(
                repos,
                other,
            ),
{
    let after = put_repo(repos, item);
    lemma_repo_index(repos, item.key);
    match repo_index(repos, item.key) {
        Some(i) => {
            assert forall|a: int, b: int| 0 <= a < b < after.len() implies #[trigger] after[a].key
                != #[trigger] after[b].key by {
                assert(repos[a].key != repos[b].key);
            }
            lemma_repo_index_is(after, i);
            assert forall|other: Seq<char>| other != item.key implies #[trigger] symbols_of(
                after,
                other,
            ) == symbols_of(repos, other) by {
                lemma_repo_index(repos, other);
                lemma_repo_index(after, other);
                match repo_index(repos, other) {
                    Some(k) => {
                        assert(after[k] == repos[k]);
                        lemma_repo_index_is(after, k);
                    },
                    None => match repo_index(after, other) {
                        Some(k) => {
                            assert(repos[k].key != other);
                            assert(after[k].key == other);
                        },
                        None => {},
                    },
                }
            }
        },
        None => {
            assert(after.drop_last() =~= repos);
            assert forall|a: int, b: int| 0 <= a < b < after.len() implies #[trigger] after[a].key
                != #[trigger] after[b].key by {
                if b < repos.len() {
                    assert(repos[a].key != repos[b].key);
                } else {
                    assert(repos[a].key != item.key);
                }
            }
            assert forall|other: Seq<char>| other != item.key implies #[trigger] symbols_of(
                after,
                other,
            ) == symbols_of(repos, other) by {
                lemma_repo_index(repos, other);
                match repo_index(repos, other) {
                    Some(k) => {
                        assert(after[k] == repos[k]);
                    },
                    None => {},
                }
            }
        },
    }
}

proof fn lemma_update_keeps_keys(repos: Seq<IndexedText>, i: int, item: IndexedText)
    requires
        keys_distinct(repos),
        0 <= i < repos.len(),
        item.key == repos[i].key,
    ensures
        keys_distinct(repos.update(i, item)),
{
    let after = repos.update(i, item);
    assert forall|a: int, b: int| 0 <= a < b < after.len() implies #[trigger] after[a].key
        != #[trigger] after[b].key by {
        assert(repos[a].key != repos[b].key);
    }
}

fn drop_text(list: &Vec<String>, key: &str) -> (r: Vec<String>)
    ensures
        texts(r@) == without_text(texts(list@), key@),
{
    let ghost all = texts(list@);
    let ghost pred = other_than(key@);
    let mut out: Vec<String> = Vec::new();
    let mut i: usize = 0;
    proof {
        reveal(Seq::filter);
        assert(texts(out@) =~= all.take(0).filter(pred));
    }
    while i < list.len()
        invariant
            i <= list@.len(),
            all == texts(list@),
            pred == other_than(key@),
            texts(out@) == all.take(i as int).filter(pred),
        decreases list@.len() - i,
    {
        proof {
            reveal(Seq::filter);
            assert(all.take(i + 1).drop_last() =~= all.take(i as int));
            assert(all.take(i + 1).last() == list@[i as int]@);
        }
        if !same_text(list[i].as_str(), key) {
            let s = list[i].clone();
            proof {
                assert(texts(out@.push(s)) =~= texts(out@).push(s@));
            }
            out.push(s);
        }
        i = i + 1;
    }
    proof {
        assert(all.take(all.len() as int) =~= all);
    }
    out
}

fn keep_present(list: &Vec<String>, missing: &[String]) -> (r: Vec<String>)
    ensures
        texts(r@) == present(texts(list@), texts(missing@)),
{
    let ghost all = texts(list@);
    let ghost pred = |p: Seq<char>| !texts(missing@).contains(p);
    let mut out: Vec<String> = Vec::new();
    let mut i: usize = 0;
    proof {
        reveal(Seq::filter);
        assert(texts(out@) =~= all.take(0).filter(pred));
    }
    while i < list.len()
        invariant
            i <= list@.len(),
            all == texts(list@),
            pred == (|p: Seq<char>| !texts(missing@).contains(p)),
            texts(out@) == all.take(i as int).filter(pred),
        decreases list@.len() - i,
    {
        proof {
            reveal(Seq::filter);
            assert(all.take(i + 1).drop_last() =~= all.take(i as int));
            assert(all.take(i + 1).last() == list@[i as int]@);
        }
        if !has_text(missing, list[i].as_str()) {
            let s = list[i].clone();
            proof {
                assert(texts(out@.push(s)) =~= texts(out@).push(s@));
            }
            out.push(s);
        }
        i = i + 1;
    }
    proof {
        assert(all.take(all.len() as int) =~= all);
    }
    out
}

pub(crate) fn copy_cached(f: &CachedFile) -> (r: CachedFile)
    ensures
        r@ == f@,
{
    let mut comment_lines: Vec<bool> = Vec::new();
    let mut i: usize = 0;
    while i < f.comment_lines.len()
        invariant
            i <= f.comment_lines@.len(),
            comment_lines@ == f.comment_lines@.take(i as int),
        decreases f.comment_lines@.len() - i,
    {
        comment_lines.push(f.comment_lines[i]);
        proof {
            assert(comment_lines@ =~= f.comment_lines@.take(i + 1));
        }
        i = i + 1;
    }
    proof {
        assert(f.comment_lines@.take(f.comment_lines@.len() as int) =~= f.comment_lines@);
    }
    CachedFile { path: f.path.clone(), content: f.content.clone(), comment_lines }
}

// ---- operations ----

/// The paths registered when an engine is created: each once, with how often it was named.
pub open spec fn configured(paths: Seq<Seq<char>>, now: u64) -> Seq<RegisteredText>
    decreases paths.len(),
{
    if paths.len() == 0 {
        Seq::empty()
    } else {
        with_name(configured(paths.drop_last(), now), paths.last(), now)
    }
}

/// The repositories among those asked about that are in both lists, each once.
pub open spec fn at_hand(
    paths: Seq<Seq<char>>,
    existing: Seq<Seq<char>>,
    opened: Seq<Seq<char>>,
) -> Seq<Seq<char>>
    decreases paths.len(),
{
    if paths.len() == 0 {
        Seq::empty()
    } else {
        let front = at_hand(paths.drop_last(), existing, opened);
        let p = paths.last();
        if existing.contains(p) && opened.contains(p) && !front.contains(p) {
            front.push(p)
        } else {
            front
        }
    }
}

/// An engine before anything is indexed.
pub open spec fn started(
    paths: Seq<Seq<char>>,
    existing: Seq<Seq<char>>,
    git: Seq<Seq<char>>,
    call_graph_enabled: bool,
    git_enabled: bool,
    now: u64,
) -> EngineText {
    EngineText {
        registered: configured(paths, now),
        initialized: false,
        repos: Seq::empty(),
        files: Seq::empty(),
        call_graphs: if call_graph_enabled {
            at_hand(paths, existing, existing)
        } else {
            Seq::empty()
        },
        git_repos: if git_enabled {
            at_hand(paths, existing, git)
        } else {
            Seq::empty()
        },
    }
}

fn keys_at_hand(paths: &[String], existing: &[String], opened: &[String]) -> (r: Vec<String>)
    ensures
        texts(r@) == at_hand(texts(paths@), texts(existing@), texts(opened@)),
{
    let ghost all = texts(paths@);
    let ghost e = texts(existing@);
    let ghost o = texts(opened@);
    let mut out: Vec<String> = Vec::new();
    let mut i: usize = 0;
    proof {
        assert(texts(out@) =~= at_hand(all.take(0), e, o));
    }
    while i < paths.len()
        invariant
            i <= paths@.len(),
            all == texts(paths@),
            e == texts(existing@),
            o == texts(opened@),
            texts(out@) == at_hand(all.take(i as int), e, o),
        decreases paths@.len() - i,
    {
        proof {
            assert(all.take(i + 1).drop_last() =~= all.take(i as int));
            assert(all.take(i + 1).last() == paths@[i as int]@);
        }
        let p = paths[i].as_str();
        if has_text(existing, p) && has_text(opened, p) && !has_text(out.as_slice(), p) {
            let s = p.to_owned();
            proof {
                assert(texts(out@.push(s)) =~= texts(out@).push(s@));
            }
            out.push(s);
        }
        i = i + 1;
    }
    proof {
        assert(all.take(all.len() as int) =~= all);
    }
    out
}

/// What was only just registered was not indexed yet.
proof fn lemma_none_passed(paths: Seq<Seq<char>>, now: u64)
    ensures
        forall|i: int|
            0 <= i < configured(paths, now).len() ==> !(#[trigger] configured(paths, now)[i]).passed,
    decreases paths.len(),
{
    if paths.len() > 0 {
        lemma_none_passed(paths.drop_last(), now);
        let front = configured(paths.drop_last(), now);
        let all = configured(paths, now);
        assert forall|i: int| 0 <= i < all.len() implies !(#[trigger] all[i]).passed by {
            if i < front.len() {
                assert(!front[i].passed);
            }
        }
    }
}

proof fn lemma_nothing_done(list: Seq<RegisteredText>)
    requires
        forall|i: int| 0 <= i < list.len() ==> !(#[trigger] list[i]).passed,
    ensures
        sum_of(list, is_done()) == 0,
    decreases list.len(),
{
    if list.len() > 0 {
        assert forall|i: int| 0 <= i < list.len() - 1 implies !(
        #[trigger] list.drop_last()[i]).passed by {
            assert(list.drop_last()[i] == list[i]);
        }
        lemma_nothing_done(list.drop_last());
        assert(!list[list.len() - 1].passed);
    }
}

/// A part of a list adds up to no more than the list.
proof fn lemma_sum_of_part(list: Seq<RegisteredText>, w: spec_fn(RegisteredText) -> nat, n: int)
    requires
        0 <= n <= list.len(),
    ensures
        sum_of(list.take(n), w) <= sum_of(list, w),
    decreases list.len(),
{
    if n < list.len() {
        lemma_sum_of_part(list.drop_last(), w, n);
        assert(list.drop_last().take(n) =~= list.take(n));
    } else {
        assert(list.take(n) =~= list);
    }
}

/// No more is done than there is to do; and all is done once nothing that was named is left.
proof fn lemma_done_is_part(list: Seq<RegisteredText>)
    ensures
        sum_of(list, is_done()) <= sum_of(list, to_index()),
        (forall|i: int| 0 <= i < list.len() && (#[trigger] list[i]).named > 0 ==> list[i].passed)
            <==> sum_of(list, is_done()) == sum_of(list, to_index()),
    decreases list.len(),
{
    if list.len() > 0 {
        let front = list.drop_last();
        let last = list[list.len() - 1];
        lemma_done_is_part(front);
        if forall|i: int| 0 <= i < list.len() && (#[trigger] list[i]).named > 0
            ==> list[i].passed {
            assert forall|i: int| 0 <= i < front.len() && (
            #[trigger] front[i]).named > 0 implies front[i].passed by {
                assert(front[i] == list[i]);
            }
        }
        if sum_of(list, is_done()) == sum_of(list, to_index()) {
            assert forall|i: int| 0 <= i < list.len() && (
            #[trigger] list[i]).named > 0 implies list[i].passed by {
                if i < front.len() {
                    assert(front[i] == list[i]);
                }
            }
        }
    }
}

impl CodeIntelEngine {
    /// An engine that answers for some repositories and has indexed none. `existing` are
    /// those whose directory is there, `git` those that git opens; both can be asked about
    /// before they are indexed.
    pub fn with_options(
        repo_paths: &[String],
        existing: &[String],
        git: &[String],
        options: EngineOptions,
        now: u64,
    ) -> (r: Self)
        ensures
            r@.wf(),
            r.options == options,
            r@ == started(
                texts(repo_paths@),
                texts(existing@),
                texts(git@),
                options.call_graph_enabled,
                options.git_enabled,
                now,
            ),
            r@.indexed() == 0,
            r@.total() == repo_paths@.len(),
    {
        let ghost all = texts(repo_paths@);
        let mut registry = RepoRegistry::new();
        let mut i: usize = 0;
        proof {
            assert(registry.list() =~= configured(all.take(0), now));
        }
        while i < repo_paths.len()
            invariant
                i <= repo_paths@.len(),
                all == texts(repo_paths@),
                registry.wf(),
                registry.list() == configured(all.take(i as int), now),
                sum_of(registry.list(), to_index()) == i,
                !registry.initialized,
            decreases repo_paths@.len() - i,
        {
            proof {
                assert(all.take(i + 1).drop_last() =~= all.take(i as int));
                assert(all.take(i + 1).last() == repo_paths@[i as int]@);
            }
            registry.configure(repo_paths[i].as_str(), now);
            i = i + 1;
        }
        proof {
            assert(all.take(all.len() as int) =~= all);
        }
        let mut call_graphs: Vec<String> = Vec::new();
        let mut git_repos: Vec<String> = Vec::new();
        proof {
            assert(texts(call_graphs@) =~= Seq::<Seq<char>>::empty());
            assert(texts(git_repos@) =~= Seq::<Seq<char>>::empty());
        }
        if options.call_graph_enabled {
            call_graphs = keys_at_hand(repo_paths, existing, existing);
        }
        if options.git_enabled {
            git_repos = keys_at_hand(repo_paths, existing, git);
        }
        let r = CodeIntelEngine {
            options,
            registry,
            repos: Vec::new(),
            files: Vec::new(),
            call_graphs,
            git_repos,
        };
        proof {
            assert(r@.registered == configured(all, now));
            assert(r@.repos =~= Seq::<IndexedText>::empty());
            assert(r@.files =~= Seq::<CachedText>::empty());
            lemma_none_passed(all, now);
            lemma_nothing_done(r@.registered);
        }
        r
    }

    /// An engine with the usual options.
    pub fn new(repo_paths: &[String], now: u64) -> (r: Self)
        ensures
            r@.wf(),
            r.options.usual(),
            r@ == started(
                texts(repo_paths@),
                Seq::empty(),
                Seq::empty(),
                false,
                false,
                now,
            ),
            r@.indexed() == 0,
            r@.total() == repo_paths@.len(),
    {
        let none: Vec<String> = Vec::new();
        proof {
            assert(texts(none@) =~= Seq::<Seq<char>>::empty());
        }
        let options = <EngineOptions as Default>::default();
        CodeIntelEngine::with_options(repo_paths, none.as_slice(), none.as_slice(), options, now)
    }

    pub fn options(&self) -> (r: &EngineOptions)
        ensures
            *r == self.options,
    {
        &self.options
    }

    pub fn is_cache_enabled(&self) -> (r: bool)
        ensures
            r == self.options.cache_enabled,
    {
        self.options.cache_enabled
    }

    /// Tells whether the first index pass is over.
    pub fn is_fully_initialized(&self) -> (r: bool)
        ensures
            r == self@.initialized,
    {
        self.registry.initialized
    }

    /// How many of the repositories the server was started with are indexed so far, and how
    /// many there are. A repository counts as indexed once the first pass has indexed it.
    pub fn indexing_progress(&self) -> (r: (usize, usize))
        requires
            self@.wf(),
        ensures
            r.0 == self@.indexed(),
            r.1 == self@.total(),
    {
        let ghost all = self@.registered;
        let mut indexed: usize = 0;
        let mut total: usize = 0;
        let mut i: usize = 0;
        while i < self.registry.repos.len()
            invariant
                i <= self.registry.repos@.len(),
                all == self@.registered,
                sum_of(all, to_index()) <= usize::MAX,
                indexed <= total,
                indexed == sum_of(all.take(i as int), is_done()),
                total == sum_of(all.take(i as int), to_index()),
            decreases self.registry.repos@.len() - i,
        {
            proof {
                assert(all.take(i + 1).drop_last() =~= all.take(i as int));
                assert(all.take(i + 1).last() == self.registry.repos@[i as int]@);
                lemma_sum_of_part(all, to_index(), i + 1);
            }
            let named: usize = self.registry.repos[i].named;
            total = total + named;
            if self.registry.repos[i].passed {
                indexed = indexed + named;
            }
            i = i + 1;
        }
        proof {
            assert(all.take(all.len() as int) =~= all);
        }
        (indexed, total)
    }

    /// The keys of every registered repository, for a question that names none. `missing` are
    /// those whose directory is gone.
    pub fn all_repo_keys(&self, missing: &[String]) -> (r: Vec<String>)
        ensures
            texts(r@) == present(registered_paths(self@.registered), texts(missing@)),
    {
        let paths = self.registry.paths();
        keep_present(&paths, missing)
    }

    /// The keys of the indexed repositories.
    pub fn indexed_keys(&self) -> (r: Vec<String>)
        ensures
            texts(r@) == repo_keys(self@.repos),
    {
        let mut out: Vec<String> = Vec::new();
        let mut i: usize = 0;
        while i < self.repos.len()
            invariant
                i <= self.repos@.len(),
                out@.len() == i,
                forall|j: int| 0 <= j < i ==> #[trigger] out@[j]@ == self.repos@[j].key@,
            decreases self.repos@.len() - i,
        {
            out.push(self.repos[i].key.clone());
            i = i + 1;
        }
        proof {
            assert(texts(out@) =~= repo_keys(self@.repos));
        }
        out
    }

    /// Each indexed repository with the number of its symbols and of its files.
    pub fn repo_status_snapshot(&self) -> (r: Vec<(String, usize, usize)>)
        ensures
            r@.len() == self@.repos.len(),
            forall|i: int|
                0 <= i < r@.len() ==> (#[trigger] r@[i]).0@ == self@.repos[i].key && r@[i].1
                    == self@.repos[i].symbols.len() && r@[i].2
                    == self@.repos[i].metadata.file_count,
    {
        let mut out: Vec<(String, usize, usize)> = Vec::new();
        let mut i: usize = 0;
        while i < self.repos.len()
            invariant
                i <= self.repos@.len(),
                out@.len() == i,
                forall|j: int|
                    0 <= j < i ==> (#[trigger] out@[j]).0@ == self.repos@[j].key@ && out@[j].1
                        == self.repos@[j].symbols@.len() && out@[j].2
                        == self.repos@[j].metadata.file_count,
            decreases self.repos@.len() - i,
        {
            let repo = &self.repos[i];
            out.push((repo.key.clone(), repo.symbols.len(), repo.metadata.file_count));
            i = i + 1;
        }
        proof {
            assert forall|i: int| 0 <= i < out@.len() implies (#[trigger] out@[i]).0@
                == self@.repos[i].key && out@[i].1 == self@.repos[i].symbols.len() && out@[i].2
                == self@.repos[i].metadata.file_count by {
                assert(self@.repos[i] == self.repos@[i]@);
            }
        }
        out
    }

    pub(crate) fn find_repo(&self, key: &str) -> (r: Option<usize>)
        ensures
            (match r {
                Some(i) => Some(i as int),
                None => None,
            }) == repo_index(self@.repos, key@),
            r matches Some(i) ==> i < self.repos@.len() && self@.repos[i as int]
                == self.repos@[i as int]@,
    {
        let ghost all = self@.repos;
        let mut found: Option<usize> = None;
        let mut i: usize = 0;
        while i < self.repos.len()
            invariant
                i <= self.repos@.len(),
                all == indexed_texts(self.repos@),
                (match found {
                    Some(k) => Some(k as int),
                    None => None,
                }) == repo_index(all.take(i as int), key@),
                found matches Some(k) ==> k < self.repos@.len(),
            decreases self.repos@.len() - i,
        {
            proof {
                assert(all.take(i + 1).drop_last() =~= all.take(i as int));
                assert(all.take(i + 1).last() == self.repos@[i as int]@);
            }
            if found.is_none() && same_text(self.repos[i].key.as_str(), key) {
                found = Some(i);
            }
            i = i + 1;
        }
        proof {
            assert(all.take(all.len() as int) =~= all);
        }
        found
    }

    /// The key an argument names.
    pub fn repo_key(&self, arg: &RepoArg) -> (r: Result<String, RepoError>)
        ensures
            key_result(r) == self@.key_of(arg@),
    {
        let keys = self.indexed_keys();
        let paths = self.registry.paths();
        let indexed = keep_present(&keys, arg.missing.as_slice());
        let registered = keep_present(&paths, arg.missing.as_slice());
        let resolved = match &arg.resolved {
            Some(p) => Some(p.as_str()),
            None => None,
        };
        repo_key_for(
            arg.input.as_str(),
            resolved,
            indexed.as_slice(),
            registered.as_slice(),
            arg.git_dirs.as_slice(),
        )
    }

    /// The key an argument names, which counts as a use of that repository; or what is said
    /// instead.
    pub fn resolve_repo(&mut self, arg: &RepoArg) -> (r: Result<String, String>)
        requires
            old(self)@.wf(),
        ensures
            final(self)@.wf(),
            final(self)@ == old(self)@.named(arg@),
            final(self).options == old(self).options,
            (match r {
                Ok(key) => Ok(key@),
                Err(e) => Err(e@),
            }) == old(self)@.resolved(arg@),
    {
        match self.repo_key(arg) {
            Ok(key) => {
                self.registry.mark_used(key.as_str(), arg.now);
                Ok(key)
            },
            Err(e) => {
                let known = self.indexed_keys();
                Err(e.message(known.as_slice()))
            },
        }
    }

    /// Registers a repository met while the engine runs.
    pub fn register_repo_path(&mut self, path: &str, now: u64) -> (r: bool)
        requires
            old(self)@.wf(),
        ensures
            final(self)@.wf(),
            r == !has_path(old(self)@.registered, path@),
            final(self)@ == old(self)@.adopted(path@, now),
            final(self)@.indexed() == old(self)@.indexed(),
            final(self)@.total() == old(self)@.total(),
            final(self).options == old(self).options,
    {
        proof {
            lemma_adopting_keeps_progress(self@, path@, now);
        }
        self.registry.register(path, now)
    }

    /// Records that the first pass has indexed a repository.
    pub fn repo_initialized(&mut self, key: &str)
        requires
            old(self)@.wf(),
        ensures
            final(self)@.wf(),
            final(self)@ == old(self)@.passed(key@),
            final(self)@.total() == old(self)@.total(),
            final(self)@.indexed() + share_of(old(self)@.registered, key@, is_done())
                == old(self)@.indexed() + share_of(old(self)@.registered, key@, to_index()),
            final(self).options == old(self).options,
    {
        proof {
            lemma_passing(self@.registered, key@);
        }
        self.registry.mark_passed(key);
    }

    /// Puts the index of a repository in place.
    pub fn publish(&mut self, item: IndexedRepo)
        requires
            old(self)@.wf(),
        ensures
            final(self)@.wf(),
            final(self)@ == old(self)@.published(item@),
            final(self).options == old(self).options,
            final(self)@.total() == old(self)@.total(),
            final(self)@.indexed() == old(self)@.indexed(),
    {
        let ghost before = self@.repos;
        let ghost put = item@;
        let at = self.find_repo(item.key.as_str());
        proof {
            lemma_put_repo(before, put);
            lemma_repo_index(before, put.key);
        }
        match at {
            Some(i) => {
                proof {
                    assert(indexed_texts(self.repos@.update(i as int, item)) =~= before.update(
                        i as int,
                        put,
                    ));
                }
                self.repos.set(i, item);
            },
            None => {
                proof {
                    assert(indexed_texts(self.repos@.push(item)) =~= before.push(put));
                }
                self.repos.push(item);
            },
        }
    }

    pub(crate) fn find_file(&self, path: &str) -> (r: Option<usize>)
        ensures
            (match r {
                Some(i) => Some(i as int),
                None => None,
            }) == file_index(self@.files, path@),
            r matches Some(i) ==> i < self.files@.len(),
    {
        let ghost all = self@.files;
        let mut found: Option<usize> = None;
        let mut i: usize = 0;
        while i < self.files.len()
            invariant
                i <= self.files@.len(),
                all == cached_texts(self.files@),
                (match found {
                    Some(k) => Some(k as int),
                    None => None,
                }) == file_index(all.take(i as int), path@),
                found matches Some(k) ==> k < self.files@.len(),
            decreases self.files@.len() - i,
        {
            proof {
                assert(all.take(i + 1).drop_last() =~= all.take(i as int));
                assert(all.take(i + 1).last() == self.files@[i as int]@);
            }
            if found.is_none() && same_text(self.files[i].path.as_str(), path) {
                found = Some(i);
            }
            i = i + 1;
        }
        proof {
            assert(all.take(all.len() as int) =~= all);
        }
        found
    }

    /// Tells whether a file is cached.
    pub fn has_file(&self, path: &str) -> (r: bool)
        ensures
            r == (file_index(self@.files, path@) is Some),
    {
        match self.find_file(path) {
            Some(_) => true,
            None => false,
        }
    }

    /// Caches the content of a file.
    pub fn cache_file(&mut self, file: CachedFile)
        ensures
            final(self)@ == (EngineText {
                files: put_file(old(self)@.files, file@),
                ..old(self)@
            }),
            final(self).options == old(self).options,
    {
        let ghost before = self@.files;
        let ghost put = file@;
        match self.find_file(file.path.as_str()) {
            Some(i) => {
                proof {
                    assert(cached_texts(self.files@.update(i as int, file)) =~= before.update(
                        i as int,
                        put,
                    ));
                }
                self.files.set(i, file);
            },
            None => {
                proof {
                    assert(cached_texts(self.files@.push(file)) =~= before.push(put));
                }
                self.files.push(file);
            },
        }
    }

    /// Takes a repository's index and cached files out.
    fn drop_index(&mut self, key: &str)
        requires
            old(self)@.wf(),
        ensures
            final(self)@.wf(),
            final(self)@ == (EngineText {
                repos: without_repo(old(self)@.repos, key@),
                files: files_kept(old(self)@.files, key@, registered_paths(old(self)@.registered)),
                ..old(self)@
            }),
            final(self).options == old(self).options,
    {
        let ghost repos = self@.repos;
        let ghost files = self@.files;
        let paths = self.registry.paths();
        let ghost ps = texts(paths@);
        proof {
            assert(ps =~= registered_paths(self@.registered));
            lemma_without_repo(repos, key@);
        }
        let mut kept: Vec<CachedFile> = Vec::new();
        let ghost pred = |f: CachedText| stays_cached(f.path, key@, ps);
        let mut i: usize = 0;
        proof {
            reveal(Seq::filter);
            assert(cached_texts(kept@) =~= files.take(0).filter(pred));
        }
        while i < self.files.len()
            invariant
                i <= self.files@.len(),
                *self == *old(self),
                files == cached_texts(self.files@),
                ps == texts(paths@),
                pred == (|f: CachedText| stays_cached(f.path, key@, ps)),
                cached_texts(kept@) == files.take(i as int).filter(pred),
            decreases self.files@.len() - i,
        {
            proof {
                reveal(Seq::filter);
                assert(files.take(i + 1).drop_last() =~= files.take(i as int));
                assert(files.take(i + 1).last() == self.files@[i as int]@);
            }
            if keeps_cached_file(self.files[i].path.as_str(), key, paths.as_slice()) {
                let f = copy_cached(&self.files[i]);
                proof {
                    assert(cached_texts(kept@.push(f)) =~= cached_texts(kept@).push(f@));
                }
                kept.push(f);
            }
            i = i + 1;
        }
        proof {
            assert(files.take(files.len() as int) =~= files);
        }
        let at = self.find_repo(key);
        self.files = kept;
        match at {
            Some(k) => {
                proof {
                    lemma_remove_is_filter(repos, k as int);
                    lemma_repo_index(repos, key@);
                    assert(indexed_texts(self.repos@.remove(k as int)) =~= repos.remove(k as int));
                }
                self.repos.remove(k);
            },
            None => {
                proof {
                    lemma_repo_index(repos, key@);
                    lemma_nothing_to_drop(repos, key@);
                }
            },
        }
    }

    /// Empties a repository before it is indexed anew. A file the new state lacks would
    /// otherwise go on answering. A repository registered below it keeps its files.
    pub fn begin_reindex(&mut self, key: &str)
        requires
            old(self)@.wf(),
        ensures
            final(self)@.wf(),
            final(self)@ == old(self)@.emptied(key@, old(self).options.call_graph_enabled),
            final(self).options == old(self).options,
    {
        self.drop_index(key);
        if self.options.call_graph_enabled && !has_text(self.call_graphs.as_slice(), key) {
            let k = key.to_owned();
            proof {
                assert(texts(self.call_graphs@.push(k)) =~= texts(self.call_graphs@).push(k@));
            }
            self.call_graphs.push(k);
        }
    }

    /// Empties the engine before everything is indexed anew.
    pub fn begin_reindex_all(&mut self)
        requires
            old(self)@.wf(),
        ensures
            final(self)@.wf(),
            final(self)@ == (EngineText {
                repos: Seq::empty(),
                files: Seq::empty(),
                ..old(self)@
            }),
            final(self).options == old(self).options,
    {
        self.repos = Vec::new();
        self.files = Vec::new();
        proof {
            assert(self@.repos =~= Seq::<IndexedText>::empty());
            assert(self@.files =~= Seq::<CachedText>::empty());
        }
    }

    /// Forgets a repository by its key.
    pub fn forget_key(&mut self, key: &str)
        requires
            old(self)@.wf(),
        ensures
            final(self)@.wf(),
            final(self)@ == old(self)@.forgotten(key@),
            final(self)@.total() + share_of(old(self)@.registered, key@, to_index())
                == old(self)@.total(),
            final(self)@.indexed() + share_of(old(self)@.registered, key@, is_done())
                == old(self)@.indexed(),
            final(self).options == old(self).options,
    {
        proof {
            lemma_sum_without(self@.registered, key@, to_index());
            lemma_sum_without(self@.registered, key@, is_done());
        }
        self.drop_index(key);
        self.call_graphs = drop_text(&self.call_graphs, key);
        self.git_repos = drop_text(&self.git_repos, key);
        self.registry.forget(key);
    }

    /// Forgets the repository an argument names.
    pub fn forget_repo(&mut self, arg: &RepoArg) -> (r: Result<String, String>)
        requires
            old(self)@.wf(),
        ensures
            final(self)@.wf(),
            match old(self)@.resolved(arg@) {
                Ok(key) => r matches Ok(text) && text@ == "Forgot repository: "@ + key
                    && final(self)@ == old(self)@.named(arg@).forgotten(key)
                    && final(self)@.total() + share_of(old(self)@.registered, key, to_index())
                    == old(self)@.total() && final(self)@.indexed() + share_of(
                    old(self)@.registered,
                    key,
                    is_done(),
                ) == old(self)@.indexed(),
                Err(e) => r matches Err(text) && text@ == e && final(self)@ == old(self)@,
            },
            final(self).options == old(self).options,
    {
        proof {
            law_naming_keeps_progress(self@, arg@);
            lemma_naming_keeps_shares(self@, arg@);
        }
        match self.resolve_repo(arg) {
            Ok(key) => {
                self.forget_key(key.as_str());
                let mut out = "Forgot repository: ".to_owned();
                out.append(key.as_str());
                Ok(out)
            },
            Err(e) => Err(e),
        }
    }

    /// Forgets every adopted repository nobody has named for `ttl` seconds, and names them.
    pub fn sweep_idle_repos(&mut self, now: u64, ttl: u64) -> (r: Vec<String>)
        requires
            old(self)@.wf(),
        ensures
            final(self)@.wf(),
            texts(r@) == old(self)@.idle(now, ttl),
            final(self)@ == old(self)@.all_forgotten(old(self)@.idle(now, ttl)),
            final(self).options == old(self).options,
    {
        let idle = self.registry.idle_repos(now, ttl);
        let ghost all = texts(idle@);
        let ghost start = self@;
        let mut i: usize = 0;
        proof {
            assert(all.take(0) =~= Seq::<Seq<char>>::empty());
        }
        while i < idle.len()
            invariant
                i <= idle@.len(),
                all == texts(idle@),
                self@.wf(),
                self.options == old(self).options,
                self@ == start.all_forgotten(all.take(i as int)),
            decreases idle@.len() - i,
        {
            proof {
                assert(all.take(i + 1).drop_last() =~= all.take(i as int));
                assert(all.take(i + 1).last() == idle@[i as int]@);
            }
            self.forget_key(idle[i].as_str());
            i = i + 1;
        }
        proof {
            assert(all.take(all.len() as int) =~= all);
        }
        idle
    }

    /// Takes in a file that was created or edited. The symbols are its new ones.
    pub fn reindex_file(&mut self, key: &str, rel: &str, symbols: Vec<Symbol>, file: CachedFile)
        requires
            old(self)@.wf(),
        ensures
            final(self)@.wf(),
            final(self)@ == old(self)@.with_file(key@, rel@, symbol_texts(symbols@), file@),
            final(self).options == old(self).options,
    {
        let ghost repos = self@.repos;
        let ghost fresh = symbol_texts(symbols@);
        match self.find_repo(key) {
            Some(i) => {
                let mut table = copy_symbols(self.repos[i].symbols.as_slice());
                replace_file_symbols(&mut table, rel, symbols);
                self.set_symbols(i, table);
            },
            None => {},
        }
        self.cache_file(file);
    }

    /// Takes a file out of the index.
    pub fn remove_file(&mut self, key: &str, rel: &str, path: &str)
        requires
            old(self)@.wf(),
        ensures
            final(self)@.wf(),
            final(self)@ == old(self)@.without(key@, rel@, path@),
            final(self).options == old(self).options,
    {
        match self.find_repo(key) {
            Some(i) => {
                let mut table = copy_symbols(self.repos[i].symbols.as_slice());
                remove_file_symbols(&mut table, rel);
                self.set_symbols(i, table);
            },
            None => {},
        }
        let ghost files = self@.files;
        let ghost mid = self@;
        let ghost pred = |f: CachedText| f.path != path@;
        let mut kept: Vec<CachedFile> = Vec::new();
        let mut i: usize = 0;
        proof {
            reveal(Seq::filter);
            assert(cached_texts(kept@) =~= files.take(0).filter(pred));
        }
        while i < self.files.len()
            invariant
                i <= self.files@.len(),
                self@ == mid,
                self.options == old(self).options,
                files == cached_texts(self.files@),
                pred == (|f: CachedText| f.path != path@),
                cached_texts(kept@) == files.take(i as int).filter(pred),
            decreases self.files@.len() - i,
        {
            proof {
                reveal(Seq::filter);
                assert(files.take(i + 1).drop_last() =~= files.take(i as int));
                assert(files.take(i + 1).last() == self.files@[i as int]@);
            }
            if !same_text(self.files[i].path.as_str(), path) {
                let f = copy_cached(&self.files[i]);
                proof {
                    assert(cached_texts(kept@.push(f)) =~= cached_texts(kept@).push(f@));
                }
                kept.push(f);
            }
            i = i + 1;
        }
        proof {
            assert(files.take(files.len() as int) =~= files);
        }
        self.files = kept;
    }

    pub(crate) fn set_symbols(&mut self, i: usize, symbols: Vec<Symbol>)
        requires
            old(self)@.wf(),
            i < old(self).repos@.len(),
        ensures
            final(self)@.wf(),
            final(self)@ == (EngineText {
                repos: old(self)@.repos.update(
                    i as int,
                    IndexedText {
                        symbols: symbol_texts(symbols@),
                        ..old(self)@.repos[i as int]
                    },
                ),
                ..old(self)@
            }),
            final(self).options == old(self).options,
    {
        let ghost repos = self@.repos;
        let ghost now = symbol_texts(symbols@);
        let old_repo = self.repos.remove(i);
        let ghost before = old_repo@;
        let item = IndexedRepo { key: old_repo.key, metadata: old_repo.metadata, symbols };
        let ghost put = item@;
        self.repos.insert(i, item);
        proof {
            assert(before == repos[i as int]);
            assert(self@.repos =~= repos.update(i as int, put));
            lemma_update_keeps_keys(repos, i as int, put);
        }
    }

    /// Marks the first index pass as over.
    pub fn finish_initialization(&mut self)
        ensures
            final(self)@ == (EngineText { initialized: true, ..old(self)@ }),
            final(self).options == old(self).options,
    {
        self.registry.initialized = true;
    }
}

proof fn lemma_nothing_to_drop(repos: Seq<IndexedText>, key: Seq<char>)
    requires
        forall|j: int| 0 <= j < repos.len() ==> #[trigger] repos[j].key != key,
    ensures
        without_repo(repos, key) == repos,
    decreases repos.len(),
{
    reveal(Seq::filter);
    if repos.len() > 0 {
        let front = repos.drop_last();
        assert forall|j: int| 0 <= j < front.len() implies #[trigger] front[j].key != key by {
            assert(front[j] == repos[j]);
        }
        lemma_nothing_to_drop(front, key);
        assert(repos[repos.len() - 1].key != key);
        assert(front.push(repos.last()) =~= repos);
    } else {
        assert(without_repo(repos, key) =~= repos);
    }
}

proof fn lemma_remove_is_filter(repos: Seq<IndexedText>, i: int)
    requires
        keys_distinct(repos),
        0 <= i < repos.len(),
    ensures
        without_repo(repos, repos[i].key) == repos.remove(i),
    decreases repos.len(),
{
    reveal(Seq::filter);
    let key = repos[i].key;
    let front = repos.drop_last();
    assert forall|a: int, b: int| 0 <= a < b < front.len() implies #[trigger] front[a].key
        != #[trigger] front[b].key by {
        assert(repos[a].key != repos[b].key);
    }
    if i == repos.len() - 1 {
        assert forall|j: int| 0 <= j < front.len() implies #[trigger] front[j].key != key by {
            assert(repos[j].key != repos[i].key);
        }
        lemma_nothing_to_drop(front, key);
        assert(repos.remove(i) =~= front);
    } else {
        assert(front[i] == repos[i]);
        lemma_remove_is_filter(front, i);
        assert(repos[i].key != repos[repos.len() - 1].key);
        assert(repos.remove(i) =~= front.remove(i).push(repos.last()));
    }
}

// ---- progress ----

/// Marking a path as indexed moves what it adds from what is left to what is done.
proof fn lemma_passing(list: Seq<RegisteredText>, path: Seq<char>)
    ensures
        sum_of(passed_at(list, path), to_index()) == sum_of(list, to_index()),
        sum_of(passed_at(list, path), is_done()) + share_of(list, path, is_done()) == sum_of(
            list,
            is_done(),
        ) + share_of(list, path, to_index()),
    decreases list.len(),
{
    reveal(Seq::filter);
    let own = |r: RegisteredText| r.path == path;
    let after = passed_at(list, path);
    if list.len() > 0 {
        let front = list.drop_last();
        lemma_passing(front, path);
        assert(after.drop_last() =~= passed_at(front, path));
        if own(list.last()) {
            assert(list.filter(own).drop_last() =~= front.filter(own));
        }
    } else {
        assert(after =~= list);
    }
}

/// A stamp changes no sum and no share.
proof fn lemma_stamps_do_not_count(
    list: Seq<RegisteredText>,
    key: Seq<char>,
    now: u64,
    path: Seq<char>,
)
    ensures
        sum_of(stamped(list, key, now), to_index()) == sum_of(list, to_index()),
        sum_of(stamped(list, key, now), is_done()) == sum_of(list, is_done()),
        share_of(stamped(list, key, now), path, to_index()) == share_of(list, path, to_index()),
        share_of(stamped(list, key, now), path, is_done()) == share_of(list, path, is_done()),
    decreases list.len(),
{
    reveal(Seq::filter);
    let own = |r: RegisteredText| r.path == path;
    let after = stamped(list, key, now);
    if list.len() > 0 {
        let front = list.drop_last();
        lemma_stamps_do_not_count(front, key, now, path);
        assert(after.drop_last() =~= stamped(front, key, now));
        if own(list.last()) {
            assert(list.filter(own).drop_last() =~= front.filter(own));
            assert(after.filter(own).drop_last() =~= stamped(front, key, now).filter(own));
        }
    } else {
        assert(after =~= list);
    }
}

// ---- laws ----

/// Of the repositories the server was started with no more are indexed than there are; and all
/// are, once the first pass has indexed each of them.
pub proof fn law_progress_is_of_configured_repos(state: EngineText)
    requires
        state.wf(),
    ensures
        state.indexed() <= state.total(),
        (forall|i: int|
            0 <= i < state.registered.len() && (#[trigger] state.registered[i]).named > 0
                ==> state.registered[i].passed) <==> state.indexed() == state.total(),
        forall|i: int|
            0 <= i < state.registered.len() && (#[trigger] state.registered[i]).named > 0
                ==> state.registered[i].origin == RepoOrigin::Configured,
{
    lemma_done_is_part(state.registered);
}

/// When the first pass has indexed a repository, the progress advances by it, once.
pub proof fn law_the_first_pass_advances_progress(state: EngineText, i: int)
    requires
        state.wf(),
        0 <= i < state.registered.len(),
    ensures
        ({
            let r = state.registered[i];
            let after = state.passed(r.path);
            &&& after.total() == state.total()
            &&& after.indexed() == state.indexed() + if r.passed {
                0
            } else {
                r.named as int
            }
            &&& after.passed(r.path).indexed() == after.indexed()
        }),
{
    let path = state.registered[i].path;
    let after = state.passed(path).registered;
    lemma_passing(state.registered, path);
    lemma_share(state.registered, i, is_done());
    lemma_share(state.registered, i, to_index());
    assert(passed_at(after, path) =~= after);
}

/// An index that is put in place, emptied, edited or replaced leaves the progress as it is:
/// only the first pass raises it, and a rebuild does not lower it.
pub proof fn law_index_changes_keep_progress(
    state: EngineText,
    item: IndexedText,
    key: Seq<char>,
    call_graphs: bool,
)
    ensures
        state.published(item).indexed() == state.indexed(),
        state.published(item).total() == state.total(),
        state.emptied(key, call_graphs).indexed() == state.indexed(),
        state.emptied(key, call_graphs).total() == state.total(),
{
}

/// Forgetting a repository takes what it counted for out of both counts.
pub proof fn law_forgetting_takes_back_progress(state: EngineText, i: int)
    requires
        state.wf(),
        0 <= i < state.registered.len(),
    ensures
        ({
            let r = state.registered[i];
            let after = state.forgotten(r.path);
            &&& after.total() == state.total() - r.named
            &&& after.indexed() == state.indexed() - if r.passed {
                r.named as int
            } else {
                0
            }
            &&& r.origin == RepoOrigin::Adopted ==> after.total() == state.total()
                && after.indexed() == state.indexed()
        }),
{
    let path = state.registered[i].path;
    lemma_sum_without(state.registered, path, to_index());
    lemma_sum_without(state.registered, path, is_done());
    lemma_share(state.registered, i, to_index());
    lemma_share(state.registered, i, is_done());
}

/// Naming a repository leaves the progress as it is.
pub proof fn law_naming_keeps_progress(state: EngineText, arg: ArgText)
    ensures
        state.named(arg).indexed() == state.indexed(),
        state.named(arg).total() == state.total(),
{
    match state.key_of(arg) {
        Ok(key) => {
            lemma_stamps_do_not_count(state.registered, key, arg.now, key);
        },
        Err(_) => {},
    }
}

proof fn lemma_naming_keeps_shares(state: EngineText, arg: ArgText)
    ensures
        state.key_of(arg) matches Ok(key) ==> share_of(
            state.named(arg).registered,
            key,
            to_index(),
        ) == share_of(state.registered, key, to_index()) && share_of(
            state.named(arg).registered,
            key,
            is_done(),
        ) == share_of(state.registered, key, is_done()),
{
    match state.key_of(arg) {
        Ok(key) => {
            lemma_stamps_do_not_count(state.registered, key, arg.now, key);
        },
        Err(_) => {},
    }
}

proof fn lemma_adopting_keeps_progress(state: EngineText, path: Seq<char>, now: u64)
    ensures
        state.adopted(path, now).indexed() == state.indexed(),
        state.adopted(path, now).total() == state.total(),
{
    if !has_path(state.registered, path) {
        assert(state.adopted(path, now).registered.drop_last() =~= state.registered);
    }
}

/// A repository that was adopted, indexed and forgotten again leaves the progress of the
/// configured ones as it was, at each of these steps.
pub proof fn law_adopted_repos_do_not_count(
    state: EngineText,
    path: Seq<char>,
    now: u64,
    item: IndexedText,
)
    requires
        state.wf(),
        !has_path(state.registered, path),
        item.key == path,
    ensures
        ({
            let met = state.adopted(path, now);
            let done = met.published(item).passed(path);
            let gone = done.forgotten(path);
            &&& met.indexed() == state.indexed() && met.total() == state.total()
            &&& done.indexed() == state.indexed() && done.total() == state.total()
            &&& gone.indexed() == state.indexed() && gone.total() == state.total()
        }),
{
    lemma_adopting_keeps_progress(state, path, now);
    let list = state.registered;
    let after = state.adopted(path, now).registered;
    assert(paths_distinct(after)) by {
        assert forall|i: int, j: int| 0 <= i < j < after.len() implies #[trigger] after[i].path
            != #[trigger] after[j].path by {
            if j < list.len() {
                assert(list[i].path != list[j].path);
            } else {
                assert(list[i].path != path);
            }
        }
    }
    let last = list.len() as int;
    assert(after[last].path == path);
    lemma_passing(after, path);
    lemma_share(after, last, to_index());
    lemma_share(after, last, is_done());
    let marked = passed_at(after, path);
    assert(paths_distinct(marked)) by {
        assert forall|i: int, j: int| 0 <= i < j < marked.len() implies #[trigger] marked[i].path
            != #[trigger] marked[j].path by {
            assert(after[i].path != after[j].path);
        }
    }
    assert(marked[last].path == path);
    lemma_sum_without(marked, path, to_index());
    lemma_sum_without(marked, path, is_done());
    lemma_share(marked, last, to_index());
    lemma_share(marked, last, is_done());
}

/// A forgotten repository is gone: it is neither registered nor indexed, has no call graph
/// and no git handle, and of its files only those of repositories registered below it stay.
pub proof fn law_a_forgotten_repo_is_gone(state: EngineText, key: Seq<char>)
    requires
        state.wf(),
    ensures
        state.forgotten(key).wf(),
        !has_path(state.forgotten(key).registered, key),
        symbols_of(state.forgotten(key).repos, key) is None,
        !state.forgotten(key).call_graphs.contains(key),
        !state.forgotten(key).git_repos.contains(key),
        forall|f: CachedText| #[trigger]
            state.forgotten(key).files.contains(f) ==> stays_cached(
                f.path,
                key,
                registered_paths(state.registered),
            ),
{
    let after = state.forgotten(key);
    lemma_without_repo(state.repos, key);
    let pred = |r: RegisteredText| r.path != key;
    lemma_filtered(state.registered, pred);
    assert(!has_path(after.registered, key)) by {
        if has_path(after.registered, key) {
            let i = choose|i: int|
                0 <= i < after.registered.len() && #[trigger] after.registered[i].path == key;
            assert(after.registered.contains(after.registered[i]));
        }
    }
    lemma_without_stays_well(state.registered, key);
    lemma_filtered(state.call_graphs, other_than(key));
    lemma_filtered(state.git_repos, other_than(key));
    lemma_filtered(
        state.files,
        |f: CachedText| stays_cached(f.path, key, registered_paths(state.registered)),
    );
}

/// Forgetting one repository leaves what every other one answers from as it was.
pub proof fn law_forgetting_leaves_the_others(state: EngineText, key: Seq<char>, other: Seq<char>)
    requires
        state.wf(),
        other != key,
    ensures
        symbols_of(state.forgotten(key).repos, other) == symbols_of(state.repos, other),
        has_path(state.forgotten(key).registered, other) <==> has_path(state.registered, other),
        state.forgotten(key).call_graphs.contains(other) <==> state.call_graphs.contains(other),
{
    lemma_without_repo(state.repos, key);
    let pred = |r: RegisteredText| r.path != key;
    let after = state.forgotten(key).registered;
    lemma_filtered(state.registered, pred);
    lemma_filtered(state.call_graphs, other_than(key));
    if has_path(state.registered, other) {
        let i = choose|i: int|
            0 <= i < state.registered.len() && #[trigger] state.registered[i].path == other;
        assert(state.registered.contains(state.registered[i]));
        assert(after.contains(state.registered[i]));
        let j = choose|j: int| 0 <= j < after.len() && after[j] == state.registered[i];
        assert(after[j].path == other);
    }
    if has_path(after, other) {
        let i = choose|i: int| 0 <= i < after.len() && #[trigger] after[i].path == other;
        assert(after.contains(after[i]));
        let j = choose|j: int|
            0 <= j < state.registered.len() && state.registered[j] == after[i];
        assert(state.registered[j].path == other);
    }
}

/// A published index answers from then on, and no other repository is touched.
pub proof fn law_a_published_index_answers(state: EngineText, item: IndexedText, other: Seq<char>)
    requires
        state.wf(),
    ensures
        state.published(item).wf(),
        symbols_of(state.published(item).repos, item.key) == Some(item.symbols),
        other != item.key ==> symbols_of(state.published(item).repos, other) == symbols_of(
            state.repos,
            other,
        ),
{
    lemma_put_repo(state.repos, item);
}

/// A sweep forgets no repository that was configured.
pub proof fn law_a_sweep_keeps_configured_repos(state: EngineText, now: u64, ttl: u64, key: Seq<char>)
    requires
        state.wf(),
        exists|i: int|
            0 <= i < state.registered.len() && (#[trigger] state.registered[i]).path == key
                && state.registered[i].origin == RepoOrigin::Configured,
    ensures
        !state.idle(now, ttl).contains(key),
        symbols_of(state.all_forgotten(state.idle(now, ttl)).repos, key) == symbols_of(
            state.repos,
            key,
        ),
{
    let i = choose|i: int|
        0 <= i < state.registered.len() && (#[trigger] state.registered[i]).path == key
            && state.registered[i].origin == RepoOrigin::Configured;
    law_configured_repos_are_never_swept(state.registered, now, ttl, i);
    lemma_all_forgotten(state, state.idle(now, ttl), key);
}

proof fn lemma_all_forgotten(state: EngineText, keys: Seq<Seq<char>>, other: Seq<char>)
    requires
        state.wf(),
        !keys.contains(other),
    ensures
        state.all_forgotten(keys).wf(),
        symbols_of(state.all_forgotten(keys).repos, other) == symbols_of(state.repos, other),
    decreases keys.len(),
{
    if keys.len() > 0 {
        let front = keys.drop_last();
        assert(!front.contains(other)) by {
            if front.contains(other) {
                let k = choose|k: int| 0 <= k < front.len() && front[k] == other;
                assert(keys[k] == other);
            }
        }
        lemma_all_forgotten(state, front, other);
        let mid = state.all_forgotten(front);
        assert(keys[keys.len() - 1] != other);
        law_a_forgotten_repo_is_gone(mid, keys.last());
        law_forgetting_leaves_the_others(mid, keys.last(), other);
    }
}

/// An edit touches one repository: what the others answer from stays.
pub proof fn law_an_edit_touches_one_repo(
    state: EngineText,
    key: Seq<char>,
    rel: Seq<char>,
    symbols: Seq<SymbolText>,
    file: CachedText,
    other: Seq<char>,
)
    requires
        state.wf(),
        other != key,
    ensures
        symbols_of(state.with_file(key, rel, symbols, file).repos, other) == symbols_of(
            state.repos,
            other,
        ),
{
    lemma_repo_index(state.repos, key);
    match repo_index(state.repos, key) {
        Some(i) => {
            let item = IndexedText {
                symbols: without_file(state.repos[i].symbols, rel) + symbols,
                ..state.repos[i]
            };
            lemma_put_repo(state.repos, item);
            assert(put_repo(state.repos, item) == state.repos.update(i, item));
        },
        None => {},
    }
}

/// A removal touches one repository: what the others answer from stays.
pub proof fn law_a_removal_touches_one_repo(
    state: EngineText,
    key: Seq<char>,
    rel: Seq<char>,
    path: Seq<char>,
    other: Seq<char>,
)
    requires
        state.wf(),
        other != key,
    ensures
        symbols_of(state.without(key, rel, path).repos, other) == symbols_of(state.repos, other),
{
    lemma_repo_index(state.repos, key);
    match repo_index(state.repos, key) {
        Some(i) => {
            let item = IndexedText {
                symbols: without_file(state.repos[i].symbols, rel),
                ..state.repos[i]
            };
            lemma_put_repo(state.repos, item);
            assert(put_repo(state.repos, item) == state.repos.update(i, item));
        },
        None => {},
    }
}

/// An edit keeps the tables well formed.
pub proof fn lemma_edit_keeps_wf(
    state: EngineText,
    key: Seq<char>,
    rel: Seq<char>,
    symbols: Seq<SymbolText>,
    file: CachedText,
)
    requires
        state.wf(),
    ensures
        state.with_file(key, rel, symbols, file).wf(),
{
    lemma_repo_index(state.repos, key);
    match repo_index(state.repos, key) {
        Some(i) => {
            lemma_update_keeps_keys(
                state.repos,
                i,
                IndexedText {
                    symbols: without_file(state.repos[i].symbols, rel) + symbols,
                    ..state.repos[i]
                },
            );
        },
        None => {},
    }
}

/// A removal keeps the tables well formed.
pub proof fn lemma_removal_keeps_wf(
    state: EngineText,
    key: Seq<char>,
    rel: Seq<char>,
    path: Seq<char>,
)
    requires
        state.wf(),
    ensures
        state.without(key, rel, path).wf(),
{
    lemma_repo_index(state.repos, key);
    match repo_index(state.repos, key) {
        Some(i) => {
            lemma_update_keeps_keys(
                state.repos,
                i,
                IndexedText {
                    symbols: without_file(state.repos[i].symbols, rel),
                    ..state.repos[i]
                },
            );
        },
        None => {},
    }
}

} // verus!
