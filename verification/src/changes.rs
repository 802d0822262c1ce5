//! What file changes seen by the watcher lead to: which repository a change belongs to,
//! whether the index takes notice of it, and how the symbol table follows.

use vstd::prelude::*;

use crate::backends::{is_ignored, is_ignored_for_index};
use crate::batch::{capped_sum, tag_symbols, tag_texts};
use crate::definitions::{MapEdit, MapEditText};
use crate::languages::{get_language_from_path, get_language_from_path_spec};
use crate::order::{
    dedup_strings, dedup_texts, law_sorted_and_deduplicated_is_distinct, sort_strings, sort_texts,
};
use crate::paths::{
    components, components_of, file_name, file_name_spec, is_under, relative, relative_spec, under,
};
use crate::scope::{rule_texts, scope_matches, scope_names, RuleText, ScopeRule};
use crate::settings::{key_index, lemma_key_index, lemma_key_index_is, table_get, table_put};
use crate::symbols::{
    gtags_symbol, gtags_symbol_text, merge_all, merge_symbols, symbol_texts, SourceSet, Symbol,
    SymbolText,
};
use crate::text::{copy_texts, opt_text, same_text, texts};

verus! {

// ---- which repository a path belongs to ----

/// A path as the file system sees it: as given, resolved, and its parent resolved.
#[derive(Debug)]
pub struct PathFacts {
    pub path: String,
    pub canonical: Option<String>,
    pub parent_canonical: Option<String>,
}

pub struct PathText {
    pub path: Seq<char>,
    pub canonical: Option<Seq<char>>,
    pub parent_canonical: Option<Seq<char>>,
}

impl View for PathFacts {
    type V = PathText;

    open spec fn view(&self) -> PathText {
        PathText {
            path: self.path@,
            canonical: opt_text(self.canonical),
            parent_canonical: opt_text(self.parent_canonical),
        }
    }
}

/// A registered repository: its path, that path resolved (its key), and where its build
/// manifests may stand, as given and resolved.
#[derive(Debug)]
pub struct RepoPlace {
    pub path: String,
    pub canonical: Option<String>,
    pub manifests: Vec<(String, Option<String>)>,
}

pub struct PlaceText {
    pub path: Seq<char>,
    pub canonical: Option<Seq<char>>,
    pub manifests: Seq<(Seq<char>, Option<Seq<char>>)>,
}

impl View for RepoPlace {
    type V = PlaceText;

    open spec fn view(&self) -> PlaceText {
        PlaceText {
            path: self.path@,
            canonical: opt_text(self.canonical),
            manifests: self.manifests@.map_values(
                |m: (String, Option<String>)| (m.0@, opt_text(m.1)),
            ),
        }
    }
}

pub open spec fn place_texts(v: Seq<RepoPlace>) -> Seq<PlaceText> {
    v.map_values(|p: RepoPlace| p@)
}

/// The path lies in the repository, by its own text or once symbolic links are resolved. A
/// path that no longer exists is judged by its parent.
pub open spec fn is_within(p: PathText, repo: PlaceText) -> bool {
    is_under(p.path, repo.path) || match repo.canonical {
        None => false,
        Some(root) => match p.canonical {
            Some(c) => is_under(c, root),
            None => match p.parent_canonical {
                Some(parent) => is_under(parent, root),
                None => false,
            },
        },
    }
}

/// Whether a path lies in a repository.
pub fn path_is_within_repo(p: &PathFacts, repo: &RepoPlace) -> (r: bool)
    ensures
        r == is_within(p@, repo@),
{
    if under(p.path.as_str(), repo.path.as_str()) {
        return true;
    }
    match &repo.canonical {
        None => false,
        Some(root) => match &p.canonical {
            Some(c) => under(c.as_str(), root.as_str()),
            None => match &p.parent_canonical {
                Some(parent) => under(parent.as_str(), root.as_str()),
                None => false,
            },
        },
    }
}

/// The first repository that holds the path.
pub open spec fn owner(p: PathText, repos: Seq<PlaceText>) -> Option<int>
    decreases repos.len(),
{
    if repos.len() == 0 {
        None
    } else {
        match owner(p, repos.drop_last()) {
            Some(i) => Some(i),
            None => if is_within(p, repos.last()) {
                Some(repos.len() - 1)
            } else {
                None
            },
        }
    }
}

pub fn owning_repo(p: &PathFacts, repos: &[RepoPlace]) -> (r: Option<usize>)
    ensures
        (match r {
            Some(i) => Some(i as int),
            None => None,
        }) == owner(p@, place_texts(repos@)),
        r matches Some(i) ==> i < repos@.len(),
{
    let ghost all = place_texts(repos@);
    let mut found: Option<usize> = None;
    let mut i: usize = 0;
    while i < repos.len()
        invariant
            i <= repos@.len(),
            all == place_texts(repos@),
            (match found {
                Some(k) => Some(k as int),
                None => None,
            }) == owner(p@, all.take(i as int)),
            found matches Some(k) ==> k < i,
        decreases repos@.len() - i,
    {
        proof {
            assert(all.take(i + 1).drop_last() =~= all.take(i as int));
            assert(all.take(i + 1).last() == repos@[i as int]@);
        }
        if found.is_none() && path_is_within_repo(p, &repos[i]) {
            found = Some(i);
        }
        i = i + 1;
    }
    proof {
        assert(all.take(all.len() as int) =~= all);
    }
    found
}

/// The key of the repository that holds the path.
/// An owner is one of the repositories.
pub proof fn lemma_owner(p: PathText, repos: Seq<PlaceText>)
    ensures
        owner(p, repos) matches Some(i) ==> 0 <= i < repos.len() && is_within(p, repos[i]),
    decreases repos.len(),
{
    if repos.len() > 0 {
        lemma_owner(p, repos.drop_last());
    }
}

pub open spec fn owner_key(p: PathText, repos: Seq<PlaceText>) -> Option<Seq<char>> {
    match owner(p, repos) {
        Some(i) => repos[i].canonical,
        None => None,
    }
}

/// The keys of the repositories that hold the paths, one for each path that has one.
pub open spec fn change_keys(paths: Seq<PathText>, repos: Seq<PlaceText>) -> Seq<Seq<char>>
    decreases paths.len(),
{
    if paths.len() == 0 {
        Seq::empty()
    } else {
        let front = change_keys(paths.drop_last(), repos);
        match owner_key(paths.last(), repos) {
            Some(key) => front.push(key),
            None => front,
        }
    }
}

/// The repositories a batch of changes touches, each once, in the order of their keys.
pub fn repos_for_changes(paths: &[PathFacts], repos: &[RepoPlace]) -> (r: Vec<String>)
    ensures
        texts(r@) == dedup_texts(
            sort_texts(change_keys(paths@.map_values(|p: PathFacts| p@), place_texts(repos@))),
        ),
{
    let ghost all = paths@.map_values(|p: PathFacts| p@);
    let mut out: Vec<String> = Vec::new();
    let mut i: usize = 0;
    proof {
        assert(texts(out@) =~= Seq::<Seq<char>>::empty());
    }
    while i < paths.len()
        invariant
            i <= paths@.len(),
            all == paths@.map_values(|p: PathFacts| p@),
            texts(out@) == change_keys(all.take(i as int), place_texts(repos@)),
        decreases paths@.len() - i,
    {
        proof {
            assert(all.take(i + 1).drop_last() =~= all.take(i as int));
            assert(all.take(i + 1).last() == paths@[i as int]@);
        }
        match owning_repo(&paths[i], repos) {
            Some(k) => {
                proof {
                    assert(place_texts(repos@)[k as int] == repos@[k as int]@);
                }
                match &repos[k].canonical {
                    Some(key) => {
                        let kept = key.clone();
                        proof {
                            assert(texts(out@.push(kept)) =~= texts(out@).push(kept@));
                        }
                        out.push(kept);
                    },
                    None => {},
                }
            },
            None => {},
        }
        i = i + 1;
    }
    proof {
        assert(all.take(all.len() as int) =~= all);
    }
    let sorted = sort_strings(out.as_slice());
    dedup_strings(sorted.as_slice())
}

/// No repository is named twice for a batch.
pub proof fn law_changed_repos_are_named_once(paths: Seq<PathText>, repos: Seq<PlaceText>)
    ensures
        dedup_texts(sort_texts(change_keys(paths, repos))).no_duplicates(),
{
    law_sorted_and_deduplicated_is_distinct(change_keys(paths, repos));
}

// ---- build manifests ----

/// Two paths with the same components.
pub open spec fn same_path_spec(a: Seq<char>, b: Seq<char>) -> bool {
    components_of(a) == components_of(b)
}

fn same_path(a: &str, b: &str) -> (r: bool)
    ensures
        r == same_path_spec(a@, b@),
{
    let x = components(a);
    let y = components(b);
    proof {
        assert(texts(x@).len() == x@.len());
        assert(texts(y@).len() == y@.len());
    }
    if x.len() != y.len() {
        return false;
    }
    let mut i: usize = 0;
    while i < x.len()
        invariant
            i <= x@.len(),
            x@.len() == y@.len(),
            texts(x@) == components_of(a@),
            texts(y@) == components_of(b@),
            forall|j: int| 0 <= j < i ==> x@[j]@ == y@[j]@,
        decreases x@.len() - i,
    {
        if !same_text(x[i].as_str(), y[i].as_str()) {
            proof {
                assert(texts(x@)[i as int] != texts(y@)[i as int]);
            }
            return false;
        }
        i = i + 1;
    }
    proof {
        assert(texts(x@) =~= texts(y@));
    }
    true
}

/// The manifest is one the repository looks for.
pub open spec fn is_manifest_of(p: PathText, repo: PlaceText) -> bool {
    exists|i: int|
        0 <= i < repo.manifests.len() && (same_path_spec(
            #[trigger] repo.manifests[i].0,
            p.path,
        ) || (p.canonical is Some && repo.manifests[i].1 == p.canonical))
}

/// The repository a changed manifest belongs to: the first that looks for it there, or
/// holds it.
pub open spec fn manifest_owner(p: PathText, repos: Seq<PlaceText>) -> Option<int>
    decreases repos.len(),
{
    if repos.len() == 0 {
        None
    } else {
        match manifest_owner(p, repos.drop_last()) {
            Some(i) => Some(i),
            None => if is_manifest_of(p, repos.last()) || is_within(p, repos.last()) {
                Some(repos.len() - 1)
            } else {
                None
            },
        }
    }
}

fn looks_for_manifest(p: &PathFacts, repo: &RepoPlace) -> (r: bool)
    ensures
        r == is_manifest_of(p@, repo@),
{
    let ghost all = repo@.manifests;
    let mut i: usize = 0;
    while i < repo.manifests.len()
        invariant
            i <= repo.manifests@.len(),
            all == repo@.manifests,
            forall|j: int|
                0 <= j < i ==> !(same_path_spec(#[trigger] all[j].0, p@.path) || (
                p@.canonical is Some && all[j].1 == p@.canonical)),
        decreases repo.manifests@.len() - i,
    {
        proof {
            assert(all[i as int].0 == repo.manifests@[i as int].0@);
            assert(all[i as int].1 == opt_text(repo.manifests@[i as int].1));
        }
        let resolved_same = match &repo.manifests[i].1 {
            Some(a) => match &p.canonical {
                Some(b) => same_text(a.as_str(), b.as_str()),
                None => false,
            },
            None => false,
        };
        assert(resolved_same == (p@.canonical is Some && all[i as int].1 == p@.canonical));
        let as_given = same_path(repo.manifests[i].0.as_str(), p.path.as_str());
        if as_given || resolved_same {
            proof {
                assert(same_path_spec(all[i as int].0, p@.path) || resolved_same);
            }
            return true;
        }
        proof {
            assert(!same_path_spec(all[i as int].0, p@.path));
            assert forall|j: int| 0 <= j < i + 1 implies !(same_path_spec(
                #[trigger] all[j].0,
                p@.path,
            ) || (p@.canonical is Some && all[j].1 == p@.canonical)) by {
                if j < i {
                    assert(!same_path_spec(all[j].0, p@.path));
                }
            }
        }
        i = i + 1;
    }
    proof {
        assert(all.len() == repo.manifests@.len());
        if is_manifest_of(p@, repo@) {
            let k = choose|k: int|
                0 <= k < all.len() && (same_path_spec(#[trigger] all[k].0, p@.path) || (
                p@.canonical is Some && all[k].1 == p@.canonical));
            assert(!same_path_spec(all[k].0, p@.path));
        }
    }
    false
}

pub fn repo_for_compile_commands(p: &PathFacts, repos: &[RepoPlace]) -> (r: Option<usize>)
    ensures
        (match r {
            Some(i) => Some(i as int),
            None => None,
        }) == manifest_owner(p@, place_texts(repos@)),
        r matches Some(i) ==> i < repos@.len(),
{
    let ghost all = place_texts(repos@);
    let mut found: Option<usize> = None;
    let mut i: usize = 0;
    while i < repos.len()
        invariant
            i <= repos@.len(),
            all == place_texts(repos@),
            (match found {
                Some(k) => Some(k as int),
                None => None,
            }) == manifest_owner(p@, all.take(i as int)),
            found matches Some(k) ==> k < i,
        decreases repos@.len() - i,
    {
        proof {
            assert(all.take(i + 1).drop_last() =~= all.take(i as int));
            assert(all.take(i + 1).last() == repos@[i as int]@);
        }
        if found.is_none() && (looks_for_manifest(p, &repos[i]) || path_is_within_repo(
            p,
            &repos[i],
        )) {
            found = Some(i);
        }
        i = i + 1;
    }
    proof {
        assert(all.take(all.len() as int) =~= all);
    }
    found
}

// ---- what a change leads to ----

#[derive(Debug, Clone, Copy, PartialEq, Eq, Structural)]
pub enum ChangeType {
    Created,
    Modified,
    Deleted,
}

/// What is known about a change once its repository is known.
#[derive(Debug)]
pub struct ChangeContext {
    /// The repository's ignore rules name the file.
    pub git_ignored: bool,
    /// The repository's index is restricted by a filter.
    pub index_filtered: bool,
    pub index_filter: Vec<ScopeRule>,
}

/// What is done about a change.
#[derive(Debug)]
pub enum ChangeAction {
    /// A build manifest changed: restart the C and C++ servers of its repository, or of
    /// every one where it is unknown, and follow the change of the source set.
    ManifestChanged { manifest_repo: Option<usize> },
    /// Not the index's business.
    Skip,
    /// Outside the index filter; only the definition map follows.
    MapOnly { repo: usize, relative_path: String },
    /// Parse and index the file again. `dirty` tells that the tag database drifts.
    Reindex { repo: usize, relative_path: String, dirty: bool },
    /// Take the file out of the index. `dirty` tells that the tag database drifts.
    Remove { repo: usize, relative_path: String, dirty: bool },
}

/// The same, over texts.
pub enum ActionText {
    ManifestChanged { manifest_repo: Option<int> },
    Skip,
    MapOnly { repo: int, relative_path: Seq<char> },
    Reindex { repo: int, relative_path: Seq<char>, dirty: bool },
    Remove { repo: int, relative_path: Seq<char>, dirty: bool },
}

impl View for ChangeAction {
    type V = ActionText;

    open spec fn view(&self) -> ActionText {
        match *self {
            ChangeAction::ManifestChanged { manifest_repo } => ActionText::ManifestChanged {
                manifest_repo: match manifest_repo {
                    Some(i) => Some(i as int),
                    None => None,
                },
            },
            ChangeAction::Skip => ActionText::Skip,
            ChangeAction::MapOnly { repo, relative_path } => ActionText::MapOnly {
                repo: repo as int,
                relative_path: relative_path@,
            },
            ChangeAction::Reindex { repo, relative_path, dirty } => ActionText::Reindex {
                repo: repo as int,
                relative_path: relative_path@,
                dirty,
            },
            ChangeAction::Remove { repo, relative_path, dirty } => ActionText::Remove {
                repo: repo as int,
                relative_path: relative_path@,
                dirty,
            },
        }
    }
}

pub open spec fn is_manifest_name(path: Seq<char>) -> bool {
    file_name_spec(path) == Some("compile_commands.json"@)
}

pub open spec fn is_cxx_path(path: Seq<char>) -> bool {
    get_language_from_path_spec(path) == "c"@ || get_language_from_path_spec(path) == "cpp"@
}

/// What a change leads to. A manifest is looked at before the repository lookup, so that a
/// build directory outside the tree is noticed too. A file outside the index filter is
/// followed only where it was pulled in and is therefore in the file cache.
pub open spec fn change_action(
    p: PathText,
    change: ChangeType,
    repos: Seq<PlaceText>,
    git_ignored: bool,
    index_filtered: bool,
    rules: Seq<RuleText>,
    cached: bool,
) -> ActionText {
    if is_manifest_name(p.path) {
        ActionText::ManifestChanged { manifest_repo: manifest_owner(p, repos) }
    } else {
        match owner(p, repos) {
            None => ActionText::Skip,
            Some(i) => {
                let rel = relative_spec(p.path, repos[i].path);
                let dirty = is_cxx_path(p.path);
                if is_ignored(rel, p.path, git_ignored) || repos[i].canonical is None {
                    ActionText::Skip
                } else if index_filtered && !scope_names(rules, rel, p.path) && !cached {
                    ActionText::MapOnly { repo: i, relative_path: rel }
                } else if change == ChangeType::Deleted {
                    ActionText::Remove { repo: i, relative_path: rel, dirty }
                } else {
                    ActionText::Reindex { repo: i, relative_path: rel, dirty }
                }
            },
        }
    }
}

/// Decides what a change leads to. `cached` tells that the file is in the file cache, and so
/// already indexed.
pub fn route_change(
    p: &PathFacts,
    change: ChangeType,
    repos: &[RepoPlace],
    context: &ChangeContext,
    cached: bool,
) -> (r: ChangeAction)
    ensures
        r@ == change_action(
            p@,
            change,
            place_texts(repos@),
            context.git_ignored,
            context.index_filtered,
            rule_texts(context.index_filter@),
            cached,
        ),
{
    let manifest = match file_name(p.path.as_str()) {
        Some(name) => same_text(name.as_str(), "compile_commands.json"),
        None => false,
    };
    if manifest {
        return ChangeAction::ManifestChanged { manifest_repo: repo_for_compile_commands(p, repos) };
    }
    let i: usize = match owning_repo(p, repos) {
        None => {
            return ChangeAction::Skip;
        },
        Some(i) => i,
    };
    proof {
        assert(place_texts(repos@)[i as int] == repos@[i as int]@);
    }
    let rel = relative(p.path.as_str(), repos[i].path.as_str());
    if is_ignored_for_index(rel.as_str(), p.path.as_str(), context.git_ignored)
        || repos[i].canonical.is_none() {
        return ChangeAction::Skip;
    }
    if context.index_filtered && !scope_matches(
        context.index_filter.as_slice(),
        rel.as_str(),
        p.path.as_str(),
    ) && !cached {
        return ChangeAction::MapOnly { repo: i, relative_path: rel };
    }
    let language = get_language_from_path(p.path.as_str());
    let dirty = same_text(language, "c") || same_text(language, "cpp");
    if change == ChangeType::Deleted {
        ChangeAction::Remove { repo: i, relative_path: rel, dirty }
    } else {
        ChangeAction::Reindex { repo: i, relative_path: rel, dirty }
    }
}

// ---- the symbol table ----

/// The symbols of other files.
pub open spec fn without_file(symbols: Seq<SymbolText>, rel: Seq<char>) -> Seq<SymbolText> {
    symbols.filter(|s: SymbolText| s.file_path != rel)
}

/// The symbols of one file.
pub open spec fn of_file(symbols: Seq<SymbolText>, rel: Seq<char>) -> Seq<SymbolText> {
    symbols.filter(|s: SymbolText| s.file_path == rel)
}

/// Takes the symbols of a file out of the table.
pub fn remove_file_symbols(symbols: &mut Vec<Symbol>, rel: &str)
    ensures
        symbol_texts(final(symbols)@) == without_file(symbol_texts(old(symbols)@), rel@),
{
    let ghost pred = |s: SymbolText| s.file_path != rel@;
    let ghost all = symbol_texts(symbols@);
    let mut out: Vec<Symbol> = Vec::new();
    let mut i: usize = 0;
    proof {
        reveal(Seq::filter);
        assert(symbol_texts(out@) =~= all.take(0).filter(pred));
    }
    while i < symbols.len()
        invariant
            i <= symbols@.len(),
            all == symbol_texts(symbols@),
            all == symbol_texts(old(symbols)@),
            pred == (|s: SymbolText| s.file_path != rel@),
            symbol_texts(out@) == all.take(i as int).filter(pred),
        decreases symbols@.len() - i,
    {
        proof {
            reveal(Seq::filter);
            assert(all.take(i + 1).drop_last() =~= all.take(i as int));
            assert(all.take(i + 1).last() == symbols@[i as int]@);
        }
        if !same_text(symbols[i].file_path.as_str(), rel) {
            let s = symbols[i].copy();
            proof {
                assert(symbol_texts(out@.push(s)) =~= symbol_texts(out@).push(s@));
            }
            out.push(s);
        }
        i = i + 1;
    }
    proof {
        assert(all.take(all.len() as int) =~= all);
    }
    *symbols = out;
}

/// The symbols of one file.
pub fn file_symbols(symbols: &[Symbol], rel: &str) -> (r: Vec<Symbol>)
    ensures
        symbol_texts(r@) == of_file(symbol_texts(symbols@), rel@),
{
    let ghost pred = |s: SymbolText| s.file_path == rel@;
    let ghost all = symbol_texts(symbols@);
    let mut out: Vec<Symbol> = Vec::new();
    let mut i: usize = 0;
    proof {
        reveal(Seq::filter);
        assert(symbol_texts(out@) =~= all.take(0).filter(pred));
    }
    while i < symbols.len()
        invariant
            i <= symbols@.len(),
            all == symbol_texts(symbols@),
            pred == (|s: SymbolText| s.file_path == rel@),
            symbol_texts(out@) == all.take(i as int).filter(pred),
        decreases symbols@.len() - i,
    {
        proof {
            reveal(Seq::filter);
            assert(all.take(i + 1).drop_last() =~= all.take(i as int));
            assert(all.take(i + 1).last() == symbols@[i as int]@);
        }
        if same_text(symbols[i].file_path.as_str(), rel) {
            let s = symbols[i].copy();
            proof {
                assert(symbol_texts(out@.push(s)) =~= symbol_texts(out@).push(s@));
            }
            out.push(s);
        }
        i = i + 1;
    }
    proof {
        assert(all.take(all.len() as int) =~= all);
    }
    out
}

/// Puts new symbols for a file in place of those it had.
pub fn replace_file_symbols(symbols: &mut Vec<Symbol>, rel: &str, new_symbols: Vec<Symbol>)
    ensures
        symbol_texts(final(symbols)@) == without_file(symbol_texts(old(symbols)@), rel@)
            + symbol_texts(new_symbols@),
{
    remove_file_symbols(symbols, rel);
    let ghost first = symbols@;
    let mut tail = new_symbols;
    let ghost second = tail@;
    symbols.append(&mut tail);
    proof {
        assert(symbol_texts(first + second) =~= symbol_texts(first) + symbol_texts(second));
    }
}

/// The table after the tags of a file were folded into its symbols. Without tags nothing
/// changes.
pub open spec fn tagged_table(
    symbols: Seq<SymbolText>,
    rel: Seq<char>,
    tags: Seq<(Seq<char>, usize)>,
) -> Seq<SymbolText> {
    if tags.len() == 0 {
        symbols
    } else {
        without_file(symbols, rel) + merge_all(
            of_file(symbols, rel),
            tag_symbols(tags, rel),
            SourceSet::gtags(),
        )
    }
}

/// Folds the tags of a file into its symbols in the table.
pub fn merge_file_tags(symbols: &mut Vec<Symbol>, rel: &str, tags: &[(String, usize)])
    ensures
        symbol_texts(final(symbols)@) == tagged_table(
            symbol_texts(old(symbols)@),
            rel@,
            tag_texts(tags@),
        ),
{
    if tags.len() == 0 {
        return;
    }
    let mut own = file_symbols(symbols.as_slice(), rel);
    let mut incoming: Vec<Symbol> = Vec::new();
    let mut k: usize = 0;
    while k < tags.len()
        invariant
            k <= tags@.len(),
            incoming@.len() == k,
            forall|j: int|
                0 <= j < k ==> #[trigger] incoming@[j]@ == gtags_symbol_text(
                    tags@[j].0@,
                    rel@,
                    tags@[j].1,
                ),
        decreases tags@.len() - k,
    {
        incoming.push(gtags_symbol(tags[k].0.clone(), rel, tags[k].1));
        k = k + 1;
    }
    proof {
        assert(symbol_texts(incoming@) =~= tag_symbols(tag_texts(tags@), rel@));
    }
    merge_symbols(&mut own, incoming, SourceSet::gtags());
    replace_file_symbols(symbols, rel, own);
}

/// Re-indexing a file leaves the symbols of every other file as they were, in their order.
pub proof fn law_reindexing_touches_one_file(
    symbols: Seq<SymbolText>,
    rel: Seq<char>,
    new_symbols: Seq<SymbolText>,
    other: Seq<char>,
)
    requires
        other != rel,
        forall|i: int| 0 <= i < new_symbols.len() ==> #[trigger] new_symbols[i].file_path == rel,
    ensures
        of_file(without_file(symbols, rel) + new_symbols, other) == of_file(symbols, other),
{
    let pred = |s: SymbolText| s.file_path == other;
    Seq::filter_distributes_over_add(without_file(symbols, rel), new_symbols, pred);
    lemma_filter_none(new_symbols, pred);
    lemma_filter_of_filter(symbols, rel, other);
    assert(of_file(symbols, other) + Seq::<SymbolText>::empty() =~= of_file(symbols, other));
}

proof fn lemma_filter_none(s: Seq<SymbolText>, pred: spec_fn(SymbolText) -> bool)
    requires
        forall|i: int| 0 <= i < s.len() ==> !pred(#[trigger] s[i]),
    ensures
        s.filter(pred) == Seq::<SymbolText>::empty(),
    decreases s.len(),
{
    reveal(Seq::filter);
    if s.len() > 0 {
        assert forall|i: int| 0 <= i < s.drop_last().len() implies !pred(
            #[trigger] s.drop_last()[i],
        ) by {
            assert(s.drop_last()[i] == s[i]);
        }
        lemma_filter_none(s.drop_last(), pred);
        assert(!pred(s[s.len() - 1]));
    }
}

proof fn lemma_filter_of_filter(symbols: Seq<SymbolText>, rel: Seq<char>, other: Seq<char>)
    requires
        other != rel,
    ensures
        of_file(without_file(symbols, rel), other) == of_file(symbols, other),
    decreases symbols.len(),
{
    reveal(Seq::filter);
    let drop = |s: SymbolText| s.file_path != rel;
    let keep = |s: SymbolText| s.file_path == other;
    if symbols.len() > 0 {
        let front = symbols.drop_last();
        lemma_filter_of_filter(front, rel, other);
        if drop(symbols.last()) {
            let kept = front.filter(drop);
            assert(kept.push(symbols.last()).drop_last() =~= kept);
        }
    }
}

// ---- the account of a batch ----

/// The files of one repository to write to and to take from the store.
#[derive(Debug)]
pub struct RepoPending {
    pub upserts: Vec<String>,
    pub deletes: Vec<String>,
}

pub struct PendingText {
    pub upserts: Seq<Seq<char>>,
    pub deletes: Seq<Seq<char>>,
}

impl View for RepoPending {
    type V = PendingText;

    open spec fn view(&self) -> PendingText {
        PendingText { upserts: texts(self.upserts@), deletes: texts(self.deletes@) }
    }
}

/// The account of a batch of changes: how many files were touched, what is to be persisted
/// per repository, and whose tag database drifted.
#[derive(Debug)]
pub struct ChangeBatch {
    pub count: usize,
    pub pending: Vec<(String, RepoPending)>,
    pub dirty: Vec<(String, Vec<String>)>,
    /// What the definition maps have to follow, in order.
    pub edits: Vec<MapEdit>,
}

pub struct AccountText {
    pub count: usize,
    pub pending: Seq<(Seq<char>, PendingText)>,
    pub dirty: Seq<(Seq<char>, Seq<Seq<char>>)>,
    pub edits: Seq<MapEditText>,
}

pub open spec fn edit_texts(v: Seq<MapEdit>) -> Seq<MapEditText> {
    v.map_values(|e: MapEdit| e@)
}

/// The account of no change.
pub open spec fn no_account() -> AccountText {
    AccountText {
        count: 0,
        pending: Seq::empty(),
        dirty: Seq::empty(),
        edits: Seq::empty(),
    }
}

pub open spec fn with_edit(a: AccountText, edit: MapEditText) -> AccountText {
    if edit is Leave {
        a
    } else {
        AccountText { edits: a.edits.push(edit), ..a }
    }
}

pub open spec fn pending_texts(v: Seq<(String, RepoPending)>) -> Seq<(Seq<char>, PendingText)> {
    v.map_values(|e: (String, RepoPending)| (e.0@, e.1@))
}

pub open spec fn dirty_texts(v: Seq<(String, Vec<String>)>) -> Seq<(Seq<char>, Seq<Seq<char>>)> {
    v.map_values(|e: (String, Vec<String>)| (e.0@, texts(e.1@)))
}

impl View for ChangeBatch {
    type V = AccountText;

    open spec fn view(&self) -> AccountText {
        AccountText {
            count: self.count,
            pending: pending_texts(self.pending@),
            dirty: dirty_texts(self.dirty@),
            edits: edit_texts(self.edits@),
        }
    }
}

pub open spec fn no_pending() -> PendingText {
    PendingText { upserts: Seq::empty(), deletes: Seq::empty() }
}

pub open spec fn pending_of(pending: Seq<(Seq<char>, PendingText)>, key: Seq<char>) -> PendingText {
    match table_get(pending, key) {
        Some(p) => p,
        None => no_pending(),
    }
}

pub open spec fn with_upsert(a: AccountText, key: Seq<char>, file: Seq<char>) -> AccountText {
    let p = pending_of(a.pending, key);
    AccountText {
        count: capped_sum(a.count, 1),
        pending: table_put(a.pending, key, PendingText { upserts: p.upserts.push(file), ..p }),
        ..a
    }
}

pub open spec fn with_delete(a: AccountText, key: Seq<char>, file: Seq<char>) -> AccountText {
    let p = pending_of(a.pending, key);
    AccountText {
        count: capped_sum(a.count, 1),
        pending: table_put(a.pending, key, PendingText { deletes: p.deletes.push(file), ..p }),
        ..a
    }
}

pub open spec fn with_dirty(a: AccountText, repo: Seq<char>, file: Seq<char>) -> AccountText {
    let files = match table_get(a.dirty, repo) {
        Some(f) => f,
        None => Seq::empty(),
    };
    AccountText { dirty: table_put(a.dirty, repo, files.push(file)), ..a }
}

fn bump(count: usize) -> (r: usize)
    ensures
        r == capped_sum(count, 1),
{
    if count == usize::MAX {
        count
    } else {
        count + 1
    }
}

fn find_pending(pending: &Vec<(String, RepoPending)>, key: &str) -> (r: Option<usize>)
    ensures
        (match r {
            Some(i) => Some(i as int),
            None => None,
        }) == key_index(pending_texts(pending@), key@),
        r matches Some(i) ==> i < pending@.len(),
{
    let ghost all = pending_texts(pending@);
    let mut i: usize = 0;
    while i < pending.len()
        invariant
            i <= pending@.len(),
            all == pending_texts(pending@),
            forall|j: int| 0 <= j < i ==> #[trigger] all[j].0 != key@,
        decreases pending@.len() - i,
    {
        proof {
            assert(all[i as int].0 == pending@[i as int].0@);
        }
        if same_text(pending[i].0.as_str(), key) {
            proof {
                lemma_key_index_is(all, key@, i as int);
            }
            return Some(i);
        }
        i = i + 1;
    }
    proof {
        lemma_key_index(all, key@);
    }
    None
}

impl ChangeBatch {
    /// The account of no change.
    pub fn new() -> (r: Self)
        ensures
            r@ == no_account(),
    {
        let r = ChangeBatch {
            count: 0,
            pending: Vec::new(),
            dirty: Vec::new(),
            edits: Vec::new(),
        };
        proof {
            assert(r@.edits =~= Seq::<MapEditText>::empty());
            assert(r@.pending =~= Seq::<(Seq<char>, PendingText)>::empty());
            assert(r@.dirty =~= Seq::<(Seq<char>, Seq<Seq<char>>)>::empty());
        }
        r
    }

    fn put_pending(&mut self, key: &str, value: RepoPending)
        ensures
            final(self)@ == (AccountText {
                pending: table_put(old(self)@.pending, key@, value@),
                ..old(self)@
            }),
    {
        let ghost all = pending_texts(self.pending@);
        let name = key.to_owned();
        proof {
            lemma_key_index(all, key@);
        }
        match find_pending(&self.pending, key) {
            Some(i) => {
                proof {
                    assert(pending_texts(self.pending@.update(i as int, (name, value)))
                        =~= all.update(i as int, (key@, value@)));
                }
                self.pending.set(i, (name, value));
            },
            None => {
                proof {
                    assert(pending_texts(self.pending@.push((name, value))) =~= all.push(
                        (key@, value@),
                    ));
                }
                self.pending.push((name, value));
            },
        }
    }

    fn pending_for(&self, key: &str) -> (r: RepoPending)
        ensures
            r@ == pending_of(self@.pending, key@),
    {
        match find_pending(&self.pending, key) {
            Some(i) => {
                proof {
                    assert(pending_texts(self.pending@)[i as int].1 == self.pending@[i as int].1@);
                }
                RepoPending {
                    upserts: copy_texts(&self.pending[i].1.upserts),
                    deletes: copy_texts(&self.pending[i].1.deletes),
                }
            },
            None => {
                let r = RepoPending { upserts: Vec::new(), deletes: Vec::new() };
                proof {
                    assert(r@.upserts =~= Seq::<Seq<char>>::empty());
                    assert(r@.deletes =~= Seq::<Seq<char>>::empty());
                }
                r
            },
        }
    }

    /// Notes that a file was indexed again.
    pub fn record_upsert(&mut self, key: &str, file: &str)
        ensures
            final(self)@ == with_upsert(old(self)@, key@, file@),
    {
        let mut p = self.pending_for(key);
        let name = file.to_owned();
        proof {
            assert(texts(p.upserts@.push(name)) =~= texts(p.upserts@).push(file@));
        }
        p.upserts.push(name);
        self.put_pending(key, p);
        self.count = bump(self.count);
    }

    /// Notes that a file was taken out of the index.
    pub fn record_delete(&mut self, key: &str, file: &str)
        ensures
            final(self)@ == with_delete(old(self)@, key@, file@),
    {
        let mut p = self.pending_for(key);
        let name = file.to_owned();
        proof {
            assert(texts(p.deletes@.push(name)) =~= texts(p.deletes@).push(file@));
        }
        p.deletes.push(name);
        self.put_pending(key, p);
        self.count = bump(self.count);
    }

    /// Notes that a C or C++ source of a repository changed.
    pub fn mark_dirty(&mut self, repo: &str, file: &str)
        ensures
            final(self)@ == with_dirty(old(self)@, repo@, file@),
    {
        let ghost all = dirty_texts(self.dirty@);
        let ghost start = *self;
        let name = repo.to_owned();
        let entry = file.to_owned();
        let mut i: usize = 0;
        while i < self.dirty.len()
            invariant
                i <= self.dirty@.len(),
                *self == start,
                *old(self) == start,
                all == dirty_texts(self.dirty@),
                name@ == repo@,
                entry@ == file@,
                forall|j: int| 0 <= j < i ==> #[trigger] all[j].0 != repo@,
            decreases self.dirty@.len() - i,
        {
            proof {
                assert(all[i as int].0 == self.dirty@[i as int].0@);
            }
            if same_text(self.dirty[i].0.as_str(), repo) {
                let mut files = copy_texts(&self.dirty[i].1);
                proof {
                    lemma_key_index_is(all, repo@, i as int);
                    assert(all[i as int].1 == texts(self.dirty@[i as int].1@));
                    assert(texts(files@.push(entry)) =~= texts(files@).push(file@));
                }
                files.push(entry);
                proof {
                    assert(dirty_texts(self.dirty@.update(i as int, (name, files)))
                        =~= all.update(i as int, (repo@, texts(files@))));
                }
                self.dirty.set(i, (name, files));
                return;
            }
            i = i + 1;
        }
        let mut files: Vec<String> = Vec::new();
        files.push(entry);
        proof {
            lemma_key_index(all, repo@);
            assert(texts(files@) =~= Seq::<Seq<char>>::empty().push(file@));
            assert(dirty_texts(self.dirty@.push((name, files))) =~= all.push(
                (repo@, texts(files@)),
            ));
        }
        self.dirty.push((name, files));
    }

    /// Notes what a definition map has to follow.
    pub fn record_edit(&mut self, edit: MapEdit)
        ensures
            final(self)@ == with_edit(old(self)@, edit@),
    {
        let leave = matches!(edit, MapEdit::Leave);
        if !leave {
            proof {
                assert(edit_texts(self.edits@.push(edit)) =~= self@.edits.push(edit@));
            }
            self.edits.push(edit);
        }
    }

    /// Adds the files a manifest change brought in or took out. It persists on its own.
    pub fn record_manifest(&mut self, changed: usize)
        ensures
            final(self)@ == (AccountText {
                count: capped_sum(old(self)@.count, changed),
                ..old(self)@
            }),
    {
        self.count = if self.count > usize::MAX - changed {
            usize::MAX
        } else {
            self.count + changed
        };
    }
}

} // verus!
