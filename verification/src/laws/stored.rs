//! What is kept on disk, and what is read back.

use vstd::prelude::*;

use crate::batch::PriorText;
use crate::callgraph::KeyedEdgeText;
use crate::changes::of_file;
use crate::languages::{is_c_header_ext_spec, is_c_source_ext_spec};
use crate::laws::lists::{lemma_filter_members, lemma_map_members};
use crate::laws::texts::law_a_held_text_can_be_cut_out;
use crate::paths::{ext_or_empty, is_under, join_path_spec, relative_spec};
use crate::pullin::{first_once, parent_dir};
use crate::search::CachedText;
use crate::store::{
    facts_of, importers, mentions_module, prior_files, prior_index, prior_of, put_prior, records_of,
    resource_path_spec, saved_records, stored_edges, stored_record, symbol_paths, watch_dirs,
    written_after, FactsText, StoredText,
};
use crate::symbols::SymbolText;

verus! {

/// A file of the repository other than the one asked about is named as an importer exactly where
/// its text holds the module's name.
pub proof fn law_who_imports_a_module(
    cached: Seq<CachedText>,
    repo: Seq<char>,
    file: Seq<char>,
    module: Seq<char>,
    f: CachedText,
)
    requires
        cached.contains(f),
        is_under(f.path, repo),
        f.path != file,
        exists|before: Seq<char>, after: Seq<char>|
            f.content == #[trigger] (before + module + after),
    ensures
        importers(cached, repo, file, module).contains(relative_spec(f.path, repo)),
{
    law_a_held_text_can_be_cut_out(f.content, module);
    let pred = |g: CachedText| mentions_module(g, repo, file, module);
    lemma_filter_members(cached, pred, f);
    lemma_map_members(
        cached.filter(pred),
        |g: CachedText| relative_spec(g.path, repo),
        f,
    );
    assert(importers(cached, repo, file, module) =~= cached.filter(pred).map_values(
        |g: CachedText| relative_spec(g.path, repo),
    ));
}

/// Whether the text is what stands in a cached file of the repository, other than the one given,
/// that holds the module's name.
pub open spec fn imports_it(
    f: CachedText,
    repo: Seq<char>,
    file: Seq<char>,
    module: Seq<char>,
    named: Seq<char>,
) -> bool {
    &&& named == relative_spec(f.path, repo)
    &&& is_under(f.path, repo)
    &&& f.path != file
    &&& exists|before: Seq<char>, after: Seq<char>|
        f.content == #[trigger] (before + module + after)
}

/// Only such files are named.
pub proof fn law_only_importers_are_named(
    cached: Seq<CachedText>,
    repo: Seq<char>,
    file: Seq<char>,
    module: Seq<char>,
    k: int,
)
    requires
        0 <= k < importers(cached, repo, file, module).len(),
    ensures
        exists|i: int|
            0 <= i < cached.len() && imports_it(
                #[trigger] cached[i],
                repo,
                file,
                module,
                importers(cached, repo, file, module)[k],
            ),
{
    let pred = |g: CachedText| mentions_module(g, repo, file, module);
    let kept = cached.filter(pred);
    assert(importers(cached, repo, file, module) =~= kept.map_values(
        |g: CachedText| relative_spec(g.path, repo),
    ));
    assert(kept.contains(kept[k]));
    lemma_filter_members(cached, pred, kept[k]);
    let i = choose|i: int| 0 <= i < cached.len() && cached[i] == kept[k];
    law_a_held_text_can_be_cut_out(cached[i].content, module);
    assert(imports_it(cached[i], repo, file, module, importers(cached, repo, file, module)[k]));
}

/// A tag database is stale exactly where a C or C++ file was written after it.
pub proof fn law_what_makes_a_tag_database_stale(
    path: Seq<char>,
    modified: Option<u64>,
    database: u64,
)
    ensures
        written_after((path, modified), database) <==> {
            &&& is_c_source_ext_spec(ext_or_empty(path)) || is_c_header_ext_spec(ext_or_empty(path))
            &&& modified matches Some(time) && database < time
        },
{
}

/// A file resource names its path behind the scheme; what has no scheme is the path itself.
pub proof fn law_a_resource_names_a_path(path: Seq<char>)
    ensures
        resource_path_spec("file://"@ + path) == path,
        (forall|rest: Seq<char>| path != #[trigger] ("file://"@ + rest)) ==> resource_path_spec(path)
            == path,
{
    let scheme = "file://"@;
    assert((scheme + path).subrange(0, scheme.len() as int) =~= scheme);
    assert((scheme + path).skip(scheme.len() as int) =~= path);
    if scheme.is_prefix_of(path) {
        let rest = path.skip(scheme.len() as int);
        assert(path.subrange(0, scheme.len() as int) == scheme);
        assert(path =~= scheme + rest);
    }
}

proof fn lemma_prior_index(list: Seq<PriorText>, path: Seq<char>)
    ensures
        match prior_index(list, path) {
            Some(i) => 0 <= i < list.len() && list[i].relative_path == path,
            None => forall|i: int|
                0 <= i < list.len() ==> (#[trigger] list[i]).relative_path != path,
        },
    decreases list.len(),
{
    if list.len() > 0 {
        lemma_prior_index(list.drop_last(), path);
        if prior_index(list.drop_last(), path) is None {
            assert forall|i: int| 0 <= i < list.len() - 1 implies (
            #[trigger] list[i]).relative_path != path by {
                assert(list.drop_last()[i] == list[i]);
            }
        }
    }
}

/// A saved record that has symbols is read back as it was saved, unless a later record is of the
/// same file.
pub proof fn law_a_saved_file_is_read_back(records: Seq<StoredText>, i: int)
    requires
        0 <= i < records.len(),
        records[i].symbols.len() > 0,
        forall|j: int|
            i < j < records.len() && (#[trigger] records[j]).symbols.len() > 0
                ==> records[j].symbols[0].file_path != records[i].symbols[0].file_path,
    ensures
        prior_files(records).contains(
            (PriorText {
                relative_path: records[i].symbols[0].file_path,
                content_hash: records[i].content_hash,
                symbols: records[i].symbols,
            }),
        ),
    decreases records.len(),
{
    let item = PriorText {
        relative_path: records[i].symbols[0].file_path,
        content_hash: records[i].content_hash,
        symbols: records[i].symbols,
    };
    let front = prior_files(records.drop_last());
    let last = records.last();
    if last.symbols.len() > 0 {
        lemma_prior_index(front, prior_of(last).relative_path);
    }
    if i == records.len() - 1 {
        let all = put_prior(front, item);
        match prior_index(front, item.relative_path) {
            Some(k) => {
                assert(all[k] == item);
            },
            None => {
                assert(all[all.len() - 1] == item);
            },
        }
    } else {
        assert(records.drop_last()[i] == records[i]);
        assert forall|j: int|
            i < j < records.drop_last().len() && (
            #[trigger] records.drop_last()[j]).symbols.len()
                > 0 implies records.drop_last()[j].symbols[0].file_path
            != records.drop_last()[i].symbols[0].file_path by {
            assert(records.drop_last()[j] == records[j]);
        }
        law_a_saved_file_is_read_back(records.drop_last(), i);
        let k = choose|k: int| 0 <= k < front.len() && front[k] == item;
        if last.symbols.len() > 0 {
            assert(records[records.len() - 1] == last);
            let all = put_prior(front, prior_of(last));
            assert(all[k] == item);
        }
    }
}

/// The edges of every saved record are read back.
pub proof fn law_saved_edges_are_read_back(records: Seq<StoredText>, i: int, k: int)
    requires
        0 <= i < records.len(),
        0 <= k < records[i].call_edges.len(),
    ensures
        stored_edges(records).contains(records[i].call_edges[k]),
    decreases records.len(),
{
    let front = stored_edges(records.drop_last());
    let all = stored_edges(records);
    let edge = records[i].call_edges[k];
    if i == records.len() - 1 {
        assert(all[front.len() + k] == edge);
    } else {
        assert(records.drop_last()[i] == records[i]);
        law_saved_edges_are_read_back(records.drop_last(), i, k);
        let j = choose|j: int| 0 <= j < front.len() && front[j] == edge;
        assert(all[j] == edge);
    }
}

proof fn lemma_facts(facts: Seq<FactsText>, path: Seq<char>)
    ensures
        match facts_of(facts, path) {
            Some(f) => f.path == path && facts.contains(f),
            None => forall|i: int| 0 <= i < facts.len() ==> (#[trigger] facts[i]).path != path,
        },
    decreases facts.len(),
{
    if facts.len() > 0 && facts[0].path != path {
        let rest = facts.skip(1);
        lemma_facts(rest, path);
        match facts_of(rest, path) {
            Some(f) => {
                let k = choose|k: int| 0 <= k < rest.len() && rest[k] == f;
                assert(facts[k + 1] == f);
            },
            None => {
                assert forall|i: int| 0 <= i < facts.len() implies (#[trigger] facts[i]).path
                    != path by {
                    if i > 0 {
                        assert(rest[i - 1] == facts[i]);
                    }
                }
            },
        }
    } else if facts.len() > 0 {
        assert(facts.contains(facts[0]));
    }
}

proof fn lemma_once_keeps(s: Seq<Seq<char>>, x: Seq<char>)
    requires
        s.contains(x),
    ensures
        first_once(s).contains(x),
    decreases s.len(),
{
    let front = s.drop_last();
    let k = choose|k: int| 0 <= k < s.len() && s[k] == x;
    if front.contains(x) {
        lemma_once_keeps(front, x);
        let kept = first_once(front);
        let j = choose|j: int| 0 <= j < kept.len() && kept[j] == x;
        assert(first_once(s)[j] == x);
    } else {
        if k < front.len() {
            assert(front[k] == x);
        }
        assert(s.last() == x);
        let all = first_once(s);
        if !first_once(front).contains(x) {
            assert(all[all.len() - 1] == x);
        }
    }
}

proof fn lemma_record_is_made(
    files: Seq<Seq<char>>,
    repo: Seq<char>,
    symbols: Seq<SymbolText>,
    edges: Seq<KeyedEdgeText>,
    facts: Seq<FactsText>,
    file: Seq<char>,
)
    requires
        files.contains(file),
        facts_of(facts, join_path_spec(repo, file)) is Some,
    ensures
        records_of(files, repo, symbols, edges, facts).contains(
            stored_record(
                repo,
                file,
                symbols,
                edges,
                facts_of(facts, join_path_spec(repo, file))->0,
            ),
        ),
    decreases files.len(),
{
    let record = stored_record(
        repo,
        file,
        symbols,
        edges,
        facts_of(facts, join_path_spec(repo, file))->0,
    );
    let all = records_of(files, repo, symbols, edges, facts);
    let front = records_of(files.drop_last(), repo, symbols, edges, facts);
    let k = choose|k: int| 0 <= k < files.len() && files[k] == file;
    if k == files.len() - 1 {
        assert(all[all.len() - 1] == record);
    } else {
        assert(files.drop_last()[k] == file);
        lemma_record_is_made(files.drop_last(), repo, symbols, edges, facts, file);
        let j = choose|j: int| 0 <= j < front.len() && front[j] == record;
        assert(all[j] == record);
    }
}

/// Whether a record is of the file, and holds the symbol.
pub open spec fn keeps(r: StoredText, repo: Seq<char>, s: SymbolText) -> bool {
    &&& r.path == join_path_spec(repo, s.file_path)
    &&& r.symbols.contains(s)
}

/// Every symbol of a file that is there is saved, in a record of its file.
pub proof fn law_every_symbol_is_saved(
    repo: Seq<char>,
    symbols: Seq<SymbolText>,
    edges: Seq<KeyedEdgeText>,
    facts: Seq<FactsText>,
    i: int,
    k: int,
)
    requires
        0 <= i < symbols.len(),
        0 <= k < facts.len(),
        facts[k].path == join_path_spec(repo, symbols[i].file_path),
    ensures
        exists|j: int|
            0 <= j < saved_records(repo, symbols, edges, facts).len() && keeps(
                #[trigger] saved_records(repo, symbols, edges, facts)[j],
                repo,
                symbols[i],
            ),
{
    let file = symbols[i].file_path;
    let all = saved_records(repo, symbols, edges, facts);
    lemma_facts(facts, join_path_spec(repo, file));
    assert(symbols.contains(symbols[i]));
    lemma_map_members(symbols, |s: SymbolText| s.file_path, symbols[i]);
    lemma_once_keeps(symbols.map_values(|s: SymbolText| s.file_path), file);
    assert(symbol_paths(symbols).contains(file));
    lemma_record_is_made(symbol_paths(symbols), repo, symbols, edges, facts, file);
    let record = stored_record(
        repo,
        file,
        symbols,
        edges,
        facts_of(facts, join_path_spec(repo, file))->0,
    );
    lemma_filter_members(symbols, |s: SymbolText| s.file_path == file, symbols[i]);
    assert(of_file(symbols, file) =~= symbols.filter(|s: SymbolText| s.file_path == file));
    let j = choose|j: int| 0 <= j < all.len() && all[j] == record;
    assert(keeps(all[j], repo, symbols[i]));
}

/// A directory is watched for a manifest exactly where a path lies in it, it is there and no
/// repository covers it; none is watched twice.
pub proof fn law_which_directories_are_watched(
    paths: Seq<Seq<char>>,
    repos: Seq<Seq<char>>,
    existing: Seq<Seq<char>>,
    dir: Seq<char>,
)
    ensures
        watch_dirs(paths, repos, existing).contains(dir) <==> {
            &&& exists|i: int| 0 <= i < paths.len() && parent_dir(#[trigger] paths[i]) == Some(dir)
            &&& existing.contains(dir)
            &&& forall|i: int| 0 <= i < repos.len() ==> !is_under(dir, #[trigger] repos[i])
        },
        watch_dirs(paths, repos, existing).no_duplicates(),
    decreases paths.len(),
{
    if paths.len() > 0 {
        let front = watch_dirs(paths.drop_last(), repos, existing);
        let all = watch_dirs(paths, repos, existing);
        law_which_directories_are_watched(paths.drop_last(), repos, existing, dir);
        let last = parent_dir(paths.last());
        assert(paths[paths.len() - 1] == paths.last());
        assert forall|i: int| 0 <= i < paths.drop_last().len() implies #[trigger] paths[i]
            == paths.drop_last()[i] by {}
        if all != front {
            let d = last->0;
            assert(all == front.push(d));
            assert(all[all.len() - 1] == d);
            if front.contains(dir) {
                let k = choose|k: int| 0 <= k < front.len() && front[k] == dir;
                assert(all[k] == dir);
            }
            assert(all.contains(dir) ==> dir == d || front.contains(dir)) by {
                if all.contains(dir) {
                    let k = choose|k: int| 0 <= k < all.len() && all[k] == dir;
                    if k < front.len() {
                        assert(front[k] == dir);
                    }
                }
            }
        }
        if exists|i: int| 0 <= i < paths.len() && parent_dir(#[trigger] paths[i]) == Some(dir) {
            let i = choose|i: int|
                0 <= i < paths.len() && parent_dir(#[trigger] paths[i]) == Some(dir);
            if i < paths.len() - 1 {
                assert(parent_dir(paths.drop_last()[i]) == Some(dir));
            }
        }
        if exists|i: int|
            0 <= i < paths.drop_last().len() && parent_dir(#[trigger] paths.drop_last()[i]) == Some(
                dir,
            ) {
            let i = choose|i: int|
                0 <= i < paths.drop_last().len() && parent_dir(#[trigger] paths.drop_last()[i])
                    == Some(dir);
            assert(parent_dir(paths[i]) == Some(dir));
        }
    }
}

} // verus!
