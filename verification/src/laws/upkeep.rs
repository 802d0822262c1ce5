//! How an index and its map are kept up.

use vstd::prelude::*;

use crate::callgraph::{hierarchy_edges, is_cxx_file, tag_edges, KeyedEdgeText};
use crate::callpass::{
    server_batches, tag_batches, with_batch, AskedText, EdgeBatchText, TagAnswerText,
};
use crate::changes::ChangeType;
use crate::definitions::{
    defines_any, map_edit, with_mapped, without_mapped, BuildText, FoundText, MapEditText, MapText,
    MappedText,
};
use crate::freshness::{diff_base, head_hash_spec};
use crate::languages::{get_language_from_path_spec, get_language_id_spec};
use crate::laws::lists::{lemma_filter_members, lemma_map_members, lemma_map_sources};
use crate::lookup::{kinds_of, submodule_of, submodules_of};
use crate::retag::{outdates, TouchedText};
use crate::store::written_after;
use crate::symbols::{SourceSet, SymbolKind, SymbolText};
use crate::text::{
    after_last_dot, in_class, is_space_spec, trim_end_class, trim_spec, trim_start_class,
};

verus! {

// ---- languages ----

/// Which files are of C's family, by what stands behind their last dot.
pub proof fn law_which_files_are_of_the_c_family(path: Seq<char>)
    ensures
        ({
            let e = after_last_dot(path);
            &&& e == "c"@ || e == "h"@ || e == "cpp"@ || e == "hpp"@ || e == "cc"@ || e == "cxx"@
                || e == "hxx"@ || e == "hh"@ || e == "c++"@ || e == "h++"@ || e == "C"@ || e
                == "H"@ ==> is_cxx_file(path)
            &&& e == "rs"@ || e == "py"@ || e == "js"@ || e == "jsx"@ || e == "ts"@ || e == "tsx"@
                || e == "go"@ || e == "java"@ || e == "cs"@ ==> !is_cxx_file(path)
            &&& e == "rs"@ ==> get_language_from_path_spec(path) == "rust"@
                && get_language_id_spec(path) == "rust"@
            &&& e == "py"@ ==> get_language_from_path_spec(path) == "python"@
                && get_language_id_spec(path) == "python"@
            &&& e == "c"@ ==> get_language_from_path_spec(path) == "c"@ && get_language_id_spec(
                path,
            ) == "c"@
        }),
{
    reveal_strlit("c");
    reveal_strlit("h");
    reveal_strlit("cpp");
    reveal_strlit("hpp");
    reveal_strlit("cc");
    reveal_strlit("cxx");
    reveal_strlit("hxx");
    reveal_strlit("hh");
    reveal_strlit("c++");
    reveal_strlit("h++");
    reveal_strlit("C");
    reveal_strlit("H");
    reveal_strlit("C++");
    reveal_strlit("rs");
    reveal_strlit("py");
    reveal_strlit("js");
    reveal_strlit("jsx");
    reveal_strlit("ts");
    reveal_strlit("tsx");
    reveal_strlit("go");
    reveal_strlit("java");
    reveal_strlit("cs");
    reveal_strlit("rust");
    reveal_strlit("python");
    reveal_strlit("javascript");
    reveal_strlit("typescript");
    reveal_strlit("csharp");
    assert("c"@[0] == 'c' && "h"@[0] == 'h' && "C"@[0] == 'C' && "H"@[0] == 'H');
    assert("cc"@[0] == 'c' && "cc"@[1] == 'c' && "hh"@[0] == 'h' && "hh"@[1] == 'h');
    assert("cs"@[0] == 'c' && "cs"@[1] == 's' && "js"@[0] == 'j' && "js"@[1] == 's');
    assert("ts"@[0] == 't' && "ts"@[1] == 's' && "go"@[0] == 'g' && "go"@[1] == 'o');
    assert("py"@[0] == 'p' && "py"@[1] == 'y' && "rs"@[0] == 'r' && "rs"@[1] == 's');
    assert("cpp"@[0] == 'c' && "cpp"@[1] == 'p' && "hpp"@[0] == 'h' && "hpp"@[1] == 'p');
    assert("cxx"@[0] == 'c' && "cxx"@[1] == 'x' && "hxx"@[0] == 'h' && "hxx"@[1] == 'x');
    assert("c++"@[0] == 'c' && "c++"@[1] == '+' && "h++"@[0] == 'h' && "h++"@[1] == '+');
    assert("jsx"@[0] == 'j' && "jsx"@[1] == 's' && "tsx"@[0] == 't' && "tsx"@[1] == 's');
    assert("c"@.len() == 1 && "cpp"@.len() == 3 && "C++"@.len() == 3);
    assert("C++"@[0] == 'C');
    assert("rust"@.len() == 4 && "python"@.len() == 6 && "csharp"@.len() == 6 && "java"@.len() == 4);
    assert("javascript"@.len() == 10 && "typescript"@.len() == 10);
}

// ---- manifests and tags ----

/// A manifest that did not change keeps the commit it was made at; a new one is of the commit
/// that is checked out; without a manifest there is none.
pub proof fn law_which_commit_a_manifest_is_of(
    hash: Seq<char>,
    prior_hash: Option<Seq<char>>,
    base: Seq<char>,
    head: Option<Seq<char>>,
)
    ensures
        diff_base(None, Some((prior_hash, Some(base))), head) is None,
        diff_base(Some(hash), None, head) == head,
        prior_hash == Some(hash) ==> diff_base(Some(hash), Some((prior_hash, Some(base))), head)
            == Some(base),
        prior_hash != Some(hash) ==> diff_base(Some(hash), Some((prior_hash, Some(base))), head)
            == head,
{
}

/// The commit that is checked out is read without the white space around it.
pub proof fn law_the_commit_is_read(output: Seq<char>)
    ensures
        head_hash_spec(output) is Some <==> trim_spec(output).len() > 0,
        head_hash_spec(output) matches Some(hash) ==> hash == trim_spec(output),
{
}

/// A tag database is behind a source that is gone, or that was written later.
pub proof fn law_what_leaves_the_tags_behind(database: Option<u64>, s: TouchedText)
    ensures
        !s.exists ==> outdates(database, s),
        s.exists && database is None ==> !outdates(database, s),
        s.exists && database is Some ==> outdates(database, s) == written_after(
            (s.path, s.modified),
            database->0,
        ),
{
}

// ---- edges ----

proof fn lemma_batch_front(
    front: Seq<EdgeBatchText>,
    source: SourceSet,
    edges: Seq<KeyedEdgeText>,
    b: EdgeBatchText,
)
    requires
        front.contains(b),
    ensures
        with_batch(front, source, edges).contains(b),
{
    let k = choose|k: int| 0 <= k < front.len() && front[k] == b;
    assert(with_batch(front, source, edges)[k] == b);
}

/// The edges that a server gave for a file are handed on, under its name.
pub proof fn law_every_server_answer_is_handed_on(asked: Seq<AskedText>, i: int)
    requires
        0 <= i < asked.len(),
        hierarchy_edges(
            asked[i].group.file_path,
            asked[i].group.functions,
            asked[i].answers,
            asked[i].backend,
        ).len() > 0,
    ensures
        server_batches(asked).contains(
            (EdgeBatchText {
                source: asked[i].backend,
                edges: hierarchy_edges(
                    asked[i].group.file_path,
                    asked[i].group.functions,
                    asked[i].answers,
                    asked[i].backend,
                ),
            }),
        ),
    decreases asked.len(),
{
    let a = asked.last();
    let front = server_batches(asked.drop_last());
    let edges = hierarchy_edges(a.group.file_path, a.group.functions, a.answers, a.backend);
    let b = EdgeBatchText {
        source: asked[i].backend,
        edges: hierarchy_edges(
            asked[i].group.file_path,
            asked[i].group.functions,
            asked[i].answers,
            asked[i].backend,
        ),
    };
    if i == asked.len() - 1 {
        let all = server_batches(asked);
        assert(all[all.len() - 1] == b);
    } else {
        assert(asked.drop_last()[i] == asked[i]);
        law_every_server_answer_is_handed_on(asked.drop_last(), i);
        lemma_batch_front(front, a.backend, edges, b);
    }
}

/// So are the edges that the tag database gave for a function, behind them.
pub proof fn law_every_tag_answer_is_handed_on(
    front: Seq<EdgeBatchText>,
    tags: Seq<TagAnswerText>,
    symbols: Seq<SymbolText>,
    i: int,
)
    requires
        0 <= i < tags.len(),
        tag_edges(tags[i].callee, tags[i].references, symbols).len() > 0,
    ensures
        tag_batches(front, tags, symbols).contains(
            (EdgeBatchText {
                source: SourceSet::gtags(),
                edges: tag_edges(tags[i].callee, tags[i].references, symbols),
            }),
        ),
    decreases tags.len(),
{
    let before = tag_batches(front, tags.drop_last(), symbols);
    let edges = tag_edges(tags.last().callee, tags.last().references, symbols);
    let b = EdgeBatchText {
        source: SourceSet::gtags(),
        edges: tag_edges(tags[i].callee, tags[i].references, symbols),
    };
    if i == tags.len() - 1 {
        let all = tag_batches(front, tags, symbols);
        assert(all[all.len() - 1] == b);
    } else {
        assert(tags.drop_last()[i] == tags[i]);
        law_every_tag_answer_is_handed_on(front, tags.drop_last(), symbols, i);
        lemma_batch_front(before, SourceSet::gtags(), edges, b);
    }
}

// ---- the definition map ----

/// A committed map names exactly the files that define one of the names.
pub proof fn law_which_files_the_map_names(map: MapText, wanted: Seq<Seq<char>>, rel: Seq<char>)
    ensures
        map.defining(wanted).contains(rel) <==> map.committed && exists|k: int|
            0 <= k < map.files.len() && (#[trigger] map.files[k]).relative_path == rel
                && defines_any(map.files[k], wanted),
        !map.committed ==> map.defining(wanted).len() == 0,
{
    let pred = |f: MappedText| defines_any(f, wanted);
    let get = |f: MappedText| f.relative_path;
    let kept = map.files.filter(pred);
    if map.committed {
        assert(map.defining(wanted) =~= kept.map_values(get));
        lemma_map_sources(kept, get, rel);
        if kept.map_values(get).contains(rel) {
            let k = choose|k: int| 0 <= k < kept.len() && get(#[trigger] kept[k]) == rel;
            assert(kept.contains(kept[k]));
            lemma_filter_members(map.files, pred, kept[k]);
            let i = choose|i: int| 0 <= i < map.files.len() && map.files[i] == kept[k];
            assert(map.files[i].relative_path == rel);
        }
        if exists|k: int|
            0 <= k < map.files.len() && (#[trigger] map.files[k]).relative_path == rel
                && defines_any(map.files[k], wanted) {
            let k = choose|k: int|
                0 <= k < map.files.len() && (#[trigger] map.files[k]).relative_path == rel
                    && defines_any(map.files[k], wanted);
            assert(map.files.contains(map.files[k]));
            lemma_filter_members(map.files, pred, map.files[k]);
            lemma_map_members(kept, get, map.files[k]);
        }
    }
}

/// A deleted file leaves the map; one that was read anew replaces what the map said of it; one
/// that could not be read leaves it alone.
pub proof fn law_how_a_change_edits_the_map(
    repo: Seq<char>,
    rel: Seq<char>,
    change: ChangeType,
    found: Option<FoundText>,
)
    ensures
        change == ChangeType::Deleted ==> map_edit(repo, rel, change, found)
            == (MapEditText::Remove { repo, relative_path: rel }),
        change != ChangeType::Deleted && found is Some ==> map_edit(repo, rel, change, found)
            == (MapEditText::Replace { repo, relative_path: rel, found: found->0 }),
        change != ChangeType::Deleted && found is None ==> map_edit(repo, rel, change, found)
            == MapEditText::Leave,
{
}

proof fn lemma_without_mapped(files: Seq<MappedText>, rel: Seq<char>, f: MappedText)
    ensures
        without_mapped(files, rel).contains(f) <==> files.contains(f) && f.relative_path != rel,
    decreases files.len(),
{
    reveal(Seq::filter);
    if files.len() > 0 {
        let before = files.drop_last();
        let front = without_mapped(before, rel);
        let all = without_mapped(files, rel);
        lemma_without_mapped(before, rel, f);
        assert(files[files.len() - 1] == files.last());
        if before.contains(f) {
            let k = choose|k: int| 0 <= k < before.len() && before[k] == f;
            assert(files[k] == f);
        }
        if files.contains(f) && !before.contains(f) {
            let k = choose|k: int| 0 <= k < files.len() && files[k] == f;
            if k < before.len() {
                assert(before[k] == f);
            }
        }
        if files.last().relative_path != rel {
            assert(all == front.push(files.last()));
            assert(all[all.len() - 1] == files.last());
            if front.contains(f) {
                let k = choose|k: int| 0 <= k < front.len() && front[k] == f;
                assert(all[k] == f);
            }
            if all.contains(f) && !front.contains(f) {
                let k = choose|k: int| 0 <= k < all.len() && all[k] == f;
                if k < front.len() {
                    assert(front[k] == f);
                }
            }
        } else {
            assert(all == front);
        }
    }
}

/// An edit of a committed map touches what is said of its file, and nothing else.
pub proof fn law_an_edit_touches_one_file(
    map: MapText,
    repo: Seq<char>,
    rel: Seq<char>,
    found: FoundText,
    f: MappedText,
)
    requires
        map.committed,
    ensures
        map.edited(MapEditText::Remove { repo, relative_path: rel }).files.contains(f)
            <==> map.files.contains(f) && f.relative_path != rel,
        map.edited(MapEditText::Replace { repo, relative_path: rel, found }).files.contains(f) <==> (
        map.files.contains(f) && f.relative_path != rel) || f == (MappedText {
            relative_path: rel,
            found,
        }),
        map.edited(MapEditText::Leave) == map,
{
    lemma_without_mapped(map.files, rel, f);
    let kept = without_mapped(map.files, rel);
    let item = MappedText { relative_path: rel, found };
    let all = kept.push(item);
    assert(with_mapped(map.files, rel, found) == all);
    assert(all[all.len() - 1] == item);
    if kept.contains(f) {
        let k = choose|k: int| 0 <= k < kept.len() && kept[k] == f;
        assert(all[k] == f);
    }
    if all.contains(f) && !kept.contains(f) {
        let k = choose|k: int| 0 <= k < all.len() && all[k] == f;
        if k < kept.len() {
            assert(kept[k] == f);
        }
    }
}

/// A build opens the map first, then takes out what is gone, then reads the files, and only then
/// commits; a step that fails ends it without a commit.
pub proof fn law_the_order_of_a_build(b: BuildText)
    requires
        b.wf(),
        b.outcome is None,
    ensures
        b.action() is Commit ==> b.opened && b.retracted == b.removed.len() && b.parsed
            == b.files.len(),
        b.action() is Parse ==> b.opened && b.retracted == b.removed.len(),
        b.action() is Retract ==> b.opened,
        !b.opened ==> b.action() is Open,
        b.after(false).outcome == Some(false),
        b.after(true).outcome == Some(true) <==> b.action() is Commit,
{
}

// ---- symbols by kind, submodules ----

/// A kind has its group exactly where some symbol is of it, and no kind has two.
pub proof fn law_which_kinds_have_a_group(list: Seq<SymbolText>, kind: SymbolKind)
    ensures
        kinds_of(list).contains(kind) <==> exists|i: int|
            0 <= i < list.len() && (#[trigger] list[i]).kind == kind,
        kinds_of(list).no_duplicates(),
    decreases list.len(),
{
    if list.len() > 0 {
        let before = list.drop_last();
        let front = kinds_of(before);
        let all = kinds_of(list);
        law_which_kinds_have_a_group(before, kind);
        assert(list[list.len() - 1] == list.last());
        if exists|i: int| 0 <= i < before.len() && (#[trigger] before[i]).kind == kind {
            let i = choose|i: int| 0 <= i < before.len() && (#[trigger] before[i]).kind == kind;
            assert(list[i].kind == kind);
        }
        if exists|i: int| 0 <= i < list.len() && (#[trigger] list[i]).kind == kind {
            let i = choose|i: int| 0 <= i < list.len() && (#[trigger] list[i]).kind == kind;
            if i < before.len() {
                assert(before[i].kind == kind);
            }
        }
        if all != front {
            assert(all == front.push(list.last().kind));
            assert(all[all.len() - 1] == list.last().kind);
            if front.contains(kind) {
                let k = choose|k: int| 0 <= k < front.len() && front[k] == kind;
                assert(all[k] == kind);
            }
            if all.contains(kind) && !front.contains(kind) {
                let k = choose|k: int| 0 <= k < all.len() && all[k] == kind;
                if k < front.len() {
                    assert(front[k] == kind);
                }
            }
        }
    }
}

/// A line that assigns a path names a submodule.
pub proof fn law_a_path_line_names_a_submodule(path: Seq<char>)
    requires
        path.len() > 0,
        !is_space_spec(path[0]),
        !is_space_spec(path.last()),
    ensures
        submodule_of("path = "@ + path) == Some(path),
{
    reveal_strlit("path = ");
    reveal_strlit("path");
    reveal_strlit("=");
    let line = "path = "@ + path;
    let none = Seq::<char>::empty();
    assert(line[0] == 'p' && line.last() == path.last());
    assert(!in_class(line[0], none, true) && !in_class(line.last(), none, true));
    assert(trim_spec(line) == line);
    assert(line.subrange(0, 4) =~= "path"@);
    let rest = line.skip(4);
    let after = rest.skip(1);
    assert(rest[0] == ' ' && after[0] == '=');
    reveal_with_fuel(trim_start_class, 3);
    assert(in_class(' ', none, true));
    assert(!in_class('=', none, true));
    assert(trim_start_class(rest, none, true) == after);
    assert(after.subrange(0, 1) =~= "="@);
    let value = after.skip(1);
    assert(value[0] == ' ');
    assert(value.skip(1) =~= path);
    assert(!in_class(path[0], none, true) && !in_class(path.last(), none, true));
    assert(trim_start_class(value, none, true) == path);
    assert(trim_end_class(path, none, true) == path);
    assert(trim_spec(value) == path);
}

/// Every submodule is named.
pub proof fn law_every_submodule_is_named(lines: Seq<Seq<char>>, i: int)
    requires
        0 <= i < lines.len(),
        submodule_of(lines[i]) is Some,
    ensures
        submodules_of(lines).contains(submodule_of(lines[i])->0),
    decreases lines.len(),
{
    let front = submodules_of(lines.drop_last());
    let all = submodules_of(lines);
    let p = submodule_of(lines[i])->0;
    if i == lines.len() - 1 {
        assert(all[all.len() - 1] == p);
    } else {
        assert(lines.drop_last()[i] == lines[i]);
        law_every_submodule_is_named(lines.drop_last(), i);
        let k = choose|k: int| 0 <= k < front.len() && front[k] == p;
        assert(all[k] == p);
    }
}

} // verus!
