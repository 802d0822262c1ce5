//! What a compile manifest says, and what follows from it.

use vstd::prelude::*;

use crate::delta::dropped_sources;
use crate::imports::{imports_of, ImportText, ImportType};
use crate::indexing::{is_c_header, is_c_source};
use crate::laws::lists::{
    lemma_dedup_members, lemma_filter_members, lemma_map_members, lemma_map_sources,
    lemma_sorted_members,
};
use crate::manifest::{
    base_hit, dir_flag, entry_args, file_candidates, first_resolved, header_dirs, header_target,
    listed_sources, string_args, CommandText,
};
use crate::order::{sort_texts, text_order};
use crate::paths::{
    is_absolute_spec, join_path_spec, names_path, normalize_spec, path_order, relative_spec,
    same_path, strip_base,
};
use crate::pullin::{
    all_header_hits, base_paths, each_path_once, files_to_parse, files_to_remove, header_hits,
    indexed_sources, is_added, is_dropped, is_pulled, is_unchanged, parent_dir, pulled_files,
    stamp_of, unresolved_names, FileStamp,
};
use crate::scope::{scope_names, RuleText};
use crate::symbols::SymbolText;
use crate::text::{lines_of, words_of};

verus! {

// ---- entries ----

/// Whether an argument announces that a directory follows.
pub open spec fn announces(arg: Seq<char>) -> bool {
    arg == "-I"@ || arg == "-isystem"@ || arg == "-iquote"@
}

/// The flag at the front of an argument, with the directory behind it.
proof fn lemma_flag(flag: Seq<char>, dir: Seq<char>)
    requires
        announces(flag),
    ensures
        dir_flag(flag + dir) == Some(flag),
{
    reveal_strlit("-I");
    reveal_strlit("-isystem");
    reveal_strlit("-iquote");
    let arg = flag + dir;
    assert(arg.subrange(0, flag.len() as int) =~= flag);
    if "-I"@.is_prefix_of(arg) {
        assert(arg.subrange(0, 2)[1] == 'I');
        assert(arg[1] == flag[1]);
    }
    if "-isystem"@.is_prefix_of(arg) {
        assert(arg.subrange(0, 8)[2] == 's');
        assert(flag.len() == 2 || arg[2] == flag[2]);
    }
}

/// A directory is looked in for headers where it stands behind its flag, in the same argument or
/// as the next one.
pub proof fn law_header_directories_are_found(
    args: Seq<Seq<char>>,
    awaiting: bool,
    i: int,
    flag: Seq<char>,
    dir: Seq<char>,
)
    requires
        announces(flag),
        dir.len() > 0,
        0 <= i < args.len(),
        i == 0 ==> !awaiting,
        i > 0 ==> !announces(args[i - 1]),
        args[i] == flag + dir || (args[i] == flag && i + 1 < args.len() && args[i + 1] == dir),
    ensures
        header_dirs(args, awaiting).contains(dir),
    decreases args.len(),
{
    let rest = args.skip(1);
    let all = header_dirs(args, awaiting);
    if i == 0 {
        lemma_flag(flag, dir);
        lemma_flag(flag, Seq::empty());
        assert(flag + Seq::<char>::empty() =~= flag);
        if args[0] == flag {
            let more = header_dirs(rest, true);
            assert(rest[0] == dir);
            assert(more[0] == dir);
        } else {
            assert((flag + dir).skip(flag.len() as int) =~= dir);
            assert(all[0] == dir);
        }
    } else {
        assert(rest[i - 1] == args[i]);
        if i + 1 < args.len() {
            assert(rest[i] == args[i + 1]);
        }
        if i > 1 {
            assert(rest[i - 2] == args[i - 1]);
        }
        let flagged = !awaiting && dir_flag(args[0]) is Some && args[0] == dir_flag(args[0])->0;
        law_header_directories_are_found(rest, flagged, i - 1, flag, dir);
        let more = header_dirs(rest, flagged);
        let k = choose|k: int| 0 <= k < more.len() && more[k] == dir;
        if all.len() > more.len() {
            assert(all[k + 1] == dir);
        } else {
            assert(all[k] == dir);
        }
    }
}

/// The arguments of an entry are its list, where it has one, and else the words of its command.
pub proof fn law_the_arguments_of_an_entry(e: CommandText, i: int)
    ensures
        e.arguments is None && e.command is Some ==> entry_args(e) == words_of(e.command->0),
        e.arguments is Some && 0 <= i < e.arguments->0.len() && e.arguments->0[i] is Some
            ==> entry_args(e).contains(e.arguments->0[i]->0),
{
    if e.arguments is Some && 0 <= i < e.arguments->0.len() && e.arguments->0[i] is Some {
        lemma_string_is_kept(e.arguments->0, i);
    }
}

proof fn lemma_string_is_kept(list: Seq<Option<Seq<char>>>, i: int)
    requires
        0 <= i < list.len(),
        list[i] is Some,
    ensures
        string_args(list).contains(list[i]->0),
    decreases list.len(),
{
    let front = string_args(list.drop_last());
    let all = string_args(list);
    if i == list.len() - 1 {
        assert(all[all.len() - 1] == list[i]->0);
    } else {
        assert(list.drop_last()[i] == list[i]);
        lemma_string_is_kept(list.drop_last(), i);
        let k = choose|k: int| 0 <= k < front.len() && front[k] == list[i]->0;
        assert(all[k] == list[i]->0);
    }
}

/// A source is looked for where it says, and else below the entry's directory, then beside the
/// manifest.
pub proof fn law_where_a_source_is_looked_for(file: Seq<char>, dir: Seq<char>, parent: Seq<char>)
    ensures
        is_absolute_spec(file) ==> file_candidates(file, Some(dir), Some(parent)) == seq![file],
        !is_absolute_spec(file) ==> file_candidates(file, Some(dir), Some(parent)) == seq![
            join_path_spec(dir, file),
            join_path_spec(parent, file),
        ],
        !is_absolute_spec(file) ==> file_candidates(file, None, Some(parent)) == seq![
            join_path_spec(parent, file),
        ],
{
    assert(seq![join_path_spec(dir, file)] + seq![join_path_spec(parent, file)] =~= seq![
        join_path_spec(dir, file),
        join_path_spec(parent, file),
    ]);
    assert(Seq::<Seq<char>>::empty() + seq![join_path_spec(parent, file)] =~= seq![
        join_path_spec(parent, file),
    ]);
}

/// The first place where a source is counts.
pub proof fn law_the_first_place_counts(resolved: Seq<Option<Seq<char>>>, i: int)
    requires
        0 <= i < resolved.len(),
        resolved[i] is Some,
        forall|j: int| 0 <= j < i ==> #[trigger] resolved[j] is None,
    ensures
        first_resolved(resolved) == resolved[i],
    decreases resolved.len(),
{
    if i > 0 {
        let rest = resolved.skip(1);
        assert(resolved[0] is None);
        assert(rest[i - 1] == resolved[i]);
        assert forall|j: int| 0 <= j < i - 1 implies #[trigger] rest[j] is None by {
            assert(rest[j] == resolved[j + 1]);
        }
        law_the_first_place_counts(rest, i - 1);
    }
}

/// Every source that is there is listed, once, and nothing else.
pub proof fn law_every_source_is_listed(files: Seq<Option<Seq<char>>>, path: Seq<char>)
    ensures
        listed_sources(files).contains(path) <==> files.contains(Some(path)),
        listed_sources(files).no_duplicates(),
    decreases files.len(),
{
    if files.len() > 0 {
        let before = files.drop_last();
        let front = listed_sources(before);
        let all = listed_sources(files);
        law_every_source_is_listed(before, path);
        assert(files[files.len() - 1] == files.last());
        if before.contains(Some(path)) {
            let k = choose|k: int| 0 <= k < before.len() && before[k] == Some(path);
            assert(files[k] == Some(path));
        }
        if files.contains(Some(path)) && !before.contains(Some(path)) {
            let k = choose|k: int| 0 <= k < files.len() && files[k] == Some(path);
            if k < before.len() {
                assert(before[k] == Some(path));
            }
        }
        if all != front {
            let p = files.last()->0;
            assert(all == front.push(p));
            assert(all[all.len() - 1] == p);
            if front.contains(path) {
                let k = choose|k: int| 0 <= k < front.len() && front[k] == path;
                assert(all[k] == path);
            }
            if all.contains(path) && !front.contains(path) {
                let k = choose|k: int| 0 <= k < all.len() && all[k] == path;
                if k < front.len() {
                    assert(front[k] == path);
                }
            }
        }
    }
}

// ---- headers ----

proof fn lemma_base_hit(
    target: Seq<char>,
    bases: Seq<Seq<char>>,
    repo_files: Seq<Seq<char>>,
    i: int,
)
    requires
        0 <= i < bases.len(),
        names_path(repo_files, normalize_spec(join_path_spec(bases[i], target))),
        forall|j: int|
            0 <= j < i ==> !names_path(
                repo_files,
                normalize_spec(join_path_spec(#[trigger] bases[j], target)),
            ),
    ensures
        base_hit(target, bases, repo_files) == Some(
            normalize_spec(join_path_spec(bases[i], target)),
        ),
    decreases bases.len(),
{
    if i > 0 {
        let rest = bases.skip(1);
        assert(!names_path(repo_files, normalize_spec(join_path_spec(bases[0], target))));
        assert(rest[i - 1] == bases[i]);
        assert forall|j: int| 0 <= j < i - 1 implies !names_path(
            repo_files,
            normalize_spec(join_path_spec(#[trigger] rest[j], target)),
        ) by {
            assert(rest[j] == bases[j + 1]);
        }
        lemma_base_hit(target, rest, repo_files, i - 1);
    }
}

/// A header beside the source that names it is the one it means.
pub proof fn law_a_header_beside_the_source_is_meant(
    target: Seq<char>,
    source_dir: Seq<char>,
    root: Seq<char>,
    dirs: Seq<Seq<char>>,
    repo_files: Seq<Seq<char>>,
)
    requires
        target.len() > 0,
        !is_absolute_spec(target),
        names_path(repo_files, normalize_spec(join_path_spec(source_dir, target))),
    ensures
        header_target(target, source_dir, root, dirs, repo_files) == Some(
            normalize_spec(join_path_spec(source_dir, target)),
        ),
{
    let bases = seq![source_dir, root] + dirs;
    assert(bases[0] == source_dir);
    lemma_base_hit(target, bases, repo_files, 0);
}

/// Else the first of the root and the directories of the manifest that has it decides.
pub proof fn law_a_header_is_found_in_its_directory(
    target: Seq<char>,
    source_dir: Seq<char>,
    root: Seq<char>,
    dirs: Seq<Seq<char>>,
    repo_files: Seq<Seq<char>>,
    i: int,
)
    requires
        target.len() > 0,
        !is_absolute_spec(target),
        !names_path(repo_files, normalize_spec(join_path_spec(source_dir, target))),
        !names_path(repo_files, normalize_spec(join_path_spec(root, target))),
        0 <= i < dirs.len(),
        names_path(repo_files, normalize_spec(join_path_spec(dirs[i], target))),
        forall|j: int|
            0 <= j < i ==> !names_path(
                repo_files,
                normalize_spec(join_path_spec(#[trigger] dirs[j], target)),
            ),
    ensures
        header_target(target, source_dir, root, dirs, repo_files) == Some(
            normalize_spec(join_path_spec(dirs[i], target)),
        ),
{
    let bases = seq![source_dir, root] + dirs;
    assert(bases[i + 2] == dirs[i]);
    assert forall|j: int| 0 <= j < i + 2 implies !names_path(
        repo_files,
        normalize_spec(join_path_spec(#[trigger] bases[j], target)),
    ) by {
        if j == 0 {
            assert(bases[0] == source_dir);
        } else if j == 1 {
            assert(bases[1] == root);
        } else {
            assert(bases[j] == dirs[j - 2]);
        }
    }
    lemma_base_hit(target, bases, repo_files, i + 2);
}

// ---- files of the definition map ----

/// A name is unresolved exactly where it is referenced and nothing defines it.
pub proof fn law_what_is_unresolved(
    referenced: Seq<Seq<char>>,
    defined: Seq<Seq<char>>,
    name: Seq<char>,
)
    ensures
        unresolved_names(referenced, defined).contains(name) <==> referenced.contains(name)
            && !defined.contains(name),
{
    let pred = |n: Seq<char>| !defined.contains(n);
    let kept = referenced.filter(pred);
    lemma_filter_members(referenced, pred, name);
    lemma_sorted_members(kept, text_order(), name);
    lemma_dedup_members(sort_texts(kept), name);
    assert(unresolved_names(referenced, defined) =~= crate::order::dedup_texts(sort_texts(kept)));
}

/// A refresh parses exactly the files whose stamp is not the one that was kept; a full build
/// parses every file.
pub proof fn law_which_files_are_parsed(
    refreshing: bool,
    files: Seq<(Seq<char>, Option<FileStamp>)>,
    stamps: Seq<(Seq<char>, FileStamp)>,
    root: Seq<char>,
    path: Seq<char>,
)
    ensures
        files_to_parse(refreshing, files, stamps, root).contains(path) <==> exists|i: int|
            0 <= i < files.len() && (#[trigger] files[i]).0 == path && (!refreshing || files[i].1
                is None || stamp_of(stamps, relative_spec(path, root)) != files[i].1),
{
    let first = |f: (Seq<char>, Option<FileStamp>)| f.0;
    let pred = |f: (Seq<char>, Option<FileStamp>)| !is_unchanged(stamps, root, f);
    let kept = if refreshing {
        files.filter(pred)
    } else {
        files
    };
    assert(files_to_parse(refreshing, files, stamps, root) =~= kept.map_values(first));
    lemma_map_sources(kept, first, path);
    if kept.map_values(first).contains(path) {
        let k = choose|k: int| 0 <= k < kept.len() && first(#[trigger] kept[k]) == path;
        assert(kept.contains(kept[k]));
        lemma_filter_members(files, pred, kept[k]);
        let i = choose|i: int| 0 <= i < files.len() && files[i] == kept[k];
        assert(files[i].0 == path);
    }
    if exists|i: int|
        0 <= i < files.len() && (#[trigger] files[i]).0 == path && (!refreshing || files[i].1
            is None || stamp_of(stamps, relative_spec(path, root)) != files[i].1) {
        let i = choose|i: int|
            0 <= i < files.len() && (#[trigger] files[i]).0 == path && (!refreshing || files[i].1
                is None || stamp_of(stamps, relative_spec(path, root)) != files[i].1);
        assert(files.contains(files[i]));
        lemma_filter_members(files, pred, files[i]);
        lemma_map_members(kept, first, files[i]);
    }
}

/// A refresh takes out exactly the kept files that a walk no longer finds.
pub proof fn law_which_files_are_taken_out(
    files: Seq<(Seq<char>, Option<FileStamp>)>,
    stamps: Seq<(Seq<char>, FileStamp)>,
    root: Seq<char>,
    rel: Seq<char>,
)
    ensures
        files_to_remove(true, files, stamps, root).contains(rel) <==> {
            &&& exists|k: int| 0 <= k < stamps.len() && (#[trigger] stamps[k]).0 == rel
            &&& forall|i: int|
                0 <= i < files.len() ==> relative_spec(#[trigger] files[i].0, root) != rel
        },
        files_to_remove(false, files, stamps, root).len() == 0,
{
    let first = |e: (Seq<char>, FileStamp)| e.0;
    let pred = |e: (Seq<char>, FileStamp)| !crate::pullin::is_walked(files, root, e.0);
    let kept = stamps.filter(pred);
    assert(files_to_remove(true, files, stamps, root) =~= kept.map_values(first));
    lemma_map_sources(kept, first, rel);
    if kept.map_values(first).contains(rel) {
        let k = choose|k: int| 0 <= k < kept.len() && first(#[trigger] kept[k]) == rel;
        assert(kept.contains(kept[k]));
        lemma_filter_members(stamps, pred, kept[k]);
        let i = choose|i: int| 0 <= i < stamps.len() && stamps[i] == kept[k];
        assert(stamps[i].0 == rel);
    }
    if (exists|k: int| 0 <= k < stamps.len() && (#[trigger] stamps[k]).0 == rel) && forall|i: int|
        0 <= i < files.len() ==> relative_spec(#[trigger] files[i].0, root) != rel {
        let k = choose|k: int| 0 <= k < stamps.len() && (#[trigger] stamps[k]).0 == rel;
        assert(stamps.contains(stamps[k]));
        lemma_filter_members(stamps, pred, stamps[k]);
        lemma_map_members(kept, first, stamps[k]);
    }
}

/// The sources of an index are the C and C++ files that its symbols are in, each once.
pub proof fn law_which_sources_are_indexed(symbols: Seq<SymbolText>, file: Seq<char>)
    ensures
        indexed_sources(symbols).contains(file) <==> is_c_source(file) && exists|i: int|
            0 <= i < symbols.len() && (#[trigger] symbols[i]).file_path == file,
        indexed_sources(symbols).no_duplicates(),
    decreases symbols.len(),
{
    if symbols.len() > 0 {
        let before = symbols.drop_last();
        let front = indexed_sources(before);
        let all = indexed_sources(symbols);
        law_which_sources_are_indexed(before, file);
        assert(symbols[symbols.len() - 1] == symbols.last());
        if exists|i: int| 0 <= i < before.len() && (#[trigger] before[i]).file_path == file {
            let i = choose|i: int|
                0 <= i < before.len() && (#[trigger] before[i]).file_path == file;
            assert(symbols[i].file_path == file);
        }
        if exists|i: int| 0 <= i < symbols.len() && (#[trigger] symbols[i]).file_path == file {
            let i = choose|i: int|
                0 <= i < symbols.len() && (#[trigger] symbols[i]).file_path == file;
            if i < before.len() {
                assert(before[i].file_path == file);
            }
        }
        if all != front {
            let f = symbols.last().file_path;
            assert(all == front.push(f));
            assert(all[all.len() - 1] == f);
            if front.contains(file) {
                let k = choose|k: int| 0 <= k < front.len() && front[k] == file;
                assert(all[k] == file);
            }
            if all.contains(file) && !front.contains(file) {
                let k = choose|k: int| 0 <= k < all.len() && all[k] == file;
                if k < front.len() {
                    assert(front[k] == file);
                }
            }
        }
    }
}

/// A source that the manifest lists is taken in exactly where it lies in the repository, is not
/// indexed yet and no filter leaves it out.
pub proof fn law_which_sources_are_taken_in(
    root: Seq<char>,
    rel: Seq<char>,
    file: Seq<char>,
    indexed: Seq<Seq<char>>,
    filtered: bool,
    rules: Seq<RuleText>,
)
    requires
        strip_base(file, root) == Some(rel),
    ensures
        is_added(file, root, indexed, filtered, rules) <==> !indexed.contains(rel) && (filtered
            ==> scope_names(rules, rel, file)),
{
}

/// An indexed source is dropped exactly where it is gone, or the manifest no longer lists it.
pub proof fn law_which_sources_are_dropped(
    indexed: Seq<(Seq<char>, Option<Seq<char>>)>,
    compiled: Seq<Seq<char>>,
    rel: Seq<char>,
)
    ensures
        dropped_sources(indexed, compiled).contains(rel) <==> exists|i: int|
            0 <= i < indexed.len() && (#[trigger] indexed[i]).0 == rel && (indexed[i].1 is None
                || !compiled.contains(indexed[i].1->0)),
{
    let first = |s: (Seq<char>, Option<Seq<char>>)| s.0;
    let pred = |s: (Seq<char>, Option<Seq<char>>)| is_dropped(s, compiled);
    let kept = indexed.filter(pred);
    assert(dropped_sources(indexed, compiled) =~= kept.map_values(first));
    lemma_map_sources(kept, first, rel);
    if kept.map_values(first).contains(rel) {
        let k = choose|k: int| 0 <= k < kept.len() && first(#[trigger] kept[k]) == rel;
        assert(kept.contains(kept[k]));
        lemma_filter_members(indexed, pred, kept[k]);
        let i = choose|i: int| 0 <= i < indexed.len() && indexed[i] == kept[k];
        assert(indexed[i].0 == rel);
    }
    if exists|i: int|
        0 <= i < indexed.len() && (#[trigger] indexed[i]).0 == rel && (indexed[i].1 is None
            || !compiled.contains(indexed[i].1->0)) {
        let i = choose|i: int|
            0 <= i < indexed.len() && (#[trigger] indexed[i]).0 == rel && (indexed[i].1 is None
                || !compiled.contains(indexed[i].1->0));
        assert(indexed.contains(indexed[i]));
        lemma_filter_members(indexed, pred, indexed[i]);
        lemma_map_members(kept, first, indexed[i]);
    }
}

// ---- what is pulled in ----

proof fn lemma_header_hit(
    imports: Seq<ImportText>,
    dir: Seq<char>,
    root: Seq<char>,
    dirs: Seq<Seq<char>>,
    repo_files: Seq<Seq<char>>,
    k: int,
)
    requires
        0 <= k < imports.len(),
        imports[k].import_type == ImportType::CppInclude,
        header_target(imports[k].import_path, dir, root, dirs, repo_files) is Some,
    ensures
        header_hits(imports, dir, root, dirs, repo_files).contains(
            header_target(imports[k].import_path, dir, root, dirs, repo_files)->0,
        ),
    decreases imports.len(),
{
    let f = header_target(imports[k].import_path, dir, root, dirs, repo_files)->0;
    let front = header_hits(imports.drop_last(), dir, root, dirs, repo_files);
    let all = header_hits(imports, dir, root, dirs, repo_files);
    if k == imports.len() - 1 {
        assert(all[all.len() - 1] == f);
    } else {
        assert(imports.drop_last()[k] == imports[k]);
        lemma_header_hit(imports.drop_last(), dir, root, dirs, repo_files, k);
        let j = choose|j: int| 0 <= j < front.len() && front[j] == f;
        assert(all[j] == f);
    }
}

/// Every header that a C or C++ file of the base names, and that is found, is a candidate.
pub proof fn law_every_named_header_is_followed(
    base: Seq<(Seq<char>, Seq<char>)>,
    root: Seq<char>,
    dirs: Seq<Seq<char>>,
    repo_files: Seq<Seq<char>>,
    b: int,
    dir: Seq<char>,
    k: int,
)
    requires
        0 <= b < base.len(),
        is_c_source(base[b].0) || is_c_header(base[b].0),
        parent_dir(base[b].0) == Some(dir),
        0 <= k < imports_of(lines_of(base[b].1), base[b].0).len(),
        imports_of(lines_of(base[b].1), base[b].0)[k].import_type == ImportType::CppInclude,
        header_target(
            imports_of(lines_of(base[b].1), base[b].0)[k].import_path,
            dir,
            root,
            dirs,
            repo_files,
        ) is Some,
    ensures
        all_header_hits(base, root, dirs, repo_files).contains(
            header_target(
                imports_of(lines_of(base[b].1), base[b].0)[k].import_path,
                dir,
                root,
                dirs,
                repo_files,
            )->0,
        ),
    decreases base.len(),
{
    let imports = imports_of(lines_of(base[b].1), base[b].0);
    let f = header_target(imports[k].import_path, dir, root, dirs, repo_files)->0;
    let front = all_header_hits(base.drop_last(), root, dirs, repo_files);
    let all = all_header_hits(base, root, dirs, repo_files);
    if b == base.len() - 1 {
        let last = header_hits(imports, dir, root, dirs, repo_files);
        lemma_header_hit(imports, dir, root, dirs, repo_files, k);
        let j = choose|j: int| 0 <= j < last.len() && last[j] == f;
        assert(all[front.len() + j] == f);
    } else {
        assert(base.drop_last()[b] == base[b]);
        law_every_named_header_is_followed(base.drop_last(), root, dirs, repo_files, b, dir, k);
        let j = choose|j: int| 0 <= j < front.len() && front[j] == f;
        assert(all[j] == f);
    }
}

proof fn lemma_each_path_is_kept(s: Seq<Seq<char>>, x: Seq<char>)
    requires
        s.contains(x),
    ensures
        names_path(each_path_once(s), x),
    decreases s.len(),
{
    let front = each_path_once(s.drop_last());
    let all = each_path_once(s);
    let k = choose|k: int| 0 <= k < s.len() && s[k] == x;
    if k == s.len() - 1 {
        if !names_path(front, x) {
            assert(same_path(all[all.len() - 1], x));
        }
    } else {
        assert(s.drop_last()[k] == x);
        lemma_each_path_is_kept(s.drop_last(), x);
        let j = choose|j: int| 0 <= j < front.len() && same_path(#[trigger] front[j], x);
        assert(all[j] == front[j]);
    }
}

/// Every candidate that the walk listed and the base does not hold is pulled in.
pub proof fn law_every_new_candidate_is_pulled_in(
    base: Seq<(Seq<char>, Seq<char>)>,
    repo_files: Seq<Seq<char>>,
    candidates: Seq<Seq<char>>,
    file: Seq<char>,
)
    requires
        candidates.contains(file),
        names_path(repo_files, file),
        forall|b: int| 0 <= b < base.len() ==> !same_path((#[trigger] base[b]).0, file),
    ensures
        names_path(pulled_files(base, repo_files, candidates), file),
{
    let paths = base_paths(base);
    assert(!names_path(paths, file)) by {
        if names_path(paths, file) {
            let k = choose|k: int| 0 <= k < paths.len() && same_path(#[trigger] paths[k], file);
            assert(same_path(base[k].0, file));
        }
    }
    let pred = |c: Seq<char>| is_pulled(base, repo_files, c);
    let kept = candidates.filter(pred);
    lemma_filter_members(candidates, pred, file);
    let once = each_path_once(kept);
    lemma_each_path_is_kept(kept, file);
    let k = choose|k: int| 0 <= k < once.len() && same_path(#[trigger] once[k], file);
    assert(once.contains(once[k]));
    lemma_sorted_members(once, path_order(), once[k]);
    let sorted = pulled_files(base, repo_files, candidates);
    let j = choose|j: int| 0 <= j < sorted.len() && sorted[j] == once[k];
    assert(same_path(sorted[j], file));
}

} // verus!
