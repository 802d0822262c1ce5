//! Files drawn into a filtered index, the definition map that helps find them, and the
//! sources that come and go with a build manifest.

use vstd::prelude::*;

use crate::imports::{import_texts, imports_of, parse_imports_from_content, ImportText, ImportType};
use crate::indexing::{is_c_header, is_c_source};
use crate::languages::{is_c_header_ext, is_c_source_ext};
use crate::manifest::{find_header, header_target};
use crate::order::{
    dedup_strings, dedup_texts, lemma_filtered_are_members, sort_stable, sort_strings, sort_texts,
};
use crate::paths::{
    all_plain, components, components_of, ext_of, join_path, join_path_spec, lists_path, names_path,
    path_order, path_text, plain_path, plain_paths, relative, relative_spec, render_path, same_path,
    sort_paths, strip, strip_base,
};
use crate::scope::{rule_texts, scope_matches, scope_names, RuleText, ScopeRule};
use crate::symbols::{symbol_texts, Symbol, SymbolText};
use crate::text::{has_text, lines_of, opt_text, same_text, texts};

verus! {

// ---- callees ----

/// The names that are referenced and not defined, each once, in order.
pub open spec fn unresolved_names(referenced: Seq<Seq<char>>, defined: Seq<Seq<char>>) -> Seq<
    Seq<char>,
> {
    dedup_texts(sort_texts(referenced.filter(|n: Seq<char>| !defined.contains(n))))
}

/// Names the files in scope refer to and none of them defines.
pub fn unresolved_callee_names(referenced: &[String], defined: &[String]) -> (r: Vec<String>)
    ensures
        texts(r@) == unresolved_names(texts(referenced@), texts(defined@)),
{
    let ghost pred = |n: Seq<char>| !texts(defined@).contains(n);
    let ghost all = texts(referenced@);
    let mut out: Vec<String> = Vec::new();
    let mut i: usize = 0;
    proof {
        reveal(Seq::filter);
        assert(texts(out@) =~= all.take(0).filter(pred));
    }
    while i < referenced.len()
        invariant
            i <= referenced@.len(),
            all == texts(referenced@),
            pred == (|n: Seq<char>| !texts(defined@).contains(n)),
            texts(out@) == all.take(i as int).filter(pred),
        decreases referenced@.len() - i,
    {
        proof {
            reveal(Seq::filter);
            assert(all.take(i + 1).drop_last() =~= all.take(i as int));
            assert(all.take(i + 1).last() == referenced@[i as int]@);
        }
        if !has_text(defined, referenced[i].as_str()) {
            let name = referenced[i].clone();
            proof {
                assert(texts(out@.push(name)) =~= texts(out@).push(name@));
            }
            out.push(name);
        }
        i = i + 1;
    }
    proof {
        assert(all.take(all.len() as int) =~= all);
    }
    let sorted = sort_strings(out.as_slice());
    dedup_strings(sorted.as_slice())
}

// ---- pulling in ----

/// The directory a file stands in, by its components.
pub open spec fn parent_dir(path: Seq<char>) -> Option<Seq<char>> {
    let parts = components_of(path);
    if parts.len() == 0 || parts.last() == "/"@ {
        None
    } else {
        Some(path_text(parts.drop_last()))
    }
}

pub fn parent_of(path: &str) -> (r: Option<String>)
    ensures
        opt_text(r) == parent_dir(path@),
{
    let parts = components(path);
    let ghost all = texts(parts@);
    proof {
        assert(all.len() == parts@.len());
    }
    if parts.len() == 0 || same_text(parts[parts.len() - 1].as_str(), "/") {
        return None;
    }
    let mut kept = parts;
    let ghost before = kept@;
    kept.pop();
    proof {
        assert(texts(before.drop_last()) =~= texts(before).drop_last());
    }
    Some(render_path(kept.as_slice()))
}

/// The headers the C and C++ files of the base refer to, as files of the repository, in the
/// order the references stand.
pub open spec fn header_hits(
    imports: Seq<ImportText>,
    dir: Seq<char>,
    root: Seq<char>,
    dirs: Seq<Seq<char>>,
    repo_files: Seq<Seq<char>>,
) -> Seq<Seq<char>>
    decreases imports.len(),
{
    if imports.len() == 0 {
        Seq::empty()
    } else {
        let front = header_hits(imports.drop_last(), dir, root, dirs, repo_files);
        let last = imports.last();
        if last.import_type == ImportType::CppInclude {
            match header_target(last.import_path, dir, root, dirs, repo_files) {
                Some(f) => front.push(f),
                None => front,
            }
        } else {
            front
        }
    }
}

pub open spec fn file_header_hits(
    path: Seq<char>,
    content: Seq<char>,
    root: Seq<char>,
    dirs: Seq<Seq<char>>,
    repo_files: Seq<Seq<char>>,
) -> Seq<Seq<char>> {
    if !is_c_source(path) && !is_c_header(path) {
        Seq::empty()
    } else {
        match parent_dir(path) {
            Some(dir) => header_hits(
                imports_of(lines_of(content), path),
                dir,
                root,
                dirs,
                repo_files,
            ),
            None => Seq::empty(),
        }
    }
}

pub open spec fn all_header_hits(
    base: Seq<(Seq<char>, Seq<char>)>,
    root: Seq<char>,
    dirs: Seq<Seq<char>>,
    repo_files: Seq<Seq<char>>,
) -> Seq<Seq<char>>
    decreases base.len(),
{
    if base.len() == 0 {
        Seq::empty()
    } else {
        all_header_hits(base.drop_last(), root, dirs, repo_files) + file_header_hits(
            base.last().0,
            base.last().1,
            root,
            dirs,
            repo_files,
        )
    }
}

/// Each text once, where it first stands.
pub open spec fn first_once(s: Seq<Seq<char>>) -> Seq<Seq<char>>
    decreases s.len(),
{
    if s.len() == 0 {
        Seq::empty()
    } else {
        let front = first_once(s.drop_last());
        if front.contains(s.last()) {
            front
        } else {
            front.push(s.last())
        }
    }
}

/// Each path once, in the text where it first stands.
pub open spec fn each_path_once(s: Seq<Seq<char>>) -> Seq<Seq<char>>
    decreases s.len(),
{
    if s.len() == 0 {
        Seq::empty()
    } else {
        let front = each_path_once(s.drop_last());
        if names_path(front, s.last()) {
            front
        } else {
            front.push(s.last())
        }
    }
}

pub open spec fn base_paths(base: Seq<(Seq<char>, Seq<char>)>) -> Seq<Seq<char>> {
    base.map_values(|b: (Seq<char>, Seq<char>)| b.0)
}

/// A candidate is taken where the walk listed it and the base does not hold it yet.
pub open spec fn is_pulled(
    base: Seq<(Seq<char>, Seq<char>)>,
    repo_files: Seq<Seq<char>>,
    file: Seq<char>,
) -> bool {
    names_path(repo_files, file) && !names_path(base_paths(base), file)
}

/// The files pulled in, in path order.
pub open spec fn pulled_files(
    base: Seq<(Seq<char>, Seq<char>)>,
    repo_files: Seq<Seq<char>>,
    candidates: Seq<Seq<char>>,
) -> Seq<Seq<char>> {
    sort_stable(
        each_path_once(candidates.filter(|c: Seq<char>| is_pulled(base, repo_files, c))),
        path_order(),
    )
}

/// Repo-relative paths as absolute ones.
pub open spec fn from_root(root: Seq<char>, rels: Seq<Seq<char>>) -> Seq<Seq<char>> {
    rels.map_values(|r: Seq<char>| join_path_spec(root, r))
}

/// A file of the base index: its path and content.
#[derive(Debug)]
pub struct BaseFile {
    pub path: String,
    pub content: String,
}

pub open spec fn base_texts(v: Seq<BaseFile>) -> Seq<(Seq<char>, Seq<char>)> {
    v.map_values(|f: BaseFile| (f.path@, f.content@))
}

/// The files pulled in, and how many came from each source. A file that several sources
/// name counts for the first of them, so that the counts sum to the total.
#[derive(Debug)]
pub struct PulledInFiles {
    pub files: Vec<String>,
    pub from_includes: usize,
    pub from_gtags: usize,
    pub from_store: usize,
}

fn collect_header_hits(
    base: &[BaseFile],
    root: &str,
    dirs: &[String],
    repo_files: &[String],
) -> (r: Vec<String>)
    ensures
        texts(r@) == all_header_hits(base_texts(base@), root@, texts(dirs@), texts(repo_files@)),
{
    let ghost all = base_texts(base@);
    let ghost ds = texts(dirs@);
    let ghost fs = texts(repo_files@);
    let plain = all_plain(repo_files);
    let mut out: Vec<String> = Vec::new();
    let mut i: usize = 0;
    proof {
        assert(texts(out@) =~= Seq::<Seq<char>>::empty());
    }
    while i < base.len()
        invariant
            i <= base@.len(),
            all == base_texts(base@),
            ds == texts(dirs@),
            fs == texts(repo_files@),
            plain == plain_paths(fs),
            texts(out@) == all_header_hits(all.take(i as int), root@, ds, fs),
        decreases base@.len() - i,
    {
        let file = &base[i];
        let ghost before = texts(out@);
        proof {
            assert(all.take(i + 1).drop_last() =~= all.take(i as int));
            assert(all.take(i + 1).last() == (file.path@, file.content@));
            assert(before + Seq::<Seq<char>>::empty() =~= before);
        }
        let ext = ext_of(file.path.as_str());
        if is_c_source_ext(ext.as_str()) || is_c_header_ext(ext.as_str()) {
            match parent_of(file.path.as_str()) {
                Some(dir) => {
                    let imports = parse_imports_from_content(
                        file.content.as_str(),
                        file.path.as_str(),
                    );
                    let ghost found = import_texts(imports@);
                    let mut k: usize = 0;
                    while k < imports.len()
                        invariant
                            k <= imports@.len(),
                            found == import_texts(imports@),
                            ds == texts(dirs@),
                            fs == texts(repo_files@),
                            plain == plain_paths(fs),
                            texts(out@) == before + header_hits(
                                found.take(k as int),
                                dir@,
                                root@,
                                ds,
                                fs,
                            ),
                        decreases imports@.len() - k,
                    {
                        proof {
                            assert(found.take(k + 1).drop_last() =~= found.take(k as int));
                            assert(found.take(k + 1).last() == imports@[k as int]@);
                        }
                        if imports[k].import_type == ImportType::CppInclude {
                            match find_header(
                                imports[k].import_path.as_str(),
                                dir.as_str(),
                                root,
                                dirs,
                                repo_files,
                                plain,
                            ) {
                                Some(hit) => {
                                    proof {
                                        let h = header_hits(found.take(k as int), dir@, root@, ds, fs);
                                        assert(texts(out@.push(hit)) =~= texts(out@).push(hit@));
                                        assert((before + h).push(hit@) =~= before + h.push(hit@));
                                    }
                                    out.push(hit);
                                },
                                None => {},
                            }
                        }
                        k = k + 1;
                    }
                    proof {
                        assert(found.take(found.len() as int) =~= found);
                    }
                },
                None => {},
            }
        }
        i = i + 1;
    }
    proof {
        assert(all.take(all.len() as int) =~= all);
    }
    out
}

fn paths_of(base: &[BaseFile]) -> (r: Vec<String>)
    ensures
        texts(r@) == base_paths(base_texts(base@)),
{
    let mut out: Vec<String> = Vec::new();
    let mut i: usize = 0;
    while i < base.len()
        invariant
            i <= base@.len(),
            out@.len() == i,
            forall|j: int| 0 <= j < i ==> #[trigger] out@[j]@ == base@[j].path@,
        decreases base@.len() - i,
    {
        out.push(base[i].path.clone());
        i = i + 1;
    }
    proof {
        assert(texts(out@) =~= base_paths(base_texts(base@)));
    }
    out
}

fn joined(root: &str, rels: &[String]) -> (r: Vec<String>)
    ensures
        texts(r@) == from_root(root@, texts(rels@)),
{
    let mut out: Vec<String> = Vec::new();
    let mut i: usize = 0;
    while i < rels.len()
        invariant
            i <= rels@.len(),
            out@.len() == i,
            forall|j: int| 0 <= j < i ==> #[trigger] out@[j]@ == join_path_spec(root@, rels@[j]@),
        decreases rels@.len() - i,
    {
        out.push(join_path(root, rels[i].as_str()));
        i = i + 1;
    }
    proof {
        assert(texts(out@) =~= from_root(root@, texts(rels@)));
    }
    out
}

fn take_pulled(base: &[BaseFile], repo_files: &[String], candidates: &[String]) -> (r: Vec<String>)
    ensures
        texts(r@) == each_path_once(
            texts(candidates@).filter(
                |c: Seq<char>| is_pulled(base_texts(base@), texts(repo_files@), c),
            ),
        ),
{
    let ghost pred = |c: Seq<char>| is_pulled(base_texts(base@), texts(repo_files@), c);
    let ghost all = texts(candidates@);
    let held = paths_of(base);
    let held_plain = all_plain(held.as_slice());
    let listed_plain = all_plain(repo_files);
    let mut out: Vec<String> = Vec::new();
    let mut out_plain = true;
    let mut i: usize = 0;
    proof {
        reveal(Seq::filter);
        assert(texts(out@) =~= each_path_once(all.take(0).filter(pred)));
    }
    while i < candidates.len()
        invariant
            i <= candidates@.len(),
            all == texts(candidates@),
            texts(held@) == base_paths(base_texts(base@)),
            held_plain ==> plain_paths(texts(held@)),
            listed_plain ==> plain_paths(texts(repo_files@)),
            out_plain ==> plain_paths(texts(out@)),
            pred == (|c: Seq<char>| is_pulled(base_texts(base@), texts(repo_files@), c)),
            texts(out@) == each_path_once(all.take(i as int).filter(pred)),
        decreases candidates@.len() - i,
    {
        let ghost kept = all.take(i as int).filter(pred);
        proof {
            reveal(Seq::filter);
            assert(all.take(i + 1).drop_last() =~= all.take(i as int));
            assert(all.take(i + 1).last() == candidates@[i as int]@);
            assert(kept.push(candidates@[i as int]@).drop_last() =~= kept);
        }
        let c = candidates[i].as_str();
        if lists_path(repo_files, listed_plain, c) && !lists_path(held.as_slice(), held_plain, c) {
            if !lists_path(out.as_slice(), out_plain, c) {
                let taken = candidates[i].clone();
                out_plain = out_plain && plain_path(c);
                proof {
                    assert(texts(out@.push(taken)) =~= texts(out@).push(taken@));
                }
                out.push(taken);
            }
        }
        i = i + 1;
    }
    proof {
        assert(all.take(all.len() as int) =~= all);
    }
    out
}

/// How many of the files are in one list and not in another.
pub open spec fn count_in(files: Seq<Seq<char>>, list: Seq<Seq<char>>, not_in: Seq<Seq<char>>) -> nat {
    files.filter(named_first(list, not_in)).len()
}

pub open spec fn named_first(list: Seq<Seq<char>>, not_in: Seq<Seq<char>>) -> spec_fn(
    Seq<char>,
) -> bool {
    |f: Seq<char>| names_path(list, f) && !names_path(not_in, f)
}

fn count_members(files: &[String], list: &[String], not_in: &[String]) -> (r: usize)
    ensures
        r == count_in(texts(files@), texts(list@), texts(not_in@)),
        r <= files@.len(),
{
    let ghost pred = named_first(texts(list@), texts(not_in@));
    let ghost all = texts(files@);
    let list_plain = all_plain(list);
    let other_plain = all_plain(not_in);
    let mut n: usize = 0;
    let mut i: usize = 0;
    proof {
        reveal(Seq::filter);
        assert(all.take(0).filter(pred).len() == 0);
    }
    while i < files.len()
        invariant
            i <= files@.len(),
            n <= i,
            all == texts(files@),
            list_plain ==> plain_paths(texts(list@)),
            other_plain ==> plain_paths(texts(not_in@)),
            pred == named_first(texts(list@), texts(not_in@)),
            n == all.take(i as int).filter(pred).len(),
        decreases files@.len() - i,
    {
        proof {
            reveal(Seq::filter);
            assert(all.take(i + 1).drop_last() =~= all.take(i as int));
            assert(all.take(i + 1).last() == files@[i as int]@);
        }
        let f = files[i].as_str();
        if lists_path(list, list_plain, f) && !lists_path(not_in, other_plain, f) {
            n = n + 1;
        }
        i = i + 1;
    }
    proof {
        assert(all.take(all.len() as int) =~= all);
    }
    n
}

/// The files outside the index filter that the base refers to directly: targets of header
/// directives, and where the tag database (`gtags_files`) or the definition map
/// (`store_files`) places a callee nothing in the base defines. Both lists are
/// repo-relative. One hop only: what a pulled-in file refers to is not followed.
pub fn pull_in_referenced_files(
    base: &[BaseFile],
    repo_root: &str,
    repo_files: &[String],
    include_dirs: &[String],
    gtags_files: &[String],
    store_files: &[String],
) -> (r: PulledInFiles)
    ensures
        ({
            let headers = all_header_hits(
                base_texts(base@),
                repo_root@,
                texts(include_dirs@),
                texts(repo_files@),
            );
            let tags = from_root(repo_root@, texts(gtags_files@));
            let stored = from_root(repo_root@, texts(store_files@));
            let files = pulled_files(
                base_texts(base@),
                texts(repo_files@),
                headers + tags + stored,
            );
            &&& texts(r.files@) == files
            &&& r.from_includes == count_in(files, headers, Seq::empty())
            &&& r.from_gtags == count_in(files, tags, headers)
            &&& r.from_store == count_in(files, stored, headers + tags)
        }),
        r.from_includes + r.from_gtags + r.from_store == r.files@.len(),
{
    let headers = collect_header_hits(base, repo_root, include_dirs, repo_files);
    let tags = joined(repo_root, gtags_files);
    let stored = joined(repo_root, store_files);
    let none: Vec<String> = Vec::new();
    let mut named: Vec<String> = Vec::new();
    append_texts(&mut named, headers.as_slice());
    append_texts(&mut named, tags.as_slice());
    let mut candidates: Vec<String> = Vec::new();
    append_texts(&mut candidates, named.as_slice());
    append_texts(&mut candidates, stored.as_slice());
    proof {
        let e = Seq::<Seq<char>>::empty();
        assert(texts(none@) =~= e);
        assert(e + texts(headers@) =~= texts(headers@));
        assert(e + texts(named@) =~= texts(named@));
    }
    let taken = take_pulled(base, repo_files, candidates.as_slice());
    let files = sort_paths(taken.as_slice());
    let from_includes = count_members(files.as_slice(), headers.as_slice(), none.as_slice());
    let from_gtags = count_members(files.as_slice(), tags.as_slice(), headers.as_slice());
    let from_store = count_members(files.as_slice(), stored.as_slice(), named.as_slice());
    proof {
        law_pulled_files_have_one_source(
            base_texts(base@),
            texts(repo_files@),
            texts(headers@),
            texts(tags@),
            texts(stored@),
        );
        assert(texts(files@).len() == files@.len());
    }
    PulledInFiles { files, from_includes, from_gtags, from_store }
}

pub(crate) fn append_texts(target: &mut Vec<String>, more: &[String])
    ensures
        texts(final(target)@) == texts(old(target)@) + texts(more@),
{
    let ghost start = texts(target@);
    let ghost all = texts(more@);
    let mut i: usize = 0;
    proof {
        assert(start + all.take(0) =~= start);
    }
    while i < more.len()
        invariant
            i <= more@.len(),
            all == texts(more@),
            texts(target@) == start + all.take(i as int),
        decreases more@.len() - i,
    {
        let x = more[i].clone();
        proof {
            assert(texts(target@.push(x)) =~= texts(target@).push(x@));
            assert((start + all.take(i as int)).push(x@) =~= start + all.take(i + 1));
        }
        target.push(x);
        i = i + 1;
    }
    proof {
        assert(all.take(all.len() as int) =~= all);
    }
}

/// Pulling in never names a path twice, nor one the walk did not list, nor one of the base,
/// nor one that is no candidate.
pub proof fn law_pulled_files_are_new_and_listed(
    base: Seq<(Seq<char>, Seq<char>)>,
    repo_files: Seq<Seq<char>>,
    candidates: Seq<Seq<char>>,
)
    ensures
        forall|f: Seq<char>| #[trigger]
            pulled_files(base, repo_files, candidates).contains(f) ==> is_pulled(
                base,
                repo_files,
                f,
            ) && candidates.contains(f),
        forall|i: int, j: int|
            0 <= i < j < pulled_files(base, repo_files, candidates).len() ==> !same_path(
                #[trigger] pulled_files(base, repo_files, candidates)[i],
                #[trigger] pulled_files(base, repo_files, candidates)[j],
            ),
{
    let pred = |c: Seq<char>| is_pulled(base, repo_files, c);
    let kept = candidates.filter(pred);
    lemma_filtered_are_members(candidates, pred);
    lemma_each_path_once(kept);
    let once = each_path_once(kept);
    let sorted = sort_stable(once, path_order());
    crate::order::law_sorting_keeps_items(once, path_order());
    assert forall|f: Seq<char>| sorted.contains(f) implies once.contains(f) by {
        broadcast use vstd::seq_lib::group_to_multiset_ensures;

        assert(sorted.to_multiset().count(f) > 0);
        assert(once.to_multiset().count(f) > 0);
    }
    assert forall|f: Seq<char>| sorted.contains(f) implies is_pulled(base, repo_files, f)
        && candidates.contains(f) by {
        assert(once.contains(f));
        assert(kept.contains(f));
        let k = choose|k: int| 0 <= k < kept.len() && kept[k] == f;
        assert(pred(kept[k]));
    }
    assert(sorted.no_duplicates()) by {
        once.lemma_multiset_has_no_duplicates();
        sorted.lemma_multiset_has_no_duplicates_conv();
    }
    assert forall|i: int, j: int| 0 <= i < j < sorted.len() implies !same_path(
        #[trigger] sorted[i],
        #[trigger] sorted[j],
    ) by {
        assert(sorted.contains(sorted[i]) && sorted.contains(sorted[j]));
        let a = choose|a: int| 0 <= a < once.len() && once[a] == sorted[i];
        let b = choose|b: int| 0 <= b < once.len() && once[b] == sorted[j];
        assert(sorted[i] != sorted[j]);
        assert(a != b);
        if a < b {
            assert(!same_path(once[a], once[b]));
        } else {
            assert(!same_path(once[b], once[a]));
        }
    }
}

proof fn lemma_each_path_once(s: Seq<Seq<char>>)
    ensures
        each_path_once(s).no_duplicates(),
        forall|i: int, j: int|
            0 <= i < j < each_path_once(s).len() ==> !same_path(
                #[trigger] each_path_once(s)[i],
                #[trigger] each_path_once(s)[j],
            ),
        forall|f: Seq<char>| #[trigger] each_path_once(s).contains(f) ==> s.contains(f),
    decreases s.len(),
{
    if s.len() > 0 {
        let front = each_path_once(s.drop_last());
        let all = each_path_once(s);
        lemma_each_path_once(s.drop_last());
        assert forall|f: Seq<char>| #[trigger] all.contains(f) implies s.contains(f) by {
            let k = choose|k: int| 0 <= k < all.len() && all[k] == f;
            if k < front.len() {
                assert(front[k] == f);
                assert(each_path_once(s.drop_last()).contains(f));
                let j = choose|j: int| 0 <= j < s.drop_last().len() && s.drop_last()[j] == f;
                assert(s[j] == f);
            } else {
                assert(s[s.len() - 1] == f);
            }
        }
        assert forall|i: int, j: int| 0 <= i < j < all.len() implies !same_path(
            #[trigger] all[i],
            #[trigger] all[j],
        ) by {
            if j < front.len() {
                assert(!same_path(front[i], front[j]));
            } else {
                assert(!same_path(front[i], s.last()));
            }
        }
        assert(all.no_duplicates()) by {
            assert forall|i: int, j: int| 0 <= i < all.len() && 0 <= j < all.len() && i
                != j implies all[i] != all[j] by {
                if i < j {
                    assert(!same_path(all[i], all[j]));
                } else {
                    assert(!same_path(all[j], all[i]));
                }
            }
        }
    }
}

proof fn lemma_sources_sum(
    files: Seq<Seq<char>>,
    first: Seq<Seq<char>>,
    second: Seq<Seq<char>>,
    third: Seq<Seq<char>>,
)
    requires
        forall|i: int|
            0 <= i < files.len() ==> names_path(first, #[trigger] files[i]) || names_path(
                second,
                files[i],
            ) || names_path(third, files[i]),
    ensures
        count_in(files, first, Seq::empty()) + count_in(files, second, first) + count_in(
            files,
            third,
            first + second,
        ) == files.len(),
    decreases files.len(),
{
    reveal(Seq::filter);
    if files.len() > 0 {
        let front = files.drop_last();
        assert forall|i: int| 0 <= i < front.len() implies names_path(first, #[trigger] front[i])
            || names_path(second, front[i]) || names_path(third, front[i]) by {
            assert(front[i] == files[i]);
        }
        lemma_sources_sum(front, first, second, third);
        let f = files[files.len() - 1];
        lemma_names_either(first, second, f);
        assert(!names_path(Seq::empty(), f));
    }
}

proof fn lemma_names_either(a: Seq<Seq<char>>, b: Seq<Seq<char>>, f: Seq<char>)
    ensures
        names_path(a + b, f) <==> names_path(a, f) || names_path(b, f),
{
    let both = a + b;
    if names_path(both, f) {
        let i = choose|i: int| 0 <= i < both.len() && same_path(#[trigger] both[i], f);
        if i < a.len() {
            assert(same_path(a[i], f));
        } else {
            assert(same_path(b[i - a.len()], f));
        }
    }
    if names_path(a, f) {
        let i = choose|i: int| 0 <= i < a.len() && same_path(#[trigger] a[i], f);
        assert(same_path(both[i], f));
    }
    if names_path(b, f) {
        let i = choose|i: int| 0 <= i < b.len() && same_path(#[trigger] b[i], f);
        assert(same_path(both[i + a.len()], f));
    }
}

/// The counts of the sources sum to the number of files pulled in.
pub proof fn law_pulled_files_have_one_source(
    base: Seq<(Seq<char>, Seq<char>)>,
    repo_files: Seq<Seq<char>>,
    headers: Seq<Seq<char>>,
    tags: Seq<Seq<char>>,
    stored: Seq<Seq<char>>,
)
    ensures
        ({
            let files = pulled_files(base, repo_files, headers + tags + stored);
            count_in(files, headers, Seq::empty()) + count_in(files, tags, headers) + count_in(
                files,
                stored,
                headers + tags,
            ) == files.len()
        }),
{
    let candidates = headers + tags + stored;
    let files = pulled_files(base, repo_files, candidates);
    law_pulled_files_are_new_and_listed(base, repo_files, candidates);
    assert forall|i: int| 0 <= i < files.len() implies names_path(headers, #[trigger] files[i])
        || names_path(tags, files[i]) || names_path(stored, files[i]) by {
        let f = files[i];
        assert(files.contains(f));
        let k = choose|k: int| 0 <= k < candidates.len() && candidates[k] == f;
        assert(same_path(candidates[k], f));
        assert(names_path(candidates, f));
        lemma_names_either(headers + tags, stored, f);
        lemma_names_either(headers, tags, f);
    }
    lemma_sources_sum(files, headers, tags, stored);
}

// ---- the definition map ----

/// Most files parsed in one batch of a definition-map build.
pub const DEFINITION_BUILD_CHUNK_FILES: usize = 512;

/// Files between two progress reports of a build.
pub const DEFINITION_BUILD_PROGRESS_FILES: usize = 10_000;

/// What tells whether a file changed.
#[derive(Debug, Clone, Copy, PartialEq, Eq, Structural)]
pub struct FileStamp {
    pub modified: u64,
    pub size: u64,
}

/// A file of the walk with its current stamp, where it has one.
#[derive(Debug)]
pub struct StampedFile {
    pub path: String,
    pub stamp: Option<FileStamp>,
}

pub open spec fn stamped_texts(v: Seq<StampedFile>) -> Seq<(Seq<char>, Option<FileStamp>)> {
    v.map_values(|f: StampedFile| (f.path@, f.stamp))
}

pub open spec fn stamp_texts(v: Seq<(String, FileStamp)>) -> Seq<(Seq<char>, FileStamp)> {
    v.map_values(|e: (String, FileStamp)| (e.0@, e.1))
}

/// The stamp the map holds for a path.
pub open spec fn stamp_of(stamps: Seq<(Seq<char>, FileStamp)>, rel: Seq<char>) -> Option<FileStamp>
    decreases stamps.len(),
{
    if stamps.len() == 0 {
        None
    } else if stamps[0].0 == rel {
        Some(stamps[0].1)
    } else {
        stamp_of(stamps.skip(1), rel)
    }
}

/// The map still describes the file.
pub open spec fn is_unchanged(
    stamps: Seq<(Seq<char>, FileStamp)>,
    root: Seq<char>,
    f: (Seq<char>, Option<FileStamp>),
) -> bool {
    f.1 is Some && stamp_of(stamps, relative_spec(f.0, root)) == f.1
}

/// Some file of the walk has this repo-relative path.
pub open spec fn is_walked(
    files: Seq<(Seq<char>, Option<FileStamp>)>,
    root: Seq<char>,
    rel: Seq<char>,
) -> bool {
    exists|i: int| 0 <= i < files.len() && relative_spec(#[trigger] files[i].0, root) == rel
}

pub open spec fn files_to_parse(
    refreshing: bool,
    files: Seq<(Seq<char>, Option<FileStamp>)>,
    stamps: Seq<(Seq<char>, FileStamp)>,
    root: Seq<char>,
) -> Seq<Seq<char>> {
    if refreshing {
        files.filter(
            |f: (Seq<char>, Option<FileStamp>)| !is_unchanged(stamps, root, f),
        ).map_values(|f: (Seq<char>, Option<FileStamp>)| f.0)
    } else {
        files.map_values(|f: (Seq<char>, Option<FileStamp>)| f.0)
    }
}

pub open spec fn files_to_remove(
    refreshing: bool,
    files: Seq<(Seq<char>, Option<FileStamp>)>,
    stamps: Seq<(Seq<char>, FileStamp)>,
    root: Seq<char>,
) -> Seq<Seq<char>> {
    if refreshing {
        stamps.filter(|e: (Seq<char>, FileStamp)| !is_walked(files, root, e.0)).map_values(
            |e: (Seq<char>, FileStamp)| e.0,
        )
    } else {
        Seq::empty()
    }
}

/// The work of a definition-map build.
#[derive(Debug)]
pub struct DefinitionPlan {
    /// The files to parse, in path order.
    pub files: Vec<String>,
    /// The repo-relative files to retract from the map.
    pub removed: Vec<String>,
    /// The map is up to date: there is nothing to do.
    pub up_to_date: bool,
}

fn find_stamp(stamps: &[(String, FileStamp)], rel: &str) -> (r: Option<FileStamp>)
    ensures
        r == stamp_of(stamp_texts(stamps@), rel@),
{
    let ghost all = stamp_texts(stamps@);
    let mut i: usize = 0;
    proof {
        assert(all.skip(0) =~= all);
    }
    while i < stamps.len()
        invariant
            i <= stamps@.len(),
            all == stamp_texts(stamps@),
            stamp_of(all, rel@) == stamp_of(all.skip(i as int), rel@),
        decreases stamps@.len() - i,
    {
        proof {
            assert(all.skip(i as int)[0] == (stamps@[i as int].0@, stamps@[i as int].1));
            assert(all.skip(i as int).skip(1) =~= all.skip(i + 1));
        }
        if same_text(stamps[i].0.as_str(), rel) {
            return Some(stamps[i].1);
        }
        i = i + 1;
    }
    None
}

fn changed_files(
    refreshing: bool,
    files: &[StampedFile],
    stamps: &[(String, FileStamp)],
    root: &str,
) -> (r: Vec<String>)
    ensures
        texts(r@) == files_to_parse(
            refreshing,
            stamped_texts(files@),
            stamp_texts(stamps@),
            root@,
        ),
{
    let ghost st = stamp_texts(stamps@);
    let ghost pred = |f: (Seq<char>, Option<FileStamp>)| !is_unchanged(st, root@, f);
    let ghost path = |f: (Seq<char>, Option<FileStamp>)| f.0;
    let ghost all = stamped_texts(files@);
    let mut out: Vec<String> = Vec::new();
    let mut i: usize = 0;
    proof {
        reveal(Seq::filter);
        assert(texts(out@) =~= all.take(0).filter(pred).map_values(path));
        assert(texts(out@) =~= all.take(0).map_values(path));
    }
    while i < files.len()
        invariant
            i <= files@.len(),
            all == stamped_texts(files@),
            st == stamp_texts(stamps@),
            pred == (|f: (Seq<char>, Option<FileStamp>)| !is_unchanged(st, root@, f)),
            path == (|f: (Seq<char>, Option<FileStamp>)| f.0),
            refreshing ==> texts(out@) == all.take(i as int).filter(pred).map_values(path),
            !refreshing ==> texts(out@) == all.take(i as int).map_values(path),
        decreases files@.len() - i,
    {
        proof {
            reveal(Seq::filter);
            assert(all.take(i + 1).drop_last() =~= all.take(i as int));
            assert(all.take(i + 1).last() == (files@[i as int].path@, files@[i as int].stamp));
        }
        let unchanged = if refreshing {
            match files[i].stamp {
                Some(now) => {
                    let rel = relative(files[i].path.as_str(), root);
                    match find_stamp(stamps, rel.as_str()) {
                        Some(before) => now == before,
                        None => false,
                    }
                },
                None => false,
            }
        } else {
            false
        };
        if !unchanged {
            let p = files[i].path.clone();
            proof {
                let kept = all.take(i as int).filter(pred);
                let f = all[i as int];
                assert(texts(out@.push(p)) =~= texts(out@).push(p@));
                assert(kept.push(f).map_values(path) =~= kept.map_values(path).push(p@));
                assert(all.take(i + 1).map_values(path) =~= all.take(i as int).map_values(
                    path,
                ).push(p@));
            }
            out.push(p);
        }
        i = i + 1;
    }
    proof {
        assert(all.take(all.len() as int) =~= all);
    }
    out
}

fn is_walked_exec(files: &[StampedFile], root: &str, rel: &str) -> (r: bool)
    ensures
        r == is_walked(stamped_texts(files@), root@, rel@),
{
    let ghost all = stamped_texts(files@);
    let mut i: usize = 0;
    while i < files.len()
        invariant
            i <= files@.len(),
            all == stamped_texts(files@),
            forall|j: int| 0 <= j < i ==> relative_spec(#[trigger] all[j].0, root@) != rel@,
        decreases files@.len() - i,
    {
        proof {
            assert(all[i as int].0 == files@[i as int].path@);
        }
        let here = relative(files[i].path.as_str(), root);
        if same_text(here.as_str(), rel) {
            return true;
        }
        i = i + 1;
    }
    false
}

fn gone_files(
    refreshing: bool,
    files: &[StampedFile],
    stamps: &[(String, FileStamp)],
    root: &str,
) -> (r: Vec<String>)
    ensures
        texts(r@) == files_to_remove(
            refreshing,
            stamped_texts(files@),
            stamp_texts(stamps@),
            root@,
        ),
{
    let ghost fs = stamped_texts(files@);
    let ghost pred = |e: (Seq<char>, FileStamp)| !is_walked(fs, root@, e.0);
    let ghost path = |e: (Seq<char>, FileStamp)| e.0;
    let ghost all = stamp_texts(stamps@);
    let mut out: Vec<String> = Vec::new();
    let mut i: usize = 0;
    proof {
        reveal(Seq::filter);
        assert(texts(out@) =~= all.take(0).filter(pred).map_values(path));
        assert(texts(out@) =~= Seq::<Seq<char>>::empty());
    }
    if !refreshing {
        return out;
    }
    while i < stamps.len()
        invariant
            i <= stamps@.len(),
            all == stamp_texts(stamps@),
            fs == stamped_texts(files@),
            pred == (|e: (Seq<char>, FileStamp)| !is_walked(fs, root@, e.0)),
            path == (|e: (Seq<char>, FileStamp)| e.0),
            texts(out@) == all.take(i as int).filter(pred).map_values(path),
        decreases stamps@.len() - i,
    {
        proof {
            reveal(Seq::filter);
            assert(all.take(i + 1).drop_last() =~= all.take(i as int));
            assert(all.take(i + 1).last() == (stamps@[i as int].0@, stamps@[i as int].1));
        }
        if !is_walked_exec(files, root, stamps[i].0.as_str()) {
            let p = stamps[i].0.clone();
            proof {
                let kept = all.take(i as int).filter(pred);
                assert(texts(out@.push(p)) =~= texts(out@).push(p@));
                assert(kept.push(all[i as int]).map_values(path) =~= kept.map_values(path).push(
                    p@,
                ));
            }
            out.push(p);
        }
        i = i + 1;
    }
    proof {
        assert(all.take(all.len() as int) =~= all);
    }
    out
}

/// Plans a build: an existing map is refreshed file by file, one under other rules is built
/// anew. Whatever the map holds and the walk did not list is retracted.
pub fn plan_definition_build(
    refreshing: bool,
    files: &[StampedFile],
    stamps: &[(String, FileStamp)],
    root: &str,
) -> (r: DefinitionPlan)
    ensures
        ({
            let parse = files_to_parse(
                refreshing,
                stamped_texts(files@),
                stamp_texts(stamps@),
                root@,
            );
            let removed = files_to_remove(
                refreshing,
                stamped_texts(files@),
                stamp_texts(stamps@),
                root@,
            );
            &&& texts(r.files@) == sort_stable(parse, path_order())
            &&& texts(r.removed@) == removed
            &&& r.up_to_date == (refreshing && parse.len() == 0 && removed.len() == 0)
        }),
{
    let parse = changed_files(refreshing, files, stamps, root);
    let removed = gone_files(refreshing, files, stamps, root);
    proof {
        assert(texts(parse@).len() == parse@.len());
        assert(texts(removed@).len() == removed@.len());
    }
    let up_to_date = refreshing && parse.len() == 0 && removed.len() == 0;
    let sorted = sort_paths(parse.as_slice());
    DefinitionPlan { files: sorted, removed, up_to_date }
}

/// The bounds of the batches of a build.
pub open spec fn chunk_end(start: int, total: int) -> int {
    if start + DEFINITION_BUILD_CHUNK_FILES < total {
        start + DEFINITION_BUILD_CHUNK_FILES
    } else {
        total
    }
}

/// The next batch: where it ends, and whether progress is reported after it, with the count
/// at which the next report is due.
pub fn next_chunk(start: usize, total: usize, refreshing: bool, next_report: usize) -> (r: (
    usize,
    bool,
    usize,
))
    requires
        start <= total,
    ensures
        r.0 == chunk_end(start as int, total as int),
        r.1 == (!refreshing && r.0 >= next_report),
        r.2 == (if r.1 && next_report <= usize::MAX - DEFINITION_BUILD_PROGRESS_FILES {
            (next_report + DEFINITION_BUILD_PROGRESS_FILES) as usize
        } else if r.1 {
            usize::MAX
        } else {
            next_report
        }),
{
    let end: usize = if total - start > DEFINITION_BUILD_CHUNK_FILES {
        start + DEFINITION_BUILD_CHUNK_FILES
    } else {
        total
    };
    if !refreshing && end >= next_report {
        let next: usize = if next_report <= usize::MAX - DEFINITION_BUILD_PROGRESS_FILES {
            next_report + DEFINITION_BUILD_PROGRESS_FILES
        } else {
            usize::MAX
        };
        (end, true, next)
    } else {
        (end, false, next_report)
    }
}

/// Every batch but an empty remainder makes headway and stays within its size.
pub proof fn law_batches_make_headway(start: int, total: int)
    requires
        0 <= start < total,
    ensures
        start < chunk_end(start, total) <= total,
        chunk_end(start, total) - start <= DEFINITION_BUILD_CHUNK_FILES,
{
}

/// Some file of the walk has this path and is not as the map describes it.
pub open spec fn has_changed(
    files: Seq<(Seq<char>, Option<FileStamp>)>,
    stamps: Seq<(Seq<char>, FileStamp)>,
    root: Seq<char>,
    path: Seq<char>,
) -> bool {
    exists|i: int|
        0 <= i < files.len() && (#[trigger] files[i]).0 == path && !is_unchanged(
            stamps,
            root,
            files[i],
        )
}

/// A refresh reads only files that have changed, and retracts no file that is still there.
pub proof fn law_refresh_leaves_current_files(
    files: Seq<(Seq<char>, Option<FileStamp>)>,
    stamps: Seq<(Seq<char>, FileStamp)>,
    root: Seq<char>,
)
    ensures
        forall|k: int|
            0 <= k < files_to_parse(true, files, stamps, root).len() ==> has_changed(
                files,
                stamps,
                root,
                #[trigger] files_to_parse(true, files, stamps, root)[k],
            ),
        forall|i: int|
            0 <= i < files.len() ==> !files_to_remove(true, files, stamps, root).contains(
                relative_spec((#[trigger] files[i]).0, root),
            ),
{
    let changed = |f: (Seq<char>, Option<FileStamp>)| !is_unchanged(stamps, root, f);
    let gone = |e: (Seq<char>, FileStamp)| !is_walked(files, root, e.0);
    let read = files.filter(changed);
    let kept = stamps.filter(gone);
    lemma_filtered_are_members(files, changed);
    lemma_filtered_are_members(stamps, gone);
    let parse = files_to_parse(true, files, stamps, root);
    let removed = files_to_remove(true, files, stamps, root);
    assert forall|k: int| 0 <= k < parse.len() implies has_changed(
        files,
        stamps,
        root,
        #[trigger] parse[k],
    ) by {
        assert(parse[k] == read[k].0);
        assert(changed(read[k]));
        assert(files.contains(read[k]));
        let i = choose|i: int| 0 <= i < files.len() && files[i] == read[k];
        assert(files[i].0 == parse[k]);
    }
    assert forall|i: int| 0 <= i < files.len() implies !removed.contains(
        relative_spec((#[trigger] files[i]).0, root),
    ) by {
        let rel = relative_spec(files[i].0, root);
        if removed.contains(rel) {
            let k = choose|k: int| 0 <= k < removed.len() && removed[k] == rel;
            assert(kept[k].0 == rel);
            assert(gone(kept[k]));
            assert(is_walked(files, root, rel));
        }
    }
}

// ---- sources that come and go with the manifest ----

/// The C and C++ sources that have symbols, each once.
pub open spec fn indexed_sources(symbols: Seq<SymbolText>) -> Seq<Seq<char>>
    decreases symbols.len(),
{
    if symbols.len() == 0 {
        Seq::empty()
    } else {
        let front = indexed_sources(symbols.drop_last());
        let file = symbols.last().file_path;
        if is_c_source(file) && !front.contains(file) {
            front.push(file)
        } else {
            front
        }
    }
}

pub fn indexed_source_files(symbols: &[Symbol]) -> (r: Vec<String>)
    ensures
        texts(r@) == indexed_sources(symbol_texts(symbols@)),
{
    let ghost all = symbol_texts(symbols@);
    let mut out: Vec<String> = Vec::new();
    let mut i: usize = 0;
    proof {
        assert(texts(out@) =~= Seq::<Seq<char>>::empty());
    }
    while i < symbols.len()
        invariant
            i <= symbols@.len(),
            all == symbol_texts(symbols@),
            texts(out@) == indexed_sources(all.take(i as int)),
        decreases symbols@.len() - i,
    {
        proof {
            assert(all.take(i + 1).drop_last() =~= all.take(i as int));
            assert(all.take(i + 1).last() == symbols@[i as int]@);
        }
        let ext = ext_of(symbols[i].file_path.as_str());
        if is_c_source_ext(ext.as_str()) && !has_text(
            out.as_slice(),
            symbols[i].file_path.as_str(),
        ) {
            let f = symbols[i].file_path.clone();
            proof {
                assert(texts(out@.push(f)) =~= texts(out@).push(f@));
            }
            out.push(f);
        }
        i = i + 1;
    }
    proof {
        assert(all.take(all.len() as int) =~= all);
    }
    out
}

/// A listed source that is to be indexed now: inside the repository, not indexed yet, and
/// within the index filter.
pub open spec fn is_added(
    file: Seq<char>,
    root: Seq<char>,
    indexed: Seq<Seq<char>>,
    filtered: bool,
    rules: Seq<RuleText>,
) -> bool {
    match strip_base(file, root) {
        None => false,
        Some(rel) => !indexed.contains(rel) && (!filtered || scope_names(rules, rel, file)),
    }
}

/// The sources a changed manifest brings in, in the order it lists them.
pub fn manifest_additions(
    compiled: &[String],
    root: &str,
    indexed: &[String],
    filtered: bool,
    rules: &[ScopeRule],
) -> (r: Vec<String>)
    ensures
        texts(r@) == texts(compiled@).filter(
            |f: Seq<char>| is_added(f, root@, texts(indexed@), filtered, rule_texts(rules@)),
        ),
{
    let ghost pred = |f: Seq<char>|
        is_added(f, root@, texts(indexed@), filtered, rule_texts(rules@));
    let ghost all = texts(compiled@);
    let mut out: Vec<String> = Vec::new();
    let mut i: usize = 0;
    proof {
        reveal(Seq::filter);
        assert(texts(out@) =~= all.take(0).filter(pred));
    }
    while i < compiled.len()
        invariant
            i <= compiled@.len(),
            all == texts(compiled@),
            pred == (|f: Seq<char>|
                is_added(f, root@, texts(indexed@), filtered, rule_texts(rules@))),
            texts(out@) == all.take(i as int).filter(pred),
        decreases compiled@.len() - i,
    {
        proof {
            reveal(Seq::filter);
            assert(all.take(i + 1).drop_last() =~= all.take(i as int));
            assert(all.take(i + 1).last() == compiled@[i as int]@);
        }
        let added = match strip(compiled[i].as_str(), root) {
            None => false,
            Some(rel) => !has_text(indexed, rel.as_str()) && (!filtered || scope_matches(
                rules,
                rel.as_str(),
                compiled[i].as_str(),
            )),
        };
        if added {
            let f = compiled[i].clone();
            proof {
                assert(texts(out@.push(f)) =~= texts(out@).push(f@));
            }
            out.push(f);
        }
        i = i + 1;
    }
    proof {
        assert(all.take(all.len() as int) =~= all);
    }
    out
}

/// An indexed source: its repo-relative path, and that path resolved where it exists.
#[derive(Debug)]
pub struct IndexedSource {
    pub relative_path: String,
    pub canonical: Option<String>,
}

pub open spec fn source_texts(v: Seq<IndexedSource>) -> Seq<(Seq<char>, Option<Seq<char>>)> {
    v.map_values(|s: IndexedSource| (s.relative_path@, opt_text(s.canonical)))
}

/// The manifest no longer lists the source, or it is gone.
pub open spec fn is_dropped(s: (Seq<char>, Option<Seq<char>>), compiled: Seq<Seq<char>>) -> bool {
    match s.1 {
        Some(c) => !compiled.contains(c),
        None => true,
    }
}

/// The sources a changed manifest takes out, by their repo-relative paths.
pub fn manifest_removals(indexed: &[IndexedSource], compiled: &[String]) -> (r: Vec<String>)
    ensures
        texts(r@) == source_texts(indexed@).filter(
            |s: (Seq<char>, Option<Seq<char>>)| is_dropped(s, texts(compiled@)),
        ).map_values(|s: (Seq<char>, Option<Seq<char>>)| s.0),
{
    let ghost pred = |s: (Seq<char>, Option<Seq<char>>)| is_dropped(s, texts(compiled@));
    let ghost path = |s: (Seq<char>, Option<Seq<char>>)| s.0;
    let ghost all = source_texts(indexed@);
    let mut out: Vec<String> = Vec::new();
    let mut i: usize = 0;
    proof {
        reveal(Seq::filter);
        assert(texts(out@) =~= all.take(0).filter(pred).map_values(path));
    }
    while i < indexed.len()
        invariant
            i <= indexed@.len(),
            all == source_texts(indexed@),
            pred == (|s: (Seq<char>, Option<Seq<char>>)| is_dropped(s, texts(compiled@))),
            path == (|s: (Seq<char>, Option<Seq<char>>)| s.0),
            texts(out@) == all.take(i as int).filter(pred).map_values(path),
        decreases indexed@.len() - i,
    {
        proof {
            reveal(Seq::filter);
            assert(all.take(i + 1).drop_last() =~= all.take(i as int));
            assert(all.take(i + 1).last() == all[i as int]);
        }
        let dropped = match &indexed[i].canonical {
            Some(c) => !has_text(compiled, c.as_str()),
            None => true,
        };
        if dropped {
            let f = indexed[i].relative_path.clone();
            proof {
                let kept = all.take(i as int).filter(pred);
                assert(texts(out@.push(f)) =~= texts(out@).push(f@));
                assert(kept.push(all[i as int]).map_values(path) =~= kept.map_values(path).push(
                    f@,
                ));
            }
            out.push(f);
        }
        i = i + 1;
    }
    proof {
        assert(all.take(all.len() as int) =~= all);
    }
    out
}

/// Some listed source of the repository lies in the language-server scope.
pub open spec fn lists_scoped(
    compiled: Seq<Seq<char>>,
    root: Seq<char>,
    rules: Seq<RuleText>,
) -> bool {
    exists|i: int|
        0 <= i < compiled.len() && (strip_base(#[trigger] compiled[i], root) matches Some(rel)
            && scope_names(rules, rel, compiled[i]))
}

/// Whether the language-server scope applies to a repository whose manifest changed.
pub fn delta_scoped(compiled: &[String], root: &str, rules: &[ScopeRule]) -> (r: bool)
    ensures
        r == lists_scoped(texts(compiled@), root@, rule_texts(rules@)),
{
    let ghost all = texts(compiled@);
    let ghost rs = rule_texts(rules@);
    let mut i: usize = 0;
    while i < compiled.len()
        invariant
            i <= compiled@.len(),
            all == texts(compiled@),
            rs == rule_texts(rules@),
            forall|j: int|
                0 <= j < i ==> !(strip_base(#[trigger] all[j], root@) matches Some(rel)
                    && scope_names(rs, rel, all[j])),
        decreases compiled@.len() - i,
    {
        proof {
            assert(all[i as int] == compiled@[i as int]@);
        }
        match strip(compiled[i].as_str(), root) {
            Some(rel) => {
                if scope_matches(rules, rel.as_str(), compiled[i].as_str()) {
                    return true;
                }
            },
            None => {},
        }
        i = i + 1;
    }
    false
}

} // verus!
