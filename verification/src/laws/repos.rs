//! Which repository an argument names, and which ones stay.

use vstd::prelude::*;

use crate::engine::{ArgText, EngineText};
use crate::laws::lists::{lemma_filter_members, lemma_map_members, lemma_sorted_members};
use crate::order::{dedup_texts, sort_stable};
use crate::paths::{components_of, file_name_spec, is_under, path_order};
use crate::registry::{
    all_state_bytes, by_name_spec, crosses_boundary, deadline_spec, first_standing, goes_by,
    idle_spec, known_paths, low_bytes, repo_key_spec, repo_state, stamped, state_bytes,
    stays_cached, without_path, FileTimeText, RegisteredText, RepoErrorText, RepoOrigin,
};
use crate::text::{contains_text, trim_end_text};

verus! {

/// The repository a place stands for is a known one that the place is, or lies in without a
/// checkout of its own in between.
pub proof fn law_a_place_stands_for_its_repo(
    roots: Seq<Seq<char>>,
    place: Seq<char>,
    git_dirs: Seq<Seq<char>>,
    root: Seq<char>,
)
    requires
        first_standing(roots, place, git_dirs) == Some(root),
    ensures
        roots.contains(root),
        place == root || (exists|rest: Seq<Seq<char>>|
            components_of(place) == #[trigger] (components_of(root) + rest)),
        place == root || !crosses_boundary(root, place, git_dirs),
    decreases roots.len(),
{
    if roots[0] == root && crate::registry::stands_for(roots[0], place, git_dirs) {
        assert(roots.contains(roots[0]));
        let r = components_of(root);
        let p = components_of(place);
        if is_under(place, root) {
            assert(p =~= r + p.skip(r.len() as int));
        }
    } else {
        let rest = roots.skip(1);
        law_a_place_stands_for_its_repo(rest, place, git_dirs, root);
        let k = choose|k: int| 0 <= k < rest.len() && rest[k] == root;
        assert(roots[k + 1] == root);
    }
}

/// A place inside a known repository, with no checkout in between, stands for some known one.
pub proof fn law_a_place_inside_a_repo_is_found(
    roots: Seq<Seq<char>>,
    place: Seq<char>,
    git_dirs: Seq<Seq<char>>,
    i: int,
    rest: Seq<Seq<char>>,
)
    requires
        0 <= i < roots.len(),
        place == roots[i] || (components_of(place) == components_of(roots[i]) + rest
            && !crosses_boundary(roots[i], place, git_dirs)),
    ensures
        first_standing(roots, place, git_dirs) is Some,
    decreases roots.len(),
{
    if place != roots[i] {
        crate::laws::paths::law_a_path_goes_on_from_its_base(place, roots[i], rest);
    }
    if i > 0 && !crate::registry::stands_for(roots[0], place, git_dirs) {
        assert(roots.skip(1)[i - 1] == roots[i]);
        law_a_place_inside_a_repo_is_found(roots.skip(1), place, git_dirs, i - 1, rest);
    }
}

/// A checkout below a repository is not the repository's: a place in it does not stand for the
/// repository.
pub proof fn law_a_checkout_below_is_its_own(
    root: Seq<char>,
    place: Seq<char>,
    git_dirs: Seq<Seq<char>>,
    i: int,
)
    requires
        0 <= i < git_dirs.len(),
        is_under(place, git_dirs[i]),
        is_under(git_dirs[i], root),
        components_of(git_dirs[i]).len() > components_of(root).len(),
        place != root,
    ensures
        first_standing(seq![root], place, git_dirs) is None,
{
    let one = seq![root];
    assert(crosses_boundary(root, place, git_dirs));
    assert(one.skip(1) =~= Seq::<Seq<char>>::empty());
    reveal_with_fuel(first_standing, 2);
}

proof fn lemma_dedup_members(s: Seq<Seq<char>>, x: Seq<char>)
    ensures
        dedup_texts(s).contains(x) <==> s.contains(x),
    decreases s.len(),
{
    if s.len() > 0 {
        let front = s.drop_last();
        lemma_dedup_members(front, x);
        let d = dedup_texts(front);
        let all = dedup_texts(s);
        if s.contains(x) {
            let k = choose|k: int| 0 <= k < s.len() && s[k] == x;
            if k < front.len() {
                assert(front[k] == x);
                let j = choose|j: int| 0 <= j < d.len() && d[j] == x;
                assert(all[j] == x);
            } else if s.len() > 1 && s[s.len() - 2] == s.last() {
                assert(front[front.len() - 1] == x);
                assert(front.contains(x));
            } else {
                assert(all[all.len() - 1] == x);
            }
        }
        if all.contains(x) {
            let j = choose|j: int| 0 <= j < all.len() && all[j] == x;
            if j < d.len() {
                assert(d[j] == x);
                let k = choose|k: int| 0 <= k < front.len() && front[k] == x;
                assert(s[k] == x);
            } else {
                assert(s[s.len() - 1] == x);
            }
        }
    }
}

/// What is known is what is indexed or registered.
pub proof fn law_known_repos_are_indexed_or_registered(
    indexed: Seq<Seq<char>>,
    registered: Seq<Seq<char>>,
    path: Seq<char>,
)
    ensures
        known_paths(indexed, registered).contains(path) <==> indexed.contains(path)
            || registered.contains(path),
{
    let both = indexed + registered;
    lemma_dedup_members(sort_stable(both, path_order()), path);
    lemma_sorted_members(both, path_order(), path);
    if indexed.contains(path) {
        let k = choose|k: int| 0 <= k < indexed.len() && indexed[k] == path;
        assert(both[k] == path);
    }
    if registered.contains(path) {
        let k = choose|k: int| 0 <= k < registered.len() && registered[k] == path;
        assert(both[indexed.len() + k] == path);
    }
    if both.contains(path) {
        let k = choose|k: int| 0 <= k < both.len() && both[k] == path;
        if k < indexed.len() {
            assert(indexed[k] == path);
        } else {
            assert(registered[k - indexed.len()] == path);
        }
    }
}

/// Without an argument the only known repository is meant, and where there are two it has to
/// be named.
pub proof fn law_an_empty_argument_means_the_only_repo(
    resolved: Option<Seq<char>>,
    indexed: Seq<Seq<char>>,
    registered: Seq<Seq<char>>,
    git_dirs: Seq<Seq<char>>,
    a: Seq<char>,
    b: Seq<char>,
)
    requires
        indexed.contains(a) || registered.contains(a),
        indexed.contains(b) || registered.contains(b),
    ensures
        a != b ==> repo_key_spec(Seq::empty(), resolved, indexed, registered, git_dirs) == Err::<
            Seq<char>,
            RepoErrorText,
        >(RepoErrorText::Missing),
        repo_key_spec(Seq::empty(), resolved, indexed, registered, git_dirs) matches Ok(k) ==> k
            == a,
{
    let known = known_paths(indexed, registered);
    law_known_repos_are_indexed_or_registered(indexed, registered, a);
    law_known_repos_are_indexed_or_registered(indexed, registered, b);
    let i = choose|i: int| 0 <= i < known.len() && known[i] == a;
    let j = choose|j: int| 0 <= j < known.len() && known[j] == b;
    assert(0 <= i < known.len() && 0 <= j < known.len());
}

/// The one known repository needs no name.
pub proof fn law_a_single_repo_needs_no_name(
    resolved: Option<Seq<char>>,
    path: Seq<char>,
    git_dirs: Seq<Seq<char>>,
)
    ensures
        repo_key_spec(Seq::empty(), resolved, seq![path], Seq::empty(), git_dirs) == Ok::<
            Seq<char>,
            RepoErrorText,
        >(path),
        repo_key_spec(Seq::empty(), resolved, seq![path], seq![path], git_dirs) == Ok::<
            Seq<char>,
            RepoErrorText,
        >(path),
{
    let none = Seq::<Seq<char>>::empty();
    let one = seq![path];
    let two = seq![path, path];
    assert(one + none =~= one);
    assert(one + one =~= two);
    reveal_with_fuel(sort_stable, 3);
    reveal_with_fuel(crate::order::insert_by, 3);
    reveal_with_fuel(dedup_texts, 3);
    assert(one.drop_last() =~= none);
    assert(two.drop_last() =~= one);
    let lt = path_order();
    assert(sort_stable(one, lt) =~= one);
    let s = sort_stable(two, lt);
    assert(s.len() == 2 && s[0] == path && s[1] == path) by {
        if lt(path, path) {
            assert(crate::order::insert_by(one, path, lt) == crate::order::insert_by(
                one.drop_last(),
                path,
                lt,
            ).push(path));
        }
    }
    assert(s =~= two);
    assert(dedup_texts(one) =~= one);
    assert(dedup_texts(two) =~= one);
}

/// A bare name means the known repository of that directory name: the one found has it, with
/// or without `.git` behind, and is the only one that does.
pub proof fn law_a_name_means_the_only_repo_of_that_name(known: Seq<Seq<char>>, name: Seq<char>)
    ensures
        by_name_spec(known, name) matches Ok(k) ==> known.contains(k) && goes_by(k, name) && forall|
            p: Seq<char>,
        |
            #[trigger] known.contains(p) && goes_by(p, name) ==> p == k,
        (forall|p: Seq<char>| #[trigger] known.contains(p) ==> !goes_by(p, name)) ==> by_name_spec(
            known,
            name,
        ) == Err::<Seq<char>, RepoErrorText>(RepoErrorText::NotFound { name }),
        by_name_spec(known, name) matches Err(RepoErrorText::NotFound { .. }) ==> forall|
            p: Seq<char>,
        |
            #[trigger] known.contains(p) ==> !goes_by(p, name),
{
    let pred = |p: Seq<char>| goes_by(p, name);
    let matches = known.filter(pred);
    assert forall|p: Seq<char>| #[trigger] known.contains(p) && goes_by(p, name) implies matches.contains(
        p,
    ) by {
        lemma_filter_members(known, pred, p);
    }
    if matches.len() > 0 {
        assert(matches.contains(matches[0]));
        lemma_filter_members(known, pred, matches[0]);
    }
    if matches.len() == 1 {
        assert forall|p: Seq<char>| #[trigger] known.contains(p) && goes_by(p, name) implies p
            == matches[0] by {
            let k = choose|k: int| 0 <= k < matches.len() && matches[k] == p;
            assert(k == 0);
        }
    }
    if matches.len() == 0 {
        assert forall|p: Seq<char>| #[trigger] known.contains(p) implies !goes_by(p, name) by {
            if goes_by(p, name) {
                assert(matches.contains(p));
            }
        }
    }
}

/// A repository goes by its directory's name, and by that name without `.git`.
pub proof fn law_a_repo_goes_by_its_directory(path: Seq<char>, name: Seq<char>)
    requires
        file_name_spec(path) == Some(name) || (file_name_spec(path) == Some(name + ".git"@)
            && !".git"@.is_suffix_of(name)),
    ensures
        goes_by(path, name),
{
    reveal_strlit(".git");
    let git = ".git"@;
    if file_name_spec(path) != Some(name) {
        let full = name + git;
        assert(full.subrange(full.len() - git.len(), full.len() as int) =~= git);
        assert(full.take(full.len() - git.len()) =~= name);
        reveal_with_fuel(trim_end_text, 2);
        assert(trim_end_text(full, git) == name);
    }
}

/// A path argument is looked up among the indexed repositories first, and never by its name.
pub proof fn law_a_path_argument_is_looked_up_by_place(
    input: Seq<char>,
    place: Seq<char>,
    indexed: Seq<Seq<char>>,
    registered: Seq<Seq<char>>,
    git_dirs: Seq<Seq<char>>,
)
    requires
        input.contains('/'),
    ensures
        first_standing(indexed, place, git_dirs) matches Some(root) ==> repo_key_spec(
            input,
            Some(place),
            indexed,
            registered,
            git_dirs,
        ) == Ok::<Seq<char>, RepoErrorText>(root),
        first_standing(indexed, place, git_dirs) is None ==> (first_standing(
            registered,
            place,
            git_dirs,
        ) matches Some(root) ==> repo_key_spec(
            input,
            Some(place),
            indexed,
            registered,
            git_dirs,
        ) == Ok::<Seq<char>, RepoErrorText>(root)),
        repo_key_spec(input, None, indexed, registered, git_dirs) is Err,
{
    reveal_strlit("/");
    let k = choose|k: int| 0 <= k < input.len() && input[k] == '/';
    assert(input.subrange(k, k + 1) =~= "/"@);
    assert(crate::text::occurs_at(input, "/"@, k));
    assert(contains_text(input, "/"@));
}

/// Naming a repository stamps its use and touches no other.
pub proof fn law_naming_stamps_one_repo(
    list: Seq<RegisteredText>,
    path: Seq<char>,
    now: u64,
    i: int,
)
    requires
        0 <= i < list.len(),
    ensures
        stamped(list, path, now).len() == list.len(),
        stamped(list, path, now)[i].path == list[i].path,
        stamped(list, path, now)[i].origin == list[i].origin,
        list[i].path == path ==> stamped(list, path, now)[i].last_used == now,
        list[i].path != path ==> stamped(list, path, now)[i] == list[i],
{
}

/// A repository is swept exactly where it was adopted and not used for the time.
pub proof fn law_what_is_swept(
    list: Seq<RegisteredText>,
    now: u64,
    ttl: u64,
    path: Seq<char>,
)
    ensures
        idle_spec(list, deadline_spec(now, ttl)).contains(path) <==> exists|i: int|
            0 <= i < list.len() && (#[trigger] list[i]).path == path && list[i].origin
                == RepoOrigin::Adopted && list[i].last_used + ttl < now,
{
    let deadline = deadline_spec(now, ttl);
    let pred = |r: RegisteredText| crate::registry::is_idle(r, deadline);
    let f = |r: RegisteredText| r.path;
    let idle = list.filter(pred);
    if idle_spec(list, deadline).contains(path) {
        let k = choose|k: int|
            0 <= k < idle.map_values(f).len() && idle.map_values(f)[k] == path;
        assert(idle.contains(idle[k]));
        lemma_filter_members(list, pred, idle[k]);
        let i = choose|i: int| 0 <= i < list.len() && list[i] == idle[k];
        assert(list[i].path == path);
    }
    if exists|i: int|
        0 <= i < list.len() && (#[trigger] list[i]).path == path && list[i].origin
            == RepoOrigin::Adopted && list[i].last_used + ttl < now {
        let i = choose|i: int|
            0 <= i < list.len() && (#[trigger] list[i]).path == path && list[i].origin
                == RepoOrigin::Adopted && list[i].last_used + ttl < now;
        assert(list.contains(list[i]));
        lemma_filter_members(list, pred, list[i]);
        lemma_map_members(idle, f, list[i]);
    }
}

/// When a repository goes, its cached files go with it, and no other's.
pub proof fn law_whose_files_go(
    file: Seq<char>,
    path: Seq<char>,
    registered: Seq<Seq<char>>,
)
    ensures
        !is_under(file, path) ==> stays_cached(file, path, registered),
        is_under(file, path) && (forall|i: int|
            0 <= i < registered.len() && #[trigger] registered[i] != path ==> !is_under(
                file,
                registered[i],
            )) ==> !stays_cached(file, path, registered),
{
}

/// A repository that is forgotten is registered no more, and the others stay as they were.
pub proof fn law_forgetting_takes_one_registration(
    list: Seq<RegisteredText>,
    path: Seq<char>,
    r: RegisteredText,
)
    ensures
        without_path(list, path).contains(r) <==> list.contains(r) && r.path != path,
{
    let pred = |x: RegisteredText| x.path != path;
    lemma_filter_members(list, pred, r);
}

proof fn lemma_low_bytes_len(n: nat, count: nat)
    ensures
        low_bytes(n, count).len() == count,
    decreases count,
{
    if count > 0 {
        lemma_low_bytes_len(n / 256, (count - 1) as nat);
    }
}

/// Two times are not written alike in the bytes a repository's state is made of.
pub proof fn law_times_are_told_apart(a: nat, b: nat, count: nat)
    requires
        low_bytes(a, count) == low_bytes(b, count),
        a < vstd::arithmetic::power::pow(256, count),
        b < vstd::arithmetic::power::pow(256, count),
    ensures
        a == b,
    decreases count,
{
    if count > 0 {
        let c = (count - 1) as nat;
        lemma_low_bytes_len(a, count);
        lemma_low_bytes_len(b, count);
        let x = low_bytes(a, count);
        let y = low_bytes(b, count);
        assert(x[0] == (a % 256) as u8);
        assert(y[0] == (b % 256) as u8);
        assert(x.skip(1) =~= low_bytes(a / 256, c));
        assert(y.skip(1) =~= low_bytes(b / 256, c));
        vstd::arithmetic::power::lemma_pow_adds(256, 1, c);
        vstd::arithmetic::power::lemma_pow1(256);
        assert(256 * vstd::arithmetic::power::pow(256, c) == vstd::arithmetic::power::pow(
            256,
            count,
        ));
        law_times_are_told_apart(a / 256, b / 256, c);
        assert(a == 256 * (a / 256) + a % 256);
        assert(b == 256 * (b / 256) + b % 256);
    } else {
        vstd::arithmetic::power::lemma_pow0(256);
    }
}

/// The engine resolves an argument among the indexed and registered repositories that are
/// still there.
pub proof fn law_an_argument_resolves_to_a_repo_that_is_there(state: EngineText, arg: ArgText)
    requires
        state.key_of(arg) is Ok,
    ensures
        !arg.missing.contains(state.key_of(arg)->Ok_0),
        (exists|i: int|
            0 <= i < state.repos.len() && (#[trigger] state.repos[i]).key == state.key_of(
                arg,
            )->Ok_0) || (exists|i: int|
            0 <= i < state.registered.len() && (#[trigger] state.registered[i]).path
                == state.key_of(arg)->Ok_0),
{
    let k = state.key_of(arg)->Ok_0;
    let there = |p: Seq<char>| !arg.missing.contains(p);
    let keys = crate::engine::repo_keys(state.repos);
    let paths = crate::engine::registered_paths(state.registered);
    let indexed = keys.filter(there);
    let registered = paths.filter(there);
    let known = known_paths(indexed, registered);
    assert(indexed.contains(k) || registered.contains(k)) by {
        law_known_repos_are_indexed_or_registered(indexed, registered, k);
        if arg.input.len() == 0 {
            assert(known.contains(known[0]));
        } else if !crate::registry::is_path_argument(arg.input) {
            law_a_name_means_the_only_repo_of_that_name(known, arg.input);
        } else {
            let place = arg.resolved->0;
            if first_standing(indexed, place, arg.git_dirs) is Some {
                law_a_place_stands_for_its_repo(indexed, place, arg.git_dirs, k);
            } else {
                law_a_place_stands_for_its_repo(registered, place, arg.git_dirs, k);
            }
        }
    }
    lemma_filter_members(keys, there, k);
    lemma_filter_members(paths, there, k);
    if indexed.contains(k) {
        let i = choose|i: int| 0 <= i < keys.len() && keys[i] == k;
        assert(state.repos[i].key == k);
    } else {
        let i = choose|i: int| 0 <= i < paths.len() && paths[i] == k;
        assert(state.registered[i].path == k);
    }
}

/// The state of a repository is that of its own files: a file elsewhere does not count.
pub proof fn law_files_elsewhere_do_not_count(
    files: Seq<FileTimeText>,
    f: FileTimeText,
    repo: Seq<char>,
)
    requires
        !is_under(f.path, repo),
    ensures
        repo_state(files.push(f), repo) == repo_state(files, repo),
{
    reveal(Seq::filter);
    assert(files.push(f).drop_last() =~= files);
}

/// It is made of the path and the time of each of them.
pub proof fn law_what_a_state_is_made_of(files: Seq<FileTimeText>, f: FileTimeText, secs: u64)
    ensures
        all_state_bytes(files.push(f)) == all_state_bytes(files) + state_bytes(f),
        f.modified_secs == Some(secs) ==> state_bytes(f) == vstd::utf8::encode_utf8(f.path)
            + low_bytes(secs as nat, 8),
        f.modified_secs is None ==> state_bytes(f) == vstd::utf8::encode_utf8(f.path),
{
    assert(files.push(f).drop_last() =~= files);
    assert(vstd::utf8::encode_utf8(f.path) + Seq::<u8>::empty() =~= vstd::utf8::encode_utf8(
        f.path,
    ));
}

} // verus!
