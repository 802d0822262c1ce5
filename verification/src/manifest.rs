//! The build manifest: the sources it lists, the header directories it names, and how
//! header names resolve to files of the repository.

use vstd::prelude::*;

use crate::order::lemma_filtered_are_members;
use crate::paths::{
    all_plain, file_name, file_name_spec, is_absolute, is_absolute_spec, is_under, join_path,
    join_path_spec, lists_path, names_path, normalize_lexically, normalize_spec, plain_paths,
    same_path, under,
};
use crate::text::{
    ends_with, has_text, opt_text, opt_texts, same_text, starts_with, sub_text, texts, to_chars,
    words, words_of,
};

verus! {

/// An entry of a build manifest. An argument that is no string is `None`.
#[derive(Debug)]
pub struct CompileCommand {
    pub file: Option<String>,
    pub directory: Option<String>,
    pub arguments: Option<Vec<Option<String>>>,
    pub command: Option<String>,
}

pub struct CommandText {
    pub file: Option<Seq<char>>,
    pub directory: Option<Seq<char>>,
    pub arguments: Option<Seq<Option<Seq<char>>>>,
    pub command: Option<Seq<char>>,
}

impl View for CompileCommand {
    type V = CommandText;

    open spec fn view(&self) -> CommandText {
        CommandText {
            file: opt_text(self.file),
            directory: opt_text(self.directory),
            arguments: match self.arguments {
                Some(list) => Some(opt_texts(list@)),
                None => None,
            },
            command: opt_text(self.command),
        }
    }
}

pub open spec fn command_texts(v: Seq<CompileCommand>) -> Seq<CommandText> {
    v.map_values(|c: CompileCommand| c@)
}

/// The entries of a manifest: what its JSON text holds, where it is an array.
pub uninterp spec fn manifest_entries(content: Seq<char>) -> Option<Seq<CommandText>>;

/// `serde_json::from_str` to a `Value`: `None` where the text does not parse or is no
/// array; otherwise one entry for each element, in order, with the fields found in it. A
/// field that is absent or of another type is `None`.
#[verifier::external_body]
fn parse_manifest(content: &str) -> (r: Option<Vec<CompileCommand>>)
    ensures
        (match r {
            Some(entries) => Some(command_texts(entries@)),
            None => None,
        }) == manifest_entries(content@),
{
    let parsed: serde_json::Value = serde_json::from_str(content).ok()?;
    let text = |v: &serde_json::Value| v.as_str().map(str::to_owned);
    let entry = |e: &serde_json::Value| CompileCommand {
        file: e.get("file").and_then(text),
        directory: e.get("directory").and_then(text),
        arguments: e.get("arguments").and_then(|a| a.as_array()).map(|a| a.iter().map(text).collect()),
        command: e.get("command").and_then(text),
    };
    parsed.as_array().map(|list| list.iter().map(entry).collect())
}

/// Reads the entries of a manifest; none where its text is no JSON array.
pub fn read_compile_commands(content: &str) -> (r: Option<Vec<CompileCommand>>)
    ensures
        (match r {
            Some(entries) => Some(command_texts(entries@)),
            None => None,
        }) == manifest_entries(content@),
{
    parse_manifest(content)
}

// ---- header directories ----

/// The strings among the arguments.
pub open spec fn string_args(list: Seq<Option<Seq<char>>>) -> Seq<Seq<char>>
    decreases list.len(),
{
    if list.len() == 0 {
        Seq::empty()
    } else {
        let front = string_args(list.drop_last());
        match list.last() {
            Some(a) => front.push(a),
            None => front,
        }
    }
}

/// The arguments of an entry: its list, or the words of its command line.
pub open spec fn entry_args(e: CommandText) -> Seq<Seq<char>> {
    match e.arguments {
        Some(list) => string_args(list),
        None => match e.command {
            Some(command) => words_of(command),
            None => Seq::empty(),
        },
    }
}

/// The flag an argument begins with that names a header directory.
pub open spec fn dir_flag(arg: Seq<char>) -> Option<Seq<char>> {
    if "-I"@.is_prefix_of(arg) {
        Some("-I"@)
    } else if "-isystem"@.is_prefix_of(arg) {
        Some("-isystem"@)
    } else if "-iquote"@.is_prefix_of(arg) {
        Some("-iquote"@)
    } else {
        None
    }
}

/// The header directories named by arguments, both joined to their flag and following it.
/// `awaiting` tells that a bare flag came just before.
pub open spec fn header_dirs(args: Seq<Seq<char>>, awaiting: bool) -> Seq<Seq<char>>
    decreases args.len(),
{
    if args.len() == 0 {
        Seq::empty()
    } else {
        let arg = args[0];
        let rest = args.skip(1);
        if awaiting {
            seq![arg] + header_dirs(rest, false)
        } else {
            match dir_flag(arg) {
                Some(flag) => if arg == flag {
                    header_dirs(rest, true)
                } else {
                    seq![arg.skip(flag.len() as int)] + header_dirs(rest, false)
                },
                None => header_dirs(rest, false),
            }
        }
    }
}

fn flag_of(arg: &str) -> (r: Option<&'static str>)
    ensures
        (match r {
            Some(f) => Some(f@),
            None => None,
        }) == dir_flag(arg@),
        r matches Some(f) ==> f@.is_prefix_of(arg@),
{
    if starts_with(arg, "-I") {
        Some("-I")
    } else if starts_with(arg, "-isystem") {
        Some("-isystem")
    } else if starts_with(arg, "-iquote") {
        Some("-iquote")
    } else {
        None
    }
}

fn args_of(e: &CompileCommand) -> (r: Vec<String>)
    ensures
        texts(r@) == entry_args(e@),
{
    match &e.arguments {
        Some(list) => {
            let ghost all = opt_texts(list@);
            let mut out: Vec<String> = Vec::new();
            let mut i: usize = 0;
            proof {
                assert(texts(out@) =~= Seq::<Seq<char>>::empty());
            }
            while i < list.len()
                invariant
                    i <= list@.len(),
                    all == opt_texts(list@),
                    texts(out@) == string_args(all.take(i as int)),
                decreases list@.len() - i,
            {
                proof {
                    assert(all.take(i + 1).drop_last() =~= all.take(i as int));
                    assert(all.take(i + 1).last() == opt_text(list@[i as int]));
                }
                match &list[i] {
                    Some(arg) => {
                        let a = arg.clone();
                        proof {
                            assert(texts(out@.push(a)) =~= texts(out@).push(a@));
                        }
                        out.push(a);
                    },
                    None => {},
                }
                i = i + 1;
            }
            proof {
                assert(all.take(all.len() as int) =~= all);
            }
            out
        },
        None => match &e.command {
            Some(command) => words(command.as_str()),
            None => {
                let out: Vec<String> = Vec::new();
                proof {
                    assert(texts(out@) =~= Seq::<Seq<char>>::empty());
                }
                out
            },
        },
    }
}

/// The header directories an entry names, in order.
pub fn entry_include_dirs(e: &CompileCommand) -> (r: Vec<String>)
    ensures
        texts(r@) == header_dirs(entry_args(e@), false),
{
    let args = args_of(e);
    let ghost all = texts(args@);
    let mut out: Vec<String> = Vec::new();
    let mut awaiting = false;
    let mut i: usize = 0;
    proof {
        assert(all.skip(0) =~= all);
        assert(texts(out@) + header_dirs(all, false) =~= header_dirs(all, false));
    }
    while i < args.len()
        invariant
            i <= args@.len(),
            all == texts(args@),
            texts(out@) + header_dirs(all.skip(i as int), awaiting) == header_dirs(all, false),
        decreases args@.len() - i,
    {
        let ghost rest = all.skip(i as int);
        let ghost done = texts(out@);
        proof {
            assert(rest[0] == args@[i as int]@);
            assert(rest.skip(1) =~= all.skip(i + 1));
        }
        if awaiting {
            let dir = args[i].clone();
            proof {
                assert(texts(out@.push(dir)) =~= done.push(dir@));
                assert(done.push(dir@) + header_dirs(all.skip(i + 1), false) =~= done + (seq![dir@]
                    + header_dirs(all.skip(i + 1), false)));
            }
            out.push(dir);
            awaiting = false;
        } else {
            match flag_of(args[i].as_str()) {
                Some(flag) => {
                    if same_text(args[i].as_str(), flag) {
                        awaiting = true;
                    } else {
                        let chars = to_chars(args[i].as_str());
                        let head = to_chars(flag);
                        let len: usize = chars.len();
                        let dir = sub_text(chars.as_slice(), head.len(), len);
                        proof {
                            assert(dir@ =~= args@[i as int]@.skip(flag@.len() as int));
                            assert(texts(out@.push(dir)) =~= done.push(dir@));
                            assert(done.push(dir@) + header_dirs(all.skip(i + 1), false) =~= done
                                + (seq![dir@] + header_dirs(all.skip(i + 1), false)));
                        }
                        out.push(dir);
                    }
                },
                None => {},
            }
        }
        i = i + 1;
    }
    proof {
        assert(all.skip(i as int) =~= Seq::<Seq<char>>::empty());
        assert(texts(out@) + Seq::<Seq<char>>::empty() =~= texts(out@));
    }
    out
}

/// A manifest that was read: its entries, and the directory it stands in.
#[derive(Debug)]
pub struct LoadedManifest {
    pub entries: Vec<CompileCommand>,
    pub parent: Option<String>,
}

pub struct ManifestText {
    pub entries: Seq<CommandText>,
    pub parent: Option<Seq<char>>,
}

impl View for LoadedManifest {
    type V = ManifestText;

    open spec fn view(&self) -> ManifestText {
        ManifestText { entries: command_texts(self.entries@), parent: opt_text(self.parent) }
    }
}

/// Where the relative paths of an entry start: its directory, else the manifest's, else the
/// repository.
pub open spec fn entry_base(
    e: CommandText,
    parent: Option<Seq<char>>,
    root: Seq<char>,
) -> Seq<char> {
    match e.directory {
        Some(d) => d,
        None => match parent {
            Some(p) => p,
            None => root,
        },
    }
}

/// A directory added where it lies in the repository and is not there yet.
pub open spec fn add_dir(dirs: Seq<Seq<char>>, base: Seq<char>, dir: Seq<char>, root: Seq<char>) -> Seq<
    Seq<char>,
> {
    let abs = normalize_spec(join_path_spec(base, dir));
    if is_under(abs, root) && !dirs.contains(abs) {
        dirs.push(abs)
    } else {
        dirs
    }
}

pub open spec fn add_dirs(
    dirs: Seq<Seq<char>>,
    base: Seq<char>,
    more: Seq<Seq<char>>,
    root: Seq<char>,
) -> Seq<Seq<char>>
    decreases more.len(),
{
    if more.len() == 0 {
        dirs
    } else {
        add_dir(add_dirs(dirs, base, more.drop_last(), root), base, more.last(), root)
    }
}

pub open spec fn add_entries(
    dirs: Seq<Seq<char>>,
    entries: Seq<CommandText>,
    parent: Option<Seq<char>>,
    root: Seq<char>,
) -> Seq<Seq<char>>
    decreases entries.len(),
{
    if entries.len() == 0 {
        dirs
    } else {
        let e = entries.last();
        add_dirs(
            add_entries(dirs, entries.drop_last(), parent, root),
            entry_base(e, parent, root),
            header_dirs(entry_args(e), false),
            root,
        )
    }
}

/// The header directories of the manifests that lie in the repository, each once, in the
/// order they are listed.
pub open spec fn manifest_dirs(manifests: Seq<ManifestText>, root: Seq<char>) -> Seq<Seq<char>>
    decreases manifests.len(),
{
    if manifests.len() == 0 {
        Seq::empty()
    } else {
        add_entries(
            manifest_dirs(manifests.drop_last(), root),
            manifests.last().entries,
            manifests.last().parent,
            root,
        )
    }
}

fn add_entry_dirs(dirs: &mut Vec<String>, e: &CompileCommand, parent: &Option<String>, root: &str)
    ensures
        texts(final(dirs)@) == add_dirs(
            texts(old(dirs)@),
            entry_base(e@, opt_text(*parent), root@),
            header_dirs(entry_args(e@), false),
            root@,
        ),
{
    let base: &str = match &e.directory {
        Some(d) => d.as_str(),
        None => match parent {
            Some(p) => p.as_str(),
            None => root,
        },
    };
    let more = entry_include_dirs(e);
    let ghost start = texts(dirs@);
    let ghost all = texts(more@);
    let mut i: usize = 0;
    while i < more.len()
        invariant
            i <= more@.len(),
            all == texts(more@),
            texts(dirs@) == add_dirs(start, base@, all.take(i as int), root@),
        decreases more@.len() - i,
    {
        proof {
            assert(all.take(i + 1).drop_last() =~= all.take(i as int));
            assert(all.take(i + 1).last() == more@[i as int]@);
        }
        let joined = join_path(base, more[i].as_str());
        let abs = normalize_lexically(joined.as_str());
        if under(abs.as_str(), root) && !has_text(dirs.as_slice(), abs.as_str()) {
            proof {
                assert(texts(dirs@.push(abs)) =~= texts(dirs@).push(abs@));
            }
            dirs.push(abs);
        }
        i = i + 1;
    }
    proof {
        assert(all.take(all.len() as int) =~= all);
    }
}

/// The header search directories of a repository's manifests. Only those inside the
/// repository are kept: nothing outside it can hold a file of the index.
pub fn compile_commands_include_dirs(manifests: &[LoadedManifest], repo_root: &str) -> (r: Vec<
    String,
>)
    ensures
        texts(r@) == manifest_dirs(manifests@.map_values(|m: LoadedManifest| m@), repo_root@),
{
    let ghost all = manifests@.map_values(|m: LoadedManifest| m@);
    let mut dirs: Vec<String> = Vec::new();
    let mut i: usize = 0;
    proof {
        assert(texts(dirs@) =~= Seq::<Seq<char>>::empty());
    }
    while i < manifests.len()
        invariant
            i <= manifests@.len(),
            all == manifests@.map_values(|m: LoadedManifest| m@),
            texts(dirs@) == manifest_dirs(all.take(i as int), repo_root@),
        decreases manifests@.len() - i,
    {
        let m = &manifests[i];
        let ghost before = texts(dirs@);
        let ghost entries = command_texts(m.entries@);
        let ghost parent = opt_text(m.parent);
        proof {
            assert(all.take(i + 1).drop_last() =~= all.take(i as int));
            assert(all.take(i + 1).last() == m@);
        }
        let mut k: usize = 0;
        while k < m.entries.len()
            invariant
                k <= m.entries@.len(),
                entries == command_texts(m.entries@),
                parent == opt_text(m.parent),
                texts(dirs@) == add_entries(before, entries.take(k as int), parent, repo_root@),
            decreases m.entries@.len() - k,
        {
            proof {
                assert(entries.take(k + 1).drop_last() =~= entries.take(k as int));
                assert(entries.take(k + 1).last() == m.entries@[k as int]@);
            }
            add_entry_dirs(&mut dirs, &m.entries[k], &m.parent, repo_root);
            k = k + 1;
        }
        proof {
            assert(entries.take(entries.len() as int) =~= entries);
        }
        i = i + 1;
    }
    proof {
        assert(all.take(all.len() as int) =~= all);
    }
    dirs
}

/// Every header directory kept lies in the repository and is kept once.
pub proof fn law_header_dirs_stay_inside(manifests: Seq<ManifestText>, root: Seq<char>)
    ensures
        manifest_dirs(manifests, root).no_duplicates(),
        forall|i: int|
            0 <= i < manifest_dirs(manifests, root).len() ==> is_under(
                #[trigger] manifest_dirs(manifests, root)[i],
                root,
            ),
    decreases manifests.len(),
{
    if manifests.len() > 0 {
        law_header_dirs_stay_inside(manifests.drop_last(), root);
        lemma_entries_stay_inside(
            manifest_dirs(manifests.drop_last(), root),
            manifests.last().entries,
            manifests.last().parent,
            root,
        );
    }
}

spec fn inside_once(dirs: Seq<Seq<char>>, root: Seq<char>) -> bool {
    dirs.no_duplicates() && forall|i: int|
        0 <= i < dirs.len() ==> is_under(#[trigger] dirs[i], root)
}

proof fn lemma_entries_stay_inside(
    dirs: Seq<Seq<char>>,
    entries: Seq<CommandText>,
    parent: Option<Seq<char>>,
    root: Seq<char>,
)
    requires
        inside_once(dirs, root),
    ensures
        inside_once(add_entries(dirs, entries, parent, root), root),
    decreases entries.len(),
{
    if entries.len() > 0 {
        lemma_entries_stay_inside(dirs, entries.drop_last(), parent, root);
        let e = entries.last();
        lemma_dirs_stay_inside(
            add_entries(dirs, entries.drop_last(), parent, root),
            entry_base(e, parent, root),
            header_dirs(entry_args(e), false),
            root,
        );
    }
}

proof fn lemma_dirs_stay_inside(
    dirs: Seq<Seq<char>>,
    base: Seq<char>,
    more: Seq<Seq<char>>,
    root: Seq<char>,
)
    requires
        inside_once(dirs, root),
    ensures
        inside_once(add_dirs(dirs, base, more, root), root),
    decreases more.len(),
{
    if more.len() > 0 {
        lemma_dirs_stay_inside(dirs, base, more.drop_last(), root);
    }
}

// ---- listed sources ----

/// The paths tried for the file of an entry, in order: an absolute one as it is; otherwise
/// from the entry's directory, then from where the manifest stands, which tolerates a
/// manifest written on another machine.
pub open spec fn file_candidates(
    file: Seq<char>,
    directory: Option<Seq<char>>,
    parent: Option<Seq<char>>,
) -> Seq<Seq<char>> {
    if is_absolute_spec(file) {
        seq![file]
    } else {
        (match directory {
            Some(d) => seq![join_path_spec(d, file)],
            None => Seq::empty(),
        }) + (match parent {
            Some(p) => seq![join_path_spec(p, file)],
            None => Seq::empty(),
        })
    }
}

pub fn compile_command_candidates(file: &str, directory: Option<&str>, parent: Option<&str>) -> (r:
    Vec<String>)
    ensures
        texts(r@) == file_candidates(
            file@,
            match directory {
                Some(d) => Some(d@),
                None => None,
            },
            match parent {
                Some(p) => Some(p@),
                None => None,
            },
        ),
{
    let mut out: Vec<String> = Vec::new();
    if is_absolute(file) {
        out.push(file.to_owned());
    } else {
        match directory {
            Some(d) => {
                out.push(join_path(d, file));
            },
            None => {},
        }
        match parent {
            Some(p) => {
                out.push(join_path(p, file));
            },
            None => {},
        }
    }
    proof {
        assert(texts(out@) =~= file_candidates(
            file@,
            match directory {
                Some(d) => Some(d@),
                None => None,
            },
            match parent {
                Some(p) => Some(p@),
                None => None,
            },
        ));
    }
    out
}

/// The first candidate the file system resolved.
pub open spec fn first_resolved(resolved: Seq<Option<Seq<char>>>) -> Option<Seq<char>>
    decreases resolved.len(),
{
    if resolved.len() == 0 {
        None
    } else if resolved[0] is Some {
        resolved[0]
    } else {
        first_resolved(resolved.skip(1))
    }
}

/// The file of an entry, given what the file system made of each candidate.
pub fn resolve_compile_command_file(resolved: &[Option<String>]) -> (r: Option<String>)
    ensures
        opt_text(r) == first_resolved(opt_texts(resolved@)),
{
    let ghost all = opt_texts(resolved@);
    let mut i: usize = 0;
    proof {
        assert(all.skip(0) =~= all);
    }
    while i < resolved.len()
        invariant
            i <= resolved@.len(),
            all == opt_texts(resolved@),
            first_resolved(all) == first_resolved(all.skip(i as int)),
        decreases resolved@.len() - i,
    {
        proof {
            assert(all.skip(i as int)[0] == opt_text(resolved@[i as int]));
            assert(all.skip(i as int).skip(1) =~= all.skip(i + 1));
        }
        match &resolved[i] {
            Some(path) => {
                return Some(path.clone());
            },
            None => {},
        }
        i = i + 1;
    }
    None
}

/// What became of one entry that names a file: its canonical path, where it resolved.
pub open spec fn listed_sources(files: Seq<Option<Seq<char>>>) -> Seq<Seq<char>>
    decreases files.len(),
{
    if files.len() == 0 {
        Seq::empty()
    } else {
        let front = listed_sources(files.drop_last());
        match files.last() {
            Some(path) => if front.contains(path) {
                front
            } else {
                front.push(path)
            },
            None => front,
        }
    }
}

/// The sources the manifests list, each once, and how many entries did not resolve.
pub fn load_compile_commands_filter(files: &[Option<String>]) -> (r: (Vec<String>, usize))
    ensures
        texts(r.0@) == listed_sources(opt_texts(files@)),
        r.1 == opt_texts(files@).filter(|f: Option<Seq<char>>| f is None).len(),
{
    let ghost pred = |f: Option<Seq<char>>| f is None;
    let ghost all = opt_texts(files@);
    let mut out: Vec<String> = Vec::new();
    let mut unresolved: usize = 0;
    let mut i: usize = 0;
    proof {
        reveal(Seq::filter);
        assert(texts(out@) =~= Seq::<Seq<char>>::empty());
        assert(all.take(0).filter(pred).len() == 0);
    }
    while i < files.len()
        invariant
            i <= files@.len(),
            unresolved <= i,
            all == opt_texts(files@),
            pred == (|f: Option<Seq<char>>| f is None),
            texts(out@) == listed_sources(all.take(i as int)),
            unresolved == all.take(i as int).filter(pred).len(),
        decreases files@.len() - i,
    {
        proof {
            reveal(Seq::filter);
            assert(all.take(i + 1).drop_last() =~= all.take(i as int));
            assert(all.take(i + 1).last() == opt_text(files@[i as int]));
        }
        match &files[i] {
            Some(path) => {
                if !has_text(out.as_slice(), path.as_str()) {
                    let kept = path.clone();
                    proof {
                        assert(texts(out@.push(kept)) =~= texts(out@).push(kept@));
                    }
                    out.push(kept);
                }
            },
            None => {
                unresolved = unresolved + 1;
            },
        }
        i = i + 1;
    }
    proof {
        assert(all.take(all.len() as int) =~= all);
    }
    (out, unresolved)
}

// ---- header names ----

/// The first base from which the target is a file of the repository.
pub open spec fn base_hit(
    target: Seq<char>,
    bases: Seq<Seq<char>>,
    repo_files: Seq<Seq<char>>,
) -> Option<Seq<char>>
    decreases bases.len(),
{
    if bases.len() == 0 {
        None
    } else {
        let candidate = normalize_spec(join_path_spec(bases[0], target));
        if names_path(repo_files, candidate) {
            Some(candidate)
        } else {
            base_hit(target, bases.skip(1), repo_files)
        }
    }
}

/// The file has the target's name and its path ends with the target.
pub open spec fn ends_with_target(file: Seq<char>, target: Seq<char>) -> bool {
    file_name_spec(target) is Some && file_name_spec(file) == file_name_spec(target) && ("/"@
        + target).is_suffix_of(file)
}

/// The file of the repository a header name means: seen from the including file, from the
/// repository root, or through a header directory; failing that, the only file whose path
/// ends with it.
pub open spec fn header_target(
    target: Seq<char>,
    source_dir: Seq<char>,
    repo_root: Seq<char>,
    dirs: Seq<Seq<char>>,
    repo_files: Seq<Seq<char>>,
) -> Option<Seq<char>> {
    if target.len() == 0 || is_absolute_spec(target) {
        None
    } else {
        let hit = base_hit(target, seq![source_dir, repo_root] + dirs, repo_files);
        if hit is Some {
            hit
        } else {
            let tails = repo_files.filter(|f: Seq<char>| ends_with_target(f, target));
            if tails.len() == 1 {
                Some(tails[0])
            } else {
                None
            }
        }
    }
}

fn try_base(target: &str, base: &str, repo_files: &[String], plain: bool) -> (r: Option<String>)
    requires
        plain ==> plain_paths(texts(repo_files@)),
    ensures
        (match r {
            Some(c) => c@ == normalize_spec(join_path_spec(base@, target@)) && names_path(
                texts(repo_files@),
                c@,
            ),
            None => !names_path(
                texts(repo_files@),
                normalize_spec(join_path_spec(base@, target@)),
            ),
        }),
{
    let joined = join_path(base, target);
    let candidate = normalize_lexically(joined.as_str());
    if lists_path(repo_files, plain, candidate.as_str()) {
        Some(candidate)
    } else {
        None
    }
}

/// Resolves a header name to a file the walk of the repository listed. Several files that
/// end with it resolve to nothing rather than to a guess.
pub fn resolve_include_target(
    target: &str,
    source_dir: &str,
    repo_root: &str,
    include_dirs: &[String],
    repo_files: &[String],
) -> (r: Option<String>)
    ensures
        opt_text(r) == header_target(
            target@,
            source_dir@,
            repo_root@,
            texts(include_dirs@),
            texts(repo_files@),
        ),
{
    let plain = all_plain(repo_files);
    find_header(target, source_dir, repo_root, include_dirs, repo_files, plain)
}

/// Resolves a header name, where it may be known that every listed path is plain.
pub(crate) fn find_header(
    target: &str,
    source_dir: &str,
    repo_root: &str,
    include_dirs: &[String],
    repo_files: &[String],
    plain: bool,
) -> (r: Option<String>)
    requires
        plain ==> plain_paths(texts(repo_files@)),
    ensures
        opt_text(r) == header_target(
            target@,
            source_dir@,
            repo_root@,
            texts(include_dirs@),
            texts(repo_files@),
        ),
{
    if target.is_empty() || is_absolute(target) {
        return None;
    }
    let ghost dirs = texts(include_dirs@);
    let ghost files = texts(repo_files@);
    let ghost bases = seq![source_dir@, repo_root@] + dirs;
    proof {
        assert(bases[0] == source_dir@);
        assert(bases.skip(1)[0] == repo_root@);
        assert(bases.skip(1).skip(1) =~= dirs);
        assert(base_hit(target@, bases.skip(1), files) == base_hit(target@, bases.skip(1), files));
    }
    match try_base(target, source_dir, repo_files, plain) {
        Some(hit) => {
            return Some(hit);
        },
        None => {},
    }
    match try_base(target, repo_root, repo_files, plain) {
        Some(hit) => {
            return Some(hit);
        },
        None => {},
    }
    let mut i: usize = 0;
    proof {
        assert(dirs.skip(0) =~= dirs);
        assert(base_hit(target@, bases, files) == base_hit(target@, dirs, files));
    }
    while i < include_dirs.len()
        invariant
            i <= include_dirs@.len(),
            dirs == texts(include_dirs@),
            files == texts(repo_files@),
            target@.len() > 0,
            !is_absolute_spec(target@),
            bases == seq![source_dir@, repo_root@] + dirs,
            plain ==> plain_paths(files),
            base_hit(target@, bases, files) == base_hit(target@, dirs.skip(i as int), files),
        decreases include_dirs@.len() - i,
    {
        proof {
            assert(dirs.skip(i as int)[0] == include_dirs@[i as int]@);
            assert(dirs.skip(i as int).skip(1) =~= dirs.skip(i + 1));
        }
        match try_base(target, include_dirs[i].as_str(), repo_files, plain) {
            Some(hit) => {
                return Some(hit);
            },
            None => {},
        }
        i = i + 1;
    }
    let ghost pred = |f: Seq<char>| ends_with_target(f, target@);
    let name = match file_name(target) {
        Some(n) => n,
        None => {
            proof {
                lemma_no_tails(files, target@);
            }
            return None;
        },
    };
    let mut suffix = "/".to_owned();
    suffix.append(target);
    let mut only: Option<usize> = None;
    let mut count: usize = 0;
    let mut k: usize = 0;
    proof {
        reveal(Seq::filter);
        assert(files.take(0).filter(pred).len() == 0);
    }
    while k < repo_files.len()
        invariant
            k <= repo_files@.len(),
            count <= k,
            files == texts(repo_files@),
            pred == (|f: Seq<char>| ends_with_target(f, target@)),
            Some(name@) == file_name_spec(target@),
            suffix@ == "/"@ + target@,
            count == files.take(k as int).filter(pred).len(),
            count > 0 ==> only is Some,
            only matches Some(j) ==> j < k && (count == 1 ==> files.take(k as int).filter(pred)[0]
                == repo_files@[j as int]@),
        decreases repo_files@.len() - k,
    {
        proof {
            reveal(Seq::filter);
            assert(files.take(k + 1).drop_last() =~= files.take(k as int));
            assert(files.take(k + 1).last() == repo_files@[k as int]@);
        }
        let same_name = match file_name(repo_files[k].as_str()) {
            Some(n) => same_text(n.as_str(), name.as_str()),
            None => false,
        };
        if same_name && ends_with(repo_files[k].as_str(), suffix.as_str()) {
            count = count + 1;
            only = Some(k);
        }
        k = k + 1;
    }
    proof {
        assert(files.take(files.len() as int) =~= files);
    }
    if count == 1 {
        match only {
            Some(j) => Some(repo_files[j].clone()),
            None => None,
        }
    } else {
        None
    }
}

proof fn lemma_no_tails(files: Seq<Seq<char>>, target: Seq<char>)
    requires
        file_name_spec(target) is None,
    ensures
        files.filter(|f: Seq<char>| ends_with_target(f, target)).len() == 0,
    decreases files.len(),
{
    reveal(Seq::filter);
    if files.len() > 0 {
        lemma_no_tails(files.drop_last(), target);
    }
}

/// A header name never resolves to a file the walk did not list.
pub proof fn law_header_targets_are_listed(
    target: Seq<char>,
    source_dir: Seq<char>,
    repo_root: Seq<char>,
    dirs: Seq<Seq<char>>,
    repo_files: Seq<Seq<char>>,
)
    ensures
        header_target(target, source_dir, repo_root, dirs, repo_files) matches Some(f)
            ==> names_path(repo_files, f),
{
    lemma_base_hit_is_listed(target, seq![source_dir, repo_root] + dirs, repo_files);
    let pred = |f: Seq<char>| ends_with_target(f, target);
    let tails = repo_files.filter(pred);
    lemma_filtered_are_members(repo_files, pred);
    if tails.len() == 1 {
        assert(repo_files.contains(tails[0]));
        let k = choose|k: int| 0 <= k < repo_files.len() && repo_files[k] == tails[0];
        assert(same_path(repo_files[k], tails[0]));
    }
}

proof fn lemma_base_hit_is_listed(
    target: Seq<char>,
    bases: Seq<Seq<char>>,
    repo_files: Seq<Seq<char>>,
)
    ensures
        base_hit(target, bases, repo_files) matches Some(f) ==> names_path(repo_files, f),
    decreases bases.len(),
{
    if bases.len() > 0 {
        lemma_base_hit_is_listed(target, bases.skip(1), repo_files);
    }
}

} // verus!
