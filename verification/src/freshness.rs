//! Whether a persisted index still describes a repository: git HEAD, the build manifest,
//! and the version of the indexing logic.

use vstd::prelude::*;

use crate::batch::{digest_hex, sha256_hex};
use crate::indexing::is_c_source;
use crate::languages::is_c_source_ext;
use crate::paths::{ext_of, is_absolute, is_absolute_spec, join_path, join_path_spec};
use crate::text::{opt_text, same_text, texts, trim, trim_spec};

verus! {

/// Where the build manifest of a repository is looked for.
pub open spec fn manifest_paths(explicit: Option<Seq<char>>, repo: Seq<char>) -> Seq<Seq<char>> {
    match explicit {
        Some(path) => if is_absolute_spec(path) {
            seq![path]
        } else {
            seq![join_path_spec(repo, path)]
        },
        None => seq![
            join_path_spec(repo, "compile_commands.json"@),
            join_path_spec(repo, "build/compile_commands.json"@),
        ],
    }
}

/// The candidate manifests of a repository, in the order they are read.
pub fn compile_commands_candidate_paths(explicit: Option<&str>, repo_path: &str) -> (r: Vec<String>)
    ensures
        texts(r@) == manifest_paths(
            match explicit {
                Some(p) => Some(p@),
                None => None,
            },
            repo_path@,
        ),
{
    let mut out: Vec<String> = Vec::new();
    match explicit {
        Some(path) => {
            if is_absolute(path) {
                out.push(path.to_owned());
            } else {
                out.push(join_path(repo_path, path));
            }
        },
        None => {
            out.push(join_path(repo_path, "compile_commands.json"));
            out.push(join_path(repo_path, "build/compile_commands.json"));
        },
    }
    proof {
        assert(texts(out@) =~= manifest_paths(
            match explicit {
                Some(p) => Some(p@),
                None => None,
            },
            repo_path@,
        ));
    }
    out
}

/// The bytes of the manifests that were read, one after the other.
pub open spec fn manifest_bytes(files: Seq<Option<Vec<u8>>>) -> Seq<u8>
    decreases files.len(),
{
    if files.len() == 0 {
        Seq::empty()
    } else {
        let front = manifest_bytes(files.drop_last());
        match files.last() {
            Some(bytes) => front + bytes@,
            None => front,
        }
    }
}

/// Some manifest was read.
pub open spec fn any_read(files: Seq<Option<Vec<u8>>>) -> bool {
    exists|i: int| 0 <= i < files.len() && #[trigger] files[i] is Some
}

/// The fingerprint of a repository's manifests; none where they are not used or none was
/// read.
pub open spec fn manifest_hash(used: bool, files: Seq<Option<Vec<u8>>>) -> Option<Seq<char>> {
    if used && any_read(files) {
        Some(sha256_hex(manifest_bytes(files)))
    } else {
        None
    }
}

/// Hashes what was read of the candidate manifests, in their order.
pub fn compile_commands_hash(used: bool, files: &[Option<Vec<u8>>]) -> (r: Option<String>)
    ensures
        opt_text(r) == manifest_hash(used, files@),
{
    if !used {
        return None;
    }
    let mut bytes: Vec<u8> = Vec::new();
    let mut any = false;
    let mut i: usize = 0;
    while i < files.len()
        invariant
            i <= files@.len(),
            bytes@ == manifest_bytes(files@.take(i as int)),
            any == exists|j: int| 0 <= j < i && #[trigger] files@[j] is Some,
        decreases files@.len() - i,
    {
        proof {
            assert(files@.take(i + 1).drop_last() =~= files@.take(i as int));
            assert(files@.take(i + 1).last() == files@[i as int]);
        }
        match &files[i] {
            Some(content) => {
                let ghost before = bytes@;
                let mut k: usize = 0;
                proof {
                    assert(before + content@.take(0) =~= before);
                }
                while k < content.len()
                    invariant
                        k <= content@.len(),
                        bytes@ == before + content@.take(k as int),
                    decreases content@.len() - k,
                {
                    proof {
                        assert(content@.take(k + 1) =~= content@.take(k as int).push(
                            content@[k as int],
                        ));
                        assert((before + content@.take(k as int)).push(content@[k as int])
                            =~= before + content@.take(k as int).push(content@[k as int]));
                    }
                    bytes.push(content[k]);
                    k = k + 1;
                }
                proof {
                    assert(content@.take(content@.len() as int) =~= content@);
                    assert(files@[i as int] is Some);
                }
                any = true;
            },
            None => {},
        }
        i = i + 1;
    }
    proof {
        assert(files@.take(files@.len() as int) =~= files@);
    }
    if any {
        Some(digest_hex(bytes.as_slice()))
    } else {
        None
    }
}

/// The commit a manifest describes: the one recorded with a byte-identical manifest, else
/// the current HEAD. None where there is no manifest.
pub open spec fn diff_base(
    current: Option<Seq<char>>,
    prior: Option<(Option<Seq<char>>, Option<Seq<char>>)>,
    head: Option<Seq<char>>,
) -> Option<Seq<char>> {
    if current is None {
        None
    } else {
        let carried = match prior {
            Some((prior_hash, base)) => if prior_hash == current {
                base
            } else {
                None
            },
            None => None,
        };
        if carried is Some {
            carried
        } else {
            head
        }
    }
}

/// What an earlier index recorded of its manifest: the fingerprint and the commit.
#[derive(Debug)]
pub struct PriorManifest {
    pub hash: Option<String>,
    pub base: Option<String>,
}

pub open spec fn prior_text(p: Option<PriorManifest>) -> Option<
    (Option<Seq<char>>, Option<Seq<char>>),
> {
    match p {
        Some(m) => Some((opt_text(m.hash), opt_text(m.base))),
        None => None,
    }
}

/// The commit the current manifest describes.
pub fn compile_commands_diff_base(
    current: Option<&str>,
    prior: Option<PriorManifest>,
    head: Option<String>,
) -> (r: Option<String>)
    ensures
        opt_text(r) == diff_base(
            match current {
                Some(h) => Some(h@),
                None => None,
            },
            prior_text(prior),
            opt_text(head),
        ),
{
    let now = match current {
        Some(h) => h,
        None => {
            return None;
        },
    };
    let carried = match prior {
        Some(m) => {
            let same = match &m.hash {
                Some(h) => same_text(h.as_str(), now),
                None => false,
            };
            if same {
                m.base
            } else {
                None
            }
        },
        None => None,
    };
    if carried.is_some() {
        carried
    } else {
        head
    }
}

/// The C and C++ sources among changed files.
pub open spec fn changed_sources(changed: Seq<Seq<char>>) -> Seq<Seq<char>> {
    changed.filter(|f: Seq<char>| is_c_source(f))
}

/// The sources a manifest cannot list because they changed after the commit it describes.
pub fn sources_unlisted_since_cdb(changed: &[String]) -> (r: Vec<String>)
    ensures
        texts(r@) == changed_sources(texts(changed@)),
{
    let ghost pred = |f: Seq<char>| is_c_source(f);
    let ghost all = texts(changed@);
    let mut out: Vec<String> = Vec::new();
    let mut i: usize = 0;
    proof {
        reveal(Seq::filter);
        assert(texts(out@) =~= all.take(0).filter(pred));
    }
    while i < changed.len()
        invariant
            i <= changed@.len(),
            all == texts(changed@),
            pred == (|f: Seq<char>| is_c_source(f)),
            texts(out@) == all.take(i as int).filter(pred),
        decreases changed@.len() - i,
    {
        proof {
            reveal(Seq::filter);
            assert(all.take(i + 1).drop_last() =~= all.take(i as int));
            assert(all.take(i + 1).last() == changed@[i as int]@);
        }
        let ext = ext_of(changed[i].as_str());
        if is_c_source_ext(ext.as_str()) {
            let file = changed[i].clone();
            proof {
                assert(texts(out@.push(file)) =~= texts(out@).push(file@));
            }
            out.push(file);
        }
        i = i + 1;
    }
    proof {
        assert(all.take(all.len() as int) =~= all);
    }
    out
}

/// The commit hash in what git printed; none where it printed nothing.
pub open spec fn head_hash_spec(output: Seq<char>) -> Option<Seq<char>> {
    if trim_spec(output).len() > 0 {
        Some(trim_spec(output))
    } else {
        None
    }
}

pub fn head_hash(output: &str) -> (r: Option<String>)
    ensures
        opt_text(r) == head_hash_spec(output@),
{
    let hash = trim(output);
    if hash.as_str().is_empty() {
        None
    } else {
        Some(hash)
    }
}

/// What an index recorded when it was built.
#[derive(Debug)]
pub struct IndexFingerprint {
    pub head_hash: Option<String>,
    pub cdb_hash: Option<String>,
    pub logic_version: u32,
}

/// A recorded fingerprint still holds: the logic is the same, there is something to go by,
/// and neither HEAD nor the manifest has moved.
pub open spec fn fingerprint_holds(
    recorded_head: Option<Seq<char>>,
    recorded_cdb: Option<Seq<char>>,
    recorded_logic: u32,
    logic_version: u32,
    head: Option<Seq<char>>,
    cdb: Option<Seq<char>>,
) -> bool {
    &&& recorded_logic == logic_version
    &&& head is Some || cdb is Some
    &&& recorded_head == head
    &&& recorded_cdb == cdb
}

pub(crate) fn same_opt(a: &Option<String>, b: &Option<String>) -> (r: bool)
    ensures
        r == (opt_text(*a) == opt_text(*b)),
{
    match (a, b) {
        (Some(x), Some(y)) => same_text(x.as_str(), y.as_str()),
        (None, None) => true,
        _ => false,
    }
}

/// Whether the cached symbols of a repository are still valid. One that was never indexed
/// has none.
pub fn fingerprint_matches(
    recorded: Option<&IndexFingerprint>,
    logic_version: u32,
    head: &Option<String>,
    cdb: &Option<String>,
) -> (r: bool)
    ensures
        r == (match recorded {
            None => false,
            Some(f) => fingerprint_holds(
                opt_text(f.head_hash),
                opt_text(f.cdb_hash),
                f.logic_version,
                logic_version,
                opt_text(*head),
                opt_text(*cdb),
            ),
        }),
{
    match recorded {
        None => false,
        Some(f) => {
            if f.logic_version != logic_version {
                return false;
            }
            if head.is_none() && cdb.is_none() {
                return false;
            }
            same_opt(&f.head_hash, head) && same_opt(&f.cdb_hash, cdb)
        },
    }
}

/// Without a git HEAD and without a manifest nothing proves an index fresh.
pub proof fn law_nothing_to_go_by_is_stale(
    recorded_logic: u32,
    logic_version: u32,
)
    ensures
        !fingerprint_holds(None, None, recorded_logic, logic_version, None, None),
{
}

/// A manifest that has not changed keeps the commit recorded for it, however far HEAD has
/// moved since.
pub proof fn law_unchanged_manifest_keeps_its_commit(
    hash: Seq<char>,
    base: Seq<char>,
    head: Option<Seq<char>>,
)
    ensures
        diff_base(Some(hash), Some((Some(hash), Some(base))), head) == Some(base),
{
}

/// A regenerated manifest describes the current HEAD.
pub proof fn law_regenerated_manifest_describes_head(
    hash: Seq<char>,
    old_hash: Option<Seq<char>>,
    base: Option<Seq<char>>,
    head: Option<Seq<char>>,
)
    requires
        old_hash != Some(hash),
    ensures
        diff_base(Some(hash), Some((old_hash, base)), head) == head,
{
}

} // verus!
