//! What the command line, the environment and a named profile settle before the server
//! starts.

use vstd::prelude::*;

use crate::paths::{join_path, join_path_spec};
use crate::text::{
    contains, contains_text, decimal, has_text, opt_text, opt_texts, same_text, starts_with,
    strip_prefix, strip_prefix_spec, texts, u64_text,
};

verus! {

/// The base URL of a listener; a bare IPv6 address is put in brackets.
pub open spec fn discovery_url(host: Seq<char>, port: u16) -> Seq<char> {
    if contains_text(host, ":"@) && !"["@.is_prefix_of(host) {
        "http://["@ + host + "]:"@ + decimal(port as nat)
    } else {
        "http://"@ + host + ":"@ + decimal(port as nat)
    }
}

/// Formats the base URL of the listener for the discovery file.
pub fn format_discovery_url(host: &str, port: u16) -> (r: String)
    ensures
        r@ == discovery_url(host@, port),
{
    let shown = u64_text(port as u64);
    if contains(host, ":") && !starts_with(host, "[") {
        let mut out = "http://[".to_owned();
        out.append(host);
        out.append("]:");
        out.append(shown.as_str());
        out
    } else {
        let mut out = "http://".to_owned();
        out.append(host);
        out.append(":");
        out.append(shown.as_str());
        out
    }
}

pub open spec fn is_loopback_spec(host: Seq<char>) -> bool {
    host == "localhost"@ || host == "127.0.0.1"@ || host == "::1"@ || host == "[::1]"@
}

/// Whether `host` names a loopback bind target.
pub fn is_loopback_bind_addr(host: &str) -> (r: bool)
    ensures
        r == is_loopback_spec(host@),
{
    same_text(host, "localhost") || same_text(host, "127.0.0.1") || same_text(host, "::1")
        || same_text(host, "[::1]")
}

/// A flag that was not set takes the profile's value, where the profile has one.
pub open spec fn bool_default(target: bool, profile_value: Option<bool>) -> bool {
    target || profile_value == Some(true)
}

/// Lets a profile supply a flag that was not set.
pub fn apply_bool_default(target: &mut bool, profile_value: Option<bool>)
    ensures
        *final(target) == bool_default(*old(target), profile_value),
{
    if !*target {
        match profile_value {
            Some(value) => {
                *target = value;
            },
            None => {},
        }
    }
}

/// A profile never clears a flag that was set.
pub proof fn law_profile_never_clears_a_flag(target: bool, profile_value: Option<bool>)
    ensures
        target ==> bool_default(target, profile_value),
{
}

// ---- paths ----

/// A canonical path without the prefix that Windows puts before it.
pub open spec fn canonical_path_spec(path: Seq<char>, windows: bool) -> Seq<char> {
    if !windows {
        path
    } else {
        match strip_prefix_spec(path, "\\\\?\\UNC\\"@) {
            Some(rest) => "\\\\"@ + rest,
            None => match strip_prefix_spec(path, "\\\\?\\"@) {
                Some(rest) => rest,
                None => path,
            },
        }
    }
}

/// Drops the verbatim prefix of a canonical Windows path; elsewhere a path stays as it is.
pub fn normalize_canonical_path(path: String, windows: bool) -> (r: String)
    ensures
        r@ == canonical_path_spec(path@, windows),
{
    if windows {
        match strip_prefix(path.as_str(), "\\\\?\\UNC\\") {
            Some(rest) => {
                let mut out = "\\\\".to_owned();
                out.append(rest.as_str());
                return out;
            },
            None => {},
        }
        match strip_prefix(path.as_str(), "\\\\?\\") {
            Some(rest) => {
                return rest;
            },
            None => {},
        }
    }
    path
}

/// A path with its leading `~` replaced by the home directory. `~name` is left alone.
/// `None` where the home directory is needed and unknown.
pub open spec fn expand_tilde_spec(path: Seq<char>, home: Option<Seq<char>>) -> Option<Seq<char>> {
    match strip_prefix_spec(path, "~"@) {
        None => Some(path),
        Some(stripped) => match home {
            None => None,
            Some(h) => if stripped.len() == 0 {
                Some(h)
            } else {
                match strip_prefix_spec(stripped, "/"@) {
                    Some(rest) => Some(join_path_spec(h, rest)),
                    None => Some(path),
                }
            },
        },
    }
}

/// Expands a leading `~`.
pub fn expand_tilde(path: &str, home: Option<&str>) -> (r: Option<String>)
    ensures
        opt_text(r) == expand_tilde_spec(
            path@,
            match home {
                Some(h) => Some(h@),
                None => None,
            },
        ),
{
    match strip_prefix(path, "~") {
        None => Some(path.to_owned()),
        Some(stripped) => match home {
            None => None,
            Some(h) => if stripped.as_str().is_empty() {
                Some(h.to_owned())
            } else {
                match strip_prefix(stripped.as_str(), "/") {
                    Some(rest) => Some(join_path(h, rest.as_str())),
                    None => Some(path.to_owned()),
                }
            },
        },
    }
}

/// Why no repository path is left to index.
#[derive(Debug, Clone, Copy, PartialEq, Eq, Structural)]
pub enum RepoPathsError {
    /// Nothing was named, and this transport does not fall back to the working directory.
    NoneSpecified,
    /// Nothing was named, and the working directory is unknown.
    CwdUnavailable,
    /// Every path that was named is missing.
    NoneValid,
    /// Nothing was named, and the working directory does not resolve.
    CwdInvalid,
}

impl RepoPathsError {
    pub open spec fn text(self) -> Seq<char> {
        match self {
            RepoPathsError::NoneSpecified =>
                "No repositories specified. Pass --repos <path> (or set NARSIL_REPOS) to tell the SSE server which repositories to index."@,
            RepoPathsError::CwdUnavailable =>
                "--repos was not specified and the current working directory is unavailable"@,
            RepoPathsError::NoneValid => "No valid repository paths remain after validation"@,
            RepoPathsError::CwdInvalid =>
                "Current working directory could not be resolved as a repository path"@,
        }
    }

    /// The message shown to the operator.
    pub fn message(self) -> (r: String)
        ensures
            r@ == self.text(),
    {
        match self {
            RepoPathsError::NoneSpecified =>
                "No repositories specified. Pass --repos <path> (or set NARSIL_REPOS) to tell the SSE server which repositories to index.".to_owned(),
            RepoPathsError::CwdUnavailable =>
                "--repos was not specified and the current working directory is unavailable".to_owned(),
            RepoPathsError::NoneValid =>
                "No valid repository paths remain after validation".to_owned(),
            RepoPathsError::CwdInvalid =>
                "Current working directory could not be resolved as a repository path".to_owned(),
        }
    }
}

/// The paths that exist, each once, where it first stands.
pub open spec fn existing_once(paths: Seq<Option<Seq<char>>>) -> Seq<Seq<char>>
    decreases paths.len(),
{
    if paths.len() == 0 {
        Seq::empty()
    } else {
        let front = existing_once(paths.drop_last());
        match paths.last() {
            None => front,
            Some(path) => if front.contains(path) {
                front
            } else {
                front.push(path)
            },
        }
    }
}

/// The repositories to index. Each path is given in its canonical form, or as `None`
/// where it does not exist; `cwd` is `None` where the working directory is unknown.
pub open spec fn resolve_repo_paths_spec(
    cli_repos: Seq<Option<Seq<char>>>,
    discovered: Option<Seq<Option<Seq<char>>>>,
    cwd_fallback: bool,
    cwd: Option<Option<Seq<char>>>,
) -> Result<Seq<Seq<char>>, RepoPathsError> {
    let named = match discovered {
        Some(more) => cli_repos + more,
        None => cli_repos,
    };
    let explicit = cli_repos.len() > 0 || discovered is Some;
    if named.len() == 0 && !cwd_fallback {
        Err(RepoPathsError::NoneSpecified)
    } else if named.len() == 0 && cwd is None {
        Err(RepoPathsError::CwdUnavailable)
    } else {
        let all = if named.len() == 0 {
            seq![cwd->Some_0]
        } else {
            named
        };
        let valid = existing_once(all);
        if valid.len() > 0 {
            Ok(valid)
        } else if explicit {
            Err(RepoPathsError::NoneValid)
        } else {
            Err(RepoPathsError::CwdInvalid)
        }
    }
}

fn keep_existing(paths: &[Option<String>]) -> (r: Vec<String>)
    ensures
        texts(r@) == existing_once(opt_texts(paths@)),
{
    let ghost all = opt_texts(paths@);
    let mut out: Vec<String> = Vec::new();
    let mut i: usize = 0;
    proof {
        assert(all.take(0) =~= Seq::<Option<Seq<char>>>::empty());
        assert(texts(out@) =~= Seq::<Seq<char>>::empty());
    }
    while i < paths.len()
        invariant
            i <= paths@.len(),
            all == opt_texts(paths@),
            texts(out@) == existing_once(all.take(i as int)),
        decreases paths@.len() - i,
    {
        proof {
            assert(all.take(i + 1).drop_last() =~= all.take(i as int));
            assert(all.take(i + 1).last() == opt_text(paths@[i as int]));
        }
        match &paths[i] {
            None => {},
            Some(path) => {
                if !has_text(out.as_slice(), path.as_str()) {
                    let kept = path.clone();
                    proof {
                        assert(texts(out@.push(kept)) =~= texts(out@).push(kept@));
                    }
                    out.push(kept);
                }
            },
        }
        i = i + 1;
    }
    proof {
        assert(all.take(all.len() as int) =~= all);
    }
    out
}

/// Settles the repositories to index from what was named, what was discovered, and the
/// working directory as a fallback.
pub fn resolve_repo_paths(
    cli_repos: Vec<Option<String>>,
    discovered: Option<Vec<Option<String>>>,
    cwd_fallback: bool,
    cwd: Option<Option<String>>,
) -> (r: Result<Vec<String>, RepoPathsError>)
    ensures
        (match r {
            Ok(paths) => Ok(texts(paths@)),
            Err(e) => Err(e),
        }) == resolve_repo_paths_spec(
            opt_texts(cli_repos@),
            match discovered {
                Some(more) => Some(opt_texts(more@)),
                None => None,
            },
            cwd_fallback,
            match cwd {
                Some(path) => Some(opt_text(path)),
                None => None,
            },
        ),
{
    let explicit = cli_repos.len() > 0 || discovered.is_some();
    let mut all = cli_repos;
    let ghost first = opt_texts(all@);
    match discovered {
        Some(more) => {
            let mut more = more;
            let ghost second = opt_texts(more@);
            proof {
                assert(opt_texts(all@ + more@) =~= first + second);
            }
            all.append(&mut more);
        },
        None => {},
    }
    proof {
        assert(opt_texts(all@).len() == all@.len());
    }
    if all.len() == 0 {
        if !cwd_fallback {
            return Err(RepoPathsError::NoneSpecified);
        }
        match cwd {
            None => {
                return Err(RepoPathsError::CwdUnavailable);
            },
            Some(path) => {
                proof {
                    assert(opt_texts(all@.push(path)) =~= seq![opt_text(path)]);
                }
                all.push(path);
            },
        }
    }
    let valid = keep_existing(all.as_slice());
    proof {
        assert(texts(valid@).len() == valid@.len());
    }
    if valid.len() > 0 {
        Ok(valid)
    } else if explicit {
        Err(RepoPathsError::NoneValid)
    } else {
        Err(RepoPathsError::CwdInvalid)
    }
}

/// No repository is indexed twice, none is invented, and none that exists is lost.
pub proof fn law_existing_paths_are_kept_once(paths: Seq<Option<Seq<char>>>)
    ensures
        existing_once(paths).no_duplicates(),
        forall|p: Seq<char>| existing_once(paths).contains(p) <==> paths.contains(Some(p)),
    decreases paths.len(),
{
    if paths.len() > 0 {
        let front = existing_once(paths.drop_last());
        law_existing_paths_are_kept_once(paths.drop_last());
        let all = existing_once(paths);
        assert forall|p: Seq<char>| all.contains(p) <==> paths.contains(Some(p)) by {
            if all.contains(p) {
                let k = choose|k: int| 0 <= k < all.len() && all[k] == p;
                if k < front.len() {
                    assert(front[k] == p);
                    assert(front.contains(p));
                    let j = choose|j: int|
                        0 <= j < paths.drop_last().len() && paths.drop_last()[j] == Some(p);
                    assert(paths[j] == Some(p));
                } else {
                    assert(paths[paths.len() - 1] == Some(p));
                }
            }
            if paths.contains(Some(p)) {
                let j = choose|j: int| 0 <= j < paths.len() && paths[j] == Some(p);
                if j < paths.len() - 1 {
                    assert(paths.drop_last()[j] == Some(p));
                    assert(paths.drop_last().contains(Some(p)));
                    assert(front.contains(p));
                    let k = choose|k: int| 0 <= k < front.len() && front[k] == p;
                    assert(all[k] == p);
                } else if front.contains(p) {
                    assert(all == front);
                } else {
                    assert(all[all.len() - 1] == p);
                }
            }
        }
    }
}

} // verus!
