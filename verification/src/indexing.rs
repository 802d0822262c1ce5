//! The decisions of an index run: which files it covers, what becomes of each parsed
//! file, and which backends are consulted.

use vstd::prelude::*;

use crate::languages::{
    is_c_header_ext, is_c_header_ext_spec, is_c_source_ext, is_c_source_ext_spec,
};
use crate::paths::{ext_of, ext_or_empty, relative, relative_spec};
use crate::scope::{
    any_pattern_matches, compile_include_patterns, compile_scope, is_merge_conflict_artifact,
    is_merge_leftover, rule_texts, scope_matches, scope_names, scope_rules, some_pattern_matches,
    valid_patterns, RuleText, ScopeRule,
};
use crate::text::{has_text, texts};

verus! {

/// Fewest C and C++ sources for which a build manifest is expected and used as a filter.
pub const COMPILE_COMMANDS_MIN_CXX_SOURCES: usize = 5;

/// Percent of the C sources a manifest must cover to be trusted, unless overridden.
pub const COMPILE_COMMANDS_DEFAULT_MIN_COVERAGE_PCT: usize = 25;

/// Most files for which a tag database is generated unasked.
pub const GTAGS_GENERATE_MAX_FILES: usize = 50_000;

// ---- which files are indexed ----

pub open spec fn is_c_source(path: Seq<char>) -> bool {
    is_c_source_ext_spec(ext_or_empty(path))
}

pub open spec fn is_c_header(path: Seq<char>) -> bool {
    is_c_header_ext_spec(ext_or_empty(path))
}

/// What decides the file selection, apart from the files themselves.
pub struct SelectionText {
    pub root: Seq<char>,
    pub rules: Seq<RuleText>,
    pub keep_entries: Seq<Seq<char>>,
    pub use_compile_commands: bool,
    pub compiled: Seq<Seq<char>>,
    pub unlisted: Seq<Seq<char>>,
    pub min_coverage_pct: usize,
}

/// What decides the file selection: the repository root, the index filter, the force-kept
/// paths, and what the build manifest lists (`compiled`) or, written before a later
/// checkout, cannot list (`unlisted`, repo-relative).
#[derive(Debug)]
pub struct SelectionRules {
    pub root: String,
    pub index_filter: Vec<ScopeRule>,
    pub keep_entries: Vec<String>,
    pub use_compile_commands: bool,
    pub compiled: Vec<String>,
    pub unlisted: Vec<String>,
    pub min_coverage_pct: usize,
}

impl View for SelectionRules {
    type V = SelectionText;

    open spec fn view(&self) -> SelectionText {
        SelectionText {
            root: self.root@,
            rules: rule_texts(self.index_filter@),
            keep_entries: texts(self.keep_entries@),
            use_compile_commands: self.use_compile_commands,
            compiled: texts(self.compiled@),
            unlisted: texts(self.unlisted@),
            min_coverage_pct: self.min_coverage_pct,
        }
    }
}

/// The walk without leftovers of merges.
pub open spec fn walked(walk: Seq<Seq<char>>) -> Seq<Seq<char>> {
    walk.filter(|f: Seq<char>| !is_merge_leftover(f))
}

/// The index filter names the file.
pub open spec fn filter_names(s: SelectionText, file: Seq<char>) -> bool {
    scope_names(s.rules, relative_spec(file, s.root), file)
}

/// The index filter is in force: it has rules and names some file of the repository.
pub open spec fn is_filtered(s: SelectionText, files: Seq<Seq<char>>) -> bool {
    exists|i: int| 0 <= i < files.len() && filter_names(s, #[trigger] files[i])
}

/// The file passes the index filter or is force-kept.
pub open spec fn passes_filter(s: SelectionText, file: Seq<char>) -> bool {
    filter_names(s, file) || scope_names(
        scope_rules(s.keep_entries),
        relative_spec(file, s.root),
        file,
    )
}

/// The files left by the index filter, which leaves a repository alone that holds none of
/// the files it names.
pub open spec fn after_filter(s: SelectionText, files: Seq<Seq<char>>) -> Seq<Seq<char>> {
    if is_filtered(s, files) {
        files.filter(|f: Seq<char>| passes_filter(s, f))
    } else {
        files
    }
}

pub open spec fn c_source_count(files: Seq<Seq<char>>) -> nat {
    files.filter(|f: Seq<char>| is_c_source(f)).len()
}

pub open spec fn covered_count(s: SelectionText, files: Seq<Seq<char>>) -> nat {
    files.filter(|f: Seq<char>| is_c_source(f) && s.compiled.contains(f)).len()
}

/// How the build manifest bears on the selection.
#[derive(Debug, Clone, Copy, PartialEq, Eq, Structural)]
pub enum ManifestUse {
    /// Not asked for, or too few C sources for one to be expected.
    NotEngaged,
    /// It covers too little to be trusted; all sources are indexed.
    Stale,
    /// It restricts the C sources.
    Applied,
}

/// Whether the manifest restricts the sources: it does so only where it covers at least
/// the required percentage of them.
pub open spec fn manifest_use(s: SelectionText, files: Seq<Seq<char>>) -> ManifestUse {
    if !s.use_compile_commands || c_source_count(files) < COMPILE_COMMANDS_MIN_CXX_SOURCES {
        ManifestUse::NotEngaged
    } else if covered_count(s, files) * 100 < c_source_count(files) * s.min_coverage_pct {
        ManifestUse::Stale
    } else {
        ManifestUse::Applied
    }
}

/// The manifest lets the file through: a header, no C source, listed, added since the
/// manifest was written, or matched by a force-keep pattern.
pub open spec fn manifest_keeps(s: SelectionText, file: Seq<char>) -> bool {
    ||| is_c_header(file)
    ||| !is_c_source(file)
    ||| s.compiled.contains(file)
    ||| s.unlisted.contains(relative_spec(file, s.root))
    ||| some_pattern_matches(valid_patterns(s.keep_entries), relative_spec(file, s.root))
}

/// A source kept only because it is newer than the manifest.
pub open spec fn is_carried(s: SelectionText, file: Seq<char>) -> bool {
    &&& !is_c_header(file)
    &&& is_c_source(file)
    &&& !s.compiled.contains(file)
    &&& s.unlisted.contains(relative_spec(file, s.root))
}

/// The files that are indexed.
pub open spec fn selected_files(s: SelectionText, walk: Seq<Seq<char>>) -> Seq<Seq<char>> {
    let files = after_filter(s, walked(walk));
    if manifest_use(s, files) == ManifestUse::Applied {
        files.filter(|f: Seq<char>| manifest_keeps(s, f))
    } else {
        files
    }
}

/// The files the manifest left out.
pub open spec fn manifest_dropped(s: SelectionText, walk: Seq<Seq<char>>) -> Seq<Seq<char>> {
    let files = after_filter(s, walked(walk));
    if manifest_use(s, files) == ManifestUse::Applied {
        files.filter(|f: Seq<char>| !manifest_keeps(s, f))
    } else {
        Seq::empty()
    }
}

/// The outcome of the selection.
#[derive(Debug)]
pub struct Selection {
    /// The files to index, in walk order.
    pub files: Vec<String>,
    /// The walk without merge leftovers, where the index filter is in force.
    pub all_files: Vec<String>,
    /// The index filter is in force.
    pub index_filtered: bool,
    pub manifest: ManifestUse,
    /// The files the manifest left out.
    pub manifest_filtered: Vec<String>,
    /// How many sources were kept only because they are newer than the manifest.
    pub carried: usize,
}

fn keep_walked(walk: &[String]) -> (r: Vec<String>)
    ensures
        texts(r@) == walked(texts(walk@)),
{
    let ghost pred = |f: Seq<char>| !is_merge_leftover(f);
    let ghost all = texts(walk@);
    let mut out: Vec<String> = Vec::new();
    let mut i: usize = 0;
    proof {
        reveal(Seq::filter);
        assert(texts(out@) =~= all.take(0).filter(pred));
    }
    while i < walk.len()
        invariant
            i <= walk@.len(),
            all == texts(walk@),
            pred == (|f: Seq<char>| !is_merge_leftover(f)),
            texts(out@) == all.take(i as int).filter(pred),
        decreases walk@.len() - i,
    {
        proof {
            reveal(Seq::filter);
            assert(all.take(i + 1).drop_last() =~= all.take(i as int));
            assert(all.take(i + 1).last() == walk@[i as int]@);
        }
        if !is_merge_conflict_artifact(walk[i].as_str()) {
            let file = walk[i].clone();
            proof {
                assert(texts(out@.push(file)) =~= texts(out@).push(file@));
            }
            out.push(file);
        }
        i = i + 1;
    }
    proof {
        assert(all.take(all.len() as int) =~= all);
    }
    out
}

fn is_in_filter(rules: &SelectionRules, file: &str) -> (r: bool)
    ensures
        r == filter_names(rules@, file@),
{
    let rel = relative(file, rules.root.as_str());
    scope_matches(rules.index_filter.as_slice(), rel.as_str(), file)
}

fn filter_in_force(rules: &SelectionRules, files: &[String]) -> (r: bool)
    ensures
        r == is_filtered(rules@, texts(files@)),
{
    let ghost all = texts(files@);
    let mut i: usize = 0;
    while i < files.len()
        invariant
            i <= files@.len(),
            all == texts(files@),
            forall|j: int| 0 <= j < i ==> !filter_names(rules@, #[trigger] all[j]),
        decreases files@.len() - i,
    {
        proof {
            assert(all[i as int] == files@[i as int]@);
        }
        if is_in_filter(rules, files[i].as_str()) {
            return true;
        }
        i = i + 1;
    }
    false
}

fn keep_filtered(rules: &SelectionRules, files: &[String]) -> (r: Vec<String>)
    ensures
        texts(r@) == texts(files@).filter(|f: Seq<char>| passes_filter(rules@, f)),
{
    let keep_entries = compile_scope(rules.keep_entries.as_slice());
    let ghost pred = |f: Seq<char>| passes_filter(rules@, f);
    let ghost all = texts(files@);
    let mut out: Vec<String> = Vec::new();
    let mut i: usize = 0;
    proof {
        reveal(Seq::filter);
        assert(texts(out@) =~= all.take(0).filter(pred));
    }
    while i < files.len()
        invariant
            i <= files@.len(),
            all == texts(files@),
            rule_texts(keep_entries@) == scope_rules(rules@.keep_entries),
            pred == (|f: Seq<char>| passes_filter(rules@, f)),
            texts(out@) == all.take(i as int).filter(pred),
        decreases files@.len() - i,
    {
        proof {
            reveal(Seq::filter);
            assert(all.take(i + 1).drop_last() =~= all.take(i as int));
            assert(all.take(i + 1).last() == files@[i as int]@);
        }
        let rel = relative(files[i].as_str(), rules.root.as_str());
        if is_in_filter(rules, files[i].as_str()) || scope_matches(
            keep_entries.as_slice(),
            rel.as_str(),
            files[i].as_str(),
        ) {
            let file = files[i].clone();
            proof {
                assert(texts(out@.push(file)) =~= texts(out@).push(file@));
            }
            out.push(file);
        }
        i = i + 1;
    }
    proof {
        assert(all.take(all.len() as int) =~= all);
    }
    out
}

/// Number of C and C++ sources among the files.
pub fn count_c_sources(files: &[String]) -> (r: usize)
    ensures
        r == c_source_count(texts(files@)),
{
    let ghost pred = |f: Seq<char>| is_c_source(f);
    let ghost all = texts(files@);
    let mut n: usize = 0;
    let mut i: usize = 0;
    proof {
        reveal(Seq::filter);
        assert(all.take(0).filter(pred).len() == 0);
    }
    while i < files.len()
        invariant
            i <= files@.len(),
            n <= i,
            all == texts(files@),
            pred == (|f: Seq<char>| is_c_source(f)),
            n == all.take(i as int).filter(pred).len(),
        decreases files@.len() - i,
    {
        proof {
            reveal(Seq::filter);
            assert(all.take(i + 1).drop_last() =~= all.take(i as int));
            assert(all.take(i + 1).last() == files@[i as int]@);
        }
        let ext = ext_of(files[i].as_str());
        if is_c_source_ext(ext.as_str()) {
            n = n + 1;
        }
        i = i + 1;
    }
    proof {
        assert(all.take(all.len() as int) =~= all);
    }
    n
}

fn count_covered(rules: &SelectionRules, files: &[String]) -> (r: usize)
    ensures
        r == covered_count(rules@, texts(files@)),
{
    let ghost pred = |f: Seq<char>| is_c_source(f) && rules@.compiled.contains(f);
    let ghost all = texts(files@);
    let mut n: usize = 0;
    let mut i: usize = 0;
    proof {
        reveal(Seq::filter);
        assert(all.take(0).filter(pred).len() == 0);
    }
    while i < files.len()
        invariant
            i <= files@.len(),
            n <= i,
            all == texts(files@),
            pred == (|f: Seq<char>| is_c_source(f) && rules@.compiled.contains(f)),
            n == all.take(i as int).filter(pred).len(),
        decreases files@.len() - i,
    {
        proof {
            reveal(Seq::filter);
            assert(all.take(i + 1).drop_last() =~= all.take(i as int));
            assert(all.take(i + 1).last() == files@[i as int]@);
        }
        let ext = ext_of(files[i].as_str());
        if is_c_source_ext(ext.as_str()) && has_text(
            rules.compiled.as_slice(),
            files[i].as_str(),
        ) {
            n = n + 1;
        }
        i = i + 1;
    }
    proof {
        assert(all.take(all.len() as int) =~= all);
    }
    n
}

/// A manifest covers a smaller share of the sources than it has to.
pub open spec fn covers_too_little(covered: nat, sources: nat, min_pct: nat) -> bool {
    covered * 100 < sources * min_pct
}

/// Whether a manifest that covers `covered` of `sources` is below the required percentage.
pub fn coverage_is_low(covered: usize, sources: usize, min_pct: usize) -> (r: bool)
    ensures
        r == (covered * 100 < sources * min_pct),
        r == covers_too_little(covered as nat, sources as nat, min_pct as nat),
{
    let have: u128 = covered as u128 * 100;
    assert(sources as u128 * min_pct as u128 <= u64::MAX as u128 * u64::MAX as u128) by (nonlinear_arith)
        requires
            sources <= u64::MAX,
            min_pct <= u64::MAX,
    ;
    let need: u128 = sources as u128 * min_pct as u128;
    have < need
}

struct Kept {
    files: Vec<String>,
    dropped: Vec<String>,
    carried: usize,
}

fn apply_manifest(rules: &SelectionRules, files: &[String]) -> (r: Kept)
    ensures
        texts(r.files@) == texts(files@).filter(|f: Seq<char>| manifest_keeps(rules@, f)),
        texts(r.dropped@) == texts(files@).filter(|f: Seq<char>| !manifest_keeps(rules@, f)),
        r.carried == texts(files@).filter(|f: Seq<char>| is_carried(rules@, f)).len(),
{
    let patterns = compile_include_patterns(rules.keep_entries.as_slice());
    let ghost keep = |f: Seq<char>| manifest_keeps(rules@, f);
    let ghost drop = |f: Seq<char>| !manifest_keeps(rules@, f);
    let ghost carry = |f: Seq<char>| is_carried(rules@, f);
    let ghost all = texts(files@);
    let mut out: Vec<String> = Vec::new();
    let mut dropped: Vec<String> = Vec::new();
    let mut carried: usize = 0;
    let mut i: usize = 0;
    proof {
        reveal(Seq::filter);
        assert(texts(out@) =~= all.take(0).filter(keep));
        assert(texts(dropped@) =~= all.take(0).filter(drop));
        assert(all.take(0).filter(carry).len() == 0);
    }
    while i < files.len()
        invariant
            i <= files@.len(),
            carried <= i,
            all == texts(files@),
            texts(patterns@) == valid_patterns(rules@.keep_entries),
            keep == (|f: Seq<char>| manifest_keeps(rules@, f)),
            drop == (|f: Seq<char>| !manifest_keeps(rules@, f)),
            carry == (|f: Seq<char>| is_carried(rules@, f)),
            texts(out@) == all.take(i as int).filter(keep),
            texts(dropped@) == all.take(i as int).filter(drop),
            carried == all.take(i as int).filter(carry).len(),
        decreases files@.len() - i,
    {
        proof {
            reveal(Seq::filter);
            assert(all.take(i + 1).drop_last() =~= all.take(i as int));
            assert(all.take(i + 1).last() == files@[i as int]@);
        }
        let path = files[i].as_str();
        let ext = ext_of(path);
        let header = is_c_header_ext(ext.as_str());
        let source = is_c_source_ext(ext.as_str());
        let listed = has_text(rules.compiled.as_slice(), path);
        let rel = relative(path, rules.root.as_str());
        let newer = has_text(rules.unlisted.as_slice(), rel.as_str());
        let file = files[i].clone();
        if !header && source && !listed && newer {
            carried = carried + 1;
        }
        if header || !source || listed || newer || any_pattern_matches(
            patterns.as_slice(),
            rel.as_str(),
        ) {
            proof {
                assert(texts(out@.push(file)) =~= texts(out@).push(file@));
            }
            out.push(file);
        } else {
            proof {
                assert(texts(dropped@.push(file)) =~= texts(dropped@).push(file@));
            }
            dropped.push(file);
        }
        i = i + 1;
    }
    proof {
        assert(all.take(all.len() as int) =~= all);
    }
    Kept { files: out, dropped, carried }
}

/// Selects the files an index run covers from what the walk of the repository found.
pub fn select_files(rules: &SelectionRules, walk: &[String]) -> (r: Selection)
    ensures
        texts(r.files@) == selected_files(rules@, texts(walk@)),
        r.index_filtered == is_filtered(rules@, walked(texts(walk@))),
        texts(r.all_files@) == (if r.index_filtered {
            walked(texts(walk@))
        } else {
            Seq::empty()
        }),
        r.manifest == manifest_use(rules@, after_filter(rules@, walked(texts(walk@)))),
        texts(r.manifest_filtered@) == manifest_dropped(rules@, texts(walk@)),
        r.carried == (if r.manifest == ManifestUse::Applied {
            after_filter(rules@, walked(texts(walk@))).filter(
                |f: Seq<char>| is_carried(rules@, f),
            ).len()
        } else {
            0
        }),
{
    let found = keep_walked(walk);
    let index_filtered = filter_in_force(rules, found.as_slice());
    let mut all_files: Vec<String> = Vec::new();
    let mut files = found;
    if index_filtered {
        let kept = keep_filtered(rules, files.as_slice());
        all_files = files;
        files = kept;
    }
    proof {
        if !index_filtered {
            assert(texts(all_files@) =~= Seq::<Seq<char>>::empty());
        }
    }
    let sources = count_c_sources(files.as_slice());
    let mut manifest = ManifestUse::NotEngaged;
    let mut manifest_filtered: Vec<String> = Vec::new();
    let mut carried: usize = 0;
    proof {
        assert(texts(manifest_filtered@) =~= Seq::<Seq<char>>::empty());
    }
    if rules.use_compile_commands && sources >= COMPILE_COMMANDS_MIN_CXX_SOURCES {
        let covered = count_covered(rules, files.as_slice());
        if coverage_is_low(covered, sources, rules.min_coverage_pct) {
            manifest = ManifestUse::Stale;
        } else {
            manifest = ManifestUse::Applied;
            let kept = apply_manifest(rules, files.as_slice());
            files = kept.files;
            manifest_filtered = kept.dropped;
            carried = kept.carried;
        }
    }
    Selection { files, all_files, index_filtered, manifest, manifest_filtered, carried }
}

proof fn lemma_filter_keeps<T>(s: Seq<T>, pred: spec_fn(T) -> bool, x: T)
    requires
        s.contains(x),
        pred(x),
    ensures
        s.filter(pred).contains(x),
    decreases s.len(),
{
    reveal(Seq::filter);
    let k = choose|k: int| 0 <= k < s.len() && s[k] == x;
    let front = s.drop_last().filter(pred);
    if k == s.len() - 1 {
        assert(s.filter(pred) == front.push(x));
        assert(s.filter(pred)[front.len() as int] == x);
    } else {
        assert(s.drop_last()[k] == x);
        lemma_filter_keeps(s.drop_last(), pred, x);
        let j = choose|j: int| 0 <= j < front.len() && front[j] == x;
        assert(s.filter(pred)[j] == x);
    }
}

/// A repository in which the index filter names no file is indexed as if there were no
/// filter at all.
pub proof fn law_filter_leaves_other_repos_alone(s: SelectionText, files: Seq<Seq<char>>)
    requires
        forall|i: int| 0 <= i < files.len() ==> !filter_names(s, #[trigger] files[i]),
    ensures
        after_filter(s, files) == files,
{
}

/// A header is never dropped by a build manifest.
pub proof fn law_manifest_keeps_headers(
    s: SelectionText,
    walk: Seq<Seq<char>>,
    file: Seq<char>,
)
    requires
        after_filter(s, walked(walk)).contains(file),
        is_c_header(file) || !is_c_source(file),
    ensures
        selected_files(s, walk).contains(file),
{
    let files = after_filter(s, walked(walk));
    if manifest_use(s, files) == ManifestUse::Applied {
        lemma_filter_keeps(files, |f: Seq<char>| manifest_keeps(s, f), file);
    }
}

/// A manifest that covers too little drops nothing.
pub proof fn law_stale_manifest_drops_nothing(s: SelectionText, walk: Seq<Seq<char>>)
    requires
        covered_count(s, after_filter(s, walked(walk))) * 100 < c_source_count(
            after_filter(s, walked(walk)),
        ) * s.min_coverage_pct,
    ensures
        selected_files(s, walk) == after_filter(s, walked(walk)),
        manifest_dropped(s, walk).len() == 0,
{
}

} // verus!
