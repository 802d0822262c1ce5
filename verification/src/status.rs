//! What a server says of itself: its repositories, its index, its caches, and the layout of
//! a project.

use vstd::prelude::*;

use crate::languages::{get_file_icon, get_file_icon_spec};
use crate::lookup::kinds_of;
use crate::order::{
    lemma_sort_maps, rank_order, sort_ranked, sort_stable, text_less, text_lt, Ranked,
};
use crate::symbols::{symbol_texts, Symbol, SymbolKind, SymbolText};
use crate::text::{
    concat, concat_texts, decimal, lines, lines_of, opt_text, parse_usize, parse_usize_spec,
    same_text, starts_with, strip_prefix, strip_prefix_spec, sub_text, texts, to_chars, usize_text,
    words, words_of,
};

verus! {

// ---- the repositories ----

/// A language of a repository with its counts.
#[derive(Debug)]
pub struct LanguageCount {
    pub language: String,
    pub file_count: usize,
    pub line_count: usize,
}

pub struct LanguageCountText {
    pub language: Seq<char>,
    pub file_count: usize,
    pub line_count: usize,
}

impl View for LanguageCount {
    type V = LanguageCountText;

    open spec fn view(&self) -> LanguageCountText {
        LanguageCountText {
            language: self.language@,
            file_count: self.file_count,
            line_count: self.line_count,
        }
    }
}

pub open spec fn language_counts(v: Seq<LanguageCount>) -> Seq<LanguageCountText> {
    v.map_values(|l: LanguageCount| l@)
}

pub open spec fn more_lines() -> spec_fn(LanguageCountText, LanguageCountText) -> bool {
    |a: LanguageCountText, b: LanguageCountText| a.line_count > b.line_count
}

impl Ranked for LanguageCount {
    open spec fn precedes(a: LanguageCount, b: LanguageCount) -> bool {
        a.line_count > b.line_count
    }

    fn is_before(&self, other: &LanguageCount) -> (r: bool) {
        self.line_count > other.line_count
    }
}

/// An indexed repository.
#[derive(Debug)]
pub struct RepoSummary {
    pub key: String,
    pub name: String,
    pub file_count: usize,
    pub total_lines: usize,
    pub languages: Vec<LanguageCount>,
}

pub struct SummaryText {
    pub key: Seq<char>,
    pub name: Seq<char>,
    pub file_count: usize,
    pub total_lines: usize,
    pub languages: Seq<LanguageCountText>,
}

impl View for RepoSummary {
    type V = SummaryText;

    open spec fn view(&self) -> SummaryText {
        SummaryText {
            key: self.key@,
            name: self.name@,
            file_count: self.file_count,
            total_lines: self.total_lines,
            languages: language_counts(self.languages@),
        }
    }
}

pub open spec fn summary_texts(v: Seq<RepoSummary>) -> Seq<SummaryText> {
    v.map_values(|s: RepoSummary| s@)
}

pub open spec fn language_row(l: LanguageCountText) -> Seq<char> {
    "  - "@ + l.language + ": "@ + decimal(l.file_count as nat) + " files, "@
        + decimal(l.line_count as nat) + " lines\n"@
}

/// A repository's entry: its counts, and with `detail` its languages, the largest first.
pub open spec fn repo_entry(s: SummaryText, detail: bool) -> Seq<char> {
    let body = if detail {
        "- **Files**: "@ + decimal(s.file_count as nat) + "\n- **Total Lines**: "@
            + decimal(s.total_lines as nat) + "\n- **Languages**:\n"@ + concat(
            sort_stable(s.languages, more_lines()).map_values(
                |l: LanguageCountText| language_row(l),
            ),
        )
    } else {
        "- **Files**: "@ + decimal(s.file_count as nat) + ", **Lines**: "@
            + decimal(s.total_lines as nat) + " (pass `detail=true` for languages)\n"@
    };
    "## "@ + s.name + "\n- **Repo**: `"@ + s.key + "`\n"@ + body + "\n"@
}

pub open spec fn listed_repos(repos: Seq<SummaryText>, only: Option<Seq<char>>) -> Seq<SummaryText> {
    repos.filter(|s: SummaryText| only matches Some(k) ==> s.key == k)
}

/// The list of the indexed repositories, all or only one.
pub open spec fn repos_answer(repos: Seq<SummaryText>, only: Option<Seq<char>>, detail: bool) -> Seq<
    char,
> {
    let shown = listed_repos(repos, only);
    let tail = if repos.len() == 0 {
        "*No repositories indexed yet.*\n"@
    } else if shown.len() == 0 {
        "*No matching repository.*\n"@
    } else {
        Seq::empty()
    };
    "# Indexed Repositories\n\nPass the **Repo** value below as the `repo` argument to any tool.\nIt is the canonical absolute path of the repository on disk; relative paths and `.` (current directory) are also accepted.\n\n"@
        + concat(shown.map_values(|s: SummaryText| repo_entry(s, detail))) + tail
}

fn sorted_languages(list: &[LanguageCount]) -> (r: Vec<LanguageCount>)
    ensures
        language_counts(r@) == sort_stable(language_counts(list@), more_lines()),
{
    let mut copy: Vec<LanguageCount> = Vec::new();
    let mut i: usize = 0;
    while i < list.len()
        invariant
            i <= list@.len(),
            copy@.len() == i,
            forall|j: int| 0 <= j < i ==> (#[trigger] copy@[j])@ == list@[j]@,
        decreases list@.len() - i,
    {
        copy.push(
            LanguageCount {
                language: list[i].language.clone(),
                file_count: list[i].file_count,
                line_count: list[i].line_count,
            },
        );
        i = i + 1;
    }
    let ghost all = language_counts(list@);
    let ghost view = |l: LanguageCount| l@;
    proof {
        lemma_sort_maps(copy@, view, rank_order::<LanguageCount>(), more_lines());
        assert(copy@.map_values(view) =~= all);
    }
    let sorted = sort_ranked(copy);
    proof {
        assert(language_counts(sorted@) =~= sort_stable(all, more_lines()));
    }
    sorted
}

fn render_repo(s: &RepoSummary, detail: bool) -> (r: String)
    ensures
        r@ == repo_entry(s@, detail),
{
    let mut body = String::new();
    if detail {
        let sorted = sorted_languages(s.languages.as_slice());
        let ghost order = language_counts(sorted@);
        let mut rows: Vec<String> = Vec::new();
        let mut i: usize = 0;
        while i < sorted.len()
            invariant
                i <= sorted@.len(),
                order == language_counts(sorted@),
                rows@.len() == i,
                forall|j: int| 0 <= j < i ==> #[trigger] rows@[j]@ == language_row(order[j]),
            decreases sorted@.len() - i,
        {
            let l = &sorted[i];
            proof {
                assert(order[i as int] == l@);
            }
            let mut row = "  - ".to_owned();
            row.append(l.language.as_str());
            row.append(": ");
            row.append(usize_text(l.file_count).as_str());
            row.append(" files, ");
            row.append(usize_text(l.line_count).as_str());
            row.append(" lines\n");
            rows.push(row);
            i = i + 1;
        }
        proof {
            assert(texts(rows@) =~= order.map_values(|l: LanguageCountText| language_row(l)));
        }
        body = "- **Files**: ".to_owned();
        body.append(usize_text(s.file_count).as_str());
        body.append("\n- **Total Lines**: ");
        body.append(usize_text(s.total_lines).as_str());
        body.append("\n- **Languages**:\n");
        body.append(concat_texts(rows.as_slice()).as_str());
    } else {
        body = "- **Files**: ".to_owned();
        body.append(usize_text(s.file_count).as_str());
        body.append(", **Lines**: ");
        body.append(usize_text(s.total_lines).as_str());
        body.append(" (pass `detail=true` for languages)\n");
    }
    let mut out = "## ".to_owned();
    out.append(s.name.as_str());
    out.append("\n- **Repo**: `");
    out.append(s.key.as_str());
    out.append("`\n");
    out.append(body.as_str());
    out.append("\n");
    out
}

/// Lists the indexed repositories, all or the one with the key `only`.
pub fn list_repos_scoped(repos: &[RepoSummary], only: Option<&str>, detail: bool) -> (r: String)
    ensures
        r@ == repos_answer(
            summary_texts(repos@),
            match only {
                Some(k) => Some(k@),
                None => None,
            },
            detail,
        ),
{
    let ghost all = summary_texts(repos@);
    let ghost key = match only {
        Some(k) => Some(k@),
        None => None,
    };
    let ghost pred = |s: SummaryText| key matches Some(k) ==> s.key == k;
    let ghost row = |s: SummaryText| repo_entry(s, detail);
    let mut rows: Vec<String> = Vec::new();
    let mut i: usize = 0;
    proof {
        reveal(Seq::filter);
        assert(texts(rows@) =~= all.take(0).filter(pred).map_values(row));
    }
    while i < repos.len()
        invariant
            i <= repos@.len(),
            all == summary_texts(repos@),
            key == (match only {
                Some(k) => Some(k@),
                None => None,
            }),
            pred == (|s: SummaryText| key matches Some(k) ==> s.key == k),
            row == (|s: SummaryText| repo_entry(s, detail)),
            texts(rows@) == all.take(i as int).filter(pred).map_values(row),
        decreases repos@.len() - i,
    {
        proof {
            reveal(Seq::filter);
            assert(all.take(i + 1).drop_last() =~= all.take(i as int));
            assert(all.take(i + 1).last() == repos@[i as int]@);
        }
        let wanted = match only {
            Some(k) => same_text(repos[i].key.as_str(), k),
            None => true,
        };
        if wanted {
            let text = render_repo(&repos[i], detail);
            proof {
                let kept = all.take(i as int).filter(pred);
                assert(texts(rows@.push(text)) =~= texts(rows@).push(text@));
                assert(kept.push(repos@[i as int]@).map_values(row) =~= kept.map_values(row).push(
                    text@,
                ));
            }
            rows.push(text);
        }
        i = i + 1;
    }
    proof {
        assert(all.take(all.len() as int) =~= all);
        assert(texts(rows@) == listed_repos(all, key).map_values(row));
        assert(texts(rows@).len() == rows@.len());
        assert(listed_repos(all, key).len() == rows@.len());
        assert(all.len() == repos@.len());
    }
    let mut out =
        "# Indexed Repositories\n\nPass the **Repo** value below as the `repo` argument to any tool.\nIt is the canonical absolute path of the repository on disk; relative paths and `.` (current directory) are also accepted.\n\n".to_owned();
    out.append(concat_texts(rows.as_slice()).as_str());
    let mut tail = String::new();
    proof {
        assert(tail@ =~= Seq::<char>::empty());
    }
    if repos.len() == 0 {
        tail = "*No repositories indexed yet.*\n".to_owned();
    } else if rows.len() == 0 {
        tail = "*No matching repository.*\n".to_owned();
    }
    out.append(tail.as_str());
    out
}

// ---- the index ----

pub open spec fn on_off(b: bool) -> Seq<char> {
    if b {
        "enabled"@
    } else {
        "disabled"@
    }
}

fn switch(b: bool) -> (r: &'static str)
    ensures
        r@ == on_off(b),
{
    if b {
        "enabled"
    } else {
        "disabled"
    }
}

/// The first eight characters of a commit's hash.
pub open spec fn short_hash_spec(hash: Seq<char>) -> Seq<char> {
    if hash.len() > SHORT_HASH_LEN {
        hash.take(SHORT_HASH_LEN as int)
    } else {
        hash
    }
}

/// Characters of a shortened hash.
pub const SHORT_HASH_LEN: usize = 8;

/// A repository's entry in the index status.
#[derive(Debug)]
pub struct RepoStatus {
    pub key: String,
    pub name: String,
    pub file_count: usize,
    pub symbol_count: usize,
    pub git: bool,
    /// The commit the repository's build manifest describes.
    pub manifest_base: Option<String>,
    pub head: Option<String>,
    /// The commits since the manifest's.
    pub commits_behind: usize,
}

pub struct StatusText {
    pub key: Seq<char>,
    pub name: Seq<char>,
    pub file_count: usize,
    pub symbol_count: usize,
    pub git: bool,
    pub manifest_base: Option<Seq<char>>,
    pub head: Option<Seq<char>>,
    pub commits_behind: usize,
}

impl View for RepoStatus {
    type V = StatusText;

    open spec fn view(&self) -> StatusText {
        StatusText {
            key: self.key@,
            name: self.name@,
            file_count: self.file_count,
            symbol_count: self.symbol_count,
            git: self.git,
            manifest_base: opt_text(self.manifest_base),
            head: opt_text(self.head),
            commits_behind: self.commits_behind,
        }
    }
}

pub open spec fn status_texts(v: Seq<RepoStatus>) -> Seq<StatusText> {
    v.map_values(|s: RepoStatus| s@)
}

/// A manifest that describes another commit than the current one.
pub open spec fn manifest_note(s: StatusText) -> Seq<char> {
    match s.manifest_base {
        Some(base) => if s.head != Some(base) {
            let head = match s.head {
                Some(h) => short_hash_spec(h),
                None => "?"@,
            };
            "- compile_commands.json: generated at "@ + short_hash_spec(base) + ", HEAD is "@
                + head + " ("@ + decimal(s.commits_behind as nat)
                + " commit(s) behind) — regenerate it for accurate C/C++ flags\n"@
        } else {
            Seq::empty()
        },
        None => Seq::empty(),
    }
}

pub open spec fn status_entry(s: StatusText) -> Seq<char> {
    "### "@ + s.name + "\n- Repo: `"@ + s.key + "`\n- Files: "@ + decimal(s.file_count as nat)
        + "\n- Symbols: "@ + decimal(s.symbol_count as nat) + "\n- Git: "@ + on_off(s.git) + "\n"@
        + manifest_note(s) + "\n"@
}

/// What the index status is made of. The average length comes as it is shown.
#[derive(Debug)]
pub struct IndexFacts {
    pub initialized: bool,
    pub indexed_repos: usize,
    pub total_repos: usize,
    pub progress: usize,
    pub total_documents: usize,
    pub total_terms: usize,
    pub avg_doc_length: String,
    pub git_enabled: bool,
    pub call_graph_enabled: bool,
    pub persist_enabled: bool,
    pub watch_enabled: bool,
    pub doc_types: Vec<(String, usize)>,
}

pub struct FactsText {
    pub initialized: bool,
    pub indexed_repos: usize,
    pub total_repos: usize,
    pub progress: usize,
    pub total_documents: usize,
    pub total_terms: usize,
    pub avg_doc_length: Seq<char>,
    pub git_enabled: bool,
    pub call_graph_enabled: bool,
    pub persist_enabled: bool,
    pub watch_enabled: bool,
    pub doc_types: Seq<(Seq<char>, usize)>,
}

impl View for IndexFacts {
    type V = FactsText;

    open spec fn view(&self) -> FactsText {
        FactsText {
            initialized: self.initialized,
            indexed_repos: self.indexed_repos,
            total_repos: self.total_repos,
            progress: self.progress,
            total_documents: self.total_documents,
            total_terms: self.total_terms,
            avg_doc_length: self.avg_doc_length@,
            git_enabled: self.git_enabled,
            call_graph_enabled: self.call_graph_enabled,
            persist_enabled: self.persist_enabled,
            watch_enabled: self.watch_enabled,
            doc_types: named_counts(self.doc_types@),
        }
    }
}

pub open spec fn named_counts(v: Seq<(String, usize)>) -> Seq<(Seq<char>, usize)> {
    v.map_values(|e: (String, usize)| (e.0@, e.1))
}

pub open spec fn count_row(e: (Seq<char>, usize)) -> Seq<char> {
    "- "@ + e.0 + ": "@ + decimal(e.1 as nat) + "\n"@
}

pub open spec fn state_word(initialized: bool) -> Seq<char> {
    if initialized {
        "✓ Complete"@
    } else {
        "⏳ In Progress"@
    }
}

pub open spec fn facts_part(f: FactsText) -> Seq<char> {
    "# Index Status\n\n## Initialization Status\n\n- **Status**: "@ + state_word(f.initialized)
        + "\n- **Progress**: "@ + decimal(f.indexed_repos as nat) + "/"@
        + decimal(f.total_repos as nat) + " repositories ("@ + decimal(f.progress as nat)
        + "%)\n\n**Total Documents**: "@ + decimal(f.total_documents as nat)
        + "\n**Total Terms**: "@ + decimal(f.total_terms as nat) + "\n**Avg Document Length**: "@
        + f.avg_doc_length + " tokens\n\n## Enabled Features\n\n- **Git integration**: "@
        + on_off(f.git_enabled) + "\n- **Call graph analysis**: "@ + on_off(f.call_graph_enabled)
        + "\n- **Index persistence**: "@ + on_off(f.persist_enabled) + "\n- **Watch mode**: "@
        + on_off(f.watch_enabled) + "\n\n## Document Types\n\n"@ + concat(
        f.doc_types.map_values(|e: (Seq<char>, usize)| count_row(e)),
    )
}

pub open spec fn status_kept(repos: Seq<StatusText>, only: Option<Seq<char>>) -> Seq<StatusText> {
    repos.filter(|s: StatusText| only matches Some(k) ==> s.key == k)
}

/// The index status. `memory` is the report on memory, as it is shown.
pub open spec fn index_status_answer(
    f: FactsText,
    repos: Seq<StatusText>,
    only: Option<Seq<char>>,
    memory: Seq<char>,
) -> Seq<char> {
    facts_part(f) + "\n## Repositories\n\n"@ + concat(
        status_kept(repos, only).map_values(|s: StatusText| status_entry(s)),
    ) + memory
}

/// A commit's hash, shortened.
pub fn short_hash(hash: &str) -> (r: String)
    ensures
        r@ == short_hash_spec(hash@),
{
    let chars = to_chars(hash);
    if chars.len() > SHORT_HASH_LEN {
        proof {
            assert(hash@.subrange(0, SHORT_HASH_LEN as int) =~= hash@.take(SHORT_HASH_LEN as int));
        }
        sub_text(chars.as_slice(), 0, SHORT_HASH_LEN)
    } else {
        hash.to_owned()
    }
}

fn render_manifest_note(s: &RepoStatus) -> (r: String)
    ensures
        r@ == manifest_note(s@),
{
    let none = String::new();
    proof {
        assert(none@ =~= Seq::<char>::empty());
    }
    match &s.manifest_base {
        Some(base) => {
            let same = match &s.head {
                Some(h) => same_text(h.as_str(), base.as_str()),
                None => false,
            };
            if same {
                none
            } else {
                let head = match &s.head {
                    Some(h) => short_hash(h.as_str()),
                    None => "?".to_owned(),
                };
                let mut out = "- compile_commands.json: generated at ".to_owned();
                out.append(short_hash(base.as_str()).as_str());
                out.append(", HEAD is ");
                out.append(head.as_str());
                out.append(" (");
                out.append(usize_text(s.commits_behind).as_str());
                out.append(" commit(s) behind) — regenerate it for accurate C/C++ flags\n");
                out
            }
        },
        None => none,
    }
}

fn render_status_entry(s: &RepoStatus) -> (r: String)
    ensures
        r@ == status_entry(s@),
{
    let mut out = "### ".to_owned();
    out.append(s.name.as_str());
    out.append("\n- Repo: `");
    out.append(s.key.as_str());
    out.append("`\n- Files: ");
    out.append(usize_text(s.file_count).as_str());
    out.append("\n- Symbols: ");
    out.append(usize_text(s.symbol_count).as_str());
    out.append("\n- Git: ");
    out.append(switch(s.git));
    out.append("\n");
    out.append(render_manifest_note(s).as_str());
    out.append("\n");
    out
}

fn render_counts(list: &[(String, usize)]) -> (r: String)
    ensures
        r@ == concat(named_counts(list@).map_values(|e: (Seq<char>, usize)| count_row(e))),
{
    let mut rows: Vec<String> = Vec::new();
    let mut i: usize = 0;
    while i < list.len()
        invariant
            i <= list@.len(),
            rows@.len() == i,
            forall|j: int|
                0 <= j < i ==> #[trigger] rows@[j]@ == count_row((list@[j].0@, list@[j].1)),
        decreases list@.len() - i,
    {
        let mut row = "- ".to_owned();
        row.append(list[i].0.as_str());
        row.append(": ");
        row.append(usize_text(list[i].1).as_str());
        row.append("\n");
        rows.push(row);
        i = i + 1;
    }
    proof {
        assert(texts(rows@) =~= named_counts(list@).map_values(
            |e: (Seq<char>, usize)| count_row(e),
        ));
    }
    concat_texts(rows.as_slice())
}

fn render_facts(f: &IndexFacts) -> (r: String)
    ensures
        r@ == facts_part(f@),
{
    let state = if f.initialized {
        "✓ Complete"
    } else {
        "⏳ In Progress"
    };
    let mut out = "# Index Status\n\n## Initialization Status\n\n- **Status**: ".to_owned();
    out.append(state);
    out.append("\n- **Progress**: ");
    out.append(usize_text(f.indexed_repos).as_str());
    out.append("/");
    out.append(usize_text(f.total_repos).as_str());
    out.append(" repositories (");
    out.append(usize_text(f.progress).as_str());
    out.append("%)\n\n**Total Documents**: ");
    out.append(usize_text(f.total_documents).as_str());
    out.append("\n**Total Terms**: ");
    out.append(usize_text(f.total_terms).as_str());
    out.append("\n**Avg Document Length**: ");
    out.append(f.avg_doc_length.as_str());
    out.append(" tokens\n\n## Enabled Features\n\n- **Git integration**: ");
    out.append(switch(f.git_enabled));
    out.append("\n- **Call graph analysis**: ");
    out.append(switch(f.call_graph_enabled));
    out.append("\n- **Index persistence**: ");
    out.append(switch(f.persist_enabled));
    out.append("\n- **Watch mode**: ");
    out.append(switch(f.watch_enabled));
    out.append("\n\n## Document Types\n\n");
    out.append(render_counts(f.doc_types.as_slice()).as_str());
    out
}

/// Renders the index status, for all repositories or for the one with the key `only`.
pub fn render_index_status(
    facts: &IndexFacts,
    repos: &[RepoStatus],
    only: Option<&str>,
    memory: &str,
) -> (r: String)
    ensures
        r@ == index_status_answer(
            facts@,
            status_texts(repos@),
            match only {
                Some(k) => Some(k@),
                None => None,
            },
            memory@,
        ),
{
    let ghost all = status_texts(repos@);
    let ghost key = match only {
        Some(k) => Some(k@),
        None => None,
    };
    let ghost pred = |s: StatusText| key matches Some(k) ==> s.key == k;
    let ghost row = |s: StatusText| status_entry(s);
    let mut rows: Vec<String> = Vec::new();
    let mut i: usize = 0;
    proof {
        reveal(Seq::filter);
        assert(texts(rows@) =~= all.take(0).filter(pred).map_values(row));
    }
    while i < repos.len()
        invariant
            i <= repos@.len(),
            all == status_texts(repos@),
            key == (match only {
                Some(k) => Some(k@),
                None => None,
            }),
            pred == (|s: StatusText| key matches Some(k) ==> s.key == k),
            row == (|s: StatusText| status_entry(s)),
            texts(rows@) == all.take(i as int).filter(pred).map_values(row),
        decreases repos@.len() - i,
    {
        proof {
            reveal(Seq::filter);
            assert(all.take(i + 1).drop_last() =~= all.take(i as int));
            assert(all.take(i + 1).last() == repos@[i as int]@);
        }
        let wanted = match only {
            Some(k) => same_text(repos[i].key.as_str(), k),
            None => true,
        };
        if wanted {
            let text = render_status_entry(&repos[i]);
            proof {
                let kept = all.take(i as int).filter(pred);
                assert(texts(rows@.push(text)) =~= texts(rows@).push(text@));
                assert(kept.push(repos@[i as int]@).map_values(row) =~= kept.map_values(row).push(
                    text@,
                ));
            }
            rows.push(text);
        }
        i = i + 1;
    }
    proof {
        assert(all.take(all.len() as int) =~= all);
        assert(texts(rows@) == status_kept(all, key).map_values(row));
    }
    let mut out = render_facts(facts);
    out.append("\n## Repositories\n\n");
    out.append(concat_texts(rows.as_slice()).as_str());
    out.append(memory);
    out
}

// ---- incremental indexing ----

/// What is known of the persisted index of a repository.
#[derive(Debug)]
pub enum PersistedIndexState {
    /// Persistence is off.
    NoStore,
    /// There is no file yet.
    NotPersisted,
    /// There is a file that could not be looked at.
    Unreadable,
    /// Its size as it is shown, and the minutes since it was written, where known.
    Written { size: String, minutes_ago: Option<usize> },
}

pub open spec fn persisted_part(state: PersistedIndexState) -> Seq<char> {
    match state {
        PersistedIndexState::NoStore => Seq::empty(),
        PersistedIndexState::NotPersisted => "- **Index File**: Not persisted\n"@,
        PersistedIndexState::Unreadable => Seq::empty(),
        PersistedIndexState::Written { size, minutes_ago } => {
            let age = match minutes_ago {
                Some(m) => "- **Last Updated**: "@ + decimal(m as nat) + " minutes ago\n"@,
                None => Seq::empty(),
            };
            "- **Index File Size**: "@ + size@ + "\n"@ + age
        },
    }
}

/// A kind of symbol and how many there are.
#[derive(Debug)]
pub struct KindCount {
    pub kind: SymbolKind,
    pub count: usize,
}

impl Ranked for KindCount {
    open spec fn precedes(a: KindCount, b: KindCount) -> bool {
        a.count > b.count
    }

    fn is_before(&self, other: &KindCount) -> (r: bool) {
        self.count > other.count
    }
}

pub open spec fn kind_total(symbols: Seq<SymbolText>, kind: SymbolKind) -> nat {
    symbols.filter(|s: SymbolText| s.kind == kind).len()
}

pub open spec fn kind_totals(symbols: Seq<SymbolText>) -> Seq<KindCount> {
    kinds_of(symbols).map_values(
        |k: SymbolKind| KindCount { kind: k, count: kind_total(symbols, k) as usize },
    )
}

pub open spec fn kind_row(k: KindCount) -> Seq<char> {
    "- "@ + k.kind.name_spec() + ": "@ + decimal(k.count as nat) + "\n"@
}

/// The symbols by kind, the most frequent first.
pub open spec fn breakdown_part(symbols: Option<Seq<SymbolText>>) -> Seq<char> {
    match symbols {
        Some(list) => "\n## Symbol Breakdown\n\n"@ + concat(
            sort_stable(kind_totals(list), rank_order::<KindCount>()).map_values(
                |k: KindCount| kind_row(k),
            ),
        ),
        None => Seq::empty(),
    }
}

pub open spec fn incremental_answer(
    repo: Seq<char>,
    symbols: Option<Seq<SymbolText>>,
    cached_files: usize,
    state: PersistedIndexState,
) -> Seq<char> {
    let count = match symbols {
        Some(list) => list.len(),
        None => 0,
    };
    "# Incremental Index Status: "@ + repo + "\n\n## Index Statistics\n\n- **Repository**: "@
        + repo + "\n- **Indexed Symbols**: "@ + decimal(count as nat) + "\n- **Cached Files**: "@
        + decimal(cached_files as nat) + "\n"@ + persisted_part(state) + breakdown_part(symbols)
}

fn count_kind(symbols: &[Symbol], kind: SymbolKind) -> (r: usize)
    ensures
        r == kind_total(symbol_texts(symbols@), kind),
        r <= symbols@.len(),
{
    let ghost all = symbol_texts(symbols@);
    let ghost pred = |s: SymbolText| s.kind == kind;
    let mut n: usize = 0;
    let mut i: usize = 0;
    proof {
        reveal(Seq::filter);
    }
    while i < symbols.len()
        invariant
            i <= symbols@.len(),
            n <= i,
            all == symbol_texts(symbols@),
            pred == (|s: SymbolText| s.kind == kind),
            n == all.take(i as int).filter(pred).len(),
        decreases symbols@.len() - i,
    {
        proof {
            reveal(Seq::filter);
            assert(all.take(i + 1).drop_last() =~= all.take(i as int));
            assert(all.take(i + 1).last() == symbols@[i as int]@);
        }
        if symbols[i].kind == kind {
            n = n + 1;
        }
        i = i + 1;
    }
    proof {
        assert(all.take(all.len() as int) =~= all);
    }
    n
}

fn count_kinds(symbols: &[Symbol]) -> (r: Vec<KindCount>)
    ensures
        r@ == kind_totals(symbol_texts(symbols@)),
{
    let ghost all = symbol_texts(symbols@);
    let kinds = crate::lookup::list_kinds(symbols);
    let mut out: Vec<KindCount> = Vec::new();
    let mut i: usize = 0;
    while i < kinds.len()
        invariant
            i <= kinds@.len(),
            kinds@ == kinds_of(all),
            all == symbol_texts(symbols@),
            out@.len() == i,
            forall|j: int|
                0 <= j < i ==> (#[trigger] out@[j]) == (KindCount {
                    kind: kinds@[j],
                    count: kind_total(all, kinds@[j]) as usize,
                }),
        decreases kinds@.len() - i,
    {
        out.push(KindCount { kind: kinds[i], count: count_kind(symbols, kinds[i]) });
        i = i + 1;
    }
    proof {
        assert(out@ =~= kind_totals(all));
    }
    out
}

fn render_breakdown(symbols: Option<&[Symbol]>) -> (r: String)
    ensures
        r@ == breakdown_part(
            match symbols {
                Some(list) => Some(symbol_texts(list@)),
                None => None,
            },
        ),
{
    match symbols {
        None => {
            let none = String::new();
            proof {
                assert(none@ =~= Seq::<char>::empty());
            }
            none
        },
        Some(list) => {
            let counts = count_kinds(list);
            let sorted = sort_ranked(counts);
            let ghost order = sorted@;
            let mut rows: Vec<String> = Vec::new();
            let mut i: usize = 0;
            while i < sorted.len()
                invariant
                    i <= sorted@.len(),
                    order == sorted@,
                    rows@.len() == i,
                    forall|j: int| 0 <= j < i ==> #[trigger] rows@[j]@ == kind_row(order[j]),
                decreases sorted@.len() - i,
            {
                let mut row = "- ".to_owned();
                row.append(sorted[i].kind.name());
                row.append(": ");
                row.append(usize_text(sorted[i].count).as_str());
                row.append("\n");
                rows.push(row);
                i = i + 1;
            }
            proof {
                assert(texts(rows@) =~= order.map_values(|k: KindCount| kind_row(k)));
            }
            let mut out = "\n## Symbol Breakdown\n\n".to_owned();
            out.append(concat_texts(rows.as_slice()).as_str());
            out
        },
    }
}

/// Renders the state of incremental indexing of a repository.
pub fn render_incremental_status(
    repo: &str,
    symbols: Option<&[Symbol]>,
    cached_files: usize,
    state: PersistedIndexState,
) -> (r: String)
    ensures
        r@ == incremental_answer(
            repo@,
            match symbols {
                Some(list) => Some(symbol_texts(list@)),
                None => None,
            },
            cached_files,
            state,
        ),
{
    let count: usize = match symbols {
        Some(list) => {
            proof {
                assert(symbol_texts(list@).len() == list@.len());
            }
            list.len()
        },
        None => 0,
    };
    let mut part = String::new();
    proof {
        assert(part@ =~= Seq::<char>::empty());
    }
    match &state {
        PersistedIndexState::NoStore => {},
        PersistedIndexState::NotPersisted => {
            part = "- **Index File**: Not persisted\n".to_owned();
        },
        PersistedIndexState::Unreadable => {},
        PersistedIndexState::Written { size, minutes_ago } => {
            let mut age = String::new();
            proof {
                assert(age@ =~= Seq::<char>::empty());
            }
            match minutes_ago {
                Some(m) => {
                    age = "- **Last Updated**: ".to_owned();
                    age.append(usize_text(*m).as_str());
                    age.append(" minutes ago\n");
                },
                None => {},
            }
            part = "- **Index File Size**: ".to_owned();
            part.append(size.as_str());
            part.append("\n");
            part.append(age.as_str());
        },
    }
    let mut out = "# Incremental Index Status: ".to_owned();
    out.append(repo);
    out.append("\n\n## Index Statistics\n\n- **Repository**: ");
    out.append(repo);
    out.append("\n- **Indexed Symbols**: ");
    out.append(usize_text(count).as_str());
    out.append("\n- **Cached Files**: ");
    out.append(usize_text(cached_files).as_str());
    out.append("\n");
    out.append(part.as_str());
    out.append(render_breakdown(symbols).as_str());
    out
}

// ---- caches ----

/// The counters of a cache. The hit rate comes as it is shown.
#[derive(Debug)]
pub struct CacheFigures {
    pub enabled: bool,
    pub ttl_seconds: u64,
    pub hits: u64,
    pub misses: u64,
    pub hit_rate: String,
    pub evictions: u64,
    pub expirations: u64,
    pub size: usize,
    pub capacity: usize,
}

pub open spec fn metrics_answer(report: Seq<char>, c: CacheFigures) -> Seq<char> {
    report + "\n## Analysis Cache\n\n**Status**: "@ + on_off(c.enabled) + "\n**TTL**: "@
        + decimal(c.ttl_seconds as nat)
        + " seconds\n\n| Metric | Value |\n|--------|-------|\n| Hits | "@
        + decimal(c.hits as nat) + " |\n| Misses | "@ + decimal(c.misses as nat)
        + " |\n| Hit Rate | "@ + c.hit_rate@ + "% |\n| Evictions | "@
        + decimal(c.evictions as nat) + " |\n| Expirations | "@ + decimal(c.expirations as nat)
        + " |\n| Size | "@ + decimal(c.size as nat) + " / "@ + decimal(c.capacity as nat)
        + " |\n"@
}

/// Adds the cache's counters to the performance report.
pub fn render_metrics(report: String, c: &CacheFigures) -> (r: String)
    ensures
        r@ == metrics_answer(report@, *c),
{
    let mut out = report;
    out.append("\n## Analysis Cache\n\n**Status**: ");
    out.append(switch(c.enabled));
    out.append("\n**TTL**: ");
    out.append(crate::text::u64_text(c.ttl_seconds).as_str());
    out.append(" seconds\n\n| Metric | Value |\n|--------|-------|\n| Hits | ");
    out.append(crate::text::u64_text(c.hits).as_str());
    out.append(" |\n| Misses | ");
    out.append(crate::text::u64_text(c.misses).as_str());
    out.append(" |\n| Hit Rate | ");
    out.append(c.hit_rate.as_str());
    out.append("% |\n| Evictions | ");
    out.append(crate::text::u64_text(c.evictions).as_str());
    out.append(" |\n| Expirations | ");
    out.append(crate::text::u64_text(c.expirations).as_str());
    out.append(" |\n| Size | ");
    out.append(usize_text(c.size).as_str());
    out.append(" / ");
    out.append(usize_text(c.capacity).as_str());
    out.append(" |\n");
    out
}

// ---- memory ----

/// The kilobytes a line of the process status names.
pub open spec fn rss_of_line(line: Seq<char>) -> Option<Option<nat>> {
    match strip_prefix_spec(line, "VmRSS:"@) {
        None => None,
        Some(rest) => Some(
            if words_of(rest).len() > 0 {
                match parse_usize_spec(words_of(rest)[0]) {
                    Some(kb) => if kb * 1024 <= usize::MAX {
                        Some((kb * 1024) as nat)
                    } else {
                        None
                    },
                    None => None,
                }
            } else {
                None
            },
        ),
    }
}

/// The bytes the first line that names the resident set gives.
pub open spec fn rss_spec(lines: Seq<Seq<char>>) -> Option<nat>
    decreases lines.len(),
{
    if lines.len() == 0 {
        None
    } else {
        match rss_of_line(lines[0]) {
            Some(bytes) => bytes,
            None => rss_spec(lines.skip(1)),
        }
    }
}

/// The resident set in bytes, from the text of the process status.
pub fn process_rss_bytes(status: &str) -> (r: Option<usize>)
    ensures
        (match r {
            Some(b) => Some(b as nat),
            None => None,
        }) == rss_spec(lines_of(status@)),
{
    let all = lines(status);
    let ghost ls = texts(all@);
    let mut i: usize = 0;
    proof {
        assert(ls.skip(0) =~= ls);
    }
    while i < all.len()
        invariant
            i <= all@.len(),
            ls == texts(all@),
            ls == lines_of(status@),
            rss_spec(ls) == rss_spec(ls.skip(i as int)),
        decreases all@.len() - i,
    {
        proof {
            assert(ls.skip(i as int)[0] == all@[i as int]@);
            assert(ls.skip(i as int).skip(1) =~= ls.skip(i + 1));
        }
        match strip_prefix(all[i].as_str(), "VmRSS:") {
            Some(rest) => {
                let parts = words(rest.as_str());
                proof {
                    assert(texts(parts@).len() == parts@.len());
                }
                if parts.len() == 0 {
                    return None;
                }
                proof {
                    assert(texts(parts@)[0] == parts@[0]@);
                }
                return match parse_usize(parts[0].as_str()) {
                    Some(kb) => if kb <= usize::MAX / 1024 {
                        Some(kb * 1024)
                    } else {
                        None
                    },
                    None => None,
                };
            },
            None => {},
        }
        i = i + 1;
    }
    None
}

// ---- the layout of a project ----

/// The limits of one walk through a project. Zero means no limit, except for the depth.
#[derive(Debug, Clone, Copy, PartialEq, Eq, Structural)]
pub struct TreeBudget {
    /// Deepest directory level shown.
    pub max_depth: usize,
    /// Entries listed per directory.
    pub max_entries_per_dir: usize,
    /// Entries of the whole walk.
    pub max_total: usize,
    /// Entries shown so far.
    pub emitted: usize,
}

/// What a walk does with an entry.
#[derive(Debug, Clone, Copy, PartialEq, Eq, Structural)]
pub enum TreeStep {
    /// Pass it over.
    Skip,
    /// Show it and go on with its entries.
    Directory,
    /// Show it.
    File,
}

/// A directory that is not walked: a hidden one, or one of build results or packages.
pub open spec fn is_passed_over(name: Seq<char>) -> bool {
    "."@.is_prefix_of(name) || name == "node_modules"@ || name == "target"@ || name
        == "__pycache__"@ || name == "venv"@
}

impl TreeBudget {
    pub open spec fn is_spent(self) -> bool {
        self.max_total != 0 && self.emitted >= self.max_total
    }

    /// The walk has shown all it may.
    pub fn exhausted(&self) -> (r: bool)
        ensures
            r == self.is_spent(),
    {
        self.max_total != 0 && self.emitted >= self.max_total
    }

    pub open spec fn step_spec(self, depth: usize, name: Seq<char>, is_dir: bool) -> TreeStep {
        if depth > self.max_depth || self.is_spent() {
            TreeStep::Skip
        } else if is_dir {
            if depth > 0 && is_passed_over(name) {
                TreeStep::Skip
            } else {
                TreeStep::Directory
            }
        } else {
            TreeStep::File
        }
    }

    /// What the walk does with an entry, which counts where it is shown. The root is shown
    /// even if its name would be passed over.
    pub fn step(&mut self, depth: usize, name: &str, is_dir: bool) -> (r: TreeStep)
        ensures
            r == old(self).step_spec(depth, name@, is_dir),
            *final(self) == (TreeBudget {
                emitted: if r == TreeStep::Skip || old(self).emitted == usize::MAX {
                    old(self).emitted
                } else {
                    (old(self).emitted + 1) as usize
                },
                ..*old(self)
            }),
    {
        if depth > self.max_depth || self.exhausted() {
            return TreeStep::Skip;
        }
        if is_dir {
            if depth > 0 && (starts_with(name, ".") || same_text(name, "node_modules") || same_text(
                name,
                "target",
            ) || same_text(name, "__pycache__") || same_text(name, "venv")) {
                return TreeStep::Skip;
            }
        }
        if self.emitted < usize::MAX {
            self.emitted = self.emitted + 1;
        }
        if is_dir {
            TreeStep::Directory
        } else {
            TreeStep::File
        }
    }

    /// How many of a directory's entries are walked.
    pub fn entries_shown(&self, total: usize) -> (r: usize)
        ensures
            r == if self.max_entries_per_dir == 0 || total <= self.max_entries_per_dir {
                total
            } else {
                self.max_entries_per_dir
            },
            r <= total,
    {
        if self.max_entries_per_dir == 0 || total <= self.max_entries_per_dir {
            total
        } else {
            self.max_entries_per_dir
        }
    }
}

/// An entry is shown only while the budget lasts.
pub proof fn law_a_walk_stays_within_its_budget(
    b: TreeBudget,
    depth: usize,
    name: Seq<char>,
    is_dir: bool,
)
    requires
        b.max_total != 0,
        b.emitted <= b.max_total,
    ensures
        b.step_spec(depth, name, is_dir) != TreeStep::Skip ==> b.emitted + 1 <= b.max_total,
{
}

/// An entry of a directory.
#[derive(Debug)]
pub struct DirEntry {
    pub name: String,
    pub is_dir: bool,
}

pub struct EntryText {
    pub name: Seq<char>,
    pub is_dir: bool,
}

impl View for DirEntry {
    type V = EntryText;

    open spec fn view(&self) -> EntryText {
        EntryText { name: self.name@, is_dir: self.is_dir }
    }
}

pub open spec fn dir_entries(v: Seq<DirEntry>) -> Seq<EntryText> {
    v.map_values(|e: DirEntry| e@)
}

/// Directories first, then by name.
pub open spec fn entry_before(a: EntryText, b: EntryText) -> bool {
    (a.is_dir && !b.is_dir) || (a.is_dir == b.is_dir && text_lt(a.name, b.name))
}

pub open spec fn entry_order() -> spec_fn(EntryText, EntryText) -> bool {
    |a: EntryText, b: EntryText| entry_before(a, b)
}

impl Ranked for DirEntry {
    open spec fn precedes(a: DirEntry, b: DirEntry) -> bool {
        entry_before(a@, b@)
    }

    fn is_before(&self, other: &DirEntry) -> (r: bool) {
        (self.is_dir && !other.is_dir) || (self.is_dir == other.is_dir && text_less(
            self.name.as_str(),
            other.name.as_str(),
        ))
    }
}

/// Orders a directory's entries for showing.
pub fn sort_entries(entries: Vec<DirEntry>) -> (r: Vec<DirEntry>)
    ensures
        dir_entries(r@) == sort_stable(dir_entries(entries@), entry_order()),
{
    let ghost all = dir_entries(entries@);
    let ghost view = |e: DirEntry| e@;
    proof {
        lemma_sort_maps(entries@, view, rank_order::<DirEntry>(), entry_order());
        assert(entries@.map_values(view) =~= all);
    }
    let sorted = sort_ranked(entries);
    proof {
        assert(dir_entries(sorted@) =~= sort_stable(all, entry_order()));
    }
    sorted
}

/// Two blanks for each level.
pub open spec fn indent_spec(depth: nat) -> Seq<char>
    decreases depth,
{
    if depth == 0 {
        Seq::empty()
    } else {
        indent_spec((depth - 1) as nat) + "  "@
    }
}

fn indent(depth: usize) -> (r: String)
    ensures
        r@ == indent_spec(depth as nat),
{
    let mut out = String::new();
    proof {
        assert(out@ =~= indent_spec(0));
    }
    let mut i: usize = 0;
    while i < depth
        invariant
            i <= depth,
            out@ == indent_spec(i as nat),
        decreases depth - i,
    {
        out.append("  ");
        i = i + 1;
    }
    out
}

pub open spec fn directory_line(depth: usize, name: Seq<char>) -> Seq<char> {
    indent_spec(depth as nat) + "📁"@ + " "@ + name + "/\n"@
}

pub open spec fn file_line(depth: usize, name: Seq<char>, size: Seq<char>) -> Seq<char> {
    indent_spec(depth as nat) + get_file_icon_spec(name) + " "@ + name + " ("@ + size + ")\n"@
}

pub open spec fn more_line(depth: usize, left: usize) -> Seq<char> {
    indent_spec(depth as nat) + "  … (+"@ + decimal(left as nat) + " more entries)\n"@
}

/// The line of a directory.
pub fn render_directory(depth: usize, name: &str) -> (r: String)
    ensures
        r@ == directory_line(depth, name@),
{
    let mut out = indent(depth);
    out.append("📁");
    out.append(" ");
    out.append(name);
    out.append("/\n");
    out
}

/// The line of a file. The size comes as it is shown.
pub fn render_file(depth: usize, name: &str, size: &str) -> (r: String)
    ensures
        r@ == file_line(depth, name@, size@),
{
    let mut out = indent(depth);
    out.append(get_file_icon(name));
    out.append(" ");
    out.append(name);
    out.append(" (");
    out.append(size);
    out.append(")\n");
    out
}

/// The line for the entries of a directory that are left out.
pub fn render_more(depth: usize, left: usize) -> (r: String)
    ensures
        r@ == more_line(depth, left),
{
    let mut out = indent(depth);
    out.append("  … (+");
    out.append(usize_text(left).as_str());
    out.append(" more entries)\n");
    out
}

pub open spec fn structure_answer(repo: Seq<char>, tree: Seq<char>, b: TreeBudget) -> Seq<char> {
    let note = if b.is_spent() {
        "\n*Tree truncated at "@ + decimal(b.max_total as nat)
            + " entries. Raise `max_total_entries` / `max_entries_per_dir`, or lower `max_depth` for a wider overview.*\n"@
    } else {
        Seq::empty()
    };
    "# Project Structure: "@ + repo + "\n\n```\n"@ + tree + "```\n"@ + note
}

/// Renders the layout of a project from the lines of its walk.
pub fn render_structure(repo: &str, tree: &str, budget: &TreeBudget) -> (r: String)
    ensures
        r@ == structure_answer(repo@, tree@, *budget),
{
    let mut note = String::new();
    proof {
        assert(note@ =~= Seq::<char>::empty());
    }
    if budget.exhausted() {
        note = "\n*Tree truncated at ".to_owned();
        note.append(usize_text(budget.max_total).as_str());
        note.append(" entries. Raise `max_total_entries` / `max_entries_per_dir`, or lower `max_depth` for a wider overview.*\n");
    }
    let mut out = "# Project Structure: ".to_owned();
    out.append(repo);
    out.append("\n\n```\n");
    out.append(tree);
    out.append("```\n");
    out.append(note.as_str());
    out
}

} // verus!
