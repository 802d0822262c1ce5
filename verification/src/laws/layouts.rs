//! The layout of a project, and what is said of the repositories.

use vstd::prelude::*;

use crate::laws::answers::{
    lemma_held_by_end, lemma_held_by_front, lemma_held_by_itself, lemma_held_by_part,
};
use crate::laws::lists::lemma_filter_members;
use crate::lookup::kinds_of;
use crate::order::{
    is_strict_weak, law_sorting_sorts, lemma_text_lt_irreflexive, lemma_text_lt_total,
    lemma_text_lt_transitive, sort_stable, text_lt,
};
use crate::status::{
    directory_line, entry_order, file_line, indent_spec, index_status_answer, kind_totals,
    listed_repos, more_lines, repo_entry, repos_answer, status_entry, status_kept, EntryText,
    FactsText, LanguageCountText, StatusText, SummaryText, TreeBudget, TreeStep,
};
use crate::symbols::SymbolText;
use crate::text::{concat, contains_text, decimal};
use crate::tree::{drawn, drawn_entries, Drawing, TreeNode};

verus! {

// ---- the walk ----

/// Whether one drawing goes on from another: what was drawn stays, the limits stay, and the
/// entries that were counted stay counted.
pub open spec fn goes_on(before: Drawing, after: Drawing) -> bool {
    &&& before.text.is_prefix_of(after.text)
    &&& after.budget.max_depth == before.budget.max_depth
    &&& after.budget.max_total == before.budget.max_total
    &&& after.budget.max_entries_per_dir == before.budget.max_entries_per_dir
    &&& before.budget.emitted <= after.budget.emitted
}

/// Whether no more entries were drawn than the budget allows.
pub open spec fn is_within_budget(b: TreeBudget) -> bool {
    b.max_total != 0 ==> b.emitted <= b.max_total
}

proof fn lemma_prefix_of_sum(s: Seq<char>, rest: Seq<char>)
    ensures
        s.is_prefix_of(s + rest),
{
    assert((s + rest).subrange(0, s.len() as int) =~= s);
}

proof fn lemma_prefix_chain(a: Seq<char>, b: Seq<char>, c: Seq<char>)
    requires
        a.is_prefix_of(b),
        b.is_prefix_of(c),
    ensures
        a.is_prefix_of(c),
{
    assert(c.subrange(0, a.len() as int) =~= c.subrange(0, b.len() as int).subrange(
        0,
        a.len() as int,
    ));
}

/// A walk only adds lines, and never draws more entries than it may.
pub proof fn law_a_walk_keeps_its_budget(node: TreeNode, depth: usize, at: Drawing)
    requires
        is_within_budget(at.budget),
    ensures
        goes_on(at, drawn(node, depth, at)),
        is_within_budget(drawn(node, depth, at).budget),
    decreases node, 0nat,
{
    assert(at.text.subrange(0, at.text.len() as int) =~= at.text);
    match node {
        TreeNode::File { name, size } => {
            lemma_prefix_of_sum(at.text, file_line(depth, name@, size@));
        },
        TreeNode::Unreadable { name, error } => {
            lemma_prefix_of_sum(at.text, directory_line(depth, name@));
        },
        TreeNode::Directory { name, entries } => {
            let line = directory_line(depth, name@);
            lemma_prefix_of_sum(at.text, line);
            if at.budget.step_spec(depth, name@, true) == TreeStep::Directory {
                let shown = crate::tree::shown_of(at.budget, entries@.len());
                let start = Drawing {
                    text: at.text + line,
                    budget: crate::tree::counted(at.budget),
                    ..at
                };
                let below = crate::tree::deeper(depth);
                lemma_entries_keep_budget(entries@, shown, below, start);
                let inside = drawn_entries(entries@, shown, below, start);
                lemma_prefix_chain(at.text, start.text, inside.text);
                if inside.error is None && shown != entries@.len() {
                    let more = crate::status::more_line(
                        depth,
                        (entries@.len() - shown) as usize,
                    );
                    lemma_prefix_of_sum(inside.text, more);
                    lemma_prefix_chain(at.text, inside.text, inside.text + more);
                }
            }
        },
    }
}

proof fn lemma_entries_keep_budget(entries: Seq<TreeNode>, count: nat, depth: usize, at: Drawing)
    requires
        is_within_budget(at.budget),
    ensures
        goes_on(at, drawn_entries(entries, count, depth, at)),
        is_within_budget(drawn_entries(entries, count, depth, at).budget),
    decreases entries, count,
{
    assert(at.text.subrange(0, at.text.len() as int) =~= at.text);
    if count == 0 || count > entries.len() {
    } else {
        let before = drawn_entries(entries, (count - 1) as nat, depth, at);
        lemma_entries_keep_budget(entries, (count - 1) as nat, depth, at);
        if before.error is None {
            law_a_walk_keeps_its_budget(entries[count - 1], depth, before);
            let after = drawn(entries[count - 1], depth, before);
            lemma_prefix_chain(at.text, before.text, after.text);
        }
    }
}

/// A file within the depth is drawn, with its name and size, while the budget lasts.
pub proof fn law_a_file_is_drawn(name: String, size: String, depth: usize, at: Drawing)
    requires
        depth <= at.budget.max_depth,
        at.budget.max_total == 0 || at.budget.emitted < at.budget.max_total,
    ensures
        contains_text(
            drawn(TreeNode::File { name, size }, depth, at).text,
            name@ + " ("@ + size@ + ")\n"@,
        ),
        at.budget.emitted < usize::MAX ==> drawn(
            TreeNode::File { name, size },
            depth,
            at,
        ).budget.emitted == at.budget.emitted + 1,
{
    let item = name@ + " ("@ + size@ + ")\n"@;
    let icon = indent_spec(depth as nat) + crate::languages::get_file_icon_spec(name@) + " "@;
    let line = icon + name@ + " ("@ + size@ + ")\n"@;
    lemma_held_by_itself(item);
    lemma_held_by_end(icon, item, item);
    assert(icon + name@ + " ("@ =~= icon + (name@ + " ("@));
    assert(icon + name@ + " ("@ + size@ =~= icon + (name@ + " ("@ + size@));
    assert(line =~= icon + item);
    lemma_held_by_end(at.text, line, item);
}

/// Nothing is drawn below the depth, nor once the budget is spent.
pub proof fn law_nothing_is_drawn_beyond_the_limits(node: TreeNode, depth: usize, at: Drawing)
    requires
        depth > at.budget.max_depth || (at.budget.max_total != 0 && at.budget.emitted
            >= at.budget.max_total),
    ensures
        drawn(node, depth, at) == at,
{
}

/// A hidden directory, or one of generated files, is left out below the root.
pub proof fn law_hidden_directories_are_left_out(
    name: String,
    entries: Vec<TreeNode>,
    depth: usize,
    at: Drawing,
)
    requires
        depth > 0,
        (name@.len() > 0 && name@[0] == '.') || name@ == "node_modules"@ || name@ == "target"@
            || name@ == "__pycache__"@ || name@ == "venv"@,
    ensures
        drawn(TreeNode::Directory { name, entries }, depth, at) == at,
{
    reveal_strlit(".");
    if name@.len() > 0 && name@[0] == '.' {
        assert(name@.subrange(0, 1) =~= "."@);
    }
}

/// Any other directory within the depth is drawn while the budget lasts.
pub proof fn law_other_directories_are_drawn(
    name: String,
    entries: Vec<TreeNode>,
    depth: usize,
    at: Drawing,
)
    requires
        is_within_budget(at.budget),
        depth <= at.budget.max_depth,
        at.budget.max_total == 0 || at.budget.emitted < at.budget.max_total,
        depth == 0 || (name@.len() > 0 && name@[0] != '.' && name@ != "node_modules"@ && name@
            != "target"@ && name@ != "__pycache__"@ && name@ != "venv"@),
    ensures
        (at.text + directory_line(depth, name@)).is_prefix_of(
            drawn(TreeNode::Directory { name, entries }, depth, at).text,
        ),
{
    reveal_strlit(".");
    if "."@.is_prefix_of(name@) {
        assert(name@.subrange(0, 1)[0] == '.');
    }
    let line = directory_line(depth, name@);
    let shown = crate::tree::shown_of(at.budget, entries@.len());
    let start = Drawing {
        text: at.text + line,
        budget: crate::tree::counted(at.budget),
        ..at
    };
    let below = crate::tree::deeper(depth);
    assert(at.budget.step_spec(depth, name@, true) == TreeStep::Directory);
    lemma_entries_keep_budget(entries@, shown, below, start);
    let inside = drawn_entries(entries@, shown, below, start);
    if inside.error is None && shown != entries@.len() {
        let more = crate::status::more_line(depth, (entries@.len() - shown) as usize);
        lemma_prefix_of_sum(inside.text, more);
        lemma_prefix_chain(start.text, inside.text, inside.text + more);
    }
}

// ---- orders ----

proof fn lemma_entry_order_is_strict_weak()
    ensures
        is_strict_weak(entry_order()),
{
    let lt = entry_order();
    assert forall|a: EntryText| !#[trigger] lt(a, a) by {
        lemma_text_lt_irreflexive(a.name);
    }
    assert forall|a: EntryText, b: EntryText, c: EntryText| #[trigger]
        lt(a, b) && #[trigger] lt(b, c) implies lt(a, c) by {
        if text_lt(a.name, b.name) && text_lt(b.name, c.name) {
            lemma_text_lt_transitive(a.name, b.name, c.name);
        }
    }
    assert forall|a: EntryText, b: EntryText, c: EntryText|
        !#[trigger] lt(b, a) && !#[trigger] lt(c, b) implies !lt(c, a) by {
        lemma_text_lt_total(a.name, b.name);
        lemma_text_lt_total(b.name, c.name);
        lemma_text_lt_irreflexive(a.name);
        if lt(c, a) {
            if text_lt(c.name, a.name) && text_lt(a.name, b.name) {
                lemma_text_lt_transitive(c.name, a.name, b.name);
            }
        }
    }
}

/// The directories of a directory come first; directories and files each stand by name.
pub proof fn law_directories_come_first(entries: Seq<EntryText>, i: int, j: int)
    requires
        0 <= i < j < sort_stable(entries, entry_order()).len(),
    ensures
        ({
            let all = sort_stable(entries, entry_order());
            &&& all[j].is_dir ==> all[i].is_dir
            &&& all[i].is_dir == all[j].is_dir ==> all[i].name == all[j].name || text_lt(
                all[i].name,
                all[j].name,
            )
        }),
{
    let all = sort_stable(entries, entry_order());
    let lt = entry_order();
    lemma_entry_order_is_strict_weak();
    law_sorting_sorts(entries, lt);
    assert(!lt(all[j], all[i]));
    lemma_text_lt_total(all[i].name, all[j].name);
}

/// The languages of a repository stand by the lines written in them, most first.
pub proof fn law_languages_come_by_lines(languages: Seq<LanguageCountText>, i: int, j: int)
    requires
        0 <= i < j < sort_stable(languages, more_lines()).len(),
    ensures
        sort_stable(languages, more_lines())[i].line_count >= sort_stable(
            languages,
            more_lines(),
        )[j].line_count,
{
    let all = sort_stable(languages, more_lines());
    let lt = more_lines();
    assert(is_strict_weak(lt));
    law_sorting_sorts(languages, lt);
    assert(!lt(all[j], all[i]));
}

// ---- repositories ----

/// Every repository is listed, where one was named only that one.
pub proof fn law_which_repos_are_listed(
    repos: Seq<SummaryText>,
    only: Option<Seq<char>>,
    s: SummaryText,
)
    ensures
        listed_repos(repos, only).contains(s) <==> repos.contains(s) && (only is None || s.key
            == only->0),
{
    let pred = |s: SummaryText| only matches Some(k) ==> s.key == k;
    lemma_filter_members(repos, pred, s);
    assert(listed_repos(repos, only) =~= repos.filter(pred));
}

/// A listed repository is named in the answer, with the argument that stands for it.
pub proof fn law_every_listed_repo_is_shown(
    repos: Seq<SummaryText>,
    only: Option<Seq<char>>,
    detail: bool,
    i: int,
)
    requires
        0 <= i < listed_repos(repos, only).len(),
    ensures
        contains_text(
            repos_answer(repos, only, detail),
            "## "@ + listed_repos(repos, only)[i].name + "\n- **Repo**: `"@ + listed_repos(
                repos,
                only,
            )[i].key,
        ),
{
    let shown = listed_repos(repos, only);
    let s = shown[i];
    let item = "## "@ + s.name + "\n- **Repo**: `"@ + s.key;
    let rows = shown.map_values(|s: SummaryText| repo_entry(s, detail));
    assert(rows[i] == repo_entry(s, detail));
    lemma_repo_entry(s, detail);
    lemma_held_by_part(rows, i, item);
    let tail = if repos.len() == 0 {
        "*No repositories indexed yet.*\n"@
    } else if shown.len() == 0 {
        "*No matching repository.*\n"@
    } else {
        Seq::empty()
    };
    let answer = repos_answer(repos, only, detail);
    let body = concat(rows);
    let n = answer.len() - tail.len() - body.len();
    let head = answer.take(n);
    assert(answer =~= head + body + tail);
    lemma_held_by_end(head, body, item);
    lemma_held_by_front(head + body, tail, item);
}

proof fn lemma_repo_entry(s: SummaryText, detail: bool)
    ensures
        contains_text(
            repo_entry(s, detail),
            "## "@ + s.name + "\n- **Repo**: `"@ + s.key,
        ),
{
    let item = "## "@ + s.name + "\n- **Repo**: `"@ + s.key;
    let entry = repo_entry(s, detail);
    lemma_held_by_itself(item);
    lemma_held_by_front(item, "`\n"@, item);
    let a = item + "`\n"@;
    let body = entry.subrange(a.len() as int, entry.len() - "\n"@.len());
    assert(entry =~= a + body + "\n"@);
    lemma_held_by_front(a, body, item);
    lemma_held_by_front(a + body, "\n"@, item);
}

/// The status speaks of every repository, where one was named of that one alone.
pub proof fn law_which_repos_have_a_status(
    repos: Seq<StatusText>,
    only: Option<Seq<char>>,
    s: StatusText,
)
    ensures
        status_kept(repos, only).contains(s) <==> repos.contains(s) && (only is None || s.key
            == only->0),
{
    let pred = |s: StatusText| only matches Some(k) ==> s.key == k;
    lemma_filter_members(repos, pred, s);
    assert(status_kept(repos, only) =~= repos.filter(pred));
}

/// The status gives the files and symbols of each of them.
pub proof fn law_a_status_counts(s: StatusText)
    ensures
        contains_text(
            status_entry(s),
            "### "@ + s.name + "\n- Repo: `"@ + s.key + "`\n- Files: "@ + decimal(
                s.file_count as nat,
            ) + "\n- Symbols: "@ + decimal(s.symbol_count as nat),
        ),
{
    let item = "### "@ + s.name + "\n- Repo: `"@ + s.key + "`\n- Files: "@ + decimal(
        s.file_count as nat,
    ) + "\n- Symbols: "@ + decimal(s.symbol_count as nat);
    let git = crate::status::on_off(s.git);
    lemma_held_by_itself(item);
    lemma_held_by_front(item, "\n- Git: "@, item);
    lemma_held_by_front(item + "\n- Git: "@, git, item);
    lemma_held_by_front(item + "\n- Git: "@ + git, "\n"@, item);
    lemma_held_by_front(
        item + "\n- Git: "@ + git + "\n"@,
        crate::status::manifest_note(s),
        item,
    );
    lemma_held_by_front(
        item + "\n- Git: "@ + git + "\n"@ + crate::status::manifest_note(s),
        "\n"@,
        item,
    );
}

/// Every status kept has its entry in the answer.
pub proof fn law_every_status_is_shown(
    f: FactsText,
    repos: Seq<StatusText>,
    only: Option<Seq<char>>,
    memory: Seq<char>,
    i: int,
)
    requires
        0 <= i < status_kept(repos, only).len(),
    ensures
        contains_text(
            index_status_answer(f, repos, only, memory),
            status_entry(status_kept(repos, only)[i]),
        ),
{
    let kept = status_kept(repos, only);
    let rows = kept.map_values(|s: StatusText| status_entry(s));
    let row = status_entry(kept[i]);
    assert(rows[i] == row);
    lemma_held_by_itself(row);
    lemma_held_by_part(rows, i, row);
    let head = crate::status::facts_part(f) + "\n## Repositories\n\n"@;
    lemma_held_by_end(head, concat(rows), row);
    lemma_held_by_front(head + concat(rows), memory, row);
}

/// Every kind of symbol is counted, with as many as there are.
pub proof fn law_every_kind_is_counted(symbols: Seq<SymbolText>, i: int)
    requires
        0 <= i < kinds_of(symbols).len(),
    ensures
        kind_totals(symbols)[i].kind == kinds_of(symbols)[i],
        kind_totals(symbols)[i].count == symbols.filter(
            |s: SymbolText| s.kind == kinds_of(symbols)[i],
        ).len() as usize,
{
    let kind = kinds_of(symbols)[i];
    assert(symbols.filter(|s: SymbolText| s.kind == kind) =~= symbols.filter(
        |s: SymbolText| s.kind == kinds_of(symbols)[i],
    ));
}

} // verus!
