//! Tool groups and the refusal of tools outside the exposed ones.

use vstd::prelude::*;

use crate::order::{sort_strings, sort_texts};
use crate::text::{join, join_spec, opt_text, same_text, texts};

verus! {

/// A group of tools that a server can be told to expose. The base group is always
/// served.
#[derive(Debug, Clone, Copy, PartialEq, Eq, Structural)]
pub enum ExposeGroup {
    Base,
    Code,
    Git,
    Analysis,
    Lint,
    Security,
    SupplyChain,
    Retrieval,
}

impl ExposeGroup {
    pub open spec fn name_spec(self) -> Seq<char> {
        match self {
            ExposeGroup::Base => "base"@,
            ExposeGroup::Code => "code"@,
            ExposeGroup::Git => "git"@,
            ExposeGroup::Analysis => "analysis"@,
            ExposeGroup::Lint => "lint"@,
            ExposeGroup::Security => "security"@,
            ExposeGroup::SupplyChain => "supply-chain"@,
            ExposeGroup::Retrieval => "retrieval"@,
        }
    }

    /// The name by which the group is selected.
    pub fn name(self) -> (r: &'static str)
        ensures
            r@ == self.name_spec(),
    {
        match self {
            ExposeGroup::Base => "base",
            ExposeGroup::Code => "code",
            ExposeGroup::Git => "git",
            ExposeGroup::Analysis => "analysis",
            ExposeGroup::Lint => "lint",
            ExposeGroup::Security => "security",
            ExposeGroup::SupplyChain => "supply-chain",
            ExposeGroup::Retrieval => "retrieval",
        }
    }

    pub open spec fn of_spec(tool: Seq<char>) -> Option<ExposeGroup> {
        if tool == "list_repos"@
            || tool == "discover_repos"@
            || tool == "validate_repo"@
            || tool == "reindex"@
            || tool == "get_index_status"@
            || tool == "get_incremental_status"@
            || tool == "get_metrics"@ {
            Some(ExposeGroup::Base)
        } else if tool == "find_symbols"@
            || tool == "get_symbol_definition"@
            || tool == "find_references"@
            || tool == "find_symbol_usages"@
            || tool == "get_export_map"@
            || tool == "search_code"@
            || tool == "semantic_search"@
            || tool == "hybrid_search"@
            || tool == "get_file"@
            || tool == "get_excerpt"@
            || tool == "get_project_structure"@
            || tool == "get_dependencies"@
            || tool == "get_call_graph"@
            || tool == "get_callers"@
            || tool == "get_callees"@
            || tool == "find_call_path"@
            || tool == "get_hover_info"@
            || tool == "get_type_info"@
            || tool == "go_to_definition"@ {
            Some(ExposeGroup::Code)
        } else if tool == "get_blame"@
            || tool == "get_file_history"@
            || tool == "get_recent_changes"@
            || tool == "get_hotspots"@
            || tool == "get_contributors"@
            || tool == "get_commit_diff"@
            || tool == "get_symbol_history"@
            || tool == "get_branch_info"@
            || tool == "get_modified_files"@ {
            Some(ExposeGroup::Git)
        } else if tool == "get_complexity"@
            || tool == "get_function_hotspots"@
            || tool == "get_control_flow"@
            || tool == "get_data_flow"@
            || tool == "get_reaching_definitions"@ {
            Some(ExposeGroup::Analysis)
        } else if tool == "find_uninitialized"@
            || tool == "find_dead_stores"@
            || tool == "find_dead_code"@
            || tool == "check_type_errors"@ {
            Some(ExposeGroup::Lint)
        } else if tool == "scan_security"@
            || tool == "trace_taint"@ {
            Some(ExposeGroup::Security)
        } else if tool == "generate_sbom"@
            || tool == "check_licenses"@
            || tool == "check_dependencies"@
            || tool == "find_upgrade_path"@ {
            Some(ExposeGroup::SupplyChain)
        } else if tool == "get_chunks"@
            || tool == "find_similar_code"@ {
            Some(ExposeGroup::Retrieval)
        } else {
            None
        }
    }

    /// The group a tool belongs to; `None` for a name no group holds.
    pub fn of(tool: &str) -> (r: Option<ExposeGroup>)
        ensures
            r == Self::of_spec(tool@),
    {
        if same_text(tool, "list_repos")
            || same_text(tool, "discover_repos")
            || same_text(tool, "validate_repo")
            || same_text(tool, "reindex")
            || same_text(tool, "get_index_status")
            || same_text(tool, "get_incremental_status")
            || same_text(tool, "get_metrics") {
            Some(ExposeGroup::Base)
        } else if same_text(tool, "find_symbols")
            || same_text(tool, "get_symbol_definition")
            || same_text(tool, "find_references")
            || same_text(tool, "find_symbol_usages")
            || same_text(tool, "get_export_map")
            || same_text(tool, "search_code")
            || same_text(tool, "semantic_search")
            || same_text(tool, "hybrid_search")
            || same_text(tool, "get_file")
            || same_text(tool, "get_excerpt")
            || same_text(tool, "get_project_structure")
            || same_text(tool, "get_dependencies")
            || same_text(tool, "get_call_graph")
            || same_text(tool, "get_callers")
            || same_text(tool, "get_callees")
            || same_text(tool, "find_call_path")
            || same_text(tool, "get_hover_info")
            || same_text(tool, "get_type_info")
            || same_text(tool, "go_to_definition") {
            Some(ExposeGroup::Code)
        } else if same_text(tool, "get_blame")
            || same_text(tool, "get_file_history")
            || same_text(tool, "get_recent_changes")
            || same_text(tool, "get_hotspots")
            || same_text(tool, "get_contributors")
            || same_text(tool, "get_commit_diff")
            || same_text(tool, "get_symbol_history")
            || same_text(tool, "get_branch_info")
            || same_text(tool, "get_modified_files") {
            Some(ExposeGroup::Git)
        } else if same_text(tool, "get_complexity")
            || same_text(tool, "get_function_hotspots")
            || same_text(tool, "get_control_flow")
            || same_text(tool, "get_data_flow")
            || same_text(tool, "get_reaching_definitions") {
            Some(ExposeGroup::Analysis)
        } else if same_text(tool, "find_uninitialized")
            || same_text(tool, "find_dead_stores")
            || same_text(tool, "find_dead_code")
            || same_text(tool, "check_type_errors") {
            Some(ExposeGroup::Lint)
        } else if same_text(tool, "scan_security")
            || same_text(tool, "trace_taint") {
            Some(ExposeGroup::Security)
        } else if same_text(tool, "generate_sbom")
            || same_text(tool, "check_licenses")
            || same_text(tool, "check_dependencies")
            || same_text(tool, "find_upgrade_path") {
            Some(ExposeGroup::SupplyChain)
        } else if same_text(tool, "get_chunks")
            || same_text(tool, "find_similar_code") {
            Some(ExposeGroup::Retrieval)
        } else {
            None
        }
    }

    pub open spec fn parse_spec(name: Seq<char>) -> Option<ExposeGroup> {
        if name == "code"@ {
            Some(ExposeGroup::Code)
        } else if name == "git"@ {
            Some(ExposeGroup::Git)
        } else if name == "analysis"@ {
            Some(ExposeGroup::Analysis)
        } else if name == "lint"@ {
            Some(ExposeGroup::Lint)
        } else if name == "security"@ {
            Some(ExposeGroup::Security)
        } else if name == "supply-chain"@ {
            Some(ExposeGroup::SupplyChain)
        } else if name == "retrieval"@ {
            Some(ExposeGroup::Retrieval)
        } else {
            None
        }
    }

    /// The selectable group of that name.
    pub fn parse(name: &str) -> (r: Option<ExposeGroup>)
        ensures
            r == Self::parse_spec(name@),
    {
        if same_text(name, "code") {
            Some(ExposeGroup::Code)
        } else if same_text(name, "git") {
            Some(ExposeGroup::Git)
        } else if same_text(name, "analysis") {
            Some(ExposeGroup::Analysis)
        } else if same_text(name, "lint") {
            Some(ExposeGroup::Lint)
        } else if same_text(name, "security") {
            Some(ExposeGroup::Security)
        } else if same_text(name, "supply-chain") {
            Some(ExposeGroup::SupplyChain)
        } else if same_text(name, "retrieval") {
            Some(ExposeGroup::Retrieval)
        } else {
            None
        }
    }
}

/// The names of the groups that can be selected, as an error message lists them.
pub open spec fn selectable_names() -> Seq<char> {
    "code, git, analysis, lint, security, supply-chain, retrieval"@
}

/// The tool is served: its group is selected, or is the base group.
pub open spec fn is_served(expose: Seq<ExposeGroup>, tool: Seq<char>) -> bool {
    match ExposeGroup::of_spec(tool) {
        Some(group) => group == ExposeGroup::Base || expose.contains(group),
        None => false,
    }
}

/// The names of the selected groups in order, as the refusal lists them.
pub open spec fn enabled_names(expose: Seq<ExposeGroup>) -> Seq<char> {
    join_spec(sort_texts(expose.map_values(|g: ExposeGroup| g.name_spec())), ", "@)
}

/// The text that refuses `tool` of `group` on a server that serves `expose`.
pub open spec fn rejection_text(
    expose: Seq<ExposeGroup>,
    tool: Seq<char>,
    group: Seq<char>,
) -> Seq<char> {
    "Tool '"@ + tool + "' is not available on this server: its group '"@ + group
        + "' is not exposed (this server serves: base, "@ + enabled_names(expose)
        + "). This is a fixed server configuration, not a transient failure — do not retry '"@
        + tool + "', and expect every other '"@ + group
        + "' tool to be unavailable too. To enable it, add '"@ + group
        + "' to --expose or to `expose:` in config.yaml and restart the server."@
}

/// What `expose_rejection` answers: nothing where no group is selected, the tool is
/// served, or the name is unknown; otherwise the refusal.
pub open spec fn expose_rejection_spec(
    expose: Seq<ExposeGroup>,
    tool: Seq<char>,
) -> Option<Seq<char>> {
    if expose.len() == 0 || is_served(expose, tool) {
        None
    } else {
        match ExposeGroup::of_spec(tool) {
            None => None,
            Some(group) => Some(rejection_text(expose, tool, group.name_spec())),
        }
    }
}

fn selects(expose: &[ExposeGroup], group: ExposeGroup) -> (r: bool)
    ensures
        r == expose@.contains(group),
{
    let mut i: usize = 0;
    while i < expose.len()
        invariant
            i <= expose@.len(),
            forall|j: int| 0 <= j < i ==> expose@[j] != group,
        decreases expose@.len() - i,
    {
        if expose[i] == group {
            return true;
        }
        i = i + 1;
    }
    false
}

/// Refuses a call to a tool outside the exposed groups, naming the group so the operator
/// knows what to turn on, and telling the caller not to retry. An unknown name is not
/// refused here: it is the registry's error to report.
pub fn expose_rejection(expose: &[ExposeGroup], tool_name: &str) -> (r: Option<String>)
    ensures
        opt_text(r) == expose_rejection_spec(expose@, tool_name@),
{
    if expose.len() == 0 {
        return None;
    }
    let group = match ExposeGroup::of(tool_name) {
        None => {
            return None;
        },
        Some(group) => group,
    };
    if group == ExposeGroup::Base || selects(expose, group) {
        return None;
    }
    let mut names: Vec<String> = Vec::new();
    let mut i: usize = 0;
    while i < expose.len()
        invariant
            i <= expose@.len(),
            names@.len() == i,
            forall|j: int| 0 <= j < i ==> names@[j]@ == expose@[j].name_spec(),
        decreases expose@.len() - i,
    {
        names.push(expose[i].name().to_owned());
        i = i + 1;
    }
    proof {
        assert(texts(names@) =~= expose@.map_values(|g: ExposeGroup| g.name_spec()));
    }
    let sorted = sort_strings(names.as_slice());
    let enabled = join(sorted.as_slice(), ", ");
    let mut out = "Tool '".to_owned();
    out.append(tool_name);
    out.append("' is not available on this server: its group '");
    out.append(group.name());
    out.append("' is not exposed (this server serves: base, ");
    out.append(enabled.as_str());
    out.append(
        "). This is a fixed server configuration, not a transient failure — do not retry '",
    );
    out.append(tool_name);
    out.append("', and expect every other '");
    out.append(group.name());
    out.append("' tool to be unavailable too. To enable it, add '");
    out.append(group.name());
    out.append("' to --expose or to `expose:` in config.yaml and restart the server.");
    Some(out)
}

/// The groups named, or the first name that is no group.
pub open spec fn parse_groups_spec(names: Seq<Seq<char>>) -> Result<Seq<ExposeGroup>, Seq<char>>
    decreases names.len(),
{
    if names.len() == 0 {
        Ok(Seq::empty())
    } else {
        match parse_groups_spec(names.drop_last()) {
            Err(name) => Err(name),
            Ok(groups) => match ExposeGroup::parse_spec(names.last()) {
                Some(group) => Ok(groups.push(group)),
                None => Err(names.last()),
            },
        }
    }
}

pub open spec fn unknown_group_text(name: Seq<char>) -> Seq<char> {
    "Unknown --expose group '"@ + name + "'. Valid groups: "@ + selectable_names()
}

/// Resolves group names; the first name that is no group fails the whole list, with a
/// message that names the valid ones.
pub fn parse_expose_groups(names: &[String]) -> (r: Result<Vec<ExposeGroup>, String>)
    ensures
        match (r, parse_groups_spec(texts(names@))) {
            (Ok(groups), Ok(expected)) => groups@ == expected,
            (Err(message), Err(name)) => message@ == unknown_group_text(name),
            _ => false,
        },
{
    let mut groups: Vec<ExposeGroup> = Vec::new();
    let mut i: usize = 0;
    proof {
        assert(texts(names@).take(0) =~= Seq::<Seq<char>>::empty());
    }
    while i < names.len()
        invariant
            i <= names@.len(),
            parse_groups_spec(texts(names@).take(i as int)) == Ok::<Seq<ExposeGroup>, Seq<char>>(
                groups@,
            ),
        decreases names@.len() - i,
    {
        proof {
            assert(texts(names@).take(i + 1).drop_last() =~= texts(names@).take(i as int));
            assert(texts(names@).take(i + 1).last() == names@[i as int]@);
        }
        match ExposeGroup::parse(names[i].as_str()) {
            Some(group) => {
                groups.push(group);
            },
            None => {
                proof {
                    lemma_first_unknown_group_decides(texts(names@), i + 1);
                }
                let mut out = "Unknown --expose group '".to_owned();
                out.append(names[i].as_str());
                out.append("'. Valid groups: ");
                out.append("code, git, analysis, lint, security, supply-chain, retrieval");
                return Err(out);
            },
        }
        i = i + 1;
    }
    proof {
        assert(texts(names@).take(names@.len() as int) =~= texts(names@));
    }
    Ok(groups)
}

proof fn lemma_first_unknown_group_decides(names: Seq<Seq<char>>, k: int)
    requires
        0 <= k <= names.len(),
        parse_groups_spec(names.take(k)) is Err,
    ensures
        parse_groups_spec(names) == parse_groups_spec(names.take(k)),
    decreases names.len() - k,
{
    if k < names.len() {
        assert(names.take(k + 1).drop_last() =~= names.take(k));
        lemma_first_unknown_group_decides(names, k + 1);
    } else {
        assert(names.take(k) =~= names);
    }
}

/// Without selected groups nothing is refused.
pub proof fn law_no_selection_refuses_nothing(tool: Seq<char>)
    ensures
        expose_rejection_spec(Seq::empty(), tool) is None,
{
}

/// A base tool is served whatever is selected.
pub proof fn law_base_tools_are_never_refused(expose: Seq<ExposeGroup>, tool: Seq<char>)
    requires
        ExposeGroup::of_spec(tool) == Some(ExposeGroup::Base),
    ensures
        expose_rejection_spec(expose, tool) is None,
{
}

/// Selecting more groups refuses no tool that was served before.
pub proof fn law_selecting_more_refuses_no_more(
    few: Seq<ExposeGroup>,
    many: Seq<ExposeGroup>,
    tool: Seq<char>,
)
    requires
        forall|g: ExposeGroup| few.contains(g) ==> many.contains(g),
        few.len() > 0,
        expose_rejection_spec(few, tool) is None,
    ensures
        expose_rejection_spec(many, tool) is None,
{
}

} // verus!
