//! The layout of a project, drawn within the limits of a walk.

use vstd::prelude::*;

use crate::status::{
    directory_line, file_line, more_line, render_directory, render_file, render_more, TreeBudget,
    TreeStep,
};

verus! {

/// What a walk finds in a directory.
#[derive(Debug)]
pub enum TreeNode {
    /// A file, with its size as it is shown.
    File { name: String, size: String },
    /// A directory, with its entries in the order they are shown.
    Directory { name: String, entries: Vec<TreeNode> },
    /// A directory whose entries cannot be listed, and why. The walk ends there.
    Unreadable { name: String, error: String },
}

/// How a walk stands: the lines it has drawn, what is left of its budget, and why it ended
/// early, where it did.
pub struct Drawing {
    pub text: Seq<char>,
    pub budget: TreeBudget,
    pub error: Option<Seq<char>>,
}

/// The budget once an entry was shown.
pub open spec fn counted(b: TreeBudget) -> TreeBudget {
    if b.emitted == usize::MAX {
        b
    } else {
        TreeBudget { emitted: (b.emitted + 1) as usize, ..b }
    }
}

/// How many of a directory's entries are walked.
pub open spec fn shown_of(b: TreeBudget, total: nat) -> nat {
    if b.max_entries_per_dir == 0 || total <= b.max_entries_per_dir {
        total
    } else {
        b.max_entries_per_dir as nat
    }
}

pub open spec fn deeper(depth: usize) -> usize {
    if depth < usize::MAX {
        (depth + 1) as usize
    } else {
        depth
    }
}

/// A node drawn behind what stands there already.
pub open spec fn drawn(node: TreeNode, depth: usize, at: Drawing) -> Drawing
    decreases node, 0nat,
{
    match node {
        TreeNode::File { name, size } => match at.budget.step_spec(depth, name@, false) {
            TreeStep::File => Drawing {
                text: at.text + file_line(depth, name@, size@),
                budget: counted(at.budget),
                ..at
            },
            _ => at,
        },
        TreeNode::Unreadable { name, error } => match at.budget.step_spec(depth, name@, true) {
            TreeStep::Directory => Drawing {
                text: at.text + directory_line(depth, name@),
                budget: counted(at.budget),
                error: Some(error@),
            },
            _ => at,
        },
        TreeNode::Directory { name, entries } => match at.budget.step_spec(depth, name@, true) {
            TreeStep::Directory => {
                let shown = shown_of(at.budget, entries@.len());
                let inside = drawn_entries(
                    entries@,
                    shown,
                    deeper(depth),
                    Drawing {
                        text: at.text + directory_line(depth, name@),
                        budget: counted(at.budget),
                        ..at
                    },
                );
                if inside.error is Some || shown == entries@.len() {
                    inside
                } else {
                    Drawing {
                        text: inside.text + more_line(depth, (entries@.len() - shown) as usize),
                        ..inside
                    }
                }
            },
            _ => at,
        },
    }
}

/// The first `count` entries drawn one after another, up to the one where the walk ends.
pub open spec fn drawn_entries(entries: Seq<TreeNode>, count: nat, depth: usize, at: Drawing) -> Drawing
    decreases entries, count,
{
    if count == 0 || count > entries.len() {
        at
    } else {
        let before = drawn_entries(entries, (count - 1) as nat, depth, at);
        if before.error is Some {
            before
        } else {
            drawn(entries[count - 1], depth, before)
        }
    }
}

fn go_deeper(depth: usize) -> (r: usize)
    ensures
        r == deeper(depth),
{
    if depth < usize::MAX {
        depth + 1
    } else {
        depth
    }
}

/// Draws a node and what lies below it, as far as it can be read.
pub fn build_tree(node: &TreeNode, depth: usize, budget: &mut TreeBudget, out: &mut String) -> (r:
    Result<(), String>)
    ensures
        ({
            let at = Drawing { text: old(out)@, budget: *old(budget), error: None };
            let done = drawn(*node, depth, at);
            final(out)@ == done.text && *final(budget) == done.budget && (match r {
                Ok(_) => done.error is None,
                Err(e) => done.error == Some(e@),
            })
        }),
    decreases node,
{
    match node {
        TreeNode::File { name, size } => {
            match budget.step(depth, name.as_str(), false) {
                TreeStep::File => {
                    let line = render_file(depth, name.as_str(), size.as_str());
                    out.append(line.as_str());
                },
                _ => {},
            }
            Ok(())
        },
        TreeNode::Unreadable { name, error } => {
            match budget.step(depth, name.as_str(), true) {
                TreeStep::Directory => {
                    let line = render_directory(depth, name.as_str());
                    out.append(line.as_str());
                    Err(error.clone())
                },
                _ => Ok(()),
            }
        },
        TreeNode::Directory { name, entries } => {
            match budget.step(depth, name.as_str(), true) {
                TreeStep::Directory => {},
                _ => {
                    return Ok(());
                },
            }
            let line = render_directory(depth, name.as_str());
            out.append(line.as_str());
            let shown: usize = budget.entries_shown(entries.len());
            let below: usize = go_deeper(depth);
            let ghost at = Drawing { text: out@, budget: *budget, error: None };
            let ghost dir = drawn(
                *node,
                depth,
                Drawing { text: old(out)@, budget: *old(budget), error: None },
            );
            let mut i: usize = 0;
            while i < shown
                invariant
                    i <= shown <= entries@.len(),
                    node matches TreeNode::Directory { name: n, entries: e } && e == entries,
                    dir == drawn(
                        *node,
                        depth,
                        Drawing { text: old(out)@, budget: *old(budget), error: None },
                    ),
                    drawn_entries(entries@, i as nat, below, at) == (Drawing {
                        text: out@,
                        budget: *budget,
                        error: None,
                    }),
                    drawn_entries(entries@, shown as nat, below, at).error is Some ==> dir
                        == drawn_entries(entries@, shown as nat, below, at),
                decreases shown - i,
            {
                assert(decreases_to!(node => entries@[i as int]));
                match build_tree(&entries[i], below, budget, out) {
                    Ok(_) => {},
                    Err(e) => {
                        proof {
                            lemma_ended_stays(entries@, i as nat + 1, shown as nat, below, at);
                        }
                        return Err(e);
                    },
                }
                i = i + 1;
            }
            if shown < entries.len() {
                let more = render_more(depth, entries.len() - shown);
                out.append(more.as_str());
            }
            Ok(())
        },
    }
}

/// A walk that has ended goes no further.
proof fn lemma_ended_stays(
    entries: Seq<TreeNode>,
    count: nat,
    total: nat,
    depth: usize,
    at: Drawing,
)
    requires
        count <= total <= entries.len(),
        drawn_entries(entries, count, depth, at).error is Some,
    ensures
        drawn_entries(entries, total, depth, at) == drawn_entries(entries, count, depth, at),
    decreases total - count,
{
    if count < total {
        lemma_ended_stays(entries, count, (total - 1) as nat, depth, at);
    }
}

/// However large the tree, a walk with a limit shows no more entries than that.
pub proof fn law_a_drawing_stays_within_its_budget(node: TreeNode, depth: usize, at: Drawing)
    requires
        at.budget.max_total != 0,
        at.budget.emitted <= at.budget.max_total,
    ensures
        drawn(node, depth, at).budget.emitted <= at.budget.max_total,
        drawn(node, depth, at).budget.max_total == at.budget.max_total,
    decreases node, 0nat,
{
    match node {
        TreeNode::Directory { name, entries } => {
            if at.budget.step_spec(depth, name@, true) == TreeStep::Directory {
                lemma_entries_within(
                    entries@,
                    shown_of(at.budget, entries@.len()),
                    deeper(depth),
                    Drawing {
                        text: at.text + directory_line(depth, name@),
                        budget: counted(at.budget),
                        ..at
                    },
                );
            }
        },
        _ => {},
    }
}

proof fn lemma_entries_within(entries: Seq<TreeNode>, count: nat, depth: usize, at: Drawing)
    requires
        at.budget.max_total != 0,
        at.budget.emitted <= at.budget.max_total,
    ensures
        drawn_entries(entries, count, depth, at).budget.emitted <= at.budget.max_total,
        drawn_entries(entries, count, depth, at).budget.max_total == at.budget.max_total,
    decreases entries, count,
{
    if count > 0 && count <= entries.len() {
        lemma_entries_within(entries, (count - 1) as nat, depth, at);
        let before = drawn_entries(entries, (count - 1) as nat, depth, at);
        if before.error is None {
            law_a_drawing_stays_within_its_budget(entries[count - 1], depth, before);
        }
    }
}

} // verus!
