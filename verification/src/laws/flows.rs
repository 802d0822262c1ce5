//! What is shown of the flow and the shape of functions.

use vstd::prelude::*;

use crate::budget::{capped_spec, ListWindow};
use crate::callgraph::key_file;
use crate::calltools::{
    ambiguity_spec, complexity_spec, distant_kept, distant_row, edges_header, health_spec,
    hotspot_row, hotspots_kept, hotspots_spec, page_footer, transitive_spec, EdgeTool,
    FunctionMetrics, HotspotText,
};
use crate::graphs::{
    block_code_spec, block_type_spec, condition_spec, edge_type_spec, first_exact, first_partial,
    tooltip_spec, tooltip_start, BlockEnd, FlowKind,
};
use crate::laws::answers::{
    lemma_held_by_end, lemma_held_by_front, lemma_held_by_itself, lemma_held_by_part,
};
use crate::laws::lists::lemma_filter_members;
use crate::laws::ranked::lemma_held_by_joined;
use crate::position::{chain_part, reaching_answer, use_row, ChainText};
use crate::reports::{draws, graph_for, CfgData, FlowGraph};
use crate::search::excerpt_line;
use crate::show::smaller;
use crate::symbols::quoted;
use crate::text::{concat, contains_text, decimal, join_spec};

verus! {

// ---- control flow ----

/// A block shows every line of the source that it stands for.
pub proof fn law_a_block_shows_its_lines(
    lines: Seq<Seq<char>>,
    start_line: usize,
    end_line: usize,
    label: Seq<char>,
    k: int,
)
    requires
        0 < start_line <= k <= end_line,
        k <= lines.len(),
    ensures
        contains_text(block_code_spec(lines, start_line, end_line, label), lines[k - 1]),
{
    let start = start_line - 1;
    let end = smaller(end_line as int, lines.len() as int);
    let part = lines.subrange(start, end);
    let p = lines[k - 1];
    lemma_held_by_itself(p);
    assert(part[k - 1 - start] == p);
    lemma_held_by_joined(part, "\n"@, k - 1 - start, p);
}

/// A block outside the source goes by its label.
pub proof fn law_a_block_without_lines_shows_its_label(
    lines: Seq<Seq<char>>,
    start_line: usize,
    end_line: usize,
    label: Seq<char>,
)
    requires
        start_line > lines.len() || start_line > end_line,
    ensures
        block_code_spec(lines, start_line, end_line, label) == label,
{
}

/// What a block is called, by where it stands and how it ends.
pub proof fn law_what_a_block_is_called(entry: bool, exit: bool, end: BlockEnd)
    ensures
        entry ==> block_type_spec(entry, exit, end) == "entry"@,
        !entry && exit ==> block_type_spec(entry, exit, end) == "exit"@,
        !entry && !exit && end == BlockEnd::Branch ==> block_type_spec(entry, exit, end)
            == "branch"@,
        !entry && !exit && end == BlockEnd::Loop ==> block_type_spec(entry, exit, end) == "loop"@,
        !entry && !exit && end == BlockEnd::Return ==> block_type_spec(entry, exit, end)
            == "return"@,
        !entry && !exit && end == BlockEnd::Unreachable ==> block_type_spec(entry, exit, end)
            == "unreachable"@,
        !entry && !exit && end == BlockEnd::Other ==> block_type_spec(entry, exit, end)
            == "basic"@,
{
}

/// An edge has a condition exactly where it is one side of a branch.
pub proof fn law_which_edges_have_a_condition(kind: FlowKind)
    ensures
        condition_spec(kind) is Some <==> kind == FlowKind::TrueBranch || kind
            == FlowKind::FalseBranch,
        condition_spec(FlowKind::TrueBranch) == Some("true"@),
        condition_spec(FlowKind::FalseBranch) == Some("false"@),
        condition_spec(kind) is Some ==> edge_type_spec(kind) == "branch"@,
{
}

/// A drawing has every block and edge of its graph, in order, and marks the edges that lead back.
pub proof fn law_a_drawing_is_whole(
    d: CfgData,
    file: Seq<char>,
    g: FlowGraph,
    source: Seq<Seq<char>>,
    i: int,
)
    requires
        draws(d, file, g, source),
    ensures
        d.blocks@.len() == g.blocks@.len(),
        d.edges@.len() == g.edges@.len(),
        0 <= i < g.edges@.len() ==> d.edges@[i].from@ == "block_"@ + decimal(
            g.edges@[i].from as nat,
        ) && d.edges@[i].to@ == "block_"@ + decimal(g.edges@[i].to as nat),
        0 <= i < g.edges@.len() ==> (d.edges@[i].is_back_edge == Some(true) <==> g.edges@[i].kind
            == FlowKind::LoopBack),
        0 <= i < g.blocks@.len() ==> d.blocks@[i].id@ == "block_"@ + decimal(
            g.blocks@[i].id as nat,
        ) && d.blocks@[i].start_line == g.blocks@[i].start_line,
{
    if 0 <= i < g.edges@.len() {
        assert(crate::reports::edge_is(d.edges@[i], g.edges@[i]));
    }
    if 0 <= i < g.blocks@.len() {
        assert(crate::reports::block_is(d.blocks@[i], g.blocks@[i], source));
    }
}

/// The graph shown is that of a function named exactly so, where there is one.
pub proof fn law_an_exact_name_is_preferred(
    names: Seq<Seq<char>>,
    function: Seq<char>,
    symbol: Seq<char>,
)
    ensures
        first_exact(names, function, symbol) is Some ==> graph_for(names, function, symbol)
            == first_exact(names, function, symbol),
        first_exact(names, function, symbol) is None ==> graph_for(names, function, symbol)
            == first_partial(names, function),
{
}

/// A tooltip shows the line it is about, and the lines around it.
pub proof fn law_a_tooltip_shows_its_lines(
    lines: Seq<Seq<char>>,
    center: usize,
    context: usize,
    k: int,
)
    requires
        1 <= k <= lines.len(),
        center <= k + context,
        k <= center + context,
    ensures
        contains_text(tooltip_spec(lines, center, context), lines[k - 1]),
{
    let start = tooltip_start(center, context);
    let end = smaller(center + context, lines.len() as int);
    let rows = Seq::new((end - start) as nat, |j: int| excerpt_line(lines, start + j));
    let p = lines[k - 1];
    let j = k - 1 - start;
    assert(rows[j] == excerpt_line(lines, k - 1));
    lemma_held_by_itself(p);
    lemma_held_by_end(crate::text::pad_four(decimal(k as nat)) + " | "@, p, p);
    lemma_held_by_joined(rows, "\n"@, j, p);
}

// ---- data flow ----

/// Every use that a definition reaches is shown below it.
pub proof fn law_every_reached_use_is_shown(
    function: Seq<char>,
    path: Seq<char>,
    chains: Seq<ChainText>,
    i: int,
    u: int,
)
    requires
        0 <= i < chains.len(),
        0 <= u < chains[i].uses.len(),
    ensures
        contains_text(
            reaching_answer(function, path, chains),
            "- Line "@ + decimal(chains[i].uses[u].0 as nat) + ": "@ + chains[i].uses[u].1 + "\n"@,
        ),
{
    let c = chains[i];
    let p = use_row(c.uses[u]);
    let rows = c.uses.map_values(|w: (usize, Seq<char>)| use_row(w));
    lemma_held_by_itself(p);
    assert(rows[u] == p);
    lemma_held_by_part(rows, u, p);
    let uses = "**Reaches**:\n"@ + concat(rows) + "\n"@;
    lemma_held_by_end("**Reaches**:\n"@, concat(rows), p);
    lemma_held_by_front("**Reaches**:\n"@ + concat(rows), "\n"@, p);
    let lead = "### `"@ + c.variable + "` (line "@ + decimal(c.line as nat) + ")\n\n"@;
    lemma_held_by_end(lead, uses, p);
    assert(chain_part(c) == lead + uses);
    let parts = chains.map_values(|d: ChainText| chain_part(d));
    assert(parts[i] == chain_part(c));
    lemma_held_by_part(parts, i, p);
    let head = "# Reaching Definitions: `"@ + function + "`\n\n**File**: `"@ + path
        + "`\n\n## Def-Use Chains\n\n"@;
    lemma_held_by_end(head, concat(parts), p);
}

// ---- calls ----

/// A name that several functions have is said to, and each of them is named.
pub proof fn law_every_function_of_the_name_is_named(
    matches: Seq<Seq<char>>,
    function: Seq<char>,
    i: int,
)
    requires
        0 <= i < matches.len(),
    ensures
        matches.len() >= 2 ==> contains_text(
            ambiguity_spec(matches, function),
            "`"@ + matches[i] + "`"@,
        ),
        matches.len() < 2 ==> ambiguity_spec(matches, function).len() == 0,
{
    if matches.len() >= 2 {
        let names = matches.map_values(|k: Seq<char>| quoted(k));
        let p = quoted(matches[i]);
        assert(names[i] == p);
        lemma_held_by_itself(p);
        lemma_held_by_joined(names, ", "@, i, p);
        let named = join_spec(names, ", "@);
        let head = "> `"@ + function + "` has "@ + decimal(matches.len() as nat)
            + " definitions; the edges of all of them are listed.\n> Defined in: "@;
        let a = head + named;
        lemma_held_by_end(head, named, p);
        let b = a + ".\n> Pass the file-qualified name (e.g. `"@;
        lemma_held_by_front(a, ".\n> Pass the file-qualified name (e.g. `"@, p);
        lemma_held_by_front(b, matches[0], p);
        lemma_held_by_front(b + matches[0], "`) for one alone.\n\n"@, p);
    }
}

/// Every function of the page that is reached is shown, with its distance.
pub proof fn law_every_distant_function_is_shown(
    tool: EdgeTool,
    function: Seq<char>,
    note: Seq<char>,
    list: Seq<(Seq<char>, usize)>,
    max_depth: usize,
    tests: Seq<Seq<char>>,
    window: ListWindow,
    i: int,
)
    requires
        window.start(distant_kept(list, tests).len()) <= i < window.end(
            distant_kept(list, tests).len(),
        ),
    ensures
        contains_text(
            transitive_spec(tool, function, note, list, max_depth, tests, window),
            "- `"@ + distant_kept(list, tests)[i].0 + "` (depth: "@ + decimal(
                distant_kept(list, tests)[i].1 as nat,
            ) + ")\n"@,
        ),
{
    let kept = distant_kept(list, tests);
    let start = window.start(kept.len());
    let page = kept.subrange(start, window.end(kept.len()));
    let rows = page.map_values(|d: (Seq<char>, usize)| distant_row(d));
    let p = distant_row(kept[i]);
    assert(page[i - start] == kept[i]);
    assert(rows[i - start] == p);
    lemma_held_by_itself(p);
    lemma_held_by_part(rows, i - start, p);
    let head = edges_header(tool, function, note) + "Found "@ + decimal(kept.len())
        + " transitive "@ + tool.noun_spec() + " (max depth: "@ + decimal(max_depth as nat)
        + ")\n\n"@;
    let body = concat(rows);
    let footer = page_footer(tool, capped_spec(window, kept.len()));
    lemma_held_by_end(head, body, p);
    lemma_held_by_front(head + body, footer, p);
    let out = head + body + footer;
    lemma_held_by_front(out, "*No "@, p);
    lemma_held_by_front(out + "*No "@, tool.noun_spec(), p);
    lemma_held_by_front(out + "*No "@ + tool.noun_spec(), " found.*\n"@, p);
}

/// A function that is reached is kept exactly where it is not of a test file.
pub proof fn law_which_distant_functions_are_kept(
    list: Seq<(Seq<char>, usize)>,
    tests: Seq<Seq<char>>,
    d: (Seq<char>, usize),
)
    ensures
        distant_kept(list, tests).contains(d) <==> list.contains(d) && !tests.contains(
            key_file(d.0),
        ),
{
    let pred = |d: (Seq<char>, usize)| !tests.contains(key_file(d.0));
    lemma_filter_members(list, pred, d);
    assert(distant_kept(list, tests) =~= list.filter(pred));
}

/// The measures of a function are shown, with what they say of it.
pub proof fn law_the_measures_are_shown(function: Seq<char>, m: FunctionMetrics)
    ensures
        contains_text(
            complexity_spec(function, Some(m)),
            decimal(m.loc as nat) + " |\n| Cyclomatic Complexity | "@ + decimal(
                m.cyclomatic as nat,
            ) + " |\n| Max Nesting Depth | "@ + decimal(m.max_depth as nat)
                + " |\n| Parameters | "@ + decimal(m.params as nat) + " |\n| Return Points | "@
                + decimal(m.returns as nat) + " |\n| Cognitive Complexity | "@ + decimal(
                m.cognitive as nat,
            ),
        ),
        contains_text(complexity_spec(function, Some(m)), health_spec(m)),
{
    let head = "# Complexity Metrics: `"@ + function + "`\n\n"@
        + "| Metric | Value |\n|--------|-------|\n| Lines of Code | "@;
    let a = decimal(m.loc as nat);
    let b = " |\n| Cyclomatic Complexity | "@;
    let c = decimal(m.cyclomatic as nat);
    let d = " |\n| Max Nesting Depth | "@;
    let e = decimal(m.max_depth as nat);
    let f = " |\n| Parameters | "@;
    let g = decimal(m.params as nat);
    let h = " |\n| Return Points | "@;
    let i = decimal(m.returns as nat);
    let j = " |\n| Cognitive Complexity | "@;
    let k = decimal(m.cognitive as nat);
    let p = a + b + c + d + e + f + g + h + i + j + k;
    lemma_joined(head, a, b);
    lemma_joined(head, a + b, c);
    lemma_joined(head, a + b + c, d);
    lemma_joined(head, a + b + c + d, e);
    lemma_joined(head, a + b + c + d + e, f);
    lemma_joined(head, a + b + c + d + e + f, g);
    lemma_joined(head, a + b + c + d + e + f + g, h);
    lemma_joined(head, a + b + c + d + e + f + g + h, i);
    lemma_joined(head, a + b + c + d + e + f + g + h + i, j);
    lemma_joined(head, a + b + c + d + e + f + g + h + i + j, k);
    let table = head + p;
    let verdict = health_spec(m);
    lemma_held_by_itself(p);
    lemma_held_by_end(head, p, p);
    lemma_held_by_front(table, " |\n\n## Health Assessment\n\n"@, p);
    lemma_held_by_front(table + " |\n\n## Health Assessment\n\n"@, verdict, p);
    lemma_held_by_itself(verdict);
    lemma_held_by_end(table + " |\n\n## Health Assessment\n\n"@, verdict, verdict);
}

proof fn lemma_joined(x: Seq<char>, y: Seq<char>, z: Seq<char>)
    ensures
        x + y + z == x + (y + z),
{
    assert(x + y + z =~= x + (y + z));
}

/// The first fifty of the highly connected functions are shown, with their calls both ways.
pub proof fn law_the_first_hotspots_are_shown(
    repo: Seq<char>,
    min_connections: usize,
    list: Seq<HotspotText>,
    tests: Seq<Seq<char>>,
    i: int,
)
    requires
        0 <= i < hotspots_kept(list, tests).len(),
        i < 50,
    ensures
        contains_text(
            hotspots_spec(repo, min_connections, list, tests),
            "| `"@ + hotspots_kept(list, tests)[i].key + "` | "@ + decimal(
                hotspots_kept(list, tests)[i].incoming as nat,
            ) + " | "@ + decimal(hotspots_kept(list, tests)[i].outgoing as nat),
        ),
{
    let kept = hotspots_kept(list, tests);
    let h = kept[i];
    let shown = if kept.len() > 50 {
        kept.take(50)
    } else {
        kept
    };
    let p = "| `"@ + h.key + "` | "@ + decimal(h.incoming as nat) + " | "@ + decimal(
        h.outgoing as nat,
    );
    let total = decimal((h.incoming + h.outgoing) as nat);
    lemma_held_by_itself(p);
    lemma_held_by_front(p, " | "@, p);
    lemma_held_by_front(p + " | "@, total, p);
    lemma_held_by_front(p + " | "@ + total, " |\n"@, p);
    let rows = shown.map_values(|q: HotspotText| hotspot_row(q));
    assert(rows[i] == hotspot_row(h));
    lemma_held_by_part(rows, i, p);
    let header = "# Function Hotspots in "@ + repo + " (min "@ + decimal(min_connections as nat)
        + " connections)\n\n"@;
    let count = if kept.len() > shown.len() {
        "Showing top "@ + decimal(shown.len() as nat) + " of "@ + decimal(kept.len() as nat)
            + " highly connected functions (generic trait methods filtered):\n\n"@
    } else {
        "Found "@ + decimal(shown.len() as nat)
            + " highly connected functions (generic trait methods filtered):\n\n"@
    };
    let head = header + count + "| Function | Incoming | Outgoing | Total |\n"@
        + "|----------|----------|----------|-------|\n"@;
    let body = concat(rows);
    let answer = hotspots_spec(repo, min_connections, list, tests);
    let tail = answer.skip((head + body).len() as int);
    lemma_held_by_end(head, body, p);
    lemma_held_by_front(head + body, tail, p);
    assert(answer =~= head + body + tail);
}

} // verus!
