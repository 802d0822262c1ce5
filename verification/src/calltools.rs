//! The answers of the call-graph tools.

use vstd::prelude::*;

use crate::budget::{by_file_summary, by_file_summary_spec, cap, capped_spec, Capped, ListWindow};
use crate::callgraph::{
    cxx_file, edge_texts, file_of_key, is_cxx_file, key_file, CallEdge, EdgeText,
};
use crate::symbols::{
    provenance_spec, quote, quoted, render_provenance, ProvenanceSubject, SourceSet,
};
use crate::text::{
    concat, concat_texts, decimal, ends_with, has_text, join, join_spec, texts, trim, trim_spec,
    usize_text,
};

verus! {

// ---- what every tool asks first ----

/// Why a call-graph tool has no answer.
#[derive(Debug, Clone, Copy, PartialEq, Eq, Structural)]
pub enum CallGraphGap {
    /// The tool was asked about no function.
    NoFunction,
    /// The index is still being built.
    Initializing,
    /// The repository has no call graph.
    NoGraph,
}

impl CallGraphGap {
    pub open spec fn text(self, tool: Seq<char>, repo: Seq<char>) -> Seq<char> {
        match self {
            CallGraphGap::NoFunction => tool
                + " requires a non-empty 'function' argument (the function/symbol name)"@,
            CallGraphGap::Initializing =>
                "Call graph not yet available — initialization in progress. Please retry in a moment."@,
            CallGraphGap::NoGraph => "Call graph not found for '"@ + repo
                + "'. Is --call-graph enabled?"@,
        }
    }

    pub fn message(self, tool: &str, repo: &str) -> (r: String)
        ensures
            r@ == self.text(tool@, repo@),
    {
        match self {
            CallGraphGap::NoFunction => {
                let mut out = tool.to_owned();
                out.append(
                    " requires a non-empty 'function' argument (the function/symbol name)",
                );
                out
            },
            CallGraphGap::Initializing =>
                "Call graph not yet available — initialization in progress. Please retry in a moment.".to_owned(),
            CallGraphGap::NoGraph => {
                let mut out = "Call graph not found for '".to_owned();
                out.append(repo);
                out.append("'. Is --call-graph enabled?");
                out
            },
        }
    }
}

pub open spec fn call_graph_gap_spec(
    function: Option<Seq<char>>,
    initialized: bool,
    graph: bool,
) -> Option<CallGraphGap> {
    if function matches Some(f) && trim_spec(f).len() == 0 {
        Some(CallGraphGap::NoFunction)
    } else if !initialized {
        Some(CallGraphGap::Initializing)
    } else if !graph {
        Some(CallGraphGap::NoGraph)
    } else {
        None
    }
}

/// What stands between a tool and its answer: a blank function name where the tool needs
/// one, an index under construction, or a repository without a graph, in this order.
pub fn call_graph_gap(function: Option<&str>, initialized: bool, graph: bool) -> (r: Option<
    CallGraphGap,
>)
    ensures
        r == call_graph_gap_spec(
            match function {
                Some(f) => Some(f@),
                None => None,
            },
            initialized,
            graph,
        ),
{
    match function {
        Some(f) => {
            let name = trim(f);
            if name.as_str().is_empty() {
                return Some(CallGraphGap::NoFunction);
            }
        },
        None => {},
    }
    if !initialized {
        Some(CallGraphGap::Initializing)
    } else if !graph {
        Some(CallGraphGap::NoGraph)
    } else {
        None
    }
}

// ---- cache keys ----

pub open spec fn flag_text(b: bool) -> Seq<char> {
    if b {
        "true"@
    } else {
        "false"@
    }
}

pub(crate) fn flag_name(b: bool) -> (r: &'static str)
    ensures
        r@ == flag_text(b),
{
    if b {
        "true"
    } else {
        "false"
    }
}

/// What a cached answer about edges was asked for.
#[derive(Debug, Clone, Copy, PartialEq, Eq, Structural)]
pub struct EdgeQuestion {
    pub window: ListWindow,
    pub exclude_tests: bool,
    pub transitive: bool,
    pub max_depth: usize,
}

/// What tells two cached answers about edges apart: the function, the page, whether tests are
/// left out, and how far the edges are followed.
pub open spec fn edges_key_spec(function: Seq<char>, q: EdgeQuestion) -> Seq<char> {
    function + "|"@ + decimal(q.window.offset as nat) + "|"@ + decimal(q.window.limit as nat) + "|"@
        + flag_text(q.exclude_tests) + "|"@ + flag_text(q.transitive) + "|"@ + decimal(
        q.max_depth as nat,
    )
}

pub fn edges_cache_key(function: &str, q: EdgeQuestion) -> (r: String)
    ensures
        r@ == edges_key_spec(function@, q),
{
    let mut out = function.to_owned();
    out.append("|");
    out.append(usize_text(q.window.offset).as_str());
    out.append("|");
    out.append(usize_text(q.window.limit).as_str());
    out.append("|");
    out.append(flag_name(q.exclude_tests));
    out.append("|");
    out.append(flag_name(q.transitive));
    out.append("|");
    out.append(usize_text(q.max_depth).as_str());
    out
}

/// What tells two cached call graphs apart.
pub open spec fn graph_key_spec(function: Seq<char>, exclude_tests: bool) -> Seq<char> {
    function + "|"@ + flag_text(exclude_tests)
}

pub fn graph_cache_key(function: &str, exclude_tests: bool) -> (r: String)
    ensures
        r@ == graph_key_spec(function@, exclude_tests),
{
    let mut out = function.to_owned();
    out.append("|");
    out.append(flag_name(exclude_tests));
    out
}

proof fn lemma_decimal_is_digits(n: nat)
    ensures
        decimal(n).len() > 0,
        forall|i: int| 0 <= i < decimal(n).len() ==> '0' <= #[trigger] decimal(n)[i] <= '9',
    decreases n,
{
    if n >= 10 {
        lemma_decimal_is_digits(n / 10);
    }
}

pub proof fn lemma_decimal_injective(a: nat, b: nat)
    requires
        decimal(a) == decimal(b),
    ensures
        a == b,
    decreases a,
{
    lemma_decimal_is_digits(a / 10);
    lemma_decimal_is_digits(b / 10);
    if a < 10 && b < 10 {
        assert(decimal(a)[0] == decimal(b)[0]);
        assert(decimal(a)[0] as int == 48 + a);
        assert(decimal(b)[0] as int == 48 + b);
    } else if a >= 10 && b >= 10 {
        let x = decimal(a / 10);
        let y = decimal(b / 10);
        assert(decimal(a).drop_last() =~= x);
        assert(decimal(b).drop_last() =~= y);
        assert(decimal(a).last() == decimal(b).last());
        assert(decimal(a).last() as int == 48 + a % 10);
        assert(decimal(b).last() as int == 48 + b % 10);
        lemma_decimal_injective(a / 10, b / 10);
    }
}

/// Where two texts agree up to the first mark, they agree before it and behind it.
proof fn lemma_split_at_mark(a: Seq<char>, x: Seq<char>, b: Seq<char>, y: Seq<char>, mark: char)
    requires
        a + seq![mark] + x == b + seq![mark] + y,
        forall|i: int| 0 <= i < a.len() ==> #[trigger] a[i] != mark,
        forall|i: int| 0 <= i < b.len() ==> #[trigger] b[i] != mark,
    ensures
        a == b,
        x == y,
{
    let l = a + seq![mark] + x;
    let r = b + seq![mark] + y;
    if a.len() < b.len() {
        assert(l[a.len() as int] == mark);
        assert(r[a.len() as int] == b[a.len() as int]);
    } else if b.len() < a.len() {
        assert(r[b.len() as int] == mark);
        assert(l[b.len() as int] == a[b.len() as int]);
    }
    assert(a =~= l.take(a.len() as int));
    assert(b =~= r.take(b.len() as int));
    assert(x =~= l.skip(a.len() as int + 1));
    assert(y =~= r.skip(b.len() as int + 1));
}

/// What stands behind the function in a key.
proof fn lemma_key_tail(function: Seq<char>, q: EdgeQuestion)
    ensures
        edges_key_spec(function, q).skip(function.len() as int + 1) == decimal(
            q.window.offset as nat,
        ) + seq!['|'] + (decimal(q.window.limit as nat) + seq!['|'] + (flag_text(q.exclude_tests)
            + seq!['|'] + (flag_text(q.transitive) + seq!['|'] + decimal(q.max_depth as nat)))),
{
    reveal_strlit("|");
    let o = decimal(q.window.offset as nat);
    let l = decimal(q.window.limit as nat);
    let t = flag_text(q.exclude_tests);
    let u = flag_text(q.transitive);
    let d = decimal(q.max_depth as nat);
    assert("|"@ =~= seq!['|']);
    assert((function + "|"@ + o + "|"@ + l + "|"@ + t + "|"@ + u + "|"@ + d).skip(
        function.len() as int + 1,
    ) =~= o + seq!['|'] + (l + seq!['|'] + (t + seq!['|'] + (u + seq!['|'] + d))));
}

pub proof fn lemma_flag_text(a: bool, b: bool)
    ensures
        flag_text(a) == flag_text(b) ==> a == b,
        forall|i: int| 0 <= i < flag_text(a).len() ==> #[trigger] flag_text(a)[i] != '|',
{
    reveal_strlit("true");
    reveal_strlit("false");
    if a != b {
        assert("true"@.len() != "false"@.len());
    }
}

/// Two different questions about a function never share a cached answer: not another page,
/// nor one with or without tests, nor one that follows the edges further.
pub proof fn law_questions_do_not_share_answers(function: Seq<char>, a: EdgeQuestion, b: EdgeQuestion)
    requires
        edges_key_spec(function, a) == edges_key_spec(function, b),
    ensures
        a == b,
{
    let oa = decimal(a.window.offset as nat);
    let ob = decimal(b.window.offset as nat);
    let la = decimal(a.window.limit as nat);
    let lb = decimal(b.window.limit as nat);
    let ta = flag_text(a.exclude_tests);
    let tb = flag_text(b.exclude_tests);
    let ua = flag_text(a.transitive);
    let ub = flag_text(b.transitive);
    let da = decimal(a.max_depth as nat);
    let db = decimal(b.max_depth as nat);
    lemma_key_tail(function, a);
    lemma_key_tail(function, b);
    lemma_decimal_is_digits(a.window.offset as nat);
    lemma_decimal_is_digits(b.window.offset as nat);
    lemma_decimal_is_digits(a.window.limit as nat);
    lemma_decimal_is_digits(b.window.limit as nat);
    lemma_flag_text(a.exclude_tests, b.exclude_tests);
    lemma_flag_text(b.exclude_tests, a.exclude_tests);
    lemma_flag_text(a.transitive, b.transitive);
    lemma_flag_text(b.transitive, a.transitive);
    lemma_split_at_mark(
        oa,
        la + seq!['|'] + (ta + seq!['|'] + (ua + seq!['|'] + da)),
        ob,
        lb + seq!['|'] + (tb + seq!['|'] + (ub + seq!['|'] + db)),
        '|',
    );
    lemma_split_at_mark(
        la,
        ta + seq!['|'] + (ua + seq!['|'] + da),
        lb,
        tb + seq!['|'] + (ub + seq!['|'] + db),
        '|',
    );
    lemma_split_at_mark(ta, ua + seq!['|'] + da, tb, ub + seq!['|'] + db, '|');
    lemma_split_at_mark(ua, da, ub, db, '|');
    lemma_decimal_injective(a.window.offset as nat, b.window.offset as nat);
    lemma_decimal_injective(a.window.limit as nat, b.window.limit as nat);
    lemma_decimal_injective(a.max_depth as nat, b.max_depth as nat);
}

// ---- several definitions of one name ----

/// The note names every definition where there is more than one, and is empty otherwise.
pub open spec fn ambiguity_spec(matches: Seq<Seq<char>>, function: Seq<char>) -> Seq<char> {
    if matches.len() < 2 {
        Seq::empty()
    } else {
        let named = join_spec(matches.map_values(|k: Seq<char>| quoted(k)), ", "@);
        "> `"@ + function + "` has "@ + decimal(matches.len() as nat)
            + " definitions; the edges of all of them are listed.\n> Defined in: "@ + named
            + ".\n> Pass the file-qualified name (e.g. `"@ + matches[0] + "`) for one alone.\n\n"@
    }
}

/// A header for edges gathered from several definitions of one name, so that they cannot
/// read as one definition's own.
pub fn ambiguity_note(matches: &[String], function: &str) -> (r: String)
    ensures
        r@ == ambiguity_spec(texts(matches@), function@),
{
    if matches.len() < 2 {
        let out = String::new();
        proof {
            assert(out@ =~= Seq::<char>::empty());
        }
        return out;
    }
    let mut named: Vec<String> = Vec::new();
    let mut i: usize = 0;
    while i < matches.len()
        invariant
            i <= matches@.len(),
            named@.len() == i,
            forall|j: int| 0 <= j < i ==> #[trigger] named@[j]@ == quoted(matches@[j]@),
        decreases matches@.len() - i,
    {
        named.push(quote(matches[i].as_str()));
        i = i + 1;
    }
    proof {
        assert(texts(named@) =~= texts(matches@).map_values(|k: Seq<char>| quoted(k)));
    }
    let mut out = "> `".to_owned();
    out.append(function);
    out.append("` has ");
    out.append(usize_text(matches.len()).as_str());
    out.append(" definitions; the edges of all of them are listed.\n> Defined in: ");
    out.append(join(named.as_slice(), ", ").as_str());
    out.append(".\n> Pass the file-qualified name (e.g. `");
    out.append(matches[0].as_str());
    out.append("`) for one alone.\n\n");
    out
}

// ---- pages of edges ----

/// What an answer about edges is about.
#[derive(Debug, Clone, Copy, PartialEq, Eq, Structural)]
pub enum EdgeTool {
    Callers,
    Callees,
}

impl EdgeTool {
    pub open spec fn tool_spec(self) -> Seq<char> {
        match self {
            EdgeTool::Callers => "get_callers"@,
            EdgeTool::Callees => "get_callees"@,
        }
    }

    pub fn tool(self) -> (r: &'static str)
        ensures
            r@ == self.tool_spec(),
    {
        match self {
            EdgeTool::Callers => "get_callers",
            EdgeTool::Callees => "get_callees",
        }
    }

    pub open spec fn title_spec(self) -> Seq<char> {
        match self {
            EdgeTool::Callers => "Callers"@,
            EdgeTool::Callees => "Callees"@,
        }
    }

    fn title(self) -> (r: &'static str)
        ensures
            r@ == self.title_spec(),
    {
        match self {
            EdgeTool::Callers => "Callers",
            EdgeTool::Callees => "Callees",
        }
    }

    pub open spec fn noun_spec(self) -> Seq<char> {
        match self {
            EdgeTool::Callers => "callers"@,
            EdgeTool::Callees => "callees"@,
        }
    }

    fn noun(self) -> (r: &'static str)
        ensures
            r@ == self.noun_spec(),
    {
        match self {
            EdgeTool::Callers => "callers",
            EdgeTool::Callees => "callees",
        }
    }
}

/// The answer's beginning: what is asked, and the note on its definitions.
pub open spec fn edges_header(tool: EdgeTool, function: Seq<char>, note: Seq<char>) -> Seq<char> {
    "# "@ + tool.title_spec() + " of `"@ + function + "`\n\n"@ + note
}

/// An answer that ends with a blank line listed nothing, and says so.
pub open spec fn closed_answer(tool: EdgeTool, out: Seq<char>) -> Seq<char> {
    if "\n\n"@.is_suffix_of(out) {
        out + "*No "@ + tool.noun_spec() + " found.*\n"@
    } else {
        out
    }
}

fn close_answer(tool: EdgeTool, out: String) -> (r: String)
    ensures
        r@ == closed_answer(tool, out@),
{
    let mut done = out;
    if ends_with(done.as_str(), "\n\n") {
        done.append("*No ");
        done.append(tool.noun());
        done.append(" found.*\n");
    }
    done
}

/// A function some calls away: its key and the number of calls.
#[derive(Debug)]
pub struct DistantFunction {
    pub key: String,
    pub depth: usize,
}

pub open spec fn distant_texts(v: Seq<DistantFunction>) -> Seq<(Seq<char>, usize)> {
    v.map_values(|d: DistantFunction| (d.key@, d.depth))
}

pub open spec fn distant_row(d: (Seq<char>, usize)) -> Seq<char> {
    "- `"@ + d.0 + "` (depth: "@ + decimal(d.1 as nat) + ")\n"@
}

/// Those that stand in no test file.
pub open spec fn distant_kept(
    list: Seq<(Seq<char>, usize)>,
    tests: Seq<Seq<char>>,
) -> Seq<(Seq<char>, usize)> {
    list.filter(|d: (Seq<char>, usize)| !tests.contains(key_file(d.0)))
}

pub open spec fn page_footer(tool: EdgeTool, capped: Capped) -> Seq<char> {
    if capped.is_cut() {
        "\n"@ + capped.footer_spec(tool.tool_spec())
    } else {
        Seq::empty()
    }
}

/// The answer about everything that reaches a function, or that it reaches.
pub open spec fn transitive_spec(
    tool: EdgeTool,
    function: Seq<char>,
    note: Seq<char>,
    list: Seq<(Seq<char>, usize)>,
    max_depth: usize,
    tests: Seq<Seq<char>>,
    window: ListWindow,
) -> Seq<char> {
    let kept = distant_kept(list, tests);
    let page = kept.subrange(window.start(kept.len()), window.end(kept.len()));
    closed_answer(
        tool,
        edges_header(tool, function, note) + "Found "@ + decimal(kept.len()) + " transitive "@
            + tool.noun_spec() + " (max depth: "@ + decimal(max_depth as nat) + ")\n\n"@ + concat(
            page.map_values(|d: (Seq<char>, usize)| distant_row(d)),
        ) + page_footer(tool, capped_spec(window, kept.len())),
    )
}

fn keep_distant(list: &[DistantFunction], tests: &[String]) -> (r: Vec<DistantFunction>)
    ensures
        distant_texts(r@) == distant_kept(distant_texts(list@), texts(tests@)),
{
    let ghost all = distant_texts(list@);
    let ghost pred = |d: (Seq<char>, usize)| !texts(tests@).contains(key_file(d.0));
    let mut out: Vec<DistantFunction> = Vec::new();
    let mut i: usize = 0;
    proof {
        reveal(Seq::filter);
        assert(distant_texts(out@) =~= all.take(0).filter(pred));
    }
    while i < list.len()
        invariant
            i <= list@.len(),
            all == distant_texts(list@),
            pred == (|d: (Seq<char>, usize)| !texts(tests@).contains(key_file(d.0))),
            distant_texts(out@) == all.take(i as int).filter(pred),
        decreases list@.len() - i,
    {
        proof {
            reveal(Seq::filter);
            assert(all.take(i + 1).drop_last() =~= all.take(i as int));
            assert(all.take(i + 1).last() == (list@[i as int].key@, list@[i as int].depth));
        }
        let file = file_of_key(list[i].key.as_str());
        if !has_text(tests, file.as_str()) {
            let d = DistantFunction { key: list[i].key.clone(), depth: list[i].depth };
            proof {
                assert(distant_texts(out@.push(d)) =~= distant_texts(out@).push((d.key@, d.depth)));
            }
            out.push(d);
        }
        i = i + 1;
    }
    proof {
        assert(all.take(all.len() as int) =~= all);
    }
    out
}

fn push_header(tool: EdgeTool, function: &str, note: &str) -> (r: String)
    ensures
        r@ == edges_header(tool, function@, note@),
{
    let mut out = "# ".to_owned();
    out.append(tool.title());
    out.append(" of `");
    out.append(function);
    out.append("`\n\n");
    out.append(note);
    out
}

/// Renders the transitive callers or callees. `test_files` are the files to leave out.
pub fn render_transitive(
    tool: EdgeTool,
    function: &str,
    note: &str,
    list: &[DistantFunction],
    max_depth: usize,
    test_files: &[String],
    window: ListWindow,
) -> (r: String)
    ensures
        r@ == transitive_spec(
            tool,
            function@,
            note@,
            distant_texts(list@),
            max_depth,
            texts(test_files@),
            window,
        ),
{
    let kept = keep_distant(list, test_files);
    let ghost all = distant_texts(kept@);
    let (start, end, capped) = cap(kept.len(), window);
    let mut out = push_header(tool, function, note);
    out.append("Found ");
    out.append(usize_text(kept.len()).as_str());
    out.append(" transitive ");
    out.append(tool.noun());
    out.append(" (max depth: ");
    out.append(usize_text(max_depth).as_str());
    out.append(")\n\n");
    let mut rows: Vec<String> = Vec::new();
    let mut i: usize = start;
    while i < end
        invariant
            start <= i <= end <= kept@.len(),
            rows@.len() == i - start,
            forall|j: int|
                0 <= j < rows@.len() ==> #[trigger] rows@[j]@ == distant_row(
                    (kept@[start + j].key@, kept@[start + j].depth),
                ),
        decreases end - i,
    {
        let mut row = "- `".to_owned();
        row.append(kept[i].key.as_str());
        row.append("` (depth: ");
        row.append(usize_text(kept[i].depth).as_str());
        row.append(")\n");
        rows.push(row);
        i = i + 1;
    }
    proof {
        let page = all.subrange(start as int, end as int);
        assert(texts(rows@) =~= page.map_values(|d: (Seq<char>, usize)| distant_row(d)));
        assert(all.len() == kept@.len());
    }
    out.append(concat_texts(rows.as_slice()).as_str());
    let mut tail = String::new();
    if capped.truncated() {
        tail = "\n".to_owned();
        tail.append(capped.footer(tool.tool()).as_str());
    }
    proof {
        if !capped.is_cut() {
            assert(tail@ =~= Seq::<char>::empty());
        }
    }
    out.append(tail.as_str());
    close_answer(tool, out)
}

/// The backends that could have confirmed an edge of `file`.
pub open spec fn enabled_for(file: Seq<char>, cxx: SourceSet, other: SourceSet) -> SourceSet {
    if is_cxx_file(file) {
        cxx
    } else {
        other
    }
}

/// An edge's annotation, or nothing.
pub open spec fn edge_annotation(e: EdgeText, cxx: SourceSet, other: SourceSet) -> Seq<char> {
    match provenance_spec(
        ProvenanceSubject::CallEdge,
        enabled_for(e.file_path, cxx, other),
        e.confirmed_by,
        e.line,
        e.line_conflicts,
    ) {
        Some(annotation) => " — "@ + annotation,
        None => Seq::empty(),
    }
}

/// One caller or callee. Callers carry who confirms them.
pub open spec fn edge_row(tool: EdgeTool, e: EdgeText, cxx: SourceSet, other: SourceSet) -> Seq<char> {
    let annotation = if tool == EdgeTool::Callers {
        edge_annotation(e, cxx, other)
    } else {
        Seq::empty()
    };
    "- `"@ + e.target + "` at `"@ + e.file_path + ":"@ + decimal(e.line as nat) + "`"@
        + annotation + " ("@ + e.call_type + ")\n"@
}

/// The file an edge counts for: where a caller's call stands, or where a callee is defined.
pub open spec fn edge_home(tool: EdgeTool, e: EdgeText) -> Seq<char> {
    match tool {
        EdgeTool::Callers => e.file_path,
        EdgeTool::Callees => key_file(e.target),
    }
}

pub open spec fn edges_kept(tool: EdgeTool, edges: Seq<EdgeText>, tests: Seq<Seq<char>>) -> Seq<
    EdgeText,
> {
    edges.filter(|e: EdgeText| !tests.contains(edge_home(tool, e)))
}

/// What stands behind a page that was cut: the files of the rest, and the next page.
pub open spec fn edges_rest(tool: EdgeTool, kept: Seq<EdgeText>, capped: Capped) -> Seq<char> {
    if capped.is_cut() {
        "\n## Remaining "@ + tool.noun_spec() + " by file\n\n"@ + by_file_summary_spec(
            kept.skip(capped.offset + capped.shown).map_values(|e: EdgeText| e.file_path),
            20,
        ) + "\n"@ + capped.footer_spec(tool.tool_spec())
    } else {
        Seq::empty()
    }
}

/// The answer about the edges of a function.
pub open spec fn direct_spec(
    tool: EdgeTool,
    function: Seq<char>,
    note: Seq<char>,
    edges: Seq<EdgeText>,
    tests: Seq<Seq<char>>,
    window: ListWindow,
    cxx: SourceSet,
    other: SourceSet,
) -> Seq<char> {
    let kept = edges_kept(tool, edges, tests);
    let page = kept.subrange(window.start(kept.len()), window.end(kept.len()));
    closed_answer(
        tool,
        edges_header(tool, function, note) + "Found "@ + decimal(kept.len()) + " direct "@
            + tool.noun_spec() + "\n\n"@ + concat(
            page.map_values(|e: EdgeText| edge_row(tool, e, cxx, other)),
        ) + edges_rest(tool, kept, capped_spec(window, kept.len())),
    )
}

fn kept_edges(tool: EdgeTool, edges: &[CallEdge], tests: &[String]) -> (r: Vec<usize>)
    ensures
        r@.len() == edges_kept(tool, edge_texts(edges@), texts(tests@)).len(),
        forall|i: int|
            0 <= i < r@.len() ==> (#[trigger] r@[i]) < edges@.len() && edges@[r@[i] as int]@
                == edges_kept(tool, edge_texts(edges@), texts(tests@))[i],
{
    let ghost all = edge_texts(edges@);
    let ghost pred = |e: EdgeText| !texts(tests@).contains(edge_home(tool, e));
    let mut out: Vec<usize> = Vec::new();
    let mut i: usize = 0;
    proof {
        reveal(Seq::filter);
        assert(all.take(0).filter(pred).len() == 0);
    }
    while i < edges.len()
        invariant
            i <= edges@.len(),
            all == edge_texts(edges@),
            pred == (|e: EdgeText| !texts(tests@).contains(edge_home(tool, e))),
            out@.len() == all.take(i as int).filter(pred).len(),
            forall|j: int|
                0 <= j < out@.len() ==> (#[trigger] out@[j]) < edges@.len() && edges@[out@[j] as int]@
                    == all.take(i as int).filter(pred)[j],
        decreases edges@.len() - i,
    {
        proof {
            reveal(Seq::filter);
            assert(all.take(i + 1).drop_last() =~= all.take(i as int));
            assert(all.take(i + 1).last() == edges@[i as int]@);
        }
        let in_tests = match tool {
            EdgeTool::Callers => has_text(tests, edges[i].file_path.as_str()),
            EdgeTool::Callees => {
                let file = file_of_key(edges[i].target.as_str());
                has_text(tests, file.as_str())
            },
        };
        if !in_tests {
            out.push(i);
        }
        i = i + 1;
    }
    proof {
        assert(all.take(all.len() as int) =~= all);
    }
    out
}

fn render_edge(tool: EdgeTool, e: &CallEdge, cxx: SourceSet, other: SourceSet) -> (r: String)
    ensures
        r@ == edge_row(tool, e@, cxx, other),
{
    let mut annotation = String::new();
    proof {
        assert(annotation@ =~= Seq::<char>::empty());
    }
    if tool == EdgeTool::Callers {
        let enabled = if cxx_file(e.file_path.as_str()) {
            cxx
        } else {
            other
        };
        match render_provenance(
            ProvenanceSubject::CallEdge,
            enabled,
            e.confirmed_by,
            e.line,
            e.line_conflicts.as_slice(),
        ) {
            Some(text) => {
                annotation = " — ".to_owned();
                annotation.append(text.as_str());
            },
            None => {},
        }
    }
    let mut out = "- `".to_owned();
    out.append(e.target.as_str());
    out.append("` at `");
    out.append(e.file_path.as_str());
    out.append(":");
    out.append(usize_text(e.line).as_str());
    out.append("`");
    out.append(annotation.as_str());
    out.append(" (");
    out.append(e.call_type.as_str());
    out.append(")\n");
    out
}

/// Renders the direct callers or callees. `test_files` are the files to leave out; `cxx`
/// and `other` are the backends enabled for C and C++ files and for the rest.
pub fn render_direct(
    tool: EdgeTool,
    function: &str,
    note: &str,
    edges: &[CallEdge],
    test_files: &[String],
    window: ListWindow,
    cxx: SourceSet,
    other: SourceSet,
) -> (r: String)
    ensures
        r@ == direct_spec(
            tool,
            function@,
            note@,
            edge_texts(edges@),
            texts(test_files@),
            window,
            cxx,
            other,
        ),
{
    let kept = kept_edges(tool, edges, test_files);
    let ghost all = edges_kept(tool, edge_texts(edges@), texts(test_files@));
    let (start, end, capped) = cap(kept.len(), window);
    let mut out = push_header(tool, function, note);
    out.append("Found ");
    out.append(usize_text(kept.len()).as_str());
    out.append(" direct ");
    out.append(tool.noun());
    out.append("\n\n");
    let mut rows: Vec<String> = Vec::new();
    let mut i: usize = start;
    while i < end
        invariant
            start <= i <= end <= kept@.len(),
            kept@.len() == all.len(),
            forall|j: int|
                0 <= j < kept@.len() ==> (#[trigger] kept@[j]) < edges@.len()
                    && edges@[kept@[j] as int]@ == all[j],
            rows@.len() == i - start,
            forall|j: int|
                0 <= j < rows@.len() ==> #[trigger] rows@[j]@ == edge_row(
                    tool,
                    all[start + j],
                    cxx,
                    other,
                ),
        decreases end - i,
    {
        let at: usize = kept[i];
        rows.push(render_edge(tool, &edges[at], cxx, other));
        i = i + 1;
    }
    proof {
        let page = all.subrange(start as int, end as int);
        assert(texts(rows@) =~= page.map_values(|e: EdgeText| edge_row(tool, e, cxx, other)));
    }
    out.append(concat_texts(rows.as_slice()).as_str());
    let mut tail = String::new();
    if capped.truncated() {
        let from: usize = capped.offset + capped.shown;
        let mut files: Vec<String> = Vec::new();
        let mut k: usize = from;
        while k < kept.len()
            invariant
                from <= k <= kept@.len(),
                kept@.len() == all.len(),
                forall|j: int|
                    0 <= j < kept@.len() ==> (#[trigger] kept@[j]) < edges@.len()
                        && edges@[kept@[j] as int]@ == all[j],
                files@.len() == k - from,
                forall|j: int|
                    0 <= j < files@.len() ==> #[trigger] files@[j]@ == all[from + j].file_path,
            decreases kept@.len() - k,
        {
            let at: usize = kept[k];
            files.push(edges[at].file_path.clone());
            k = k + 1;
        }
        proof {
            assert(texts(files@) =~= all.skip(from as int).map_values(|e: EdgeText| e.file_path));
        }
        tail = "\n## Remaining ".to_owned();
        tail.append(tool.noun());
        tail.append(" by file\n\n");
        tail.append(by_file_summary(files.as_slice(), 20).as_str());
        tail.append("\n");
        tail.append(capped.footer(tool.tool()).as_str());
    }
    proof {
        if !capped.is_cut() {
            assert(tail@ =~= Seq::<char>::empty());
        }
    }
    out.append(tail.as_str());
    close_answer(tool, out)
}

// ---- paths between functions ----

pub open spec fn path_step(i: int, name: Seq<char>) -> Seq<char> {
    if i > 0 {
        "  ↓\n"@ + decimal((i + 1) as nat) + ". `"@ + name + "`\n"@
    } else {
        decimal((i + 1) as nat) + ". `"@ + name + "`\n"@
    }
}

/// The answer about a path between two functions.
pub open spec fn call_path_spec(
    from: Seq<char>,
    to: Seq<char>,
    path: Option<Seq<Seq<char>>>,
) -> Seq<char> {
    let header = "# Call Path: `"@ + from + "` → `"@ + to + "`\n\n"@;
    match path {
        Some(steps) => header + "Found path with "@ + decimal((steps.len() - 1) as nat)
            + " steps:\n\n"@ + concat(
            Seq::new(steps.len(), |i: int| path_step(i, steps[i])),
        ),
        None => header + "*No path found between these functions.*\n"@,
    }
}

/// Renders the path the graph found. A path names at least one function.
pub fn render_call_path(from: &str, to: &str, path: Option<&[String]>) -> (r: String)
    requires
        path matches Some(p) ==> p@.len() > 0,
    ensures
        r@ == call_path_spec(
            from@,
            to@,
            match path {
                Some(p) => Some(texts(p@)),
                None => None,
            },
        ),
{
    let mut out = "# Call Path: `".to_owned();
    out.append(from);
    out.append("` → `");
    out.append(to);
    out.append("`\n\n");
    match path {
        Some(steps) => {
            out.append("Found path with ");
            out.append(usize_text(steps.len() - 1).as_str());
            out.append(" steps:\n\n");
            let mut rows: Vec<String> = Vec::new();
            let mut i: usize = 0;
            while i < steps.len()
                invariant
                    i <= steps@.len(),
                    rows@.len() == i,
                    forall|j: int|
                        0 <= j < i ==> #[trigger] rows@[j]@ == path_step(j, steps@[j]@),
                decreases steps@.len() - i,
            {
                let mut row = String::new();
                if i > 0 {
                    row = "  ↓\n".to_owned();
                    row.append(usize_text(i + 1).as_str());
                } else {
                    row = usize_text(i + 1);
                }
                row.append(". `");
                row.append(steps[i].as_str());
                row.append("`\n");
                rows.push(row);
                i = i + 1;
            }
            proof {
                let named = texts(steps@);
                assert(texts(rows@) =~= Seq::new(named.len(), |i: int| path_step(i, named[i])));
            }
            out.append(concat_texts(rows.as_slice()).as_str());
        },
        None => {
            out.append("*No path found between these functions.*\n");
        },
    }
    out
}

// ---- complexity ----

/// The measures of one function.
#[derive(Debug, Clone, Copy, PartialEq, Eq, Structural)]
pub struct FunctionMetrics {
    pub loc: usize,
    pub cyclomatic: usize,
    pub max_depth: usize,
    pub params: usize,
    pub returns: usize,
    pub cognitive: usize,
}

/// What the measures say of a function.
pub open spec fn health_spec(m: FunctionMetrics) -> Seq<char> {
    let branches = if m.cyclomatic > 10 {
        "⚠️ **High cyclomatic complexity** - Consider refactoring into smaller functions.\n"@
    } else if m.cyclomatic > 5 {
        "⚡ **Moderate complexity** - Function is manageable but could be simplified.\n"@
    } else {
        "✅ **Low complexity** - Function is well-structured.\n"@
    };
    if m.max_depth > 4 {
        branches
            + "⚠️ **Deep nesting** - Consider early returns or extracting nested logic.\n"@
    } else {
        branches
    }
}

pub open spec fn complexity_spec(function: Seq<char>, metrics: Option<FunctionMetrics>) -> Seq<char> {
    let header = "# Complexity Metrics: `"@ + function + "`\n\n"@;
    match metrics {
        Some(m) => header + "| Metric | Value |\n|--------|-------|\n| Lines of Code | "@
            + decimal(m.loc as nat) + " |\n| Cyclomatic Complexity | "@
            + decimal(m.cyclomatic as nat) + " |\n| Max Nesting Depth | "@
            + decimal(m.max_depth as nat) + " |\n| Parameters | "@ + decimal(m.params as nat)
            + " |\n| Return Points | "@ + decimal(m.returns as nat)
            + " |\n| Cognitive Complexity | "@ + decimal(m.cognitive as nat)
            + " |\n\n## Health Assessment\n\n"@ + health_spec(m),
        None => header + "*Function not found in call graph.*\n"@,
    }
}

fn health(m: FunctionMetrics) -> (r: String)
    ensures
        r@ == health_spec(m),
{
    let mut out = if m.cyclomatic > 10 {
        "⚠️ **High cyclomatic complexity** - Consider refactoring into smaller functions.\n".to_owned()
    } else if m.cyclomatic > 5 {
        "⚡ **Moderate complexity** - Function is manageable but could be simplified.\n".to_owned()
    } else {
        "✅ **Low complexity** - Function is well-structured.\n".to_owned()
    };
    if m.max_depth > 4 {
        out.append(
            "⚠️ **Deep nesting** - Consider early returns or extracting nested logic.\n",
        );
    }
    out
}

/// Renders a function's measures and what they say of it.
pub fn render_complexity(function: &str, metrics: Option<FunctionMetrics>) -> (r: String)
    ensures
        r@ == complexity_spec(function@, metrics),
{
    let mut out = "# Complexity Metrics: `".to_owned();
    out.append(function);
    out.append("`\n\n");
    match metrics {
        Some(m) => {
            out.append("| Metric | Value |\n|--------|-------|\n| Lines of Code | ");
            out.append(usize_text(m.loc).as_str());
            out.append(" |\n| Cyclomatic Complexity | ");
            out.append(usize_text(m.cyclomatic).as_str());
            out.append(" |\n| Max Nesting Depth | ");
            out.append(usize_text(m.max_depth).as_str());
            out.append(" |\n| Parameters | ");
            out.append(usize_text(m.params).as_str());
            out.append(" |\n| Return Points | ");
            out.append(usize_text(m.returns).as_str());
            out.append(" |\n| Cognitive Complexity | ");
            out.append(usize_text(m.cognitive).as_str());
            out.append(" |\n\n## Health Assessment\n\n");
            out.append(health(m).as_str());
        },
        None => {
            out.append("*Function not found in call graph.*\n");
        },
    }
    out
}

// ---- hotspots ----

/// Most hotspots shown.
pub const HOTSPOT_LIMIT: usize = 50;

/// A function with the number of its callers and callees.
#[derive(Debug)]
pub struct Hotspot {
    pub key: String,
    pub incoming: usize,
    pub outgoing: usize,
}

pub struct HotspotText {
    pub key: Seq<char>,
    pub incoming: usize,
    pub outgoing: usize,
}

impl View for Hotspot {
    type V = HotspotText;

    open spec fn view(&self) -> HotspotText {
        HotspotText { key: self.key@, incoming: self.incoming, outgoing: self.outgoing }
    }
}

pub open spec fn hotspot_texts(v: Seq<Hotspot>) -> Seq<HotspotText> {
    v.map_values(|h: Hotspot| h@)
}

pub open spec fn hotspot_row(h: HotspotText) -> Seq<char> {
    "| `"@ + h.key + "` | "@ + decimal(h.incoming as nat) + " | "@ + decimal(h.outgoing as nat)
        + " | "@ + decimal((h.incoming + h.outgoing) as nat) + " |\n"@
}

pub open spec fn hotspots_kept(list: Seq<HotspotText>, tests: Seq<Seq<char>>) -> Seq<HotspotText> {
    list.filter(|h: HotspotText| !tests.contains(key_file(h.key)))
}

pub open spec fn hotspots_spec(
    repo: Seq<char>,
    min_connections: usize,
    list: Seq<HotspotText>,
    tests: Seq<Seq<char>>,
) -> Seq<char> {
    let kept = hotspots_kept(list, tests);
    let shown = if kept.len() > HOTSPOT_LIMIT {
        kept.take(HOTSPOT_LIMIT as int)
    } else {
        kept
    };
    let header = "# Function Hotspots in "@ + repo + " (min "@ + decimal(min_connections as nat)
        + " connections)\n\n"@;
    if shown.len() == 0 {
        header + "*No hotspots found matching the criteria.*\n"@
    } else {
        let count = if kept.len() > shown.len() {
            "Showing top "@ + decimal(shown.len() as nat) + " of "@ + decimal(kept.len() as nat)
                + " highly connected functions (generic trait methods filtered):\n\n"@
        } else {
            "Found "@ + decimal(shown.len() as nat)
                + " highly connected functions (generic trait methods filtered):\n\n"@
        };
        header + count + "| Function | Incoming | Outgoing | Total |\n"@
            + "|----------|----------|----------|-------|\n"@ + concat(
            shown.map_values(|h: HotspotText| hotspot_row(h)),
        ) + "\n## Analysis\n\nFunctions with many connections are potential refactoring candidates:\n- **High incoming**: Widely used, changes have broad impact\n- **High outgoing**: Complex, depends on many other functions\n- **High both**: Central to the codebase, requires careful attention\n"@
    }
}

/// The counts of a hotspot can be summed.
pub open spec fn countable(list: Seq<HotspotText>) -> bool {
    forall|i: int|
        0 <= i < list.len() ==> #[trigger] list[i].incoming + list[i].outgoing <= usize::MAX
}

fn keep_hotspots(list: &[Hotspot], tests: &[String]) -> (r: Vec<Hotspot>)
    requires
        countable(hotspot_texts(list@)),
    ensures
        hotspot_texts(r@) == hotspots_kept(hotspot_texts(list@), texts(tests@)),
        countable(hotspot_texts(r@)),
{
    let ghost all = hotspot_texts(list@);
    let ghost pred = |h: HotspotText| !texts(tests@).contains(key_file(h.key));
    let mut out: Vec<Hotspot> = Vec::new();
    let mut i: usize = 0;
    proof {
        reveal(Seq::filter);
        assert(hotspot_texts(out@) =~= all.take(0).filter(pred));
    }
    while i < list.len()
        invariant
            i <= list@.len(),
            all == hotspot_texts(list@),
            countable(all),
            countable(hotspot_texts(out@)),
            pred == (|h: HotspotText| !texts(tests@).contains(key_file(h.key))),
            hotspot_texts(out@) == all.take(i as int).filter(pred),
        decreases list@.len() - i,
    {
        proof {
            reveal(Seq::filter);
            assert(all.take(i + 1).drop_last() =~= all.take(i as int));
            assert(all.take(i + 1).last() == list@[i as int]@);
            assert(all[i as int].incoming + all[i as int].outgoing <= usize::MAX);
        }
        let file = file_of_key(list[i].key.as_str());
        if !has_text(tests, file.as_str()) {
            let h = Hotspot {
                key: list[i].key.clone(),
                incoming: list[i].incoming,
                outgoing: list[i].outgoing,
            };
            proof {
                assert(hotspot_texts(out@.push(h)) =~= hotspot_texts(out@).push(h@));
            }
            out.push(h);
        }
        i = i + 1;
    }
    proof {
        assert(all.take(all.len() as int) =~= all);
    }
    out
}

/// Renders the most connected functions, the first of the list on top.
pub fn render_hotspots(
    repo: &str,
    min_connections: usize,
    list: &[Hotspot],
    test_files: &[String],
) -> (r: String)
    requires
        countable(hotspot_texts(list@)),
    ensures
        r@ == hotspots_spec(
            repo@,
            min_connections,
            hotspot_texts(list@),
            texts(test_files@),
        ),
{
    let kept = keep_hotspots(list, test_files);
    let ghost all = hotspot_texts(kept@);
    let shown: usize = if kept.len() > HOTSPOT_LIMIT {
        HOTSPOT_LIMIT
    } else {
        kept.len()
    };
    let mut out = "# Function Hotspots in ".to_owned();
    out.append(repo);
    out.append(" (min ");
    out.append(usize_text(min_connections).as_str());
    out.append(" connections)\n\n");
    if shown == 0 {
        out.append("*No hotspots found matching the criteria.*\n");
        return out;
    }
    let mut count = String::new();
    if kept.len() > shown {
        count = "Showing top ".to_owned();
        count.append(usize_text(shown).as_str());
        count.append(" of ");
        count.append(usize_text(kept.len()).as_str());
    } else {
        count = "Found ".to_owned();
        count.append(usize_text(shown).as_str());
    }
    count.append(" highly connected functions (generic trait methods filtered):\n\n");
    out.append(count.as_str());
    out.append("| Function | Incoming | Outgoing | Total |\n");
    out.append("|----------|----------|----------|-------|\n");
    let mut rows: Vec<String> = Vec::new();
    let mut i: usize = 0;
    while i < shown
        invariant
            i <= shown <= kept@.len(),
            rows@.len() == i,
            all == hotspot_texts(kept@),
            countable(all),
            forall|j: int| 0 <= j < i ==> #[trigger] rows@[j]@ == hotspot_row(kept@[j]@),
        decreases shown - i,
    {
        proof {
            assert(all[i as int] == kept@[i as int]@);
            assert(all[i as int].incoming + all[i as int].outgoing <= usize::MAX);
        }
        let mut row = "| `".to_owned();
        row.append(kept[i].key.as_str());
        row.append("` | ");
        row.append(usize_text(kept[i].incoming).as_str());
        row.append(" | ");
        row.append(usize_text(kept[i].outgoing).as_str());
        row.append(" | ");
        row.append(usize_text(kept[i].incoming + kept[i].outgoing).as_str());
        row.append(" |\n");
        rows.push(row);
        i = i + 1;
    }
    proof {
        let part = if all.len() > HOTSPOT_LIMIT {
            all.take(HOTSPOT_LIMIT as int)
        } else {
            all
        };
        assert(texts(rows@) =~= part.map_values(|h: HotspotText| hotspot_row(h)));
    }
    out.append(concat_texts(rows.as_slice()).as_str());
    let mut tail = "\n## Analysis\n\nFunctions with many connections are potential refactoring candidates:\n- **High incoming**: Widely used, changes have broad impact\n- **High outgoing**: Complex, depends on many other functions\n- **High both**: Central to the codebase, requires careful attention\n".to_owned();
    out.append(tail.as_str());
    out
}

} // verus!
