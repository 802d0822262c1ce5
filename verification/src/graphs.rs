//! Graph data for drawing: imports, references to a symbol, and control flow.

use vstd::prelude::*;

use crate::imports::{import_texts, imports_of, parse_imports_from_content, ImportText};
use crate::paths::{strip, strip_base};
use crate::search::{cached_texts, excerpt_line, CachedFile, CachedText};
use crate::show::smaller;
use crate::symbols::{symbol_texts, Symbol, SymbolText};
use crate::text::{
    ascii_lower_text, contains, contains_text, decimal, ends_with, join, join_spec, lines,
    lines_of, opt_text, padded_number, same_text, texts, to_ascii_lower, usize_text,
};

verus! {

// ---- excerpts ----

/// The first line of a tooltip, counted from 0.
pub open spec fn tooltip_start(center: usize, context: usize) -> int {
    if center > context {
        center - context - 1
    } else {
        0
    }
}

/// The lines around a line, as a tooltip shows them.
pub open spec fn tooltip_spec(lines: Seq<Seq<char>>, center: usize, context: usize) -> Seq<char> {
    let start = tooltip_start(center, context);
    let end = smaller(center + context, lines.len() as int);
    join_spec(Seq::new((end - start) as nat, |k: int| excerpt_line(lines, start + k)), "\n"@)
}

/// The lines around a line of a file, whose first line has to be there.
pub fn get_excerpt_for_viz(content: &str, center_line: usize, context: usize) -> (r: String)
    requires
        tooltip_start(center_line, context) <= lines_of(content@).len(),
    ensures
        r@ == tooltip_spec(lines_of(content@), center_line, context),
{
    let all = lines(content);
    let ghost ls = texts(all@);
    let len: usize = all.len();
    proof {
        assert(ls.len() == len);
    }
    let end: usize = if center_line >= len || context >= len - center_line {
        len
    } else {
        center_line + context
    };
    let start: usize = if center_line > context {
        center_line - context - 1
    } else {
        0
    };
    let mut rows: Vec<String> = Vec::new();
    let mut i: usize = start;
    while i < end
        invariant
            start <= i <= end <= all@.len(),
            ls == texts(all@),
            rows@.len() == i - start,
            forall|j: int|
                0 <= j < rows@.len() ==> #[trigger] rows@[j]@ == excerpt_line(ls, start + j),
        decreases end - i,
    {
        let mut row = padded_number(i + 1);
        row.append(" | ");
        row.append(all[i].as_str());
        rows.push(row);
        i = i + 1;
    }
    proof {
        assert(texts(rows@) =~= Seq::new(
            (end - start) as nat,
            |k: int| excerpt_line(ls, start + k),
        ));
    }
    join(rows.as_slice(), "\n")
}

// ---- imports ----

/// A file and what it imports.
#[derive(Debug)]
pub struct ImportNode {
    pub file: String,
    pub imports: Vec<String>,
}

pub struct ImportNodeText {
    pub file: Seq<char>,
    pub imports: Seq<Seq<char>>,
}

impl View for ImportNode {
    type V = ImportNodeText;

    open spec fn view(&self) -> ImportNodeText {
        ImportNodeText { file: self.file@, imports: texts(self.imports@) }
    }
}

pub open spec fn node_texts(v: Seq<ImportNode>) -> Seq<ImportNodeText> {
    v.map_values(|n: ImportNode| n@)
}

/// A file of the repository by its repo-relative path, with its content where readable.
#[derive(Debug)]
pub struct GraphFile {
    pub path: String,
    pub content: Option<String>,
}

pub open spec fn graph_files(v: Seq<GraphFile>) -> Seq<(Seq<char>, Option<Seq<char>>)> {
    v.map_values(|f: GraphFile| (f.path@, opt_text(f.content)))
}

pub open spec fn import_paths(path: Seq<char>, content: Seq<char>) -> Seq<Seq<char>> {
    imports_of(lines_of(content), path).map_values(|i: ImportText| i.import_path)
}

/// The nodes of the import graph, and how many nodes they draw: each file with imports
/// counts itself and its targets, and once there are `max_nodes` no further file is added.
pub open spec fn import_graph_spec(
    files: Seq<(Seq<char>, Option<Seq<char>>)>,
    max_nodes: usize,
) -> (Seq<ImportNodeText>, nat)
    decreases files.len(),
{
    if files.len() == 0 {
        (Seq::empty(), 0)
    } else {
        let front = import_graph_spec(files.drop_last(), max_nodes);
        match files.last().1 {
            None => front,
            Some(content) => {
                let found = import_paths(files.last().0, content);
                if front.1 >= max_nodes || found.len() == 0 {
                    front
                } else {
                    (
                        front.0.push(ImportNodeText { file: files.last().0, imports: found }),
                        front.1 + 1 + found.len(),
                    )
                }
            },
        }
    }
}

fn paths_imported(path: &str, content: &str) -> (r: Vec<String>)
    ensures
        texts(r@) == import_paths(path@, content@),
{
    let found = parse_imports_from_content(content, path);
    let ghost all = import_texts(found@);
    let mut out: Vec<String> = Vec::new();
    let mut i: usize = 0;
    while i < found.len()
        invariant
            i <= found@.len(),
            all == import_texts(found@),
            out@.len() == i,
            forall|j: int| 0 <= j < i ==> #[trigger] out@[j]@ == all[j].import_path,
        decreases found@.len() - i,
    {
        proof {
            assert(all[i as int] == found@[i as int]@);
        }
        out.push(found[i].import_path.clone());
        i = i + 1;
    }
    proof {
        assert(texts(out@) =~= all.map_values(|i: ImportText| i.import_path));
    }
    out
}

/// Collects the import graph of a repository's files.
pub fn get_import_graph_for_viz(files: &[GraphFile], max_nodes: usize) -> (r: Vec<ImportNode>)
    ensures
        node_texts(r@) == import_graph_spec(graph_files(files@), max_nodes).0,
{
    let ghost all = graph_files(files@);
    let mut out: Vec<ImportNode> = Vec::new();
    let mut room: usize = max_nodes;
    let mut i: usize = 0;
    proof {
        assert(node_texts(out@) =~= import_graph_spec(all.take(0), max_nodes).0);
    }
    while i < files.len()
        invariant
            i <= files@.len(),
            all == graph_files(files@),
            node_texts(out@) == import_graph_spec(all.take(i as int), max_nodes).0,
            room <= max_nodes,
            room > 0 ==> import_graph_spec(all.take(i as int), max_nodes).1 == max_nodes - room,
            room == 0 ==> import_graph_spec(all.take(i as int), max_nodes).1 >= max_nodes,
        decreases files@.len() - i,
    {
        proof {
            assert(all.take(i + 1).drop_last() =~= all.take(i as int));
            assert(all.take(i + 1).last() == (
                files@[i as int].path@,
                opt_text(files@[i as int].content),
            ));
        }
        if room > 0 {
            match &files[i].content {
                Some(content) => {
                    let found = paths_imported(files[i].path.as_str(), content.as_str());
                    proof {
                        assert(texts(found@).len() == found@.len());
                    }
                    if found.len() > 0 {
                        room = if found.len() < room {
                            room - 1 - found.len()
                        } else {
                            0
                        };
                        let node = ImportNode { file: files[i].path.clone(), imports: found };
                        proof {
                            assert(node_texts(out@.push(node)) =~= node_texts(out@).push(node@));
                        }
                        out.push(node);
                    }
                },
                None => {},
            }
        }
        i = i + 1;
    }
    proof {
        assert(all.take(all.len() as int) =~= all);
    }
    out
}

// ---- a symbol and its references ----

/// A symbol that goes by a name, or whose qualified name ends with it.
pub open spec fn is_target(s: SymbolText, name: Seq<char>) -> bool {
    s.name == name || ("::"@ + name).is_suffix_of(s.name)
}

pub open spec fn first_target(symbols: Seq<SymbolText>, name: Seq<char>) -> Option<SymbolText>
    decreases symbols.len(),
{
    if symbols.len() == 0 {
        None
    } else if is_target(symbols[0], name) {
        Some(symbols[0])
    } else {
        first_target(symbols.skip(1), name)
    }
}

/// The symbol a graph is about.
pub fn target_symbol(symbols: &[Symbol], name: &str) -> (r: Option<usize>)
    ensures
        match r {
            Some(i) => i < symbols@.len() && first_target(symbol_texts(symbols@), name@) == Some(
                symbols@[i as int]@,
            ),
            None => first_target(symbol_texts(symbols@), name@) is None,
        },
{
    let mut tail = "::".to_owned();
    tail.append(name);
    let ghost all = symbol_texts(symbols@);
    let mut i: usize = 0;
    proof {
        assert(all.skip(0) =~= all);
    }
    while i < symbols.len()
        invariant
            i <= symbols@.len(),
            tail@ == "::"@ + name@,
            all == symbol_texts(symbols@),
            first_target(all, name@) == first_target(all.skip(i as int), name@),
        decreases symbols@.len() - i,
    {
        proof {
            assert(all.skip(i as int)[0] == symbols@[i as int]@);
            assert(all.skip(i as int).skip(1) =~= all.skip(i + 1));
        }
        if same_text(symbols[i].name.as_str(), name) || ends_with(
            symbols[i].name.as_str(),
            tail.as_str(),
        ) {
            return Some(i);
        }
        i = i + 1;
    }
    None
}

/// A symbol's definition as a node.
#[derive(Debug)]
pub struct SymbolDefinition {
    pub id: String,
    pub kind: String,
    pub file_path: String,
    pub line: usize,
}

/// A place that mentions a symbol.
#[derive(Debug)]
pub struct SymbolReference {
    pub file_path: String,
    pub line: usize,
}

pub open spec fn place_pairs(v: Seq<SymbolReference>) -> Seq<(Seq<char>, usize)> {
    v.map_values(|r: SymbolReference| (r.file_path@, r.line))
}

/// The node of a symbol's definition. The name of its kind is in small letters.
pub fn definition_node(s: &Symbol) -> (r: SymbolDefinition)
    ensures
        r.id@ == s.name@,
        r.kind@ == ascii_lower_text(s.kind.name_spec()),
        r.file_path@ == s.file_path@,
        r.line == s.start_line,
{
    SymbolDefinition {
        id: s.name.clone(),
        kind: to_ascii_lower(s.kind.name()),
        file_path: s.file_path.clone(),
        line: s.start_line,
    }
}

/// The mentions of a name in the files of a repository, in order.
pub open spec fn mention_pairs(files: Seq<CachedText>, repo: Seq<char>, name: Seq<char>) -> Seq<
    (Seq<char>, usize),
>
    decreases files.len(),
{
    if files.len() == 0 {
        Seq::empty()
    } else {
        mention_pairs(files.drop_last(), repo, name) + match strip_base(files.last().path, repo) {
            Some(rel) => line_pairs(
                rel,
                lines_of(files.last().content),
                name,
                lines_of(files.last().content).len() as int,
            ),
            None => Seq::empty(),
        }
    }
}

pub open spec fn line_pairs(rel: Seq<char>, lines: Seq<Seq<char>>, name: Seq<char>, n: int) -> Seq<
    (Seq<char>, usize),
>
    decreases n,
{
    if n <= 0 {
        Seq::empty()
    } else {
        let front = line_pairs(rel, lines, name, n - 1);
        if contains_text(lines[n - 1], name) {
            front.push((rel, n as usize))
        } else {
            front
        }
    }
}

/// The references drawn: the first of them, with one node kept for the definition.
pub open spec fn drawn_references(
    files: Seq<CachedText>,
    repo: Seq<char>,
    name: Seq<char>,
    max_nodes: usize,
) -> Seq<(Seq<char>, usize)> {
    let all = mention_pairs(files, repo, name);
    let most: int = if max_nodes > 0 {
        max_nodes - 1
    } else {
        0
    };
    if all.len() > most {
        all.take(most)
    } else {
        all
    }
}

/// Collects the references to a symbol, as many as can be drawn.
pub fn symbol_references(files: &[CachedFile], repo: &str, name: &str, max_nodes: usize) -> (r: Vec<
    SymbolReference,
>)
    ensures
        place_pairs(r@) == drawn_references(cached_texts(files@), repo@, name@, max_nodes),
{
    let ghost all = cached_texts(files@);
    let mut out: Vec<SymbolReference> = Vec::new();
    let mut i: usize = 0;
    proof {
        assert(place_pairs(out@) =~= mention_pairs(all.take(0), repo@, name@));
    }
    while i < files.len()
        invariant
            i <= files@.len(),
            all == cached_texts(files@),
            place_pairs(out@) == mention_pairs(all.take(i as int), repo@, name@),
        decreases files@.len() - i,
    {
        let ghost before = place_pairs(out@);
        proof {
            assert(all.take(i + 1).drop_last() =~= all.take(i as int));
            assert(all.take(i + 1).last() == files@[i as int]@);
            assert(before + Seq::<(Seq<char>, usize)>::empty() =~= before);
        }
        match strip(files[i].path.as_str(), repo) {
            Some(rel) => {
                let found = lines(files[i].content.as_str());
                let ghost ls = texts(found@);
                let mut k: usize = 0;
                while k < found.len()
                    invariant
                        k <= found@.len(),
                        ls == texts(found@),
                        place_pairs(out@) == before + line_pairs(rel@, ls, name@, k as int),
                    decreases found@.len() - k,
                {
                    proof {
                        assert(ls[k as int] == found@[k as int]@);
                    }
                    if contains(found[k].as_str(), name) {
                        let item = SymbolReference { file_path: rel.clone(), line: k + 1 };
                        proof {
                            let so_far = line_pairs(rel@, ls, name@, k as int);
                            let pair = (item.file_path@, item.line);
                            assert(place_pairs(out@.push(item)) =~= place_pairs(out@).push(pair));
                            assert((before + so_far).push(pair) =~= before + so_far.push(pair));
                        }
                        out.push(item);
                    }
                    k = k + 1;
                }
            },
            None => {},
        }
        i = i + 1;
    }
    let ghost pairs = place_pairs(out@);
    proof {
        assert(all.take(all.len() as int) =~= all);
        assert(pairs.len() == out@.len());
    }
    let most: usize = if max_nodes > 0 {
        max_nodes - 1
    } else {
        0
    };
    if out.len() > most {
        out.truncate(most);
        proof {
            assert(place_pairs(out@) =~= pairs.take(most as int));
        }
    }
    out
}

// ---- control flow ----

/// How a block ends.
#[derive(Debug, Clone, Copy, PartialEq, Eq, Structural)]
pub enum BlockEnd {
    Branch,
    Loop,
    Return,
    Unreachable,
    Other,
}

/// A block of a function's control flow.
#[derive(Debug)]
pub struct FlowBlock {
    pub id: usize,
    pub label: String,
    pub is_entry: bool,
    pub is_exit: bool,
    pub end: BlockEnd,
    pub start_line: usize,
    pub end_line: usize,
}

/// A block as it is drawn.
#[derive(Debug)]
pub struct CfgBlock {
    pub id: String,
    pub label: String,
    pub block_type: String,
    pub start_line: usize,
    pub code: String,
}

/// What a block is: the entry and the exit by their place, the others by how they end.
pub open spec fn block_type_spec(is_entry: bool, is_exit: bool, end: BlockEnd) -> Seq<char> {
    if is_entry {
        "entry"@
    } else if is_exit {
        "exit"@
    } else {
        match end {
            BlockEnd::Branch => "branch"@,
            BlockEnd::Loop => "loop"@,
            BlockEnd::Return => "return"@,
            BlockEnd::Unreachable => "unreachable"@,
            BlockEnd::Other => "basic"@,
        }
    }
}

/// The code of a block: its source lines, or its label where it has none.
pub open spec fn block_code_spec(
    lines: Seq<Seq<char>>,
    start_line: usize,
    end_line: usize,
    label: Seq<char>,
) -> Seq<char> {
    let start: int = if start_line > 0 {
        start_line - 1
    } else {
        0
    };
    let end = smaller(end_line as int, lines.len() as int);
    if start < end {
        join_spec(lines.subrange(start, end), "\n"@)
    } else {
        label
    }
}

pub open spec fn block_id(id: usize) -> Seq<char> {
    "block_"@ + decimal(id as nat)
}

fn block_name(id: usize) -> (r: String)
    ensures
        r@ == block_id(id),
{
    let mut out = "block_".to_owned();
    out.append(usize_text(id).as_str());
    out
}

/// Draws a block of a function. `source` are the lines of its file.
pub fn draw_block(block: &FlowBlock, source: &[String]) -> (r: CfgBlock)
    ensures
        r.id@ == block_id(block.id),
        r.label@ == block.label@,
        r.block_type@ == block_type_spec(block.is_entry, block.is_exit, block.end),
        r.start_line == block.start_line,
        r.code@ == block_code_spec(
            texts(source@),
            block.start_line,
            block.end_line,
            block.label@,
        ),
{
    let block_type = if block.is_entry {
        "entry"
    } else if block.is_exit {
        "exit"
    } else {
        match block.end {
            BlockEnd::Branch => "branch",
            BlockEnd::Loop => "loop",
            BlockEnd::Return => "return",
            BlockEnd::Unreachable => "unreachable",
            BlockEnd::Other => "basic",
        }
    };
    let ghost ls = texts(source@);
    proof {
        assert(ls.len() == source@.len());
    }
    let start: usize = if block.start_line > 0 {
        block.start_line - 1
    } else {
        0
    };
    let end: usize = if block.end_line < source.len() {
        block.end_line
    } else {
        source.len()
    };
    let code = if start < end {
        let part = vstd::slice::slice_subrange(source, start, end);
        proof {
            assert(texts(part@) =~= ls.subrange(start as int, end as int));
        }
        join(part, "\n")
    } else {
        block.label.clone()
    };
    CfgBlock {
        id: block_name(block.id),
        label: block.label.clone(),
        block_type: block_type.to_owned(),
        start_line: block.start_line,
        code,
    }
}

/// How control passes from one block to another.
#[derive(Debug, Clone, Copy, PartialEq, Eq, Structural)]
pub enum FlowKind {
    TrueBranch,
    FalseBranch,
    LoopBack,
    LoopExit,
    FallThrough,
    Jump,
    Exception,
}

/// An edge as it is drawn.
#[derive(Debug)]
pub struct CfgEdge {
    pub from: String,
    pub to: String,
    pub edge_type: String,
    pub condition: Option<String>,
    pub is_back_edge: Option<bool>,
}

pub open spec fn edge_type_spec(kind: FlowKind) -> Seq<char> {
    match kind {
        FlowKind::TrueBranch => "branch"@,
        FlowKind::FalseBranch => "branch"@,
        FlowKind::LoopBack => "loop_back"@,
        FlowKind::LoopExit => "loop_exit"@,
        FlowKind::FallThrough => "fallthrough"@,
        FlowKind::Jump => "jump"@,
        FlowKind::Exception => "exception"@,
    }
}

pub open spec fn condition_spec(kind: FlowKind) -> Option<Seq<char>> {
    match kind {
        FlowKind::TrueBranch => Some("true"@),
        FlowKind::FalseBranch => Some("false"@),
        _ => None,
    }
}

/// Draws an edge between two blocks.
pub fn draw_edge(from: usize, to: usize, kind: FlowKind) -> (r: CfgEdge)
    ensures
        r.from@ == block_id(from),
        r.to@ == block_id(to),
        r.edge_type@ == edge_type_spec(kind),
        opt_text(r.condition) == condition_spec(kind),
        r.is_back_edge == if kind == FlowKind::LoopBack {
            Some(true)
        } else {
            None
        },
{
    let edge_type = match kind {
        FlowKind::TrueBranch => "branch",
        FlowKind::FalseBranch => "branch",
        FlowKind::LoopBack => "loop_back",
        FlowKind::LoopExit => "loop_exit",
        FlowKind::FallThrough => "fallthrough",
        FlowKind::Jump => "jump",
        FlowKind::Exception => "exception",
    };
    let condition = match kind {
        FlowKind::TrueBranch => Some("true".to_owned()),
        FlowKind::FalseBranch => Some("false".to_owned()),
        _ => None,
    };
    let is_back_edge = if kind == FlowKind::LoopBack {
        Some(true)
    } else {
        None
    };
    CfgEdge {
        from: block_name(from),
        to: block_name(to),
        edge_type: edge_type.to_owned(),
        condition,
        is_back_edge,
    }
}

/// A function goes by the name asked for, or by that of its symbol.
pub open spec fn named_exactly(name: Seq<char>, asked: Seq<char>, symbol: Seq<char>) -> bool {
    name == asked || name == symbol
}

/// The names match in part: one ends with the other behind `::`, or holds it.
pub open spec fn named_partly(name: Seq<char>, asked: Seq<char>) -> bool {
    ("::"@ + asked).is_suffix_of(name) || ("::"@ + name).is_suffix_of(asked) || contains_text(
        name,
        asked,
    )
}

pub open spec fn first_exact(names: Seq<Seq<char>>, asked: Seq<char>, symbol: Seq<char>) -> Option<
    int,
>
    decreases names.len(),
{
    if names.len() == 0 {
        None
    } else {
        match first_exact(names.drop_last(), asked, symbol) {
            Some(i) => Some(i),
            None => if named_exactly(names.last(), asked, symbol) {
                Some(names.len() - 1)
            } else {
                None
            },
        }
    }
}

pub open spec fn first_partial(names: Seq<Seq<char>>, asked: Seq<char>) -> Option<int>
    decreases names.len(),
{
    if names.len() == 0 {
        None
    } else {
        match first_partial(names.drop_last(), asked) {
            Some(i) => Some(i),
            None => if named_partly(names.last(), asked) {
                Some(names.len() - 1)
            } else {
                None
            },
        }
    }
}

/// Which of the analysed functions of a file is drawn: an exact match first, then a partial
/// one. `None` where neither is there.
pub fn choose_function(names: &[String], asked: &str, symbol: &str) -> (r: Option<usize>)
    ensures
        (match r {
            Some(i) => Some(i as int),
            None => None,
        }) == match first_exact(texts(names@), asked@, symbol@) {
            Some(i) => Some(i),
            None => first_partial(texts(names@), asked@),
        },
        r matches Some(i) ==> i < names@.len(),
{
    let ghost all = texts(names@);
    let mut tail = "::".to_owned();
    tail.append(asked);
    let mut exact: Option<usize> = None;
    let mut partial: Option<usize> = None;
    let mut i: usize = 0;
    while i < names.len()
        invariant
            i <= names@.len(),
            all == texts(names@),
            tail@ == "::"@ + asked@,
            (match exact {
                Some(k) => Some(k as int),
                None => None,
            }) == first_exact(all.take(i as int), asked@, symbol@),
            (match partial {
                Some(k) => Some(k as int),
                None => None,
            }) == first_partial(all.take(i as int), asked@),
            exact matches Some(k) ==> k < names@.len(),
            partial matches Some(k) ==> k < names@.len(),
        decreases names@.len() - i,
    {
        proof {
            assert(all.take(i + 1).drop_last() =~= all.take(i as int));
            assert(all.take(i + 1).last() == names@[i as int]@);
        }
        if exact.is_none() && (same_text(names[i].as_str(), asked) || same_text(
            names[i].as_str(),
            symbol,
        )) {
            exact = Some(i);
        }
        if partial.is_none() {
            let mut own = "::".to_owned();
            own.append(names[i].as_str());
            if ends_with(names[i].as_str(), tail.as_str()) || ends_with(asked, own.as_str())
                || contains(names[i].as_str(), asked) {
                partial = Some(i);
            }
        }
        i = i + 1;
    }
    proof {
        assert(all.take(all.len() as int) =~= all);
    }
    match exact {
        Some(k) => Some(k),
        None => partial,
    }
}

/// What is said of a function that a file does not hold.
pub open spec fn no_such_function(function: Seq<char>, path: Seq<char>) -> Seq<char> {
    "Function '"@ + function + "' not found in "@ + path
}

/// Finds an analysed function of a file by its name.
pub fn find_function(names: &[String], function: &str, path: &str) -> (r: Result<usize, String>)
    ensures
        match r {
            Ok(i) => i < names@.len() && names@[i as int]@ == function@ && forall|j: int|
                0 <= j < i ==> #[trigger] names@[j]@ != function@,
            Err(e) => e@ == no_such_function(function@, path@) && !texts(names@).contains(
                function@,
            ),
        },
{
    let mut i: usize = 0;
    while i < names.len()
        invariant
            i <= names@.len(),
            forall|j: int| 0 <= j < i ==> #[trigger] names@[j]@ != function@,
        decreases names@.len() - i,
    {
        if same_text(names[i].as_str(), function) {
            return Ok(i);
        }
        i = i + 1;
    }
    proof {
        if texts(names@).contains(function@) {
            let k = choose|k: int| 0 <= k < texts(names@).len() && texts(names@)[k] == function@;
            assert(names@[k]@ == function@);
        }
    }
    let mut out = "Function '".to_owned();
    out.append(function);
    out.append("' not found in ");
    out.append(path);
    Err(out)
}

} // verus!
