//! The answers about a place in a file: what stands there, its type, and where it is
//! defined.

use vstd::prelude::*;

use crate::symbols::{symbol_texts, Symbol, SymbolText};
use crate::paths::{relative, relative_spec};
use crate::text::{
    concat, concat_texts, contains, contains_text, decimal, lines, lines_of, same_text, texts,
    usize_text,
};

verus! {

/// What a language server answered about a place.
#[derive(Debug)]
pub enum ServerAnswer {
    /// No server runs.
    NotEnabled,
    /// The server knows nothing of the place.
    Nothing,
    /// The request failed.
    Failed(String),
    /// What it knows, as it is shown.
    Text(String),
}

pub enum ServerText {
    NotEnabled,
    Nothing,
    Failed(Seq<char>),
    Text(Seq<char>),
}

impl View for ServerAnswer {
    type V = ServerText;

    open spec fn view(&self) -> ServerText {
        match self {
            ServerAnswer::NotEnabled => ServerText::NotEnabled,
            ServerAnswer::Nothing => ServerText::Nothing,
            ServerAnswer::Failed(e) => ServerText::Failed(e@),
            ServerAnswer::Text(t) => ServerText::Text(t@),
        }
    }
}

pub open spec fn place_header(title: Seq<char>, path: Seq<char>, line: usize, character: usize) -> Seq<
    char,
> {
    "# "@ + title + ": `"@ + path + "`\n\n**Position**: "@ + decimal(line as nat) + ":"@
        + decimal(character as nat) + "\n\n"@
}

fn render_place(title: &str, path: &str, line: usize, character: usize) -> (r: String)
    ensures
        r@ == place_header(title@, path@, line, character),
{
    let mut out = "# ".to_owned();
    out.append(title);
    out.append(": `");
    out.append(path);
    out.append("`\n\n**Position**: ");
    out.append(usize_text(line).as_str());
    out.append(":");
    out.append(usize_text(character).as_str());
    out.append("\n\n");
    out
}

// ---- hover ----

/// The first symbol of the file whose lines cover the place.
pub open spec fn symbol_at(symbols: Seq<SymbolText>, path: Seq<char>, line: usize) -> Option<
    SymbolText,
>
    decreases symbols.len(),
{
    if symbols.len() == 0 {
        None
    } else if symbols[0].file_path == path && symbols[0].start_line <= line <= symbols[0].end_line {
        Some(symbols[0])
    } else {
        symbol_at(symbols.skip(1), path, line)
    }
}

pub open spec fn symbol_part(s: SymbolText) -> Seq<char> {
    let signature = match s.signature {
        Some(t) => "**Signature**: `"@ + t + "`\n"@,
        None => Seq::empty(),
    };
    let doc = match s.doc_comment {
        Some(d) => "\n"@ + d + "\n"@,
        None => Seq::empty(),
    };
    "**Symbol**: "@ + s.name + "\n**Kind**: "@ + s.kind.name_spec() + "\n"@ + signature + doc
}

/// What is said of a place: what the server knows, or else the symbol there.
pub open spec fn hover_answer(
    path: Seq<char>,
    line: usize,
    character: usize,
    server: ServerText,
    symbols: Seq<SymbolText>,
) -> Seq<char> {
    let header = place_header("Hover Info"@, path, line, character);
    let fallback = "## Symbol Information (tree-sitter)\n\n"@ + match symbol_at(symbols, path, line) {
        Some(s) => symbol_part(s),
        None => Seq::empty(),
    };
    match server {
        ServerText::Text(t) => header + "## LSP Hover Information (LSP enhanced)\n\n"@ + t
            + "\n\n"@,
        ServerText::Nothing => header + "*No hover information available from LSP*\n\n"@ + fallback,
        ServerText::Failed(e) => header + "*LSP error: "@ + e + "*\n\n"@ + fallback,
        ServerText::NotEnabled => header + fallback,
    }
}

fn find_symbol_at(symbols: &[Symbol], path: &str, line: usize) -> (r: Option<usize>)
    ensures
        match r {
            Some(i) => i < symbols@.len() && symbol_at(symbol_texts(symbols@), path@, line) == Some(
                symbols@[i as int]@,
            ),
            None => symbol_at(symbol_texts(symbols@), path@, line) is None,
        },
{
    let ghost all = symbol_texts(symbols@);
    let mut i: usize = 0;
    proof {
        assert(all.skip(0) =~= all);
    }
    while i < symbols.len()
        invariant
            i <= symbols@.len(),
            all == symbol_texts(symbols@),
            symbol_at(all, path@, line) == symbol_at(all.skip(i as int), path@, line),
        decreases symbols@.len() - i,
    {
        proof {
            assert(all.skip(i as int)[0] == symbols@[i as int]@);
            assert(all.skip(i as int).skip(1) =~= all.skip(i + 1));
        }
        if same_text(symbols[i].file_path.as_str(), path) && symbols[i].start_line <= line && line
            <= symbols[i].end_line {
            return Some(i);
        }
        i = i + 1;
    }
    None
}

fn render_symbol_part(s: &Symbol) -> (r: String)
    ensures
        r@ == symbol_part(s@),
{
    let mut signature = String::new();
    let mut doc = String::new();
    proof {
        assert(signature@ =~= Seq::<char>::empty());
        assert(doc@ =~= Seq::<char>::empty());
    }
    match &s.signature {
        Some(t) => {
            signature = "**Signature**: `".to_owned();
            signature.append(t.as_str());
            signature.append("`\n");
        },
        None => {},
    }
    match &s.doc_comment {
        Some(d) => {
            doc = "\n".to_owned();
            doc.append(d.as_str());
            doc.append("\n");
        },
        None => {},
    }
    let mut out = "**Symbol**: ".to_owned();
    out.append(s.name.as_str());
    out.append("\n**Kind**: ");
    out.append(s.kind.name());
    out.append("\n");
    out.append(signature.as_str());
    out.append(doc.as_str());
    out
}

/// Renders what is known of a place.
pub fn render_hover(
    path: &str,
    line: usize,
    character: usize,
    server: &ServerAnswer,
    symbols: &[Symbol],
) -> (r: String)
    ensures
        r@ == hover_answer(path@, line, character, server@, symbol_texts(symbols@)),
{
    let mut out = render_place("Hover Info", path, line, character);
    match server {
        ServerAnswer::Text(t) => {
            let mut body = "## LSP Hover Information (LSP enhanced)\n\n".to_owned();
            body.append(t.as_str());
            body.append("\n\n");
            out.append(body.as_str());
            return out;
        },
        ServerAnswer::Nothing => {
            out.append("*No hover information available from LSP*\n\n");
        },
        ServerAnswer::Failed(e) => {
            let mut body = "*LSP error: ".to_owned();
            body.append(e.as_str());
            body.append("*\n\n");
            out.append(body.as_str());
        },
        ServerAnswer::NotEnabled => {},
    }
    let mut fallback = "## Symbol Information (tree-sitter)\n\n".to_owned();
    let part = match find_symbol_at(symbols, path, line) {
        Some(i) => render_symbol_part(&symbols[i]),
        None => {
            let none = String::new();
            proof {
                assert(none@ =~= Seq::<char>::empty());
            }
            none
        },
    };
    fallback.append(part.as_str());
    out.append(fallback.as_str());
    out
}

// ---- types ----

pub open spec fn type_answer(
    path: Seq<char>,
    line: usize,
    character: usize,
    server: ServerText,
) -> Seq<char> {
    place_header("Type Information"@, path, line, character) + match server {
        ServerText::Text(t) => "## Type Information (LSP enhanced)\n\n"@ + t,
        ServerText::Nothing => "*No type information available from LSP*\n"@,
        ServerText::Failed(e) => "*LSP error: "@ + e + "*\n"@,
        ServerText::NotEnabled =>
            "*LSP not enabled. Use --lsp flag to enable type information.*\n"@,
    }
}

/// Renders the type at a place, which only a language server knows.
pub fn render_type_info(path: &str, line: usize, character: usize, server: &ServerAnswer) -> (r:
    String)
    ensures
        r@ == type_answer(path@, line, character, server@),
{
    let mut out = render_place("Type Information", path, line, character);
    let part = match server {
        ServerAnswer::Text(t) => {
            let mut body = "## Type Information (LSP enhanced)\n\n".to_owned();
            body.append(t.as_str());
            body
        },
        ServerAnswer::Nothing => "*No type information available from LSP*\n".to_owned(),
        ServerAnswer::Failed(e) => {
            let mut body = "*LSP error: ".to_owned();
            body.append(e.as_str());
            body.append("*\n");
            body
        },
        ServerAnswer::NotEnabled =>
            "*LSP not enabled. Use --lsp flag to enable type information.*\n".to_owned(),
    };
    out.append(part.as_str());
    out
}

// ---- definitions ----

/// A place a definition may stand at. `in_file` is false for an address that is no file.
#[derive(Debug)]
pub struct DefinitionPlace {
    pub path: String,
    pub in_file: bool,
    pub line: usize,
    pub character: usize,
}

pub struct PlaceText {
    pub path: Seq<char>,
    pub in_file: bool,
    pub line: usize,
    pub character: usize,
}

impl View for DefinitionPlace {
    type V = PlaceText;

    open spec fn view(&self) -> PlaceText {
        PlaceText {
            path: self.path@,
            in_file: self.in_file,
            line: self.line,
            character: self.character,
        }
    }
}

pub open spec fn place_texts(v: Seq<DefinitionPlace>) -> Seq<PlaceText> {
    v.map_values(|p: DefinitionPlace| p@)
}

pub open spec fn place_row(p: PlaceText, repo: Seq<char>) -> Seq<char> {
    let shown = if p.in_file {
        relative_spec(p.path, repo)
    } else {
        p.path
    };
    "- `"@ + shown + ":"@ + decimal((p.line + 1) as nat) + ":"@ + decimal(p.character as nat)
        + "`\n"@
}

pub open spec fn places_part(places: Seq<PlaceText>, repo: Seq<char>) -> Seq<char> {
    if places.len() == 0 {
        "*No definition found*\n"@
    } else {
        "Found "@ + decimal(places.len() as nat) + " definition(s):\n\n"@ + concat(
            places.map_values(|p: PlaceText| place_row(p, repo)),
        )
    }
}

pub open spec fn candidate_row(s: SymbolText) -> Seq<char> {
    "Possible match: **"@ + s.name + "** at `"@ + s.file_path + ":"@
        + decimal(s.start_line as nat) + "` ("@ + s.kind.name_spec() + ")\n"@
}

/// The symbols whose names stand on the line.
pub open spec fn candidates(symbols: Seq<SymbolText>, line: Seq<char>) -> Seq<SymbolText> {
    symbols.filter(|s: SymbolText| contains_text(line, s.name))
}

/// What the index has for a place that no server resolved.
pub open spec fn index_fallback(
    symbols: Seq<SymbolText>,
    lines: Seq<Seq<char>>,
    line: usize,
) -> Seq<char> {
    "\n## Symbol Index Fallback\n\n"@ + if 0 < line <= lines.len() {
        concat(
            candidates(symbols, lines[line - 1]).map_values(|s: SymbolText| candidate_row(s)),
        )
    } else {
        Seq::empty()
    }
}

/// What a server answered about a definition.
#[derive(Debug)]
pub enum DefinitionAnswer {
    NotEnabled,
    Nothing,
    Failed(String),
    Places(Vec<DefinitionPlace>),
}

pub enum DefinitionText {
    NotEnabled,
    Nothing,
    Failed(Seq<char>),
    Places(Seq<PlaceText>),
}

impl View for DefinitionAnswer {
    type V = DefinitionText;

    open spec fn view(&self) -> DefinitionText {
        match self {
            DefinitionAnswer::NotEnabled => DefinitionText::NotEnabled,
            DefinitionAnswer::Nothing => DefinitionText::Nothing,
            DefinitionAnswer::Failed(e) => DefinitionText::Failed(e@),
            DefinitionAnswer::Places(p) => DefinitionText::Places(place_texts(p@)),
        }
    }
}

/// The answer about a definition: the places the server names, or what the index has.
pub open spec fn go_to_answer(
    path: Seq<char>,
    line: usize,
    character: usize,
    server: DefinitionText,
    repo: Seq<char>,
    symbols: Seq<SymbolText>,
    lines: Seq<Seq<char>>,
) -> Seq<char> {
    let header = place_header("Go to Definition"@, path, line, character);
    let fallback = index_fallback(symbols, lines, line);
    match server {
        DefinitionText::Places(p) => header + places_part(p, repo),
        DefinitionText::Nothing => header + "*No definition found from LSP*\n"@ + fallback,
        DefinitionText::Failed(e) => header + ("*LSP error: "@ + e + "*\n"@) + fallback,
        DefinitionText::NotEnabled => header
            + "*LSP not enabled. Use --lsp flag to enable go-to-definition.*\n"@ + fallback,
    }
}

fn render_places(places: &[DefinitionPlace], repo: &str) -> (r: String)
    requires
        forall|i: int| 0 <= i < places@.len() ==> (#[trigger] places@[i]).line < usize::MAX,
    ensures
        r@ == places_part(place_texts(places@), repo@),
{
    let ghost all = place_texts(places@);
    proof {
        assert(all.len() == places@.len());
    }
    if places.len() == 0 {
        return "*No definition found*\n".to_owned();
    }
    let mut out = "Found ".to_owned();
    out.append(usize_text(places.len()).as_str());
    out.append(" definition(s):\n\n");
    let mut rows: Vec<String> = Vec::new();
    let mut i: usize = 0;
    while i < places.len()
        invariant
            i <= places@.len(),
            forall|i: int| 0 <= i < places@.len() ==> (#[trigger] places@[i]).line < usize::MAX,
            rows@.len() == i,
            forall|j: int| 0 <= j < i ==> #[trigger] rows@[j]@ == place_row(places@[j]@, repo@),
        decreases places@.len() - i,
    {
        let p = &places[i];
        let shown = if p.in_file {
            relative(p.path.as_str(), repo)
        } else {
            p.path.clone()
        };
        let mut row = "- `".to_owned();
        row.append(shown.as_str());
        row.append(":");
        row.append(usize_text(p.line + 1).as_str());
        row.append(":");
        row.append(usize_text(p.character).as_str());
        row.append("`\n");
        rows.push(row);
        i = i + 1;
    }
    proof {
        assert(texts(rows@) =~= all.map_values(|p: PlaceText| place_row(p, repo@)));
    }
    out.append(concat_texts(rows.as_slice()).as_str());
    out
}

fn render_index_fallback(symbols: &[Symbol], content: &str, line: usize) -> (r: String)
    ensures
        r@ == index_fallback(symbol_texts(symbols@), lines_of(content@), line),
{
    let all_lines = lines(content);
    let ghost ls = texts(all_lines@);
    let ghost all = symbol_texts(symbols@);
    proof {
        assert(ls.len() == all_lines@.len());
    }
    let mut out = "\n## Symbol Index Fallback\n\n".to_owned();
    let mut list = String::new();
    proof {
        assert(list@ =~= Seq::<char>::empty());
    }
    if 0 < line && line <= all_lines.len() {
        let source = &all_lines[line - 1];
        let ghost pred = |s: SymbolText| contains_text(ls[line - 1], s.name);
        let ghost row_of = |s: SymbolText| candidate_row(s);
        let mut rows: Vec<String> = Vec::new();
        let mut i: usize = 0;
        proof {
            reveal(Seq::filter);
            assert(texts(rows@) =~= all.take(0).filter(pred).map_values(row_of));
        }
        while i < symbols.len()
            invariant
                i <= symbols@.len(),
                all == symbol_texts(symbols@),
                source@ == ls[line - 1],
                pred == (|s: SymbolText| contains_text(ls[line - 1], s.name)),
                row_of == (|s: SymbolText| candidate_row(s)),
                texts(rows@) == all.take(i as int).filter(pred).map_values(row_of),
            decreases symbols@.len() - i,
        {
            let s = &symbols[i];
            proof {
                reveal(Seq::filter);
                assert(all.take(i + 1).drop_last() =~= all.take(i as int));
                assert(all.take(i + 1).last() == s@);
            }
            if contains(source.as_str(), s.name.as_str()) {
                let mut row = "Possible match: **".to_owned();
                row.append(s.name.as_str());
                row.append("** at `");
                row.append(s.file_path.as_str());
                row.append(":");
                row.append(usize_text(s.start_line).as_str());
                row.append("` (");
                row.append(s.kind.name());
                row.append(")\n");
                proof {
                    let kept = all.take(i as int).filter(pred);
                    assert(texts(rows@.push(row)) =~= texts(rows@).push(row@));
                    assert(kept.push(s@).map_values(row_of) =~= kept.map_values(row_of).push(row@));
                }
                rows.push(row);
            }
            i = i + 1;
        }
        proof {
            assert(all.take(all.len() as int) =~= all);
        }
        list = concat_texts(rows.as_slice());
    }
    out.append(list.as_str());
    out
}

/// Renders where a symbol is defined. `content` is the file the question is about.
pub fn render_go_to_definition(
    path: &str,
    line: usize,
    character: usize,
    server: &DefinitionAnswer,
    repo: &str,
    symbols: &[Symbol],
    content: &str,
) -> (r: String)
    requires
        server matches DefinitionAnswer::Places(p) ==> forall|i: int|
            0 <= i < p@.len() ==> (#[trigger] p@[i]).line < usize::MAX,
    ensures
        r@ == go_to_answer(
            path@,
            line,
            character,
            server@,
            repo@,
            symbol_texts(symbols@),
            lines_of(content@),
        ),
{
    let mut out = render_place("Go to Definition", path, line, character);
    match server {
        DefinitionAnswer::Places(places) => {
            out.append(render_places(places.as_slice(), repo).as_str());
            return out;
        },
        DefinitionAnswer::Nothing => {
            out.append("*No definition found from LSP*\n");
        },
        DefinitionAnswer::Failed(e) => {
            let mut body = "*LSP error: ".to_owned();
            body.append(e.as_str());
            body.append("*\n");
            out.append(body.as_str());
        },
        DefinitionAnswer::NotEnabled => {
            out.append("*LSP not enabled. Use --lsp flag to enable go-to-definition.*\n");
        },
    }
    out.append(render_index_fallback(symbols, content, line).as_str());
    out
}

// ---- data flow ----

/// A use of a definition: its line and its kind, as it is shown.
#[derive(Debug)]
pub struct FlowUse {
    pub line: usize,
    pub kind: String,
}

/// A definition of a variable and the uses it reaches.
#[derive(Debug)]
pub struct DefUseChain {
    pub variable: String,
    pub line: usize,
    pub uses: Vec<FlowUse>,
}

pub struct ChainText {
    pub variable: Seq<char>,
    pub line: usize,
    pub uses: Seq<(usize, Seq<char>)>,
}

pub open spec fn use_texts(v: Seq<FlowUse>) -> Seq<(usize, Seq<char>)> {
    v.map_values(|u: FlowUse| (u.line, u.kind@))
}

impl View for DefUseChain {
    type V = ChainText;

    open spec fn view(&self) -> ChainText {
        ChainText { variable: self.variable@, line: self.line, uses: use_texts(self.uses@) }
    }
}

pub open spec fn chain_texts(v: Seq<DefUseChain>) -> Seq<ChainText> {
    v.map_values(|c: DefUseChain| c@)
}

pub open spec fn use_row(u: (usize, Seq<char>)) -> Seq<char> {
    "- Line "@ + decimal(u.0 as nat) + ": "@ + u.1 + "\n"@
}

pub open spec fn chain_part(c: ChainText) -> Seq<char> {
    let uses = if c.uses.len() == 0 {
        "*No uses found (dead store)*\n\n"@
    } else {
        "**Reaches**:\n"@ + concat(c.uses.map_values(|u: (usize, Seq<char>)| use_row(u))) + "\n"@
    };
    "### `"@ + c.variable + "` (line "@ + decimal(c.line as nat) + ")\n\n"@ + uses
}

pub open spec fn reaching_answer(function: Seq<char>, path: Seq<char>, chains: Seq<ChainText>) -> Seq<
    char,
> {
    "# Reaching Definitions: `"@ + function + "`\n\n**File**: `"@ + path
        + "`\n\n## Def-Use Chains\n\n"@ + concat(
        chains.map_values(|c: ChainText| chain_part(c)),
    )
}

fn render_chain(c: &DefUseChain) -> (r: String)
    ensures
        r@ == chain_part(c@),
{
    let ghost us = use_texts(c.uses@);
    proof {
        assert(us.len() == c.uses@.len());
    }
    let mut uses = String::new();
    if c.uses.len() == 0 {
        uses = "*No uses found (dead store)*\n\n".to_owned();
    } else {
        let mut rows: Vec<String> = Vec::new();
        let mut i: usize = 0;
        while i < c.uses.len()
            invariant
                i <= c.uses@.len(),
                rows@.len() == i,
                forall|j: int|
                    0 <= j < i ==> #[trigger] rows@[j]@ == use_row(
                        (c.uses@[j].line, c.uses@[j].kind@),
                    ),
            decreases c.uses@.len() - i,
        {
            let mut row = "- Line ".to_owned();
            row.append(usize_text(c.uses[i].line).as_str());
            row.append(": ");
            row.append(c.uses[i].kind.as_str());
            row.append("\n");
            rows.push(row);
            i = i + 1;
        }
        proof {
            assert(texts(rows@) =~= us.map_values(|u: (usize, Seq<char>)| use_row(u)));
        }
        uses = "**Reaches**:\n".to_owned();
        uses.append(concat_texts(rows.as_slice()).as_str());
        uses.append("\n");
    }
    let mut out = "### `".to_owned();
    out.append(c.variable.as_str());
    out.append("` (line ");
    out.append(usize_text(c.line).as_str());
    out.append(")\n\n");
    out.append(uses.as_str());
    out
}

/// Renders which uses each definition of a function reaches.
pub fn render_reaching_definitions(function: &str, path: &str, chains: &[DefUseChain]) -> (r: String)
    ensures
        r@ == reaching_answer(function@, path@, chain_texts(chains@)),
{
    let ghost all = chain_texts(chains@);
    let mut out = "# Reaching Definitions: `".to_owned();
    out.append(function);
    out.append("`\n\n**File**: `");
    out.append(path);
    out.append("`\n\n## Def-Use Chains\n\n");
    let mut rows: Vec<String> = Vec::new();
    let mut i: usize = 0;
    while i < chains.len()
        invariant
            i <= chains@.len(),
            rows@.len() == i,
            forall|j: int| 0 <= j < i ==> #[trigger] rows@[j]@ == chain_part(chains@[j]@),
        decreases chains@.len() - i,
    {
        rows.push(render_chain(&chains[i]));
        i = i + 1;
    }
    proof {
        assert(texts(rows@) =~= all.map_values(|c: ChainText| chain_part(c)));
    }
    out.append(concat_texts(rows.as_slice()).as_str());
    out
}

} // verus!
