//! Showing a definition in its file, and a file or a part of it.

use vstd::prelude::*;

use crate::budget::{fit, law_cut_text_fits, utf8_len};
use crate::languages::{get_language_id, get_language_id_spec};
use crate::lookup::{annotate, symbol_annotation};
use crate::order::{dedup_strings, dedup_texts, sort_strings, sort_texts};
use crate::symbols::{
    definition_note_spec, extent, symbol_definition_ambiguity_note, symbol_texts, SourceSet,
    Symbol, SymbolKind, SymbolText,
};
use crate::text::{
    after_last_chars, after_last_spec, concat, concat_texts, contains, contains_text, decimal, join,
    join_spec, lines, lines_of, lower_text, pad_four, padded_number, same_text, texts, to_chars,
    to_lowercase, to_text, usize_text,
};

verus! {

// ---- which definition ----

/// What stands behind the last `::` of a name: the method of `Type::method`.
pub open spec fn method_tail(name: Seq<char>) -> Seq<char> {
    after_last_spec(name, "::"@)
}

/// A symbol answers to a name: by its name, its qualified name, or as the method the name
/// ends with.
pub open spec fn answers_to(s: SymbolText, name: Seq<char>) -> bool {
    ||| s.name == name
    ||| s.qualified_name == Some(name)
    ||| method_tail(name) != name && s.name == method_tail(name)
}

pub open spec fn symbols_named(symbols: Seq<SymbolText>, name: Seq<char>) -> Seq<SymbolText> {
    symbols.filter(|s: SymbolText| answers_to(s, name))
}

/// A definition is better than another if only the other is an implementation block, or,
/// where both are or neither is, if it spans more lines.
pub open spec fn outranks(a: SymbolText, b: SymbolText) -> bool {
    if (a.kind == SymbolKind::Implementation) != (b.kind == SymbolKind::Implementation) {
        b.kind == SymbolKind::Implementation
    } else {
        extent(a) > extent(b)
    }
}

/// The best definition, the first of several.
pub open spec fn best_definition(matches: Seq<SymbolText>) -> Option<int>
    decreases matches.len(),
{
    if matches.len() == 0 {
        None
    } else {
        match best_definition(matches.drop_last()) {
            None => Some(matches.len() - 1),
            Some(b) => if outranks(matches.last(), matches[b]) {
                Some(matches.len() - 1)
            } else {
                Some(b)
            },
        }
    }
}

fn span(s: &Symbol) -> (r: usize)
    ensures
        r == extent(s@),
{
    if s.end_line >= s.start_line {
        s.end_line - s.start_line
    } else {
        0
    }
}

fn is_better(a: &Symbol, b: &Symbol) -> (r: bool)
    ensures
        r == outranks(a@, b@),
{
    let block_a = a.kind == SymbolKind::Implementation;
    let block_b = b.kind == SymbolKind::Implementation;
    if block_a != block_b {
        block_b
    } else {
        span(a) > span(b)
    }
}

/// The definitions of a name, and which of them is shown.
#[derive(Debug)]
pub struct FoundDefinition {
    pub matches: Vec<Symbol>,
    pub chosen: usize,
}

fn named_exactly(s: &Symbol, name: &str, tail: &str) -> (r: bool)
    requires
        tail@ == method_tail(name@),
    ensures
        r == answers_to(s@, name@),
{
    if same_text(s.name.as_str(), name) {
        return true;
    }
    let qualified = match &s.qualified_name {
        Some(q) => same_text(q.as_str(), name),
        None => false,
    };
    qualified || (!same_text(tail, name) && same_text(s.name.as_str(), tail))
}

fn find_named(symbols: &[Symbol], name: &str) -> (r: Vec<Symbol>)
    ensures
        symbol_texts(r@) == symbols_named(symbol_texts(symbols@), name@),
{
    let chars = to_chars(name);
    let sep = to_chars("::");
    let tail_chars = after_last_chars(chars.as_slice(), sep.as_slice());
    let tail = to_text(tail_chars.as_slice());
    let ghost all = symbol_texts(symbols@);
    let ghost pred = |s: SymbolText| answers_to(s, name@);
    let mut out: Vec<Symbol> = Vec::new();
    let mut i: usize = 0;
    proof {
        reveal(Seq::filter);
        assert(symbol_texts(out@) =~= all.take(0).filter(pred));
    }
    while i < symbols.len()
        invariant
            i <= symbols@.len(),
            tail@ == method_tail(name@),
            all == symbol_texts(symbols@),
            pred == (|s: SymbolText| answers_to(s, name@)),
            symbol_texts(out@) == all.take(i as int).filter(pred),
        decreases symbols@.len() - i,
    {
        proof {
            reveal(Seq::filter);
            assert(all.take(i + 1).drop_last() =~= all.take(i as int));
            assert(all.take(i + 1).last() == symbols@[i as int]@);
        }
        if named_exactly(&symbols[i], name, tail.as_str()) {
            let copy = symbols[i].copy();
            proof {
                assert(symbol_texts(out@.push(copy)) =~= symbol_texts(out@).push(copy@));
            }
            out.push(copy);
        }
        i = i + 1;
    }
    proof {
        assert(all.take(all.len() as int) =~= all);
    }
    out
}

/// Finds the definition a name stands for. A definition with a body is preferred to a
/// declaration, and an implementation block comes last.
pub fn find_definition(symbols: &[Symbol], name: &str) -> (r: Option<FoundDefinition>)
    ensures
        match r {
            Some(found) => symbol_texts(found.matches@) == symbols_named(
                symbol_texts(symbols@),
                name@,
            ) && best_definition(symbol_texts(found.matches@)) == Some(found.chosen as int)
                && found.chosen < found.matches@.len(),
            None => symbols_named(symbol_texts(symbols@), name@).len() == 0,
        },
{
    let matches = find_named(symbols, name);
    let ghost all = symbol_texts(matches@);
    proof {
        assert(all.len() == matches@.len());
    }
    if matches.len() == 0 {
        return None;
    }
    let mut best: usize = 0;
    let mut i: usize = 1;
    proof {
        reveal_with_fuel(best_definition, 2);
        assert(all.take(1).len() == 1);
        assert(best_definition(all.take(1).drop_last()) is None);
        assert(best_definition(all.take(1)) == Some(0int));
    }
    while i < matches.len()
        invariant
            1 <= i <= matches@.len(),
            all == symbol_texts(matches@),
            best < i,
            best_definition(all.take(i as int)) == Some(best as int),
        decreases matches@.len() - i,
    {
        proof {
            assert(all.take(i + 1).drop_last() =~= all.take(i as int));
            assert(all.take(i + 1).last() == matches@[i as int]@);
            assert(all.take(i + 1)[best as int] == matches@[best as int]@);
        }
        if is_better(&matches[i], &matches[best]) {
            best = i;
        }
        i = i + 1;
    }
    proof {
        assert(all.take(all.len() as int) =~= all);
    }
    Some(FoundDefinition { matches, chosen: best })
}

/// No definition of the name is better than the one chosen, and none before it is as good.
pub proof fn law_chosen_definition_is_best(matches: Seq<SymbolText>)
    requires
        matches.len() > 0,
    ensures
        best_definition(matches) matches Some(b) && 0 <= b < matches.len() && (forall|j: int|
            0 <= j < matches.len() ==> !outranks(#[trigger] matches[j], matches[b])) && (forall|
            j: int,
        |
            0 <= j < b ==> outranks(matches[b], #[trigger] matches[j])),
    decreases matches.len(),
{
    let front = matches.drop_last();
    if front.len() > 0 {
        law_chosen_definition_is_best(front);
        let b = best_definition(front)->Some_0;
        assert forall|j: int| 0 <= j < front.len() implies front[j] == matches[j] by {}
        assert(matches[b] == front[b]);
        let c = best_definition(matches)->Some_0;
        assert forall|j: int| 0 <= j < matches.len() implies !outranks(
            #[trigger] matches[j],
            matches[c],
        ) by {
            if j < front.len() {
                assert(!outranks(front[j], front[b]));
            }
        }
        assert forall|j: int| 0 <= j < c implies outranks(matches[c], #[trigger] matches[j]) by {
            if c < front.len() {
                assert(outranks(front[b], front[j]));
            } else {
                assert(!outranks(front[j], front[b]));
            }
        }
    } else {
        assert(best_definition(front) is None);
    }
}

// ---- near misses ----

/// The names that hold the missing one, each once, in order, at most ten.
pub open spec fn hints_spec(symbols: Seq<SymbolText>, name: Seq<char>) -> Seq<Seq<char>> {
    let near = dedup_texts(
        sort_texts(
            symbols.map_values(|s: SymbolText| s.name).filter(
                |n: Seq<char>| contains_text(lower_text(n), lower_text(name)),
            ),
        ),
    );
    if near.len() > 10 {
        near.take(10)
    } else {
        near
    }
}

/// What is said of a symbol that is not there.
pub open spec fn missing_text(name: Seq<char>, repo: Seq<char>, hints: Seq<Seq<char>>) -> Seq<char> {
    let tail = if hints.len() == 0 {
        Seq::empty()
    } else {
        " Did you mean: "@ + join_spec(hints, ", "@)
    };
    "Symbol '"@ + name + "' not found in repository '"@ + repo + "'."@ + tail
}

/// The names close to a missing one.
pub fn near_names(symbols: &[Symbol], name: &str) -> (r: Vec<String>)
    ensures
        texts(r@) == hints_spec(symbol_texts(symbols@), name@),
{
    let small = to_lowercase(name);
    let ghost names = symbol_texts(symbols@).map_values(|s: SymbolText| s.name);
    let ghost pred = |n: Seq<char>| contains_text(lower_text(n), lower_text(name@));
    let mut near: Vec<String> = Vec::new();
    let mut i: usize = 0;
    proof {
        reveal(Seq::filter);
        assert(texts(near@) =~= names.take(0).filter(pred));
    }
    while i < symbols.len()
        invariant
            i <= symbols@.len(),
            small@ == lower_text(name@),
            names == symbol_texts(symbols@).map_values(|s: SymbolText| s.name),
            pred == (|n: Seq<char>| contains_text(lower_text(n), lower_text(name@))),
            texts(near@) == names.take(i as int).filter(pred),
        decreases symbols@.len() - i,
    {
        let here = to_lowercase(symbols[i].name.as_str());
        proof {
            reveal(Seq::filter);
            assert(names.take(i + 1).drop_last() =~= names.take(i as int));
            assert(names.take(i + 1).last() == symbols@[i as int].name@);
        }
        if contains(here.as_str(), small.as_str()) {
            let n = symbols[i].name.clone();
            proof {
                assert(texts(near@.push(n)) =~= texts(near@).push(n@));
            }
            near.push(n);
        }
        i = i + 1;
    }
    proof {
        assert(names.take(names.len() as int) =~= names);
    }
    let sorted = sort_strings(near.as_slice());
    let mut hints = dedup_strings(sorted.as_slice());
    let ghost once = texts(hints@);
    if hints.len() > 10 {
        hints.truncate(10);
        proof {
            assert(texts(hints@) =~= once.take(10));
        }
    }
    hints
}

/// The error for a symbol that is not there, with the names close to it.
pub fn missing_symbol_message(name: &str, repo: &str, hints: &[String]) -> (r: String)
    ensures
        r@ == missing_text(name@, repo@, texts(hints@)),
{
    proof {
        assert(texts(hints@).len() == hints@.len());
    }
    let mut tail = String::new();
    proof {
        assert(tail@ =~= Seq::<char>::empty());
    }
    if hints.len() > 0 {
        tail = " Did you mean: ".to_owned();
        tail.append(join(hints, ", ").as_str());
    }
    let mut out = "Symbol '".to_owned();
    out.append(name);
    out.append("' not found in repository '");
    out.append(repo);
    out.append("'.");
    out.append(tail.as_str());
    out
}

// ---- the lines around a definition ----

pub open spec fn smaller(a: int, b: int) -> int {
    if a < b {
        a
    } else {
        b
    }
}

/// The first line of a window, counted from 0: `context` lines before line `first`, and
/// not behind `end`.
pub open spec fn window_start(first: usize, context: usize, end: int) -> int {
    smaller(
        if first >= context + 1 {
            first - (context + 1)
        } else {
            0
        },
        end,
    )
}

/// One line of a window. The arrow marks the lines of the definition.
pub open spec fn marked_line(lines: Seq<Seq<char>>, i: int, first: usize, last: usize) -> Seq<char> {
    let marker = if first <= i + 1 <= last {
        "→"@
    } else {
        " "@
    };
    marker + " "@ + pad_four(decimal((i + 1) as nat)) + " │ "@ + lines[i] + "\n"@
}

pub open spec fn marked_lines(
    lines: Seq<Seq<char>>,
    start: int,
    end: int,
    first: usize,
    last: usize,
) -> Seq<char> {
    concat(Seq::new((end - start) as nat, |k: int| marked_line(lines, start + k, first, last)))
}

fn first_of_window(first: usize, context: usize, end: usize) -> (r: usize)
    ensures
        r == window_start(first, context, end as int),
{
    let from: usize = if first > context {
        first - context - 1
    } else {
        0
    };
    if from < end {
        from
    } else {
        end
    }
}

fn mark_lines(all: &[String], start: usize, end: usize, first: usize, last: usize) -> (r: String)
    requires
        start <= end <= all@.len(),
    ensures
        r@ == marked_lines(texts(all@), start as int, end as int, first, last),
{
    let ghost ls = texts(all@);
    let mut rows: Vec<String> = Vec::new();
    let mut i: usize = start;
    while i < end
        invariant
            start <= i <= end <= all@.len(),
            ls == texts(all@),
            rows@.len() == i - start,
            forall|j: int|
                0 <= j < rows@.len() ==> #[trigger] rows@[j]@ == marked_line(
                    ls,
                    start + j,
                    first,
                    last,
                ),
        decreases end - i,
    {
        let number: usize = i + 1;
        let mut row = if first <= number && number <= last {
            "→".to_owned()
        } else {
            " ".to_owned()
        };
        row.append(" ");
        row.append(padded_number(number).as_str());
        row.append(" │ ");
        row.append(all[i].as_str());
        row.append("\n");
        rows.push(row);
        i = i + 1;
    }
    proof {
        assert(texts(rows@) =~= Seq::new(
            (end - start) as nat,
            |k: int| marked_line(ls, start + k, first, last),
        ));
    }
    concat_texts(rows.as_slice())
}

/// The answer that shows a definition.
pub open spec fn definition_answer(
    matches: Seq<SymbolText>,
    s: SymbolText,
    lines: Seq<Seq<char>>,
    context: usize,
    cxx: SourceSet,
    other: SourceSet,
    hover: Option<Seq<char>>,
) -> Seq<char> {
    let end = smaller(s.end_line + context, lines.len() as int);
    let start = window_start(s.start_line, context, end);
    let provenance = match symbol_annotation(s, cxx, other) {
        Some(a) => "**Provenance**: "@ + a + "\n\n"@,
        None => Seq::empty(),
    };
    let types = match hover {
        Some(h) => "\n## Type Information (LSP enhanced)\n\n"@ + h + "\n"@,
        None => Seq::empty(),
    };
    "# "@ + s.name + "\n\n"@ + definition_note_spec(matches, s) + "**File**: `"@ + s.file_path
        + "`\n**Lines**: "@ + decimal(s.start_line as nat) + "-"@ + decimal(s.end_line as nat)
        + "\n**Kind**: "@ + s.kind.name_spec() + "\n\n"@ + provenance + "```"@
        + get_language_id_spec(s.file_path) + "\n"@ + types
        + marked_lines(lines, start, end, s.start_line, s.end_line) + "```\n"@
}

/// Renders a definition with `context` lines around it. `hover` is what the language
/// server knows of it. A line number past the end of the file shows nothing.
pub fn render_definition(
    found: &FoundDefinition,
    content: &str,
    context: usize,
    cxx: SourceSet,
    other: SourceSet,
    hover: Option<&str>,
) -> (r: String)
    requires
        found.chosen < found.matches@.len(),
    ensures
        r@ == definition_answer(
            symbol_texts(found.matches@),
            found.matches@[found.chosen as int]@,
            lines_of(content@),
            context,
            cxx,
            other,
            match hover {
                Some(h) => Some(h@),
                None => None,
            },
        ),
{
    let all = lines(content);
    let s = &found.matches[found.chosen];
    let len: usize = all.len();
    proof {
        assert(texts(all@).len() == len);
    }
    let end: usize = if s.end_line >= len || context >= len - s.end_line {
        len
    } else {
        s.end_line + context
    };
    let start: usize = first_of_window(s.start_line, context, end);
    let note = symbol_definition_ambiguity_note(found.matches.as_slice(), s);
    let mut provenance = String::new();
    proof {
        assert(provenance@ =~= Seq::<char>::empty());
    }
    match annotate(s, cxx, other) {
        Some(a) => {
            provenance = "**Provenance**: ".to_owned();
            provenance.append(a.as_str());
            provenance.append("\n\n");
        },
        None => {},
    }
    let mut types = String::new();
    proof {
        assert(types@ =~= Seq::<char>::empty());
    }
    match hover {
        Some(h) => {
            types = "\n## Type Information (LSP enhanced)\n\n".to_owned();
            types.append(h);
            types.append("\n");
        },
        None => {},
    }
    let mut out = "# ".to_owned();
    out.append(s.name.as_str());
    out.append("\n\n");
    out.append(note.as_str());
    out.append("**File**: `");
    out.append(s.file_path.as_str());
    out.append("`\n**Lines**: ");
    out.append(usize_text(s.start_line).as_str());
    out.append("-");
    out.append(usize_text(s.end_line).as_str());
    out.append("\n**Kind**: ");
    out.append(s.kind.name());
    out.append("\n\n");
    out.append(provenance.as_str());
    out.append("```");
    out.append(get_language_id(s.file_path.as_str()));
    out.append("\n");
    out.append(types.as_str());
    out.append(mark_lines(all.as_slice(), start, end, s.start_line, s.end_line).as_str());
    out.append("```\n");
    out
}

/// Lines shown behind a definition of which only the first line is known.
pub const GTAGS_DEF_WINDOW: usize = 40;

/// The answer that shows a definition which only the tag database knows.
pub open spec fn gtags_definition_answer(
    name: Seq<char>,
    file: Seq<char>,
    line: usize,
    context: usize,
    lines: Seq<Seq<char>>,
) -> Seq<char> {
    let end = smaller(line + GTAGS_DEF_WINDOW, lines.len() as int);
    let start = window_start(line, context, end);
    "# "@ + name + "\n\n**File**: `"@ + file + "`\n**Line**: "@ + decimal(line as nat)
        + "\n**Provenance**: located via gtags (GNU Global); the AST symbol table missed it, so the shown body window is approximate\n\n```"@
        + get_language_id_spec(file) + "\n"@ + marked_lines(lines, start, end, line, line)
        + "```\n"@
}

/// Renders a definition that the tag database located and the parser missed: a bounded
/// window behind its first line.
pub fn render_gtags_definition(
    name: &str,
    file: &str,
    line: usize,
    context: usize,
    content: &str,
) -> (r: String)
    ensures
        r@ == gtags_definition_answer(name@, file@, line, context, lines_of(content@)),
{
    let all = lines(content);
    let len: usize = all.len();
    proof {
        assert(texts(all@).len() == len);
    }
    let end: usize = if line >= len || GTAGS_DEF_WINDOW >= len - line {
        len
    } else {
        line + GTAGS_DEF_WINDOW
    };
    let start: usize = first_of_window(line, context, end);
    let mut out = "# ".to_owned();
    out.append(name);
    out.append("\n\n**File**: `");
    out.append(file);
    out.append("`\n**Line**: ");
    out.append(usize_text(line).as_str());
    out.append("\n**Provenance**: located via gtags (GNU Global); the AST symbol table missed it, so the shown body window is approximate\n\n```");
    out.append(get_language_id(file));
    out.append("\n");
    out.append(mark_lines(all.as_slice(), start, end, line, line).as_str());
    out.append("```\n");
    out
}

// ---- a file under the response budget ----

/// Why a range of a file cannot be shown.
#[derive(Debug, Clone, Copy, PartialEq, Eq, Structural)]
pub enum RangeError {
    /// The first line asked for is behind the last.
    Reversed { first: usize, last: usize },
    /// The first line asked for is behind the end of the file.
    PastEnd { first: usize, total: usize },
}

impl RangeError {
    pub open spec fn text(self, path: Seq<char>) -> Seq<char> {
        match self {
            RangeError::Reversed { first, last } => "start_line "@ + decimal(first as nat)
                + " is after end_line "@ + decimal(last as nat) + " in "@ + path,
            RangeError::PastEnd { first, total } => "start_line "@ + decimal(first as nat)
                + " is past the end of "@ + path + " ("@ + decimal(total as nat) + " lines)"@,
        }
    }

    pub fn message(self, path: &str) -> (r: String)
        ensures
            r@ == self.text(path@),
    {
        match self {
            RangeError::Reversed { first, last } => {
                let mut out = "start_line ".to_owned();
                out.append(usize_text(first).as_str());
                out.append(" is after end_line ");
                out.append(usize_text(last).as_str());
                out.append(" in ");
                out.append(path);
                out
            },
            RangeError::PastEnd { first, total } => {
                let mut out = "start_line ".to_owned();
                out.append(usize_text(first).as_str());
                out.append(" is past the end of ");
                out.append(path);
                out.append(" (");
                out.append(usize_text(total).as_str());
                out.append(" lines)");
                out
            },
        }
    }
}

/// The first line asked for, counted from 0.
pub open spec fn range_start(start_line: Option<usize>) -> int {
    match start_line {
        Some(s) => if s > 0 {
            s - 1
        } else {
            0
        },
        None => 0,
    }
}

/// The end of the range asked for, within the file.
pub open spec fn range_end(end_line: Option<usize>, total: nat) -> int {
    match end_line {
        Some(e) => smaller(e as int, total as int),
        None => total as int,
    }
}

pub open spec fn range_error(
    start_line: Option<usize>,
    end_line: Option<usize>,
    total: nat,
) -> Option<RangeError> {
    let start = range_start(start_line);
    if start_line is Some && end_line is Some && start_line->Some_0 > end_line->Some_0 {
        Some(RangeError::Reversed { first: start_line->Some_0, last: end_line->Some_0 })
    } else if start > 0 && start >= total {
        Some(RangeError::PastEnd { first: (start + 1) as usize, total: total as usize })
    } else {
        None
    }
}

/// A line as a file listing shows it.
pub open spec fn numbered_line(lines: Seq<Seq<char>>, i: int) -> Seq<char> {
    pad_four(decimal((i + 1) as nat)) + " │ "@ + lines[i] + "\n"@
}

/// Where a listing stops that starts at line `i` and may take `room` bytes.
pub open spec fn listed_to(lines: Seq<Seq<char>>, i: int, end: int, room: int) -> int
    decreases end - i,
{
    if i >= end {
        i
    } else {
        let size = utf8_len(numbered_line(lines, i));
        if size > room {
            i
        } else {
            listed_to(lines, i + 1, end, room - size)
        }
    }
}

pub open spec fn listing_budget(max_bytes: usize) -> int {
    if max_bytes >= 1024 {
        max_bytes - 1024
    } else {
        0
    }
}

/// The last line shown: what the budget allows, and at least one line where there is one.
pub open spec fn last_shown(lines: Seq<Seq<char>>, start: int, end: int, max_bytes: usize) -> int {
    let to = listed_to(lines, start, end, listing_budget(max_bytes));
    if to == start && start < end {
        start + 1
    } else {
        to
    }
}

pub open spec fn listing(lines: Seq<Seq<char>>, start: int, to: int) -> Seq<char> {
    concat(Seq::new((to - start) as nat, |k: int| numbered_line(lines, start + k)))
}

/// The answer that shows a file. Its header names the range that is shown, and a note says
/// where to go on if the budget cut it short.
pub open spec fn file_answer(
    path: Seq<char>,
    lines: Seq<Seq<char>>,
    start: int,
    end: int,
    max_bytes: usize,
) -> Seq<char> {
    let last = last_shown(lines, start, end, max_bytes);
    let note = if last < end {
        "\n*Stopped at the "@ + decimal((max_bytes / 1024) as nat) + " KB response budget, "@
            + decimal((end - last) as nat) + " lines short of the requested line "@
            + decimal(end as nat) + ". Continue with `start_line="@ + decimal((last + 1) as nat)
            + "`.*\n"@
    } else {
        Seq::empty()
    };
    "# "@ + path + "\n\nLines "@ + decimal((start + 1) as nat) + "-"@ + decimal(last as nat)
        + " of "@ + decimal(lines.len() as nat) + "\n\n```"@ + get_language_id_spec(path) + "\n"@
        + listing(lines, start, last) + "```\n"@ + note
}

proof fn lemma_listed_to(lines: Seq<Seq<char>>, i: int, end: int, room: int)
    requires
        i <= end,
    ensures
        i <= listed_to(lines, i, end, room) <= end,
    decreases end - i,
{
    if i < end {
        let size = utf8_len(numbered_line(lines, i));
        if size <= room {
            lemma_listed_to(lines, i + 1, end, room - size);
        }
    }
}

/// A listing never runs past the range, and where the range holds a line it shows at least
/// one, so that following the notes reaches the end.
pub proof fn law_a_listing_makes_headway(
    lines: Seq<Seq<char>>,
    start: int,
    end: int,
    max_bytes: usize,
)
    requires
        0 <= start <= end <= lines.len(),
    ensures
        start <= last_shown(lines, start, end, max_bytes) <= end,
        start < end ==> last_shown(lines, start, end, max_bytes) > start,
{
    lemma_listed_to(lines, start, end, listing_budget(max_bytes));
}

fn number_line(all: &[String], i: usize) -> (r: String)
    requires
        i < all@.len(),
    ensures
        r@ == numbered_line(texts(all@), i as int),
{
    let _total: usize = all.len();
    let mut out = padded_number(i + 1);
    out.append(" │ ");
    out.append(all[i].as_str());
    out.append("\n");
    out
}

/// Shows a file, or the lines asked for, within `max_bytes`.
pub fn get_file(
    path: &str,
    content: &str,
    start_line: Option<usize>,
    end_line: Option<usize>,
    max_bytes: usize,
) -> (r: Result<String, RangeError>)
    ensures
        match range_error(start_line, end_line, lines_of(content@).len()) {
            Some(e) => r == Err::<String, RangeError>(e),
            None => r matches Ok(text) && text@ == file_answer(
                path@,
                lines_of(content@),
                range_start(start_line),
                range_end(end_line, lines_of(content@).len()),
                max_bytes,
            ),
        },
{
    let all = lines(content);
    let ghost ls = texts(all@);
    let total: usize = all.len();
    proof {
        assert(ls.len() == total);
    }
    let start: usize = match start_line {
        Some(s) => if s > 0 {
            s - 1
        } else {
            0
        },
        None => 0,
    };
    let end: usize = match end_line {
        Some(e) => if e < total {
            e
        } else {
            total
        },
        None => total,
    };
    match (start_line, end_line) {
        (Some(first), Some(last)) => {
            if first > last {
                return Err(RangeError::Reversed { first, last });
            }
        },
        _ => {},
    }
    if start > 0 && start >= total {
        return Err(RangeError::PastEnd { first: start + 1, total });
    }
    let budget: usize = if max_bytes >= 1024 {
        max_bytes - 1024
    } else {
        0
    };
    let mut room: usize = budget;
    let mut rows: Vec<String> = Vec::new();
    let mut last: usize = start;
    let mut full = false;
    while last < end && !full
        invariant
            start <= last <= end <= all@.len(),
            ls == texts(all@),
            listed_to(ls, start as int, end as int, budget as int) == if full {
                last as int
            } else {
                listed_to(ls, last as int, end as int, room as int)
            },
            rows@.len() == last - start,
            forall|j: int|
                0 <= j < rows@.len() ==> #[trigger] rows@[j]@ == numbered_line(ls, start + j),
        decreases
            end - last + (if full {
                0int
            } else {
                1int
            }),
    {
        let row = number_line(all.as_slice(), last);
        let chars = to_chars(row.as_str());
        let (count, used) = fit(chars.as_slice(), room);
        proof {
            law_cut_text_fits(row@, room as nat);
            assert(row@.take(row@.len() as int) =~= row@);
        }
        if count < chars.len() {
            full = true;
        } else {
            room = room - used;
            rows.push(row);
            last = last + 1;
        }
    }
    proof {
        if !full {
            assert(last == end);
        }
        assert(listed_to(ls, start as int, end as int, budget as int) == last);
    }
    if last == start && start < end {
        rows.push(number_line(all.as_slice(), start));
        last = start + 1;
    }
    proof {
        assert(last == last_shown(ls, start as int, end as int, max_bytes));
        assert(texts(rows@) =~= Seq::new(
            (last - start) as nat,
            |k: int| numbered_line(ls, start + k),
        ));
    }
    let mut note = String::new();
    proof {
        assert(note@ =~= Seq::<char>::empty());
    }
    if last < end {
        note = "\n*Stopped at the ".to_owned();
        note.append(usize_text(max_bytes / 1024).as_str());
        note.append(" KB response budget, ");
        note.append(usize_text(end - last).as_str());
        note.append(" lines short of the requested line ");
        note.append(usize_text(end).as_str());
        note.append(". Continue with `start_line=");
        note.append(usize_text(last + 1).as_str());
        note.append("`.*\n");
    }
    let mut out = "# ".to_owned();
    out.append(path);
    out.append("\n\nLines ");
    out.append(usize_text(start + 1).as_str());
    out.append("-");
    out.append(usize_text(last).as_str());
    out.append(" of ");
    out.append(usize_text(total).as_str());
    out.append("\n\n```");
    out.append(get_language_id(path));
    out.append("\n");
    out.append(concat_texts(rows.as_slice()).as_str());
    out.append("```\n");
    out.append(note.as_str());
    Ok(out)
}

} // verus!
