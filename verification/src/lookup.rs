//! Finding symbols by name, showing a definition, and showing a file.

use vstd::prelude::*;

use crate::budget::fit;
use crate::callgraph::cxx_file;
use crate::calltools::enabled_for;
use crate::order::{lemma_sort_maps, rank_order, sort_ranked, sort_stable, Ranked};
use crate::paths::{relative, relative_spec};
use crate::scope::{glob_compiles, glob_match, glob_matches, glob_valid};
use crate::symbols::{
    provenance_spec, quote, quoted, render_provenance, symbol_texts, ProvenanceSubject, SourceSet,
    Symbol, SymbolKind, SymbolText,
};
use crate::text::{
    concat, concat_texts, contains, contains_text, decimal, has_text, join, join_spec, lines,
    lines_of, lower_text, opt_text, same_text, starts_with, strip_prefix, strip_prefix_spec, texts,
    to_chars, to_lowercase, to_text, trim, trim_spec, trim_start_chars, trim_start_class,
    usize_text,
};

verus! {

// ---- which symbols match ----

/// Whether a glob pattern matches a text, capitals and small letters alike.
pub uninterp spec fn glob_matches_nocase(pattern: Seq<char>, text: Seq<char>) -> bool;

/// `glob::Pattern::matches_with`, with case ignored and separators and leading dots
/// matched like any character; a malformed pattern matches nothing.
#[verifier::external_body]
fn glob_match_nocase(pattern: &str, text: &str) -> (r: bool)
    ensures
        r == glob_matches_nocase(pattern@, text@),
        !glob_valid(pattern@) ==> !r,
{
    let options = glob::MatchOptions {
        case_sensitive: false,
        require_literal_separator: false,
        require_literal_leading_dot: false,
    };
    match glob::Pattern::new(pattern) {
        Ok(compiled) => compiled.matches_with(text, options),
        Err(_) => false,
    }
}

/// The kind of symbol a filter names. A name that is no kind filters nothing.
pub open spec fn kind_filter_spec(name: Seq<char>) -> Option<SymbolKind> {
    if name == "struct"@ {
        Some(SymbolKind::Struct)
    } else if name == "class"@ {
        Some(SymbolKind::Class)
    } else if name == "enum"@ {
        Some(SymbolKind::Enum)
    } else if name == "interface"@ {
        Some(SymbolKind::Interface)
    } else if name == "function"@ {
        Some(SymbolKind::Function)
    } else if name == "method"@ {
        Some(SymbolKind::Method)
    } else if name == "trait"@ {
        Some(SymbolKind::Trait)
    } else if name == "type"@ {
        Some(SymbolKind::TypeAlias)
    } else {
        None
    }
}

pub fn kind_filter(name: &str) -> (r: Option<SymbolKind>)
    ensures
        r == kind_filter_spec(name@),
{
    if same_text(name, "struct") {
        Some(SymbolKind::Struct)
    } else if same_text(name, "class") {
        Some(SymbolKind::Class)
    } else if same_text(name, "enum") {
        Some(SymbolKind::Enum)
    } else if same_text(name, "interface") {
        Some(SymbolKind::Interface)
    } else if same_text(name, "function") {
        Some(SymbolKind::Function)
    } else if same_text(name, "method") {
        Some(SymbolKind::Method)
    } else if same_text(name, "trait") {
        Some(SymbolKind::Trait)
    } else if same_text(name, "type") {
        Some(SymbolKind::TypeAlias)
    } else {
        None
    }
}

/// A name pattern is a glob where it holds a wildcard and compiles.
pub open spec fn is_name_glob(pattern: Seq<char>) -> bool {
    (contains_text(pattern, "*"@) || contains_text(pattern, "?"@)) && glob_valid(pattern)
}

/// A name matches a pattern: as a glob, or as a part of the name, in any case.
pub open spec fn name_hit(name: Seq<char>, pattern: Option<Seq<char>>) -> bool {
    match pattern {
        None => true,
        Some(p) => if is_name_glob(p) {
            glob_matches_nocase(p, name)
        } else {
            contains_text(lower_text(name), lower_text(p))
        },
    }
}

/// A file matches a file pattern. A malformed pattern filters nothing.
pub open spec fn file_hit(path: Seq<char>, pattern: Option<Seq<char>>) -> bool {
    match pattern {
        None => true,
        Some(p) => !glob_valid(p) || glob_matches(p, path),
    }
}

/// What a search for symbols asks for.
#[derive(Debug)]
pub struct SymbolQuery {
    pub symbol_type: Option<String>,
    pub pattern: Option<String>,
    pub file_pattern: Option<String>,
    pub limit: usize,
}

pub struct QueryText {
    pub symbol_type: Option<Seq<char>>,
    pub pattern: Option<Seq<char>>,
    pub file_pattern: Option<Seq<char>>,
    pub limit: usize,
}

impl View for SymbolQuery {
    type V = QueryText;

    open spec fn view(&self) -> QueryText {
        QueryText {
            symbol_type: opt_text(self.symbol_type),
            pattern: opt_text(self.pattern),
            file_pattern: opt_text(self.file_pattern),
            limit: self.limit,
        }
    }
}

pub open spec fn kind_wanted(q: QueryText) -> Option<SymbolKind> {
    match q.symbol_type {
        Some(t) => kind_filter_spec(t),
        None => None,
    }
}

/// A symbol is selected given whether its name and its file match.
pub open spec fn is_selected(
    s: SymbolText,
    kind: Option<SymbolKind>,
    tests: Seq<Seq<char>>,
    name_hits: bool,
    file_hits: bool,
) -> bool {
    &&& !tests.contains(s.file_path)
    &&& kind matches Some(k) ==> s.kind == k
    &&& name_hits
    &&& file_hits
}

/// Whether a symbol is selected: outside the test files, of the kind asked for, and with
/// its name and its file matching.
pub fn symbol_selected(
    s: &Symbol,
    kind: Option<SymbolKind>,
    tests: &[String],
    name_hits: bool,
    file_hits: bool,
) -> (r: bool)
    ensures
        r == is_selected(s@, kind, texts(tests@), name_hits, file_hits),
{
    if has_text(tests, s.file_path.as_str()) {
        return false;
    }
    match kind {
        Some(k) => {
            if s.kind != k {
                return false;
            }
        },
        None => {},
    }
    name_hits && file_hits
}

pub open spec fn selected_symbols(
    symbols: Seq<SymbolText>,
    q: QueryText,
    tests: Seq<Seq<char>>,
) -> Seq<SymbolText> {
    symbols.filter(
        |s: SymbolText|
            is_selected(
                s,
                kind_wanted(q),
                tests,
                name_hit(s.name, q.pattern),
                file_hit(s.file_path, q.file_pattern),
            ),
    )
}

fn name_matches(name: &str, pattern: &Option<String>) -> (r: bool)
    ensures
        r == name_hit(name@, opt_text(*pattern)),
{
    match pattern {
        None => true,
        Some(p) => {
            if (contains(p.as_str(), "*") || contains(p.as_str(), "?")) && glob_compiles(
                p.as_str(),
            ) {
                glob_match_nocase(p.as_str(), name)
            } else {
                let small_name = to_lowercase(name);
                let small = to_lowercase(p.as_str());
                contains(small_name.as_str(), small.as_str())
            }
        },
    }
}

pub(crate) fn file_matches(path: &str, pattern: &Option<String>) -> (r: bool)
    ensures
        r == file_hit(path@, opt_text(*pattern)),
{
    match pattern {
        None => true,
        Some(p) => !glob_compiles(p.as_str()) || glob_match(p.as_str(), path),
    }
}

/// The symbols a query selects, in the order of the index.
pub fn select_symbols(symbols: &[Symbol], query: &SymbolQuery, tests: &[String]) -> (r: Vec<Symbol>)
    ensures
        symbol_texts(r@) == selected_symbols(symbol_texts(symbols@), query@, texts(tests@)),
{
    let ghost all = symbol_texts(symbols@);
    let ghost q = query@;
    let ghost ts = texts(tests@);
    let kind = match &query.symbol_type {
        Some(t) => kind_filter(t.as_str()),
        None => None,
    };
    let ghost pred = |s: SymbolText|
        is_selected(
            s,
            kind_wanted(q),
            ts,
            name_hit(s.name, q.pattern),
            file_hit(s.file_path, q.file_pattern),
        );
    let mut out: Vec<Symbol> = Vec::new();
    let mut i: usize = 0;
    proof {
        reveal(Seq::filter);
        assert(symbol_texts(out@) =~= all.take(0).filter(pred));
    }
    while i < symbols.len()
        invariant
            i <= symbols@.len(),
            all == symbol_texts(symbols@),
            q == query@,
            ts == texts(tests@),
            kind == kind_wanted(q),
            pred == (|s: SymbolText|
                is_selected(
                    s,
                    kind_wanted(q),
                    ts,
                    name_hit(s.name, q.pattern),
                    file_hit(s.file_path, q.file_pattern),
                )),
            symbol_texts(out@) == all.take(i as int).filter(pred),
        decreases symbols@.len() - i,
    {
        proof {
            reveal(Seq::filter);
            assert(all.take(i + 1).drop_last() =~= all.take(i as int));
            assert(all.take(i + 1).last() == symbols@[i as int]@);
        }
        let s = &symbols[i];
        let by_name = name_matches(s.name.as_str(), &query.pattern);
        let by_file = file_matches(s.file_path.as_str(), &query.file_pattern);
        if symbol_selected(s, kind, tests, by_name, by_file) {
            let copy = s.copy();
            proof {
                assert(symbol_texts(out@.push(copy)) =~= symbol_texts(out@).push(copy@));
            }
            out.push(copy);
        }
        i = i + 1;
    }
    proof {
        assert(all.take(all.len() as int) =~= all);
    }
    out
}

// ---- the most relevant first ----

/// How well a name fits a pattern, both in small letters: equal, beginning with it, or
/// otherwise.
pub open spec fn name_rank(name: Seq<char>, pattern: Seq<char>) -> u8 {
    if name == pattern {
        0
    } else if pattern.is_prefix_of(name) {
        1
    } else {
        2
    }
}

/// The rank of a name for a pattern, both in small letters.
pub fn rank_of_name(name: &str, pattern: &str) -> (r: u8)
    ensures
        r == name_rank(name@, pattern@),
{
    if same_text(name, pattern) {
        0
    } else if starts_with(name, pattern) {
        1
    } else {
        2
    }
}

/// A symbol with the rank of its name.
#[derive(Debug)]
pub struct Candidate {
    pub rank: u8,
    pub symbol: Symbol,
}

impl Ranked for Candidate {
    open spec fn precedes(a: Candidate, b: Candidate) -> bool {
        a.rank < b.rank
    }

    fn is_before(&self, other: &Candidate) -> (r: bool) {
        self.rank < other.rank
    }
}

pub open spec fn better_rank() -> spec_fn((u8, SymbolText), (u8, SymbolText)) -> bool {
    |a: (u8, SymbolText), b: (u8, SymbolText)| a.0 < b.0
}

/// The symbols whose names fit best on top; those of equal fit in the order of the index.
pub open spec fn by_relevance(selected: Seq<SymbolText>, pattern: Option<Seq<char>>) -> Seq<
    SymbolText,
> {
    match pattern {
        None => selected,
        Some(p) => sort_stable(
            selected.map_values(
                |s: SymbolText| (name_rank(lower_text(s.name), lower_text(p)), s),
            ),
            better_rank(),
        ).map_values(|c: (u8, SymbolText)| c.1),
    }
}

/// Orders symbols by how well their names fit the pattern.
pub fn order_by_relevance(selected: Vec<Symbol>, pattern: &Option<String>) -> (r: Vec<Symbol>)
    ensures
        symbol_texts(r@) == by_relevance(symbol_texts(selected@), opt_text(*pattern)),
{
    let ghost all = symbol_texts(selected@);
    match pattern {
        None => selected,
        Some(p) => {
            let small = to_lowercase(p.as_str());
            let mut list: Vec<Candidate> = Vec::new();
            let mut i: usize = 0;
            while i < selected.len()
                invariant
                    i <= selected@.len(),
                    all == symbol_texts(selected@),
                    small@ == lower_text(p@),
                    list@.len() == i,
                    forall|j: int|
                        0 <= j < i ==> (#[trigger] list@[j]).symbol@ == all[j] && list@[j].rank
                            == name_rank(lower_text(all[j].name), lower_text(p@)),
                decreases selected@.len() - i,
            {
                let name = to_lowercase(selected[i].name.as_str());
                let rank = rank_of_name(name.as_str(), small.as_str());
                let symbol = selected[i].copy();
                proof {
                    assert(all[i as int] == selected@[i as int]@);
                }
                list.push(Candidate { rank, symbol });
                i = i + 1;
            }
            let ghost view = |c: Candidate| (c.rank, c.symbol@);
            let ghost pairs = all.map_values(
                |s: SymbolText| (name_rank(lower_text(s.name), lower_text(p@)), s),
            );
            proof {
                lemma_sort_maps(list@, view, rank_order::<Candidate>(), better_rank());
                assert(list@.map_values(view) =~= pairs);
            }
            let sorted = sort_ranked(list);
            let ghost order = sort_stable(pairs, better_rank());
            let mut out: Vec<Symbol> = Vec::new();
            let mut k: usize = 0;
            while k < sorted.len()
                invariant
                    k <= sorted@.len(),
                    out@.len() == k,
                    forall|j: int|
                        0 <= j < k ==> (#[trigger] out@[j])@ == sorted@[j].symbol@,
                decreases sorted@.len() - k,
            {
                out.push(sorted[k].symbol.copy());
                k = k + 1;
            }
            proof {
                assert(sorted@.map_values(view) == order);
                assert(symbol_texts(out@) =~= order.map_values(|c: (u8, SymbolText)| c.1)) by {
                    assert forall|j: int| 0 <= j < out@.len() implies symbol_texts(out@)[j]
                        == order[j].1 by {
                        assert(sorted@.map_values(view)[j] == view(sorted@[j]));
                        assert(out@[j]@ == sorted@[j].symbol@);
                    }
                }
            }
            out
        },
    }
}

/// The order by relevance keeps every symbol that was selected.
pub proof fn law_relevance_keeps_symbols(
    selected: Seq<SymbolText>,
    pattern: Option<Seq<char>>,
)
    ensures
        by_relevance(selected, pattern).to_multiset() == selected.to_multiset(),
        by_relevance(selected, pattern).len() == selected.len(),
{
    match pattern {
        None => {},
        Some(p) => {
            let f = |s: SymbolText| (name_rank(lower_text(s.name), lower_text(p)), s);
            let g = |c: (u8, SymbolText)| c.1;
            let pairs = selected.map_values(f);
            crate::order::law_sorting_keeps_items(pairs, better_rank());
            lemma_map_keeps_multiset(sort_stable(pairs, better_rank()), pairs, g);
            assert(pairs.map_values(g) =~= selected);
        },
    }
}

/// Two sequences with the same items have the same items under a map.
proof fn lemma_map_keeps_multiset<A, B>(a: Seq<A>, b: Seq<A>, f: spec_fn(A) -> B)
    requires
        a.to_multiset() == b.to_multiset(),
    ensures
        a.map_values(f).to_multiset() == b.map_values(f).to_multiset(),
        a.len() == b.len(),
    decreases a.len(),
{
    broadcast use vstd::seq_lib::group_to_multiset_ensures;

    assert(a.len() == a.to_multiset().len());
    assert(b.len() == b.to_multiset().len());
    if a.len() == 0 {
        assert(a.map_values(f) =~= b.map_values(f));
    } else {
        let x = a.last();
        assert(a.drop_last().push(x) =~= a);
        assert(a.contains(x));
        assert(b.to_multiset().count(x) > 0);
        assert(b.contains(x));
        let k = choose|k: int| 0 <= k < b.len() && b[k] == x;
        let rest = b.remove(k);
        assert(rest.to_multiset() =~= b.to_multiset().remove(x));
        assert(a.drop_last().to_multiset() =~= a.to_multiset().remove(x));
        lemma_map_keeps_multiset(a.drop_last(), rest, f);
        assert(a.map_values(f) =~= a.drop_last().map_values(f).push(f(x)));
        assert(b.map_values(f).remove(k) =~= rest.map_values(f));
        assert(b.map_values(f)[k] == f(x));
        assert(b.map_values(f).remove(k).to_multiset() =~= b.map_values(f).to_multiset().remove(
            f(x),
        ));
        assert(b.map_values(f).contains(f(x)));
        assert(b.map_values(f).to_multiset() =~= rest.map_values(f).to_multiset().insert(f(x)));
    }
}

// ---- why nothing was found ----

pub open spec fn them(n: nat) -> Seq<char> {
    if n == 1 {
        "it"@
    } else {
        "them"@
    }
}

/// The note on files that match the pattern and that the build manifest left out.
pub open spec fn filter_note_spec(files: Seq<Seq<char>>) -> Seq<char> {
    if files.len() == 0 {
        Seq::empty()
    } else {
        let named = join_spec(files.map_values(|f: Seq<char>| quoted(f)), ", "@);
        "> Note: "@ + named
            + " matched by `file_pattern` and not listed in this repo's compile_commands.json, so the index excluded "@
            + them(files.len())
            + " from the base build (not a parser failure). Regenerate the manifest to include "@
            + them(files.len()) + ", then reindex.\n\n"@
    }
}

/// The files the manifest left out that a pattern matches, by their repo-relative paths.
pub open spec fn filtered_hits(
    filtered: Seq<Seq<char>>,
    repo: Seq<char>,
    pattern: Option<Seq<char>>,
) -> Seq<Seq<char>> {
    match pattern {
        None => Seq::empty(),
        Some(p) => filtered.map_values(|f: Seq<char>| relative_spec(f, repo)).filter(
            |rel: Seq<char>| glob_matches(p, rel),
        ),
    }
}

/// Renders the note on files that the build manifest left out of the index.
pub fn render_filter_note(files: &[String]) -> (r: String)
    ensures
        r@ == filter_note_spec(texts(files@)),
{
    proof {
        assert(texts(files@).len() == files@.len());
    }
    if files.len() == 0 {
        let out = String::new();
        proof {
            assert(out@ =~= Seq::<char>::empty());
        }
        return out;
    }
    let mut named: Vec<String> = Vec::new();
    let mut i: usize = 0;
    while i < files.len()
        invariant
            i <= files@.len(),
            named@.len() == i,
            forall|j: int| 0 <= j < i ==> #[trigger] named@[j]@ == quoted(files@[j]@),
        decreases files@.len() - i,
    {
        named.push(quote(files[i].as_str()));
        i = i + 1;
    }
    proof {
        assert(texts(named@) =~= texts(files@).map_values(|f: Seq<char>| quoted(f)));
    }
    let pronoun = if files.len() == 1 {
        "it"
    } else {
        "them"
    };
    let mut out = "> Note: ".to_owned();
    out.append(join(named.as_slice(), ", ").as_str());
    out.append(" matched by `file_pattern` and not listed in this repo's compile_commands.json, so the index excluded ");
    out.append(pronoun);
    out.append(" from the base build (not a parser failure). Regenerate the manifest to include ");
    out.append(pronoun);
    out.append(", then reindex.\n\n");
    out
}

/// The note for a zero answer: which of the files that the pattern matches the build
/// manifest dropped from the index, so that the miss does not read as a file without
/// symbols. `filtered` are the absolute paths of the dropped files.
pub fn compile_commands_filter_note(
    filtered: &[String],
    repo: &str,
    file_pattern: &Option<String>,
) -> (r: String)
    ensures
        r@ == filter_note_spec(filtered_hits(texts(filtered@), repo@, opt_text(*file_pattern))),
{
    let mut hits: Vec<String> = Vec::new();
    proof {
        assert(texts(hits@) =~= Seq::<Seq<char>>::empty());
    }
    match file_pattern {
        None => {},
        Some(p) => {
            let ghost f = |x: Seq<char>| relative_spec(x, repo@);
            let ghost pred = |rel: Seq<char>| glob_matches(p@, rel);
            let ghost all = texts(filtered@).map_values(f);
            let mut i: usize = 0;
            proof {
                reveal(Seq::filter);
                assert(texts(hits@) =~= all.take(0).filter(pred));
            }
            while i < filtered.len()
                invariant
                    i <= filtered@.len(),
                    f == (|x: Seq<char>| relative_spec(x, repo@)),
                    pred == (|rel: Seq<char>| glob_matches(p@, rel)),
                    all == texts(filtered@).map_values(f),
                    texts(hits@) == all.take(i as int).filter(pred),
                decreases filtered@.len() - i,
            {
                let rel = relative(filtered[i].as_str(), repo);
                proof {
                    reveal(Seq::filter);
                    assert(all.take(i + 1).drop_last() =~= all.take(i as int));
                    assert(all.take(i + 1).last() == rel@);
                }
                if glob_match(p.as_str(), rel.as_str()) {
                    proof {
                        assert(texts(hits@.push(rel)) =~= texts(hits@).push(rel@));
                    }
                    hits.push(rel);
                }
                i = i + 1;
            }
            proof {
                assert(all.take(all.len() as int) =~= all);
            }
        },
    }
    render_filter_note(hits.as_slice())
}

// ---- submodules ----

/// The path a line of a submodule file declares.
pub open spec fn submodule_of(line: Seq<char>) -> Option<Seq<char>> {
    match strip_prefix_spec(trim_spec(line), "path"@) {
        None => None,
        Some(rest) => match strip_prefix_spec(
            trim_start_class(rest, Seq::empty(), true),
            "="@,
        ) {
            None => None,
            Some(value) => if trim_spec(value).len() == 0 {
                None
            } else {
                Some(trim_spec(value))
            },
        },
    }
}

pub open spec fn submodules_of(lines: Seq<Seq<char>>) -> Seq<Seq<char>>
    decreases lines.len(),
{
    if lines.len() == 0 {
        Seq::empty()
    } else {
        let front = submodules_of(lines.drop_last());
        match submodule_of(lines.last()) {
            Some(p) => front.push(p),
            None => front,
        }
    }
}

fn declared_submodule(line: &str) -> (r: Option<String>)
    ensures
        opt_text(r) == submodule_of(line@),
{
    let trimmed = trim(line);
    match strip_prefix(trimmed.as_str(), "path") {
        None => None,
        Some(rest) => {
            let chars = to_chars(rest.as_str());
            let none: Vec<char> = Vec::new();
            proof {
                assert(none@ =~= Seq::<char>::empty());
            }
            let after = trim_start_chars(chars.as_slice(), none.as_slice(), true);
            let text = to_text(after.as_slice());
            match strip_prefix(text.as_str(), "=") {
                None => None,
                Some(value) => {
                    let path = trim(value.as_str());
                    if path.as_str().is_empty() {
                        None
                    } else {
                        Some(path)
                    }
                },
            }
        },
    }
}

/// The submodule paths that the text of a `.gitmodules` file declares; none where there is
/// no such file.
pub fn submodule_paths(content: Option<&str>) -> (r: Vec<String>)
    ensures
        texts(r@) == match content {
            Some(c) => submodules_of(lines_of(c@)),
            None => Seq::empty(),
        },
{
    let mut out: Vec<String> = Vec::new();
    proof {
        assert(texts(out@) =~= Seq::<Seq<char>>::empty());
    }
    match content {
        None => {},
        Some(c) => {
            let all_lines = lines(c);
            let ghost all = texts(all_lines@);
            let mut i: usize = 0;
            while i < all_lines.len()
                invariant
                    i <= all_lines@.len(),
                    all == texts(all_lines@),
                    texts(out@) == submodules_of(all.take(i as int)),
                decreases all_lines@.len() - i,
            {
                proof {
                    assert(all.take(i + 1).drop_last() =~= all.take(i as int));
                    assert(all.take(i + 1).last() == all_lines@[i as int]@);
                }
                match declared_submodule(all_lines[i].as_str()) {
                    Some(p) => {
                        proof {
                            assert(texts(out@.push(p)) =~= texts(out@).push(p@));
                        }
                        out.push(p);
                    },
                    None => {},
                }
                i = i + 1;
            }
            proof {
                assert(all.take(all.len() as int) =~= all);
            }
        },
    }
    out
}

pub open spec fn submodule_note_spec(repo: Seq<char>, submodules: Seq<Seq<char>>) -> Seq<char> {
    if submodules.len() == 0 {
        Seq::empty()
    } else {
        "\n> Note: this repo has git submodule(s): "@ + join_spec(submodules, ", "@)
            + ". Their sources are indexed separately — if a definition looks missing, index the submodule with `reindex(repo=\""@
            + repo + "/"@ + submodules[0] + "\")`.\n"@
    }
}

fn render_submodule_note(repo: &str, submodules: &[String]) -> (r: String)
    ensures
        r@ == submodule_note_spec(repo@, texts(submodules@)),
{
    proof {
        assert(texts(submodules@).len() == submodules@.len());
    }
    if submodules.len() == 0 {
        let out = String::new();
        proof {
            assert(out@ =~= Seq::<char>::empty());
        }
        return out;
    }
    let mut out = "\n> Note: this repo has git submodule(s): ".to_owned();
    out.append(join(submodules, ", ").as_str());
    out.append(". Their sources are indexed separately — if a definition looks missing, index the submodule with `reindex(repo=\"");
    out.append(repo);
    out.append("/");
    out.append(submodules[0].as_str());
    out.append("\")`.\n");
    out
}

// ---- the answer ----

/// A search without any filter is refused rather than answered with the whole index.
pub open spec fn is_unfiltered(q: QueryText) -> bool {
    q.pattern is None && q.file_pattern is None && q.symbol_type is None
}

pub open spec fn unfiltered_answer(repo: Seq<char>) -> Seq<char> {
    "# Symbols in "@ + repo
        + "\n\nNo `pattern` (or `query`) given — refusing to list every symbol.\nPass a name pattern, e.g. `pattern=\"next_mount_opt\"` or `pattern=\"fuse_*\"`; use `pattern=\"*\"` to list all.\n"@
}

/// The backends' view of a symbol, or nothing.
pub open spec fn symbol_annotation(s: SymbolText, cxx: SourceSet, other: SourceSet) -> Option<
    Seq<char>,
> {
    provenance_spec(
        ProvenanceSubject::Symbol,
        enabled_for(s.file_path, cxx, other),
        s.confirmed_by,
        s.start_line,
        s.line_conflicts,
    )
}

pub(crate) fn annotate(s: &Symbol, cxx: SourceSet, other: SourceSet) -> (r: Option<String>)
    ensures
        opt_text(r) == symbol_annotation(s@, cxx, other),
{
    let enabled = if cxx_file(s.file_path.as_str()) {
        cxx
    } else {
        other
    };
    render_provenance(
        ProvenanceSubject::Symbol,
        enabled,
        s.confirmed_by,
        s.start_line,
        s.line_conflicts.as_slice(),
    )
}

pub open spec fn symbol_row(s: SymbolText, cxx: SourceSet, other: SourceSet) -> Seq<char> {
    let signature = match s.signature {
        Some(t) => t,
        None => Seq::empty(),
    };
    let annotation = match symbol_annotation(s, cxx, other) {
        Some(a) => " _("@ + a + ")_"@,
        None => Seq::empty(),
    };
    "- **"@ + s.name + "** (`"@ + s.file_path + ":"@ + decimal(s.start_line as nat) + "`) "@
        + signature + annotation + "\n"@
}

fn render_symbol(s: &Symbol, cxx: SourceSet, other: SourceSet) -> (r: String)
    ensures
        r@ == symbol_row(s@, cxx, other),
{
    let mut annotation = String::new();
    proof {
        assert(annotation@ =~= Seq::<char>::empty());
    }
    match annotate(s, cxx, other) {
        Some(a) => {
            annotation = " _(".to_owned();
            annotation.append(a.as_str());
            annotation.append(")_");
        },
        None => {},
    }
    let mut signature = String::new();
    proof {
        assert(signature@ =~= Seq::<char>::empty());
    }
    match &s.signature {
        Some(t) => {
            signature = t.clone();
        },
        None => {},
    }
    let mut out = "- **".to_owned();
    out.append(s.name.as_str());
    out.append("** (`");
    out.append(s.file_path.as_str());
    out.append(":");
    out.append(usize_text(s.start_line).as_str());
    out.append("`) ");
    out.append(signature.as_str());
    out.append(annotation.as_str());
    out.append("\n");
    out
}

/// The kinds of the symbols, each once, in the order of first mention.
pub open spec fn kinds_of(list: Seq<SymbolText>) -> Seq<SymbolKind>
    decreases list.len(),
{
    if list.len() == 0 {
        Seq::empty()
    } else {
        let front = kinds_of(list.drop_last());
        if front.contains(list.last().kind) {
            front
        } else {
            front.push(list.last().kind)
        }
    }
}

pub open spec fn kind_group(
    list: Seq<SymbolText>,
    kind: SymbolKind,
    cxx: SourceSet,
    other: SourceSet,
) -> Seq<char> {
    "## "@ + kind.name_spec() + "s\n\n"@ + concat(
        list.filter(|s: SymbolText| s.kind == kind).map_values(
            |s: SymbolText| symbol_row(s, cxx, other),
        ),
    ) + "\n"@
}

/// The symbols shown, by kind.
pub open spec fn grouped_symbols(list: Seq<SymbolText>, cxx: SourceSet, other: SourceSet) -> Seq<
    char,
> {
    concat(kinds_of(list).map_values(|k: SymbolKind| kind_group(list, k, cxx, other)))
}

fn has_kind(kinds: &Vec<SymbolKind>, kind: SymbolKind) -> (r: bool)
    ensures
        r == kinds@.contains(kind),
{
    let mut i: usize = 0;
    while i < kinds.len()
        invariant
            i <= kinds@.len(),
            forall|j: int| 0 <= j < i ==> kinds@[j] != kind,
        decreases kinds@.len() - i,
    {
        if kinds[i] == kind {
            return true;
        }
        i = i + 1;
    }
    false
}

pub(crate) fn list_kinds(list: &[Symbol]) -> (r: Vec<SymbolKind>)
    ensures
        r@ == kinds_of(symbol_texts(list@)),
{
    let ghost all = symbol_texts(list@);
    let mut out: Vec<SymbolKind> = Vec::new();
    let mut i: usize = 0;
    while i < list.len()
        invariant
            i <= list@.len(),
            all == symbol_texts(list@),
            out@ == kinds_of(all.take(i as int)),
        decreases list@.len() - i,
    {
        proof {
            assert(all.take(i + 1).drop_last() =~= all.take(i as int));
            assert(all.take(i + 1).last() == list@[i as int]@);
        }
        if !has_kind(&out, list[i].kind) {
            out.push(list[i].kind);
        }
        i = i + 1;
    }
    proof {
        assert(all.take(all.len() as int) =~= all);
    }
    out
}

fn render_kind(list: &[Symbol], kind: SymbolKind, cxx: SourceSet, other: SourceSet) -> (r: String)
    ensures
        r@ == kind_group(symbol_texts(list@), kind, cxx, other),
{
    let ghost all = symbol_texts(list@);
    let ghost pred = |s: SymbolText| s.kind == kind;
    let ghost row = |s: SymbolText| symbol_row(s, cxx, other);
    let mut rows: Vec<String> = Vec::new();
    let mut i: usize = 0;
    proof {
        reveal(Seq::filter);
        assert(texts(rows@) =~= all.take(0).filter(pred).map_values(row));
    }
    while i < list.len()
        invariant
            i <= list@.len(),
            all == symbol_texts(list@),
            pred == (|s: SymbolText| s.kind == kind),
            row == (|s: SymbolText| symbol_row(s, cxx, other)),
            texts(rows@) == all.take(i as int).filter(pred).map_values(row),
        decreases list@.len() - i,
    {
        proof {
            reveal(Seq::filter);
            assert(all.take(i + 1).drop_last() =~= all.take(i as int));
            assert(all.take(i + 1).last() == list@[i as int]@);
        }
        if list[i].kind == kind {
            let text = render_symbol(&list[i], cxx, other);
            proof {
                let kept = all.take(i as int).filter(pred);
                assert(texts(rows@.push(text)) =~= texts(rows@).push(text@));
                assert(kept.push(list@[i as int]@).map_values(row) =~= kept.map_values(row).push(
                    text@,
                ));
            }
            rows.push(text);
        }
        i = i + 1;
    }
    proof {
        assert(all.take(all.len() as int) =~= all);
    }
    let mut out = "## ".to_owned();
    out.append(kind.name());
    out.append("s\n\n");
    out.append(concat_texts(rows.as_slice()).as_str());
    out.append("\n");
    out
}

pub open spec fn found_line(total: nat, limit: usize) -> Seq<char> {
    if total > limit {
        "Found "@ + decimal(total as nat) + " symbols (showing first "@ + decimal(limit as nat)
            + "; increase `limit` to see more)\n\n"@
    } else {
        "Found "@ + decimal(total as nat) + " symbols\n\n"@
    }
}

/// The answer for a list of symbols, the most relevant first.
pub open spec fn symbols_answer(
    repo: Seq<char>,
    ranked: Seq<SymbolText>,
    limit: usize,
    note: Seq<char>,
    submodules: Seq<Seq<char>>,
    cxx: SourceSet,
    other: SourceSet,
) -> Seq<char> {
    let shown = if ranked.len() > limit {
        ranked.take(limit as int)
    } else {
        ranked
    };
    "# Symbols in "@ + repo + "\n\n"@ + found_line(ranked.len(), limit) + note + grouped_symbols(
        shown,
        cxx,
        other,
    ) + submodule_note_spec(repo, submodules)
}

/// Renders the symbols found, at most `limit` of them, by kind, with the note on a zero
/// answer and the note on submodules.
pub fn render_symbols(
    repo: &str,
    ranked: &[Symbol],
    limit: usize,
    note: &str,
    submodules: &[String],
    cxx: SourceSet,
    other: SourceSet,
) -> (r: String)
    ensures
        r@ == symbols_answer(
            repo@,
            symbol_texts(ranked@),
            limit,
            note@,
            texts(submodules@),
            cxx,
            other,
        ),
{
    let ghost all = symbol_texts(ranked@);
    let total: usize = ranked.len();
    let count: usize = if total > limit {
        limit
    } else {
        total
    };
    let shown = vstd::slice::slice_subrange(ranked, 0, count);
    let ghost list = if all.len() > limit {
        all.take(limit as int)
    } else {
        all
    };
    proof {
        assert(symbol_texts(shown@) =~= list);
    }
    let mut out = "# Symbols in ".to_owned();
    out.append(repo);
    out.append("\n\n");
    let mut found = "Found ".to_owned();
    found.append(usize_text(total).as_str());
    if total > limit {
        found.append(" symbols (showing first ");
        found.append(usize_text(limit).as_str());
        found.append("; increase `limit` to see more)\n\n");
    } else {
        found.append(" symbols\n\n");
    }
    out.append(found.as_str());
    out.append(note);
    let kinds = list_kinds(shown);
    let mut groups: Vec<String> = Vec::new();
    let mut i: usize = 0;
    while i < kinds.len()
        invariant
            i <= kinds@.len(),
            symbol_texts(shown@) == list,
            groups@.len() == i,
            forall|j: int|
                0 <= j < i ==> #[trigger] groups@[j]@ == kind_group(list, kinds@[j], cxx, other),
        decreases kinds@.len() - i,
    {
        groups.push(render_kind(shown, kinds[i], cxx, other));
        i = i + 1;
    }
    proof {
        assert(texts(groups@) =~= kinds_of(list).map_values(
            |k: SymbolKind| kind_group(list, k, cxx, other),
        ));
    }
    out.append(concat_texts(groups.as_slice()).as_str());
    out.append(render_submodule_note(repo, submodules).as_str());
    out
}

/// What `find_symbols` answers.
pub open spec fn find_symbols_spec(
    repo: Seq<char>,
    symbols: Seq<SymbolText>,
    q: QueryText,
    tests: Seq<Seq<char>>,
    filtered: Seq<Seq<char>>,
    submodules: Seq<Seq<char>>,
    cxx: SourceSet,
    other: SourceSet,
) -> Seq<char> {
    if is_unfiltered(q) {
        unfiltered_answer(repo)
    } else {
        let ranked = by_relevance(selected_symbols(symbols, q, tests), q.pattern);
        let note = if ranked.len() == 0 && (q.file_pattern matches Some(p) && glob_valid(p)) {
            filter_note_spec(filtered_hits(filtered, repo, q.file_pattern))
        } else {
            Seq::empty()
        };
        symbols_answer(repo, ranked, q.limit, note, submodules, cxx, other)
    }
}

/// Finds symbols by name, kind and file. `tests` are the files to leave out, `filtered` the
/// files the build manifest dropped, `cxx` and `other` the backends enabled for C and C++
/// files and for the rest.
pub fn find_symbols(
    repo: &str,
    symbols: &[Symbol],
    query: &SymbolQuery,
    tests: &[String],
    filtered: &[String],
    submodules: &[String],
    cxx: SourceSet,
    other: SourceSet,
) -> (r: String)
    ensures
        r@ == find_symbols_spec(
            repo@,
            symbol_texts(symbols@),
            query@,
            texts(tests@),
            texts(filtered@),
            texts(submodules@),
            cxx,
            other,
        ),
{
    if query.pattern.is_none() && query.file_pattern.is_none() && query.symbol_type.is_none() {
        let mut out = "# Symbols in ".to_owned();
        out.append(repo);
        out.append("\n\nNo `pattern` (or `query`) given — refusing to list every symbol.\nPass a name pattern, e.g. `pattern=\"next_mount_opt\"` or `pattern=\"fuse_*\"`; use `pattern=\"*\"` to list all.\n");
        return out;
    }
    let selected = select_symbols(symbols, query, tests);
    let ranked = order_by_relevance(selected, &query.pattern);
    proof {
        assert(symbol_texts(ranked@).len() == ranked@.len());
    }
    let mut note = String::new();
    proof {
        assert(note@ =~= Seq::<char>::empty());
    }
    if ranked.len() == 0 {
        let compiled = match &query.file_pattern {
            Some(p) => glob_compiles(p.as_str()),
            None => false,
        };
        if compiled {
            note = compile_commands_filter_note(filtered, repo, &query.file_pattern);
        }
    }
    render_symbols(
        repo,
        ranked.as_slice(),
        query.limit,
        note.as_str(),
        submodules,
        cxx,
        other,
    )
}

} // verus!
