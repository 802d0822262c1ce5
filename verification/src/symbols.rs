//! Symbols, the backends that confirm them, and how reports of several backends merge.

use vstd::prelude::*;

use crate::order::{dedup_strings, dedup_texts, sort_strings, sort_texts};
use crate::text::{
    contains, contains_text, decimal, join, join_spec, opt_text, same_text, texts, usize_text,
};

verus! {

/// What a symbol is.
#[derive(Debug, Clone, Copy, PartialEq, Eq, Structural)]
pub enum SymbolKind {
    Function,
    Method,
    Constructor,
    Class,
    Struct,
    Enum,
    Interface,
    Trait,
    Namespace,
    Module,
    Constant,
    Variable,
    Field,
    TypeAlias,
    Implementation,
    Unknown,
}

impl SymbolKind {
    pub open spec fn name_spec(self) -> Seq<char> {
        match self {
            SymbolKind::Function => "Function"@,
            SymbolKind::Method => "Method"@,
            SymbolKind::Constructor => "Constructor"@,
            SymbolKind::Class => "Class"@,
            SymbolKind::Struct => "Struct"@,
            SymbolKind::Enum => "Enum"@,
            SymbolKind::Interface => "Interface"@,
            SymbolKind::Trait => "Trait"@,
            SymbolKind::Namespace => "Namespace"@,
            SymbolKind::Module => "Module"@,
            SymbolKind::Constant => "Constant"@,
            SymbolKind::Variable => "Variable"@,
            SymbolKind::Field => "Field"@,
            SymbolKind::TypeAlias => "TypeAlias"@,
            SymbolKind::Implementation => "Implementation"@,
            SymbolKind::Unknown => "Unknown"@,
        }
    }

    /// The name of the kind as it is shown.
    pub fn name(self) -> (r: &'static str)
        ensures
            r@ == self.name_spec(),
    {
        match self {
            SymbolKind::Function => "Function",
            SymbolKind::Method => "Method",
            SymbolKind::Constructor => "Constructor",
            SymbolKind::Class => "Class",
            SymbolKind::Struct => "Struct",
            SymbolKind::Enum => "Enum",
            SymbolKind::Interface => "Interface",
            SymbolKind::Trait => "Trait",
            SymbolKind::Namespace => "Namespace",
            SymbolKind::Module => "Module",
            SymbolKind::Constant => "Constant",
            SymbolKind::Variable => "Variable",
            SymbolKind::Field => "Field",
            SymbolKind::TypeAlias => "TypeAlias",
            SymbolKind::Implementation => "Implementation",
            SymbolKind::Unknown => "Unknown",
        }
    }
}

/// A set of backends.
#[derive(Debug, Clone, Copy, PartialEq, Eq, Structural)]
pub struct SourceSet {
    pub clangd: bool,
    pub ccls: bool,
    pub tree_sitter: bool,
    pub gtags: bool,
}

impl SourceSet {
    /// The set of this backend alone.
    #[verifier::allow_in_spec]
    pub fn clangd() -> SourceSet
        returns
            (SourceSet { clangd: true, ccls: false, tree_sitter: false, gtags: false }),
    {
        SourceSet { clangd: true, ccls: false, tree_sitter: false, gtags: false }
    }

    /// The set of this backend alone.
    #[verifier::allow_in_spec]
    pub fn ccls() -> SourceSet
        returns
            (SourceSet { clangd: false, ccls: true, tree_sitter: false, gtags: false }),
    {
        SourceSet { clangd: false, ccls: true, tree_sitter: false, gtags: false }
    }

    /// The set of this backend alone.
    #[verifier::allow_in_spec]
    pub fn tree_sitter() -> SourceSet
        returns
            (SourceSet { clangd: false, ccls: false, tree_sitter: true, gtags: false }),
    {
        SourceSet { clangd: false, ccls: false, tree_sitter: true, gtags: false }
    }

    /// The set of this backend alone.
    #[verifier::allow_in_spec]
    pub fn gtags() -> SourceSet
        returns
            (SourceSet { clangd: false, ccls: false, tree_sitter: false, gtags: true }),
    {
        SourceSet { clangd: false, ccls: false, tree_sitter: false, gtags: true }
    }

    pub open spec fn none() -> SourceSet {
        SourceSet { clangd: false, ccls: false, tree_sitter: false, gtags: false }
    }

    /// The set of no backend.
    pub fn empty() -> (r: SourceSet)
        ensures
            r == Self::none(),
    {
        SourceSet { clangd: false, ccls: false, tree_sitter: false, gtags: false }
    }

    pub open spec fn union_spec(self, other: SourceSet) -> SourceSet {
        SourceSet {
            clangd: self.clangd || other.clangd,
            ccls: self.ccls || other.ccls,
            tree_sitter: self.tree_sitter || other.tree_sitter,
            gtags: self.gtags || other.gtags,
        }
    }

    /// Adds the backends of `other`.
    pub fn insert(&mut self, other: SourceSet)
        ensures
            *final(self) == old(self).union_spec(other),
    {
        self.clangd = self.clangd || other.clangd;
        self.ccls = self.ccls || other.ccls;
        self.tree_sitter = self.tree_sitter || other.tree_sitter;
        self.gtags = self.gtags || other.gtags;
    }

    pub open spec fn holds(self, other: SourceSet) -> bool {
        self.union_spec(other) == self
    }

    /// Whether every backend of `other` is in this set.
    pub fn contains(self, other: SourceSet) -> (r: bool)
        ensures
            r == self.holds(other),
    {
        (self.clangd || !other.clangd) && (self.ccls || !other.ccls) && (self.tree_sitter
            || !other.tree_sitter) && (self.gtags || !other.gtags)
    }

    pub open spec fn without(self, other: SourceSet) -> SourceSet {
        SourceSet {
            clangd: self.clangd && !other.clangd,
            ccls: self.ccls && !other.ccls,
            tree_sitter: self.tree_sitter && !other.tree_sitter,
            gtags: self.gtags && !other.gtags,
        }
    }

    pub open spec fn size(self) -> nat {
        (if self.clangd { 1nat } else { 0 }) + (if self.ccls { 1nat } else { 0 }) + (
        if self.tree_sitter { 1nat } else { 0 }) + (if self.gtags { 1nat } else { 0 })
    }

    /// Number of backends in the set.
    pub fn count(self) -> (r: usize)
        ensures
            r == self.size(),
    {
        let mut n: usize = 0;
        if self.clangd {
            n = n + 1;
        }
        if self.ccls {
            n = n + 1;
        }
        if self.tree_sitter {
            n = n + 1;
        }
        if self.gtags {
            n = n + 1;
        }
        n
    }

    /// Whether the set holds no backend.
    pub fn is_empty(self) -> (r: bool)
        ensures
            r == (self == Self::none()),
    {
        !self.clangd && !self.ccls && !self.tree_sitter && !self.gtags
    }

    pub open spec fn highest_spec(self) -> SourceSet {
        if self.clangd {
            Self::clangd()
        } else if self.ccls {
            Self::ccls()
        } else if self.tree_sitter {
            Self::tree_sitter()
        } else if self.gtags {
            Self::gtags()
        } else {
            Self::none()
        }
    }

    /// The backend of the set that ranks highest.
    pub fn highest(self) -> (r: SourceSet)
        ensures
            r == self.highest_spec(),
    {
        if self.clangd {
            Self::clangd()
        } else if self.ccls {
            Self::ccls()
        } else if self.tree_sitter {
            Self::tree_sitter()
        } else if self.gtags {
            Self::gtags()
        } else {
            Self::empty()
        }
    }

    pub open spec fn rank_spec(self) -> nat {
        if self.clangd {
            4
        } else if self.ccls {
            3
        } else if self.tree_sitter {
            2
        } else if self.gtags {
            1
        } else {
            0
        }
    }

    /// The rank of the set's highest backend.
    pub fn rank(self) -> (r: u8)
        ensures
            r == self.rank_spec(),
    {
        if self.clangd {
            4
        } else if self.ccls {
            3
        } else if self.tree_sitter {
            2
        } else if self.gtags {
            1
        } else {
            0
        }
    }

    pub open spec fn labels_spec(self) -> Seq<Seq<char>> {
        (if self.clangd { seq!["clangd"@] } else { Seq::empty() }) + (if self.ccls {
            seq!["ccls"@]
        } else {
            Seq::empty()
        }) + (if self.tree_sitter { seq!["tree-sitter"@] } else { Seq::empty() }) + (
        if self.gtags { seq!["gtags"@] } else { Seq::empty() })
    }

    /// The names of the backends, highest rank first.
    pub fn labels(self) -> (r: Vec<String>)
        ensures
            texts(r@) == self.labels_spec(),
    {
        let mut out: Vec<String> = Vec::new();
        if self.clangd {
            out.push("clangd".to_owned());
        }
        if self.ccls {
            out.push("ccls".to_owned());
        }
        if self.tree_sitter {
            out.push("tree-sitter".to_owned());
        }
        if self.gtags {
            out.push("gtags".to_owned());
        }
        proof {
            assert(texts(out@) =~= self.labels_spec());
        }
        out
    }

    pub open spec fn label_spec(self) -> Seq<char> {
        if self.labels_spec().len() > 0 {
            self.labels_spec()[0]
        } else {
            "?"@
        }
    }

    /// The name of the set's highest backend.
    pub fn label(self) -> (r: &'static str)
        ensures
            r@ == self.label_spec(),
    {
        if self.clangd {
            "clangd"
        } else if self.ccls {
            "ccls"
        } else if self.tree_sitter {
            "tree-sitter"
        } else if self.gtags {
            "gtags"
        } else {
            "?"
        }
    }
}

/// The line a backend gave for a symbol.
#[derive(Debug, Clone, Copy, PartialEq, Eq, Structural)]
pub struct SourceLine {
    pub source: SourceSet,
    pub line: usize,
}

/// A symbol of the index. Lines count from 1.
#[derive(Debug)]
pub struct Symbol {
    pub name: String,
    pub kind: SymbolKind,
    pub file_path: String,
    pub start_line: usize,
    pub end_line: usize,
    pub signature: Option<String>,
    pub qualified_name: Option<String>,
    pub doc_comment: Option<String>,
    pub confirmed_by: SourceSet,
    pub line_conflicts: Vec<SourceLine>,
}

/// A symbol by its texts.
pub struct SymbolText {
    pub name: Seq<char>,
    pub kind: SymbolKind,
    pub file_path: Seq<char>,
    pub start_line: usize,
    pub end_line: usize,
    pub signature: Option<Seq<char>>,
    pub qualified_name: Option<Seq<char>>,
    pub doc_comment: Option<Seq<char>>,
    pub confirmed_by: SourceSet,
    pub line_conflicts: Seq<SourceLine>,
}

impl View for Symbol {
    type V = SymbolText;

    open spec fn view(&self) -> SymbolText {
        SymbolText {
            name: self.name@,
            kind: self.kind,
            file_path: self.file_path@,
            start_line: self.start_line,
            end_line: self.end_line,
            signature: opt_text(self.signature),
            qualified_name: opt_text(self.qualified_name),
            doc_comment: opt_text(self.doc_comment),
            confirmed_by: self.confirmed_by,
            line_conflicts: self.line_conflicts@,
        }
    }
}

/// The symbols by their texts.
pub open spec fn symbol_texts(v: Seq<Symbol>) -> Seq<SymbolText> {
    v.map_values(|s: Symbol| s@)
}

pub fn clone_text(o: &Option<String>) -> (r: Option<String>)
    ensures
        opt_text(r) == opt_text(*o),
{
    match o {
        Some(s) => Some(s.clone()),
        None => None,
    }
}

pub(crate) fn clone_lines(v: &Vec<SourceLine>) -> (r: Vec<SourceLine>)
    ensures
        r@ == v@,
{
    let mut out: Vec<SourceLine> = Vec::new();
    let mut i: usize = 0;
    while i < v.len()
        invariant
            i <= v@.len(),
            out@ == v@.take(i as int),
        decreases v@.len() - i,
    {
        proof {
            assert(v@.take(i + 1) =~= v@.take(i as int).push(v@[i as int]));
        }
        out.push(v[i]);
        i = i + 1;
    }
    proof {
        assert(v@.take(v@.len() as int) =~= v@);
    }
    out
}

impl Symbol {
    /// A copy of the symbol.
    pub fn copy(&self) -> (r: Symbol)
        ensures
            r@ == self@,
    {
        Symbol {
            name: self.name.clone(),
            kind: self.kind,
            file_path: self.file_path.clone(),
            start_line: self.start_line,
            end_line: self.end_line,
            signature: clone_text(&self.signature),
            qualified_name: clone_text(&self.qualified_name),
            doc_comment: clone_text(&self.doc_comment),
            confirmed_by: self.confirmed_by,
            line_conflicts: clone_lines(&self.line_conflicts),
        }
    }
}

/// The symbol that gtags reports: a name and a line.
pub open spec fn gtags_symbol_text(name: Seq<char>, file: Seq<char>, line: usize) -> SymbolText {
    SymbolText {
        name,
        kind: SymbolKind::Unknown,
        file_path: file,
        start_line: line,
        end_line: line,
        signature: None,
        qualified_name: None,
        doc_comment: None,
        confirmed_by: SourceSet::gtags(),
        line_conflicts: Seq::empty(),
    }
}

/// The symbol of a tag that gtags lists in `file`.
pub fn gtags_symbol(name: String, file: &str, line: usize) -> (r: Symbol)
    ensures
        r@ == gtags_symbol_text(name@, file@, line),
{
    Symbol {
        name,
        kind: SymbolKind::Unknown,
        file_path: file.to_owned(),
        start_line: line,
        end_line: line,
        signature: None,
        qualified_name: None,
        doc_comment: None,
        confirmed_by: SourceSet::gtags(),
        line_conflicts: Vec::new(),
    }
}

// ---- merging ----

/// Largest line distance at which same-name symbols of two backends count as one.
pub const SYMBOL_MATCH_WINDOW: usize = 3;

pub open spec fn line_distance(a: usize, b: usize) -> int {
    if a >= b {
        a - b
    } else {
        b - a
    }
}

fn distance(a: usize, b: usize) -> (r: usize)
    ensures
        r == line_distance(a, b),
{
    if a >= b {
        a - b
    } else {
        b - a
    }
}

/// Two reports that can be about one definition.
pub open spec fn may_be_same(sym: SymbolText, inc: SymbolText) -> bool {
    &&& sym.name == inc.name
    &&& sym.file_path == inc.file_path
    &&& line_distance(sym.start_line, inc.start_line) <= SYMBOL_MATCH_WINDOW
}

/// The symbol nearest to the report among those it can be about; the first of several.
pub open spec fn best_match(existing: Seq<SymbolText>, inc: SymbolText) -> Option<int>
    decreases existing.len(),
{
    if existing.len() == 0 {
        None
    } else {
        let before = best_match(existing.drop_last(), inc);
        let last = existing.last();
        if may_be_same(last, inc) && (before is None || line_distance(
            last.start_line,
            inc.start_line,
        ) < line_distance(existing[before->Some_0].start_line, inc.start_line)) {
            Some(existing.len() - 1)
        } else {
            before
        }
    }
}

pub open spec fn or_old(new: Option<Seq<char>>, old_value: Option<Seq<char>>) -> Option<Seq<char>> {
    if new is Some {
        new
    } else {
        old_value
    }
}

/// A report of `source` folded into the symbol it is about. The backend that ranks
/// highest decides the location and what metadata is kept; the other line is recorded.
pub open spec fn fold_spec(sym: SymbolText, inc: SymbolText, source: SourceSet) -> SymbolText {
    let top = sym.confirmed_by.highest_spec();
    let confirmed_by = sym.confirmed_by.union_spec(source);
    let differs = sym.start_line != inc.start_line;
    if source.rank_spec() > top.rank_spec() {
        SymbolText {
            confirmed_by,
            start_line: inc.start_line,
            end_line: inc.end_line,
            kind: if inc.kind != SymbolKind::Unknown { inc.kind } else { sym.kind },
            signature: or_old(inc.signature, sym.signature),
            qualified_name: or_old(inc.qualified_name, sym.qualified_name),
            doc_comment: or_old(inc.doc_comment, sym.doc_comment),
            line_conflicts: if differs {
                sym.line_conflicts.push(SourceLine { source: top, line: sym.start_line })
            } else {
                sym.line_conflicts
            },
            ..sym
        }
    } else {
        SymbolText {
            confirmed_by,
            line_conflicts: if differs {
                sym.line_conflicts.push(SourceLine { source, line: inc.start_line })
            } else {
                sym.line_conflicts
            },
            ..sym
        }
    }
}

/// One report merged into the symbols known so far.
pub open spec fn merge_one(
    existing: Seq<SymbolText>,
    inc: SymbolText,
    source: SourceSet,
) -> Seq<SymbolText> {
    match best_match(existing, inc) {
        Some(i) => existing.update(i, fold_spec(existing[i], inc, source)),
        None => existing.push(
            SymbolText { confirmed_by: source, line_conflicts: Seq::empty(), ..inc },
        ),
    }
}

/// The reports of one backend merged in, one after the other.
pub open spec fn merge_all(
    existing: Seq<SymbolText>,
    incoming: Seq<SymbolText>,
    source: SourceSet,
) -> Seq<SymbolText>
    decreases incoming.len(),
{
    if incoming.len() == 0 {
        existing
    } else {
        merge_one(merge_all(existing, incoming.drop_last(), source), incoming.last(), source)
    }
}

pub proof fn lemma_best_match(existing: Seq<SymbolText>, inc: SymbolText)
    ensures
        best_match(existing, inc) matches Some(i) ==> 0 <= i < existing.len() && may_be_same(
            existing[i],
            inc,
        ) && forall|j: int|
            0 <= j < existing.len() && may_be_same(#[trigger] existing[j], inc) ==> line_distance(
                existing[i].start_line,
                inc.start_line,
            ) <= line_distance(existing[j].start_line, inc.start_line),
        best_match(existing, inc) is None ==> forall|j: int|
            0 <= j < existing.len() ==> !may_be_same(#[trigger] existing[j], inc),
    decreases existing.len(),
{
    if existing.len() > 0 {
        let front = existing.drop_last();
        lemma_best_match(front, inc);
        assert forall|j: int| 0 <= j < existing.len() - 1 implies existing[j] == front[j] by {}
    }
}

/// Folds a confirmation by `source` into a symbol.
pub fn fold_symbol(existing: &mut Symbol, incoming: Symbol, source: SourceSet)
    ensures
        final(existing)@ == fold_spec(old(existing)@, incoming@, source),
{
    let top = existing.confirmed_by.highest();
    let old_start: usize = existing.start_line;
    let differs = old_start != incoming.start_line;
    existing.confirmed_by.insert(source);
    if source.rank() > top.rank() {
        if differs {
            existing.line_conflicts.push(SourceLine { source: top, line: old_start });
        }
        existing.start_line = incoming.start_line;
        existing.end_line = incoming.end_line;
        if incoming.kind != SymbolKind::Unknown {
            existing.kind = incoming.kind;
        }
        if incoming.signature.is_some() {
            existing.signature = incoming.signature;
        }
        if incoming.qualified_name.is_some() {
            existing.qualified_name = incoming.qualified_name;
        }
        if incoming.doc_comment.is_some() {
            existing.doc_comment = incoming.doc_comment;
        }
    } else if differs {
        existing.line_conflicts.push(SourceLine { source, line: incoming.start_line });
    }
}

fn find_best_match(existing: &Vec<Symbol>, inc: &Symbol) -> (r: Option<usize>)
    ensures
        (match r {
            Some(i) => Some(i as int),
            None => None,
        }) == best_match(symbol_texts(existing@), inc@),
        r matches Some(i) ==> i < existing@.len(),
{
    let ghost all = symbol_texts(existing@);
    let mut best: Option<usize> = None;
    let mut i: usize = 0;
    while i < existing.len()
        invariant
            i <= existing@.len(),
            all == symbol_texts(existing@),
            (match best {
                Some(k) => Some(k as int),
                None => None,
            }) == best_match(all.take(i as int), inc@),
            best matches Some(k) ==> k < i,
        decreases existing@.len() - i,
    {
        proof {
            assert(all.take(i + 1).drop_last() =~= all.take(i as int));
            assert(all.take(i + 1).last() == existing@[i as int]@);
        }
        let sym = &existing[i];
        if same_text(sym.name.as_str(), inc.name.as_str()) && same_text(
            sym.file_path.as_str(),
            inc.file_path.as_str(),
        ) {
            let d = distance(sym.start_line, inc.start_line);
            if d <= SYMBOL_MATCH_WINDOW {
                let better = match best {
                    None => true,
                    Some(k) => d < distance(existing[k].start_line, inc.start_line),
                };
                if better {
                    best = Some(i);
                }
            }
        }
        i = i + 1;
    }
    proof {
        assert(all.take(all.len() as int) =~= all);
    }
    best
}

/// Merges the reports of one backend into the symbols known so far, keyed by name and
/// file with nearest-line matching. A report no symbol is near enough to stands alone.
pub fn merge_symbols(existing: &mut Vec<Symbol>, incoming: Vec<Symbol>, source: SourceSet)
    ensures
        symbol_texts(final(existing)@) == merge_all(
            symbol_texts(old(existing)@),
            symbol_texts(incoming@),
            source,
        ),
{
    let ghost start = symbol_texts(existing@);
    let ghost reports = symbol_texts(incoming@);
    let mut i: usize = 0;
    proof {
        assert(reports.take(0) =~= Seq::<SymbolText>::empty());
    }
    while i < incoming.len()
        invariant
            i <= incoming@.len(),
            reports == symbol_texts(incoming@),
            symbol_texts(existing@) == merge_all(start, reports.take(i as int), source),
        decreases incoming@.len() - i,
    {
        let inc = incoming[i].copy();
        let ghost before = existing@;
        proof {
            assert(reports.take(i + 1).drop_last() =~= reports.take(i as int));
            assert(reports.take(i + 1).last() == inc@);
            lemma_best_match(symbol_texts(existing@), inc@);
        }
        match find_best_match(existing, &inc) {
            Some(k) => {
                let mut sym = existing[k].copy();
                fold_symbol(&mut sym, inc, source);
                proof {
                    assert(symbol_texts(before.update(k as int, sym)) =~= symbol_texts(
                        before,
                    ).update(k as int, sym@));
                }
                existing.set(k, sym);
            },
            None => {
                let mut sym = inc;
                sym.confirmed_by = source;
                sym.line_conflicts = Vec::new();
                proof {
                    assert(sym.line_conflicts@ =~= Seq::<SourceLine>::empty());
                    assert(symbol_texts(before.push(sym)) =~= symbol_texts(before).push(sym@));
                }
                existing.push(sym);
            },
        }
        i = i + 1;
    }
    proof {
        assert(reports.take(reports.len() as int) =~= reports);
    }
}

/// Merging never loses a symbol: every symbol known before is still there, at its place,
/// under its name and file, confirmed by at least the backends that confirmed it.
pub proof fn law_merging_keeps_symbols(
    existing: Seq<SymbolText>,
    incoming: Seq<SymbolText>,
    source: SourceSet,
)
    ensures
        merge_all(existing, incoming, source).len() >= existing.len(),
        forall|i: int|
            0 <= i < existing.len() ==> {
                let now = #[trigger] merge_all(existing, incoming, source)[i];
                &&& now.name == existing[i].name
                &&& now.file_path == existing[i].file_path
                &&& now.confirmed_by.holds(existing[i].confirmed_by)
                &&& existing[i].line_conflicts.is_prefix_of(now.line_conflicts)
            },
    decreases incoming.len(),
{
    if incoming.len() == 0 {
        assert forall|i: int| 0 <= i < existing.len() implies #[trigger] existing[
            i
        ].line_conflicts.is_prefix_of(merge_all(existing, incoming, source)[i].line_conflicts) by {
            let c = existing[i].line_conflicts;
            assert(c.subrange(0, c.len() as int) =~= c);
        }
    } else {
        law_merging_keeps_symbols(existing, incoming.drop_last(), source);
        let mid = merge_all(existing, incoming.drop_last(), source);
        let inc = incoming.last();
        lemma_best_match(mid, inc);
        assert forall|i: int| 0 <= i < existing.len() implies {
            let now = #[trigger] merge_all(existing, incoming, source)[i];
            &&& now.name == existing[i].name
            &&& now.file_path == existing[i].file_path
            &&& now.confirmed_by.holds(existing[i].confirmed_by)
            &&& existing[i].line_conflicts.is_prefix_of(now.line_conflicts)
        } by {
            let now = merge_all(existing, incoming, source)[i];
            let c = existing[i].line_conflicts;
            let m = mid[i].line_conflicts;
            assert(c =~= m.subrange(0, c.len() as int));
            assert(c =~= now.line_conflicts.subrange(0, c.len() as int));
        }
    }
}

/// A report is never lost either: after the merge some symbol of that name and file is
/// confirmed by the backend that sent it.
pub proof fn law_merging_records_the_report(
    existing: Seq<SymbolText>,
    inc: SymbolText,
    source: SourceSet,
)
    ensures
        exists|i: int|
            0 <= i < merge_one(existing, inc, source).len() && {
                let now = #[trigger] merge_one(existing, inc, source)[i];
                now.name == inc.name && now.file_path == inc.file_path && now.confirmed_by.holds(
                    source,
                )
            },
{
    lemma_best_match(existing, inc);
    let after = merge_one(existing, inc, source);
    match best_match(existing, inc) {
        Some(i) => {
            assert(after[i].confirmed_by.holds(source));
        },
        None => {
            assert(after[after.len() - 1].confirmed_by.holds(source));
        },
    }
}

/// A backend that does not outrank the confirmers of a symbol never moves it nor takes
/// its metadata.
pub proof fn law_lower_rank_never_overrides(sym: SymbolText, inc: SymbolText, source: SourceSet)
    requires
        source.rank_spec() <= sym.confirmed_by.rank_spec(),
    ensures
        fold_spec(sym, inc, source).start_line == sym.start_line,
        fold_spec(sym, inc, source).end_line == sym.end_line,
        fold_spec(sym, inc, source).kind == sym.kind,
        fold_spec(sym, inc, source).signature == sym.signature,
        fold_spec(sym, inc, source).qualified_name == sym.qualified_name,
        fold_spec(sym, inc, source).doc_comment == sym.doc_comment,
{
}

// ---- provenance ----

/// What an annotation describes.
#[derive(Debug, Clone, Copy, PartialEq, Eq, Structural)]
pub enum ProvenanceSubject {
    Symbol,
    CallEdge,
}

/// Who confirmed a datum, and which enabled backends did not.
pub open spec fn confirmation_text(
    subject: ProvenanceSubject,
    enabled: SourceSet,
    confirmed: SourceSet,
) -> Seq<char> {
    let missing = enabled.without(confirmed);
    if subject == ProvenanceSubject::CallEdge && confirmed == SourceSet::gtags() {
        "reference-derived (gtags) — unverified call"@
    } else if missing == SourceSet::none() {
        "confirmed by "@ + join_spec(confirmed.labels_spec(), ", "@)
    } else {
        "confirmed by "@ + join_spec(confirmed.labels_spec(), ", "@) + "; not by "@ + join_spec(
            missing.labels_spec(),
            ", "@,
        )
    }
}

pub open spec fn source_line_text(source: SourceSet, line: usize) -> Seq<char> {
    source.label_spec() + " "@ + decimal(line as nat)
}

/// The line kept and the lines that differ from it.
pub open spec fn line_entries(
    confirmed: SourceSet,
    line: usize,
    conflicts: Seq<SourceLine>,
) -> Seq<Seq<char>> {
    seq![source_line_text(confirmed.highest_spec(), line)] + conflicts.map_values(
        |c: SourceLine| source_line_text(c.source, c.line),
    )
}

/// The annotation, which is silent where nothing diverges.
pub open spec fn provenance_spec(
    subject: ProvenanceSubject,
    enabled: SourceSet,
    confirmed: SourceSet,
    line: usize,
    conflicts: Seq<SourceLine>,
) -> Option<Seq<char>> {
    if enabled.size() < 2 || (enabled.without(confirmed) == SourceSet::none() && conflicts.len()
        == 0) {
        None
    } else if conflicts.len() == 0 {
        Some(confirmation_text(subject, enabled, confirmed))
    } else {
        Some(
            confirmation_text(subject, enabled, confirmed) + "; WARNING line disagreement: "@
                + join_spec(line_entries(confirmed, line, conflicts), ", "@),
        )
    }
}

/// Renders the backend annotation of a datum, or nothing where fewer than two backends
/// were enabled or all of them agree.
pub fn render_provenance(
    subject: ProvenanceSubject,
    enabled: SourceSet,
    confirmed: SourceSet,
    canonical_line: usize,
    conflicts: &[SourceLine],
) -> (r: Option<String>)
    ensures
        opt_text(r) == provenance_spec(subject, enabled, confirmed, canonical_line, conflicts@),
{
    if enabled.count() < 2 {
        return None;
    }
    let missing = SourceSet {
        clangd: enabled.clangd && !confirmed.clangd,
        ccls: enabled.ccls && !confirmed.ccls,
        tree_sitter: enabled.tree_sitter && !confirmed.tree_sitter,
        gtags: enabled.gtags && !confirmed.gtags,
    };
    if missing.is_empty() && conflicts.len() == 0 {
        return None;
    }
    let mut out = String::new();
    if subject == ProvenanceSubject::CallEdge && confirmed == SourceSet::gtags() {
        out = "reference-derived (gtags) — unverified call".to_owned();
    } else {
        out = "confirmed by ".to_owned();
        let who = join(confirmed.labels().as_slice(), ", ");
        out.append(who.as_str());
        if !missing.is_empty() {
            out.append("; not by ");
            let who_not = join(missing.labels().as_slice(), ", ");
            out.append(who_not.as_str());
        }
    }
    if conflicts.len() > 0 {
        let mut entries: Vec<String> = Vec::new();
        let mut first = confirmed.highest().label().to_owned();
        first.append(" ");
        let shown = usize_text(canonical_line);
        first.append(shown.as_str());
        entries.push(first);
        let mut i: usize = 0;
        proof {
            assert(texts(entries@) =~= line_entries(
                confirmed,
                canonical_line,
                conflicts@.take(0),
            ));
        }
        while i < conflicts.len()
            invariant
                i <= conflicts@.len(),
                texts(entries@) == line_entries(
                    confirmed,
                    canonical_line,
                    conflicts@.take(i as int),
                ),
            decreases conflicts@.len() - i,
        {
            let mut entry = conflicts[i].source.label().to_owned();
            entry.append(" ");
            let line = usize_text(conflicts[i].line);
            entry.append(line.as_str());
            proof {
                assert(texts(entries@.push(entry)) =~= texts(entries@).push(entry@));
                assert(line_entries(confirmed, canonical_line, conflicts@.take(i + 1))
                    =~= line_entries(confirmed, canonical_line, conflicts@.take(i as int)).push(
                    entry@,
                ));
            }
            entries.push(entry);
            i = i + 1;
        }
        proof {
            assert(conflicts@.take(conflicts@.len() as int) =~= conflicts@);
        }
        out.append("; WARNING line disagreement: ");
        let list = join(entries.as_slice(), ", ");
        out.append(list.as_str());
    }
    Some(out)
}

/// One backend alone is never annotated, and neither is full agreement.
pub proof fn law_provenance_is_silent_on_agreement(
    subject: ProvenanceSubject,
    enabled: SourceSet,
    confirmed: SourceSet,
    line: usize,
)
    requires
        enabled.size() < 2 || confirmed.holds(enabled),
    ensures
        provenance_spec(subject, enabled, confirmed, line, Seq::empty()) is None,
{
}

// ---- callers by location ----

/// A function or method of `file` whose lines cover `line`.
pub open spec fn covers(sym: SymbolText, file: Seq<char>, line: usize) -> bool {
    &&& sym.kind == SymbolKind::Function || sym.kind == SymbolKind::Method
    &&& sym.file_path == file
    &&& sym.start_line <= line <= sym.end_line
}

pub open spec fn extent(sym: SymbolText) -> int {
    if sym.end_line >= sym.start_line {
        sym.end_line - sym.start_line
    } else {
        0
    }
}

/// The covering symbol with the tightest range; the first of several.
pub open spec fn enclosing_spec(symbols: Seq<SymbolText>, file: Seq<char>, line: usize) -> Option<
    int,
>
    decreases symbols.len(),
{
    if symbols.len() == 0 {
        None
    } else {
        let before = enclosing_spec(symbols.drop_last(), file, line);
        let last = symbols.last();
        if covers(last, file, line) && (before is None || extent(last) < extent(
            symbols[before->Some_0],
        )) {
            Some(symbols.len() - 1)
        } else {
            before
        }
    }
}

/// The place of the function or method whose body contains `file:line`.
pub fn enclosing_function_at(symbols: &[Symbol], file: &str, line: usize) -> (r: Option<usize>)
    ensures
        (match r {
            Some(i) => Some(i as int),
            None => None,
        }) == enclosing_spec(symbol_texts(symbols@), file@, line),
        r matches Some(i) ==> i < symbols@.len(),
{
    let ghost all = symbol_texts(symbols@);
    let mut best: Option<usize> = None;
    let mut i: usize = 0;
    while i < symbols.len()
        invariant
            i <= symbols@.len(),
            all == symbol_texts(symbols@),
            (match best {
                Some(k) => Some(k as int),
                None => None,
            }) == enclosing_spec(all.take(i as int), file@, line),
            best matches Some(k) ==> k < i && covers(all[k as int], file@, line),
        decreases symbols@.len() - i,
    {
        proof {
            assert(all.take(i + 1).drop_last() =~= all.take(i as int));
            assert(all.take(i + 1).last() == symbols@[i as int]@);
        }
        let sym = &symbols[i];
        if (sym.kind == SymbolKind::Function || sym.kind == SymbolKind::Method) && same_text(
            sym.file_path.as_str(),
            file,
        ) && sym.start_line <= line && line <= sym.end_line {
            let better = match best {
                None => true,
                Some(k) => sym.end_line - sym.start_line < symbols[k].end_line
                    - symbols[k].start_line,
            };
            if better {
                best = Some(i);
            }
        }
        i = i + 1;
    }
    proof {
        assert(all.take(all.len() as int) =~= all);
    }
    best
}

/// The symbol found covers the line, and none that covers it is tighter.
pub proof fn law_enclosing_function_is_tightest(
    symbols: Seq<SymbolText>,
    file: Seq<char>,
    line: usize,
)
    ensures
        enclosing_spec(symbols, file, line) matches Some(i) ==> 0 <= i < symbols.len() && covers(
            symbols[i],
            file,
            line,
        ) && forall|j: int|
            0 <= j < symbols.len() && covers(#[trigger] symbols[j], file, line) ==> extent(
                symbols[i],
            ) <= extent(symbols[j]),
        enclosing_spec(symbols, file, line) is None ==> forall|j: int|
            0 <= j < symbols.len() ==> !covers(#[trigger] symbols[j], file, line),
    decreases symbols.len(),
{
    if symbols.len() > 0 {
        let front = symbols.drop_last();
        law_enclosing_function_is_tightest(front, file, line);
        assert forall|j: int| 0 <= j < symbols.len() - 1 implies symbols[j] == front[j] by {}
    }
}

/// A reference is a call where its line names the function and is not where a symbol of
/// that name begins.
pub open spec fn is_call_reference(
    symbols: Seq<SymbolText>,
    function: Seq<char>,
    file: Seq<char>,
    line: usize,
    source_line: Seq<char>,
) -> bool {
    &&& contains_text(source_line, function)
    &&& !exists|i: int|
        0 <= i < symbols.len() && #[trigger] symbols[i].name == function && symbols[i].file_path
            == file && symbols[i].start_line == line
}

/// Whether a reference at `file:line` is a call rather than the definition or a
/// declaration of `function`.
pub fn reference_is_a_call(
    symbols: &[Symbol],
    function: &str,
    file: &str,
    line: usize,
    source_line: &str,
) -> (r: bool)
    ensures
        r == is_call_reference(symbol_texts(symbols@), function@, file@, line, source_line@),
{
    if !contains(source_line, function) {
        return false;
    }
    let ghost all = symbol_texts(symbols@);
    let mut i: usize = 0;
    while i < symbols.len()
        invariant
            i <= symbols@.len(),
            all == symbol_texts(symbols@),
            forall|j: int|
                0 <= j < i ==> !(#[trigger] all[j].name == function@ && all[j].file_path == file@
                    && all[j].start_line == line),
        decreases symbols@.len() - i,
    {
        proof {
            assert(all[i as int] == symbols@[i as int]@);
        }
        if same_text(symbols[i].name.as_str(), function) && same_text(
            symbols[i].file_path.as_str(),
            file,
        ) && symbols[i].start_line == line {
            proof {
                assert(all[i as int].name == function@);
            }
            return false;
        }
        i = i + 1;
    }
    true
}

// ---- ambiguous definitions ----

/// A symbol that is a definition of the chosen kind with a body.
pub open spec fn is_other_definition(s: SymbolText, kind: SymbolKind) -> bool {
    s.kind == kind && s.kind != SymbolKind::Implementation && s.end_line > s.start_line
}

/// The files that define the name, each once, in order.
pub open spec fn defining_files(matches: Seq<SymbolText>, kind: SymbolKind) -> Seq<Seq<char>> {
    dedup_texts(
        sort_texts(
            matches.filter(|s: SymbolText| is_other_definition(s, kind)).map_values(
                |s: SymbolText| s.file_path,
            ),
        ),
    )
}

pub open spec fn quoted(s: Seq<char>) -> Seq<char> {
    "`"@ + s + "`"@
}

pub open spec fn other_files(files: Seq<Seq<char>>, chosen: Seq<char>) -> Seq<Seq<char>> {
    files.filter(|f: Seq<char>| f != chosen)
}

/// The note on other definitions of the chosen symbol, empty where at most one file
/// defines the name.
pub open spec fn definition_note_spec(matches: Seq<SymbolText>, chosen: SymbolText) -> Seq<char> {
    let files = defining_files(matches, chosen.kind);
    if files.len() < 2 {
        Seq::empty()
    } else {
        "> `"@ + chosen.name + "` has "@ + decimal(files.len()) + " definitions. Showing `"@
            + chosen.name + "` ("@ + chosen.file_path + ":"@ + decimal(chosen.start_line as nat)
            + ").\n> Also defined in: "@ + join_spec(
            other_files(files, chosen.file_path).map_values(|f: Seq<char>| quoted(f)),
            ", "@,
        ) + ".\n\n"@
    }
}

pub(crate) fn quote(s: &str) -> (r: String)
    ensures
        r@ == quoted(s@),
{
    let mut out = "`".to_owned();
    out.append(s);
    out.append("`");
    out
}

fn definition_files(matches: &[Symbol], kind: SymbolKind) -> (r: Vec<String>)
    ensures
        texts(r@) == defining_files(symbol_texts(matches@), kind),
{
    let ghost pred = |s: SymbolText| is_other_definition(s, kind);
    let ghost file = |s: SymbolText| s.file_path;
    let ghost all = symbol_texts(matches@);
    let mut files: Vec<String> = Vec::new();
    let mut i: usize = 0;
    proof {
        reveal(Seq::filter);
        assert(all.take(0).filter(pred) =~= Seq::<SymbolText>::empty());
        assert(texts(files@) =~= all.take(0).filter(pred).map_values(file));
    }
    while i < matches.len()
        invariant
            i <= matches@.len(),
            all == symbol_texts(matches@),
            pred == (|s: SymbolText| is_other_definition(s, kind)),
            file == (|s: SymbolText| s.file_path),
            texts(files@) == all.take(i as int).filter(pred).map_values(file),
        decreases matches@.len() - i,
    {
        proof {
            reveal(Seq::filter);
            assert(all.take(i + 1).drop_last() =~= all.take(i as int));
            assert(all.take(i + 1).last() == matches@[i as int]@);
        }
        let s = &matches[i];
        if s.kind == kind && s.kind != SymbolKind::Implementation && s.end_line > s.start_line {
            let path = s.file_path.clone();
            proof {
                let kept = all.take(i as int).filter(pred);
                assert(texts(files@.push(path)) =~= texts(files@).push(path@));
                assert(kept.push(s@).map_values(file) =~= kept.map_values(file).push(path@));
            }
            files.push(path);
        }
        i = i + 1;
    }
    proof {
        assert(all.take(all.len() as int) =~= all);
    }
    let sorted = sort_strings(files.as_slice());
    dedup_strings(sorted.as_slice())
}

/// Names every other definition of a symbol, so that a caller who sees only the one
/// chosen learns that another exists.
pub fn symbol_definition_ambiguity_note(matches: &[Symbol], chosen: &Symbol) -> (r: String)
    ensures
        r@ == definition_note_spec(symbol_texts(matches@), chosen@),
{
    let files = definition_files(matches, chosen.kind);
    let ghost names = texts(files@);
    proof {
        assert(names.len() == files@.len());
    }
    if files.len() < 2 {
        return String::new();
    }
    let ghost pred = |f: Seq<char>| f != chosen.file_path@;
    let ghost shown = |f: Seq<char>| quoted(f);
    let mut others: Vec<String> = Vec::new();
    let mut i: usize = 0;
    proof {
        reveal(Seq::filter);
        assert(names.take(0).filter(pred) =~= Seq::<Seq<char>>::empty());
        assert(texts(others@) =~= names.take(0).filter(pred).map_values(shown));
    }
    while i < files.len()
        invariant
            i <= files@.len(),
            names == texts(files@),
            pred == (|f: Seq<char>| f != chosen.file_path@),
            shown == (|f: Seq<char>| quoted(f)),
            texts(others@) == names.take(i as int).filter(pred).map_values(shown),
        decreases files@.len() - i,
    {
        proof {
            reveal(Seq::filter);
            assert(names.take(i + 1).drop_last() =~= names.take(i as int));
            assert(names.take(i + 1).last() == files@[i as int]@);
        }
        if !same_text(files[i].as_str(), chosen.file_path.as_str()) {
            let q = quote(files[i].as_str());
            proof {
                let kept = names.take(i as int).filter(pred);
                assert(texts(others@.push(q)) =~= texts(others@).push(q@));
                assert(kept.push(files@[i as int]@).map_values(shown) =~= kept.map_values(
                    shown,
                ).push(q@));
            }
            others.push(q);
        }
        i = i + 1;
    }
    proof {
        assert(names.take(names.len() as int) =~= names);
    }
    let mut out = "> `".to_owned();
    out.append(chosen.name.as_str());
    out.append("` has ");
    let n = usize_text(files.len());
    out.append(n.as_str());
    out.append(" definitions. Showing `");
    out.append(chosen.name.as_str());
    out.append("` (");
    out.append(chosen.file_path.as_str());
    out.append(":");
    let line = usize_text(chosen.start_line);
    out.append(line.as_str());
    out.append(").\n> Also defined in: ");
    let list = join(others.as_slice(), ", ");
    out.append(list.as_str());
    out.append(".\n\n");
    out
}

/// The same symbols again.
pub(crate) fn copy_symbols(symbols: &[Symbol]) -> (r: Vec<Symbol>)
    ensures
        symbol_texts(r@) == symbol_texts(symbols@),
{
    let mut out: Vec<Symbol> = Vec::new();
    let mut i: usize = 0;
    while i < symbols.len()
        invariant
            i <= symbols@.len(),
            out@.len() == i,
            forall|j: int| 0 <= j < i ==> #[trigger] out@[j]@ == symbols@[j]@,
        decreases symbols@.len() - i,
    {
        out.push(symbols[i].copy());
        i = i + 1;
    }
    proof {
        assert(symbol_texts(out@) =~= symbol_texts(symbols@));
    }
    out
}

} // verus!
