//! Call edges: where they come from, how reports of them agree, and how they are shown.

use vstd::prelude::*;

use crate::languages::{
    get_language_from_path, get_language_from_path_spec, is_cxx_language, is_cxx_language_spec,
};
use crate::symbols::{
    clone_lines, enclosing_function_at, enclosing_spec, is_call_reference, reference_is_a_call,
    symbol_texts, SourceLine, SourceSet, Symbol, SymbolKind, SymbolText,
};
use crate::text::{
    decimal, find_chars, find_from, has_text, is_name_char, lemma_find_from, name_char, opt_text,
    same_text, split_once_chars, split_once_spec, texts, to_chars, to_text, trim_start_chars,
    trim_start_class, usize_text,
};

verus! {

// ---- keys ----

/// A function's key: its file and its name.
pub open spec fn key_of(file: Seq<char>, name: Seq<char>) -> Seq<char> {
    file + "::"@ + name
}

pub fn qualified_key(file: &str, name: &str) -> (r: String)
    ensures
        r@ == key_of(file@, name@),
{
    let mut out = file.to_owned();
    out.append("::");
    out.append(name);
    out
}

/// The file part of a key, or the whole key where it names no file.
pub open spec fn key_file(key: Seq<char>) -> Seq<char> {
    match split_once_spec(key, "::"@) {
        Some(parts) => parts.0,
        None => key,
    }
}

pub fn file_of_key(key: &str) -> (r: String)
    ensures
        r@ == key_file(key@),
{
    let chars = to_chars(key);
    let sep = to_chars("::");
    match split_once_chars(chars.as_slice(), sep.as_slice()) {
        Some(parts) => to_text(parts.0.as_slice()),
        None => key.to_owned(),
    }
}

// ---- edges ----

/// The label of a call whose kind no backend told.
pub const UNKNOWN_CALL: &'static str = "Unknown";

/// A call: the function it concerns, where it stands, and who reported it.
#[derive(Debug)]
pub struct CallEdge {
    pub target: String,
    pub file_path: String,
    pub line: usize,
    pub column: usize,
    pub call_type: String,
    pub scope_hint: Option<String>,
    pub confirmed_by: SourceSet,
    pub line_conflicts: Vec<SourceLine>,
}

/// An edge by its texts.
pub struct EdgeText {
    pub target: Seq<char>,
    pub file_path: Seq<char>,
    pub line: usize,
    pub column: usize,
    pub call_type: Seq<char>,
    pub scope_hint: Option<Seq<char>>,
    pub confirmed_by: SourceSet,
    pub line_conflicts: Seq<SourceLine>,
}

impl View for CallEdge {
    type V = EdgeText;

    open spec fn view(&self) -> EdgeText {
        EdgeText {
            target: self.target@,
            file_path: self.file_path@,
            line: self.line,
            column: self.column,
            call_type: self.call_type@,
            scope_hint: opt_text(self.scope_hint),
            confirmed_by: self.confirmed_by,
            line_conflicts: self.line_conflicts@,
        }
    }
}

pub open spec fn edge_texts(v: Seq<CallEdge>) -> Seq<EdgeText> {
    v.map_values(|e: CallEdge| e@)
}

/// An edge of which a backend reported only the place.
pub open spec fn plain_edge(
    target: Seq<char>,
    file: Seq<char>,
    line: usize,
    source: SourceSet,
) -> EdgeText {
    EdgeText {
        target,
        file_path: file,
        line,
        column: 0,
        call_type: UNKNOWN_CALL@,
        scope_hint: None,
        confirmed_by: source,
        line_conflicts: Seq::empty(),
    }
}

fn make_plain_edge(target: &str, file: &str, line: usize, source: SourceSet) -> (r: CallEdge)
    ensures
        r@ == plain_edge(target@, file@, line, source),
{
    let conflicts: Vec<SourceLine> = Vec::new();
    proof {
        assert(conflicts@ =~= Seq::<SourceLine>::empty());
    }
    CallEdge {
        target: target.to_owned(),
        file_path: file.to_owned(),
        line,
        column: 0,
        call_type: UNKNOWN_CALL.to_owned(),
        scope_hint: None,
        confirmed_by: source,
        line_conflicts: conflicts,
    }
}

// ---- call sites ----

/// The name at `start` stands as a whole word and an opening bracket follows it.
pub open spec fn called_at(text: Seq<char>, name: Seq<char>, start: int) -> bool {
    &&& !(start > 0 && is_name_char(text[start - 1]))
    &&& ({
        let rest = trim_start_class(text.skip(start + name.len()), Seq::empty(), true);
        rest.len() > 0 && rest[0] == '('
    })
}

/// A call of `name` stands behind `from`, looking at one mention after another.
pub open spec fn calls_from(text: Seq<char>, name: Seq<char>, from: int) -> bool
    decreases text.len() - from,
    when 0 <= from <= text.len() && name.len() > 0
    via calls_from_ends
{
    match find_from(text, name, from) {
        None => false,
        Some(start) => called_at(text, name, start) || calls_from(text, name, start + name.len()),
    }
}

#[via_fn]
proof fn calls_from_ends(text: Seq<char>, name: Seq<char>, from: int) {
    lemma_find_from(text, name, from);
}

/// A source line calls a function: it is no comment, and the name stands in it as a whole
/// word in front of an opening bracket.
pub open spec fn is_call(text: Seq<char>, name: Seq<char>, comment_only: bool) -> bool {
    !comment_only && calls_from(text, name, 0)
}

/// Whether `text`, the source line of a reference, calls `name`. A parameter of that name,
/// an address-of use and a comment all mention it without calling it.
pub fn is_call_site(text: &str, name: &str, comment_only: bool) -> (r: bool)
    requires
        name@.len() > 0,
    ensures
        r == is_call(text@, name@, comment_only),
{
    if comment_only {
        return false;
    }
    let chars = to_chars(text);
    let wanted = to_chars(name);
    let none: Vec<char> = Vec::new();
    proof {
        assert(none@ =~= Seq::<char>::empty());
    }
    let mut from: usize = 0;
    while from <= chars.len()
        invariant
            chars@ == text@,
            wanted@ == name@,
            none@ == Seq::<char>::empty(),
            name@.len() > 0,
            from <= chars@.len(),
            !comment_only,
            calls_from(text@, name@, 0) == calls_from(text@, name@, from as int),
        decreases chars@.len() - from,
    {
        proof {
            lemma_find_from(text@, name@, from as int);
        }
        match find_chars(chars.as_slice(), wanted.as_slice(), from) {
            None => {
                return false;
            },
            Some(start) => {
                let end: usize = start + wanted.len();
                let longer = start > 0 && name_char(chars[start - 1]);
                if !longer {
                    let rest = vstd::slice::slice_subrange(chars.as_slice(), end, chars.len());
                    let trimmed = trim_start_chars(rest, none.as_slice(), true);
                    proof {
                        assert(rest@ =~= text@.skip(end as int));
                    }
                    if trimmed.len() > 0 && trimmed[0] == '(' {
                        return true;
                    }
                }
                from = end;
            },
        }
    }
    false
}

// ---- edges the backends report ----

/// A function of a C or C++ file, with the line it begins on.
#[derive(Debug)]
pub struct CxxFunction {
    pub name: String,
    pub file_path: String,
    pub line: usize,
}

pub struct CxxFunctionText {
    pub name: Seq<char>,
    pub file_path: Seq<char>,
    pub line: usize,
}

impl View for CxxFunction {
    type V = CxxFunctionText;

    open spec fn view(&self) -> CxxFunctionText {
        CxxFunctionText { name: self.name@, file_path: self.file_path@, line: self.line }
    }
}

pub open spec fn function_texts(v: Seq<CxxFunction>) -> Seq<CxxFunctionText> {
    v.map_values(|f: CxxFunction| f@)
}

pub open spec fn is_routine(kind: SymbolKind) -> bool {
    kind == SymbolKind::Function || kind == SymbolKind::Method
}

pub open spec fn is_cxx_file(path: Seq<char>) -> bool {
    is_cxx_language_spec(get_language_from_path_spec(path))
}

pub fn cxx_file(path: &str) -> (r: bool)
    ensures
        r == is_cxx_file(path@),
{
    is_cxx_language(get_language_from_path(path))
}

/// The functions and methods of C and C++ files.
pub open spec fn cxx_functions_of(symbols: Seq<SymbolText>) -> Seq<CxxFunctionText>
    decreases symbols.len(),
{
    if symbols.len() == 0 {
        Seq::empty()
    } else {
        let front = cxx_functions_of(symbols.drop_last());
        let s = symbols.last();
        if is_routine(s.kind) && is_cxx_file(s.file_path) {
            front.push(
                CxxFunctionText { name: s.name, file_path: s.file_path, line: s.start_line },
            )
        } else {
            front
        }
    }
}

pub fn cxx_functions(symbols: &[Symbol]) -> (r: Vec<CxxFunction>)
    ensures
        function_texts(r@) == cxx_functions_of(symbol_texts(symbols@)),
{
    let ghost all = symbol_texts(symbols@);
    let mut out: Vec<CxxFunction> = Vec::new();
    let mut i: usize = 0;
    proof {
        assert(function_texts(out@) =~= cxx_functions_of(all.take(0)));
    }
    while i < symbols.len()
        invariant
            i <= symbols@.len(),
            all == symbol_texts(symbols@),
            function_texts(out@) == cxx_functions_of(all.take(i as int)),
        decreases symbols@.len() - i,
    {
        proof {
            assert(all.take(i + 1).drop_last() =~= all.take(i as int));
            assert(all.take(i + 1).last() == symbols@[i as int]@);
        }
        let s = &symbols[i];
        if (s.kind == SymbolKind::Function || s.kind == SymbolKind::Method) && cxx_file(
            s.file_path.as_str(),
        ) {
            let f = CxxFunction {
                name: s.name.clone(),
                file_path: s.file_path.clone(),
                line: s.start_line,
            };
            proof {
                assert(function_texts(out@.push(f)) =~= function_texts(out@).push(f@));
            }
            out.push(f);
        }
        i = i + 1;
    }
    proof {
        assert(all.take(all.len() as int) =~= all);
    }
    out
}

/// The call-hierarchy pass runs where a language server is there, augmentation is not
/// switched off, and the repository has a build manifest: without one every call would
/// parse its file cold.
pub fn call_hierarchy_pass_runs(lsp: bool, augment_disabled: bool, manifest: bool) -> (r: bool)
    ensures
        r == (lsp && !augment_disabled && manifest),
        r == pass_runs(lsp, augment_disabled, manifest),
{
    lsp && !augment_disabled && manifest
}

pub open spec fn pass_runs(lsp: bool, augment_disabled: bool, manifest: bool) -> bool {
    lsp && !augment_disabled && manifest
}

/// How many files the servers are asked about at a time.
pub const CXX_AUGMENT_CONCURRENCY: usize = 6;

/// How long the call-hierarchy pass may start on new files, in nanoseconds.
pub const CXX_CALLHIERARCHY_BUDGET_NANOS: u128 = 30_000_000_000;

/// What becomes of a file in the call-hierarchy pass.
#[derive(Debug, Clone, Copy, PartialEq, Eq, Structural)]
pub enum FileQuestion {
    /// The servers are asked about its functions.
    Ask,
    /// It is outside the scope or outside the repository.
    PassOver,
    /// The time is spent.
    TooLate,
}

/// Decides what becomes of a file in the call-hierarchy pass. A file under way is finished;
/// the budget only keeps further ones from being started.
pub fn call_hierarchy_question(allowed: bool, inside: bool, elapsed_nanos: u128) -> (r: FileQuestion)
    ensures
        r == (if !allowed || !inside {
            FileQuestion::PassOver
        } else if elapsed_nanos > CXX_CALLHIERARCHY_BUDGET_NANOS {
            FileQuestion::TooLate
        } else {
            FileQuestion::Ask
        }),
        r == file_question(allowed, inside, elapsed_nanos),
{
    if !allowed || !inside {
        FileQuestion::PassOver
    } else if elapsed_nanos > CXX_CALLHIERARCHY_BUDGET_NANOS {
        FileQuestion::TooLate
    } else {
        FileQuestion::Ask
    }
}

pub open spec fn file_question(allowed: bool, inside: bool, elapsed_nanos: u128) -> FileQuestion {
    if !allowed || !inside {
        FileQuestion::PassOver
    } else if elapsed_nanos > CXX_CALLHIERARCHY_BUDGET_NANOS {
        FileQuestion::TooLate
    } else {
        FileQuestion::Ask
    }
}

/// The functions of one file, as the call-hierarchy pass asks for them.
#[derive(Debug)]
pub struct FileFunctions {
    pub file_path: String,
    pub functions: Vec<CxxFunction>,
}

pub struct FileFunctionsText {
    pub file_path: Seq<char>,
    pub functions: Seq<CxxFunctionText>,
}

impl View for FileFunctions {
    type V = FileFunctionsText;

    open spec fn view(&self) -> FileFunctionsText {
        FileFunctionsText {
            file_path: self.file_path@,
            functions: function_texts(self.functions@),
        }
    }
}

pub open spec fn group_texts(v: Seq<FileFunctions>) -> Seq<FileFunctionsText> {
    v.map_values(|g: FileFunctions| g@)
}

/// Each file of the functions once, in the order of first mention.
pub open spec fn files_of(functions: Seq<CxxFunctionText>) -> Seq<Seq<char>>
    decreases functions.len(),
{
    if functions.len() == 0 {
        Seq::empty()
    } else {
        let front = files_of(functions.drop_last());
        if front.contains(functions.last().file_path) {
            front
        } else {
            front.push(functions.last().file_path)
        }
    }
}

pub open spec fn in_file(functions: Seq<CxxFunctionText>, file: Seq<char>) -> Seq<CxxFunctionText> {
    functions.filter(|f: CxxFunctionText| f.file_path == file)
}

/// The functions by file, so that each file is opened once.
pub open spec fn grouped(functions: Seq<CxxFunctionText>) -> Seq<FileFunctionsText> {
    files_of(functions).map_values(
        |file: Seq<char>|
            FileFunctionsText { file_path: file, functions: in_file(functions, file) },
    )
}

fn function_files(functions: &[CxxFunction]) -> (r: Vec<String>)
    ensures
        texts(r@) == files_of(function_texts(functions@)),
{
    let ghost all = function_texts(functions@);
    let mut out: Vec<String> = Vec::new();
    let mut i: usize = 0;
    proof {
        assert(texts(out@) =~= files_of(all.take(0)));
    }
    while i < functions.len()
        invariant
            i <= functions@.len(),
            all == function_texts(functions@),
            texts(out@) == files_of(all.take(i as int)),
        decreases functions@.len() - i,
    {
        proof {
            assert(all.take(i + 1).drop_last() =~= all.take(i as int));
            assert(all.take(i + 1).last() == functions@[i as int]@);
        }
        if !has_text(out.as_slice(), functions[i].file_path.as_str()) {
            let f = functions[i].file_path.clone();
            proof {
                assert(texts(out@.push(f)) =~= texts(out@).push(f@));
            }
            out.push(f);
        }
        i = i + 1;
    }
    proof {
        assert(all.take(all.len() as int) =~= all);
    }
    out
}

fn functions_in(functions: &[CxxFunction], file: &str) -> (r: Vec<CxxFunction>)
    ensures
        function_texts(r@) == in_file(function_texts(functions@), file@),
{
    let ghost all = function_texts(functions@);
    let ghost pred = |f: CxxFunctionText| f.file_path == file@;
    let mut out: Vec<CxxFunction> = Vec::new();
    let mut i: usize = 0;
    proof {
        reveal(Seq::filter);
        assert(function_texts(out@) =~= all.take(0).filter(pred));
    }
    while i < functions.len()
        invariant
            i <= functions@.len(),
            all == function_texts(functions@),
            pred == (|f: CxxFunctionText| f.file_path == file@),
            function_texts(out@) == all.take(i as int).filter(pred),
        decreases functions@.len() - i,
    {
        proof {
            reveal(Seq::filter);
            assert(all.take(i + 1).drop_last() =~= all.take(i as int));
            assert(all.take(i + 1).last() == functions@[i as int]@);
        }
        if same_text(functions[i].file_path.as_str(), file) {
            let f = CxxFunction {
                name: functions[i].name.clone(),
                file_path: functions[i].file_path.clone(),
                line: functions[i].line,
            };
            proof {
                assert(function_texts(out@.push(f)) =~= function_texts(out@).push(f@));
            }
            out.push(f);
        }
        i = i + 1;
    }
    proof {
        assert(all.take(all.len() as int) =~= all);
    }
    out
}

pub fn group_by_file(functions: &[CxxFunction]) -> (r: Vec<FileFunctions>)
    ensures
        group_texts(r@) == grouped(function_texts(functions@)),
{
    let files = function_files(functions);
    let ghost all = function_texts(functions@);
    let mut out: Vec<FileFunctions> = Vec::new();
    let mut i: usize = 0;
    while i < files.len()
        invariant
            i <= files@.len(),
            out@.len() == i,
            texts(files@) == files_of(all),
            all == function_texts(functions@),
            forall|j: int|
                0 <= j < i ==> (#[trigger] out@[j])@ == (FileFunctionsText {
                    file_path: files@[j]@,
                    functions: in_file(all, files@[j]@),
                }),
        decreases files@.len() - i,
    {
        let functions_here = functions_in(functions, files[i].as_str());
        let file_path = files[i].clone();
        out.push(FileFunctions { file_path, functions: functions_here });
        i = i + 1;
    }
    proof {
        assert(group_texts(out@) =~= grouped(all)) by {
            assert forall|j: int| 0 <= j < out@.len() implies group_texts(out@)[j] == grouped(
                all,
            )[j] by {
                assert(files_of(all)[j] == files@[j]@);
            }
        }
    }
    out
}

/// Every function is asked for in the group of its file.
pub proof fn law_every_function_is_asked_for(functions: Seq<CxxFunctionText>, i: int)
    requires
        0 <= i < functions.len(),
    ensures
        exists|g: int|
            0 <= g < grouped(functions).len() && (#[trigger] grouped(functions)[g]).file_path
                == functions[i].file_path && grouped(functions)[g].functions.contains(functions[i]),
{
    let file = functions[i].file_path;
    lemma_file_is_listed(functions, i);
    let g = choose|g: int| 0 <= g < files_of(functions).len() && files_of(functions)[g] == file;
    let pred = |f: CxxFunctionText| f.file_path == file;
    lemma_filter_has(functions, pred, i);
    assert(grouped(functions)[g].file_path == file);
}

proof fn lemma_file_is_listed(functions: Seq<CxxFunctionText>, i: int)
    requires
        0 <= i < functions.len(),
    ensures
        files_of(functions).contains(functions[i].file_path),
    decreases functions.len(),
{
    let front = functions.drop_last();
    if i < front.len() {
        lemma_file_is_listed(front, i);
        let k = choose|k: int|
            0 <= k < files_of(front).len() && files_of(front)[k] == functions[i].file_path;
        assert(files_of(functions)[k] == functions[i].file_path);
    } else if !files_of(front).contains(functions.last().file_path) {
        assert(files_of(functions).last() == functions[i].file_path);
    }
}

proof fn lemma_filter_has<T>(s: Seq<T>, pred: spec_fn(T) -> bool, i: int)
    requires
        0 <= i < s.len(),
        pred(s[i]),
    ensures
        s.filter(pred).contains(s[i]),
    decreases s.len(),
{
    reveal(Seq::filter);
    let front = s.drop_last();
    if i < front.len() {
        assert(front[i] == s[i]);
        lemma_filter_has(front, pred, i);
        let k = choose|k: int| 0 <= k < front.filter(pred).len() && front.filter(pred)[k] == s[i];
        assert(s.filter(pred)[k] == s[i]);
    } else {
        assert(s.filter(pred).last() == s[i]);
    }
}

/// An outgoing call a language server resolved: the callee and the line of the call.
#[derive(Debug)]
pub struct OutgoingCall {
    pub callee: String,
    pub line: usize,
}

/// An edge with the key of its caller.
#[derive(Debug)]
pub struct KeyedEdge {
    pub caller: String,
    pub edge: CallEdge,
}

pub struct KeyedEdgeText {
    pub caller: Seq<char>,
    pub edge: EdgeText,
}

impl View for KeyedEdge {
    type V = KeyedEdgeText;

    open spec fn view(&self) -> KeyedEdgeText {
        KeyedEdgeText { caller: self.caller@, edge: self.edge@ }
    }
}

pub open spec fn keyed_texts(v: Seq<KeyedEdge>) -> Seq<KeyedEdgeText> {
    v.map_values(|k: KeyedEdge| k@)
}

pub open spec fn outgoing_texts(v: Seq<OutgoingCall>) -> Seq<(Seq<char>, usize)> {
    v.map_values(|c: OutgoingCall| (c.callee@, c.line))
}

/// The edges of one function's outgoing calls.
pub open spec fn outgoing_edges(
    file: Seq<char>,
    name: Seq<char>,
    calls: Seq<(Seq<char>, usize)>,
    backend: SourceSet,
) -> Seq<KeyedEdgeText> {
    calls.map_values(
        |c: (Seq<char>, usize)|
            KeyedEdgeText {
                caller: key_of(file, name),
                edge: plain_edge(c.0, file, c.1, backend),
            },
    )
}

/// The edges of a file's functions, each function with the answer in its place.
pub open spec fn hierarchy_edges(
    file: Seq<char>,
    functions: Seq<CxxFunctionText>,
    answers: Seq<Seq<(Seq<char>, usize)>>,
    backend: SourceSet,
) -> Seq<KeyedEdgeText>
    decreases functions.len(),
{
    if functions.len() == 0 || answers.len() == 0 {
        Seq::empty()
    } else {
        outgoing_edges(file, functions[0].name, answers[0], backend) + hierarchy_edges(
            file,
            functions.skip(1),
            answers.skip(1),
            backend,
        )
    }
}

pub open spec fn answer_texts(v: Seq<Vec<OutgoingCall>>) -> Seq<Seq<(Seq<char>, usize)>> {
    v.map_values(|a: Vec<OutgoingCall>| outgoing_texts(a@))
}

/// Maps the call-hierarchy answers of one file, aligned with its functions, onto edges of
/// the callers.
pub fn call_hierarchy_edges(
    group: &FileFunctions,
    answers: &[Vec<OutgoingCall>],
    backend: SourceSet,
) -> (r: Vec<KeyedEdge>)
    ensures
        keyed_texts(r@) == hierarchy_edges(
            group@.file_path,
            group@.functions,
            answer_texts(answers@),
            backend,
        ),
{
    let ghost fs = group@.functions;
    let ghost ans = answer_texts(answers@);
    let ghost file = group@.file_path;
    let mut out: Vec<KeyedEdge> = Vec::new();
    let mut i: usize = 0;
    proof {
        assert(fs.skip(0) =~= fs);
        assert(ans.skip(0) =~= ans);
        assert(keyed_texts(out@) + hierarchy_edges(file, fs, ans, backend) =~= hierarchy_edges(
            file,
            fs,
            ans,
            backend,
        ));
    }
    while i < group.functions.len() && i < answers.len()
        invariant
            i <= group.functions@.len(),
            i <= answers@.len(),
            fs == group@.functions,
            file == group.file_path@,
            ans == answer_texts(answers@),
            hierarchy_edges(file, fs, ans, backend) == keyed_texts(out@) + hierarchy_edges(
                file,
                fs.skip(i as int),
                ans.skip(i as int),
                backend,
            ),
        decreases group.functions@.len() - i,
    {
        let ghost before = keyed_texts(out@);
        let ghost calls = outgoing_texts(answers@[i as int]@);
        let ghost name = group.functions@[i as int].name@;
        proof {
            assert(fs.skip(i as int)[0] == group.functions@[i as int]@);
            assert(ans.skip(i as int)[0] == calls);
            assert(fs.skip(i as int).skip(1) =~= fs.skip(i + 1));
            assert(ans.skip(i as int).skip(1) =~= ans.skip(i + 1));
            assert(before + outgoing_edges(file, name, calls.take(0), backend) =~= before);
        }
        let mut k: usize = 0;
        while k < answers[i as usize].len()
            invariant
                i < group.functions@.len(),
                i < answers@.len(),
                k <= answers@[i as int]@.len(),
                file == group.file_path@,
                name == group.functions@[i as int].name@,
                calls == outgoing_texts(answers@[i as int]@),
                keyed_texts(out@) == before + outgoing_edges(
                    file,
                    name,
                    calls.take(k as int),
                    backend,
                ),
            decreases answers@[i as int]@.len() - k,
        {
            let caller = qualified_key(
                group.file_path.as_str(),
                group.functions[i].name.as_str(),
            );
            let call = &answers[i][k];
            let edge = make_plain_edge(
                call.callee.as_str(),
                group.file_path.as_str(),
                call.line,
                backend,
            );
            let item = KeyedEdge { caller, edge };
            proof {
                assert(keyed_texts(out@.push(item)) =~= keyed_texts(out@).push(item@));
                let so_far = outgoing_edges(file, name, calls.take(k as int), backend);
                assert(outgoing_edges(file, name, calls.take(k + 1), backend) =~= so_far.push(
                    item@,
                ));
                assert((before + so_far).push(item@) =~= before + so_far.push(item@));
            }
            out.push(item);
            k = k + 1;
        }
        proof {
            assert(calls.take(calls.len() as int) =~= calls);
            let these = outgoing_edges(file, name, calls, backend);
            let rest = hierarchy_edges(file, fs.skip(i + 1), ans.skip(i + 1), backend);
            assert((before + these) + rest =~= before + (these + rest));
        }
        i = i + 1;
    }
    proof {
        let rest = hierarchy_edges(file, fs.skip(i as int), ans.skip(i as int), backend);
        assert(rest =~= Seq::<KeyedEdgeText>::empty());
        assert(keyed_texts(out@) + rest =~= keyed_texts(out@));
    }
    out
}

/// A use of a name that the tag database reports, with whether its line is a comment.
#[derive(Debug)]
pub struct TagReference {
    pub file_path: String,
    pub line: usize,
    pub text: String,
    pub comment_only: bool,
}

pub struct TagReferenceText {
    pub file_path: Seq<char>,
    pub line: usize,
    pub text: Seq<char>,
    pub comment_only: bool,
}

impl View for TagReference {
    type V = TagReferenceText;

    open spec fn view(&self) -> TagReferenceText {
        TagReferenceText {
            file_path: self.file_path@,
            line: self.line,
            text: self.text@,
            comment_only: self.comment_only,
        }
    }
}

pub open spec fn tag_reference_texts(v: Seq<TagReference>) -> Seq<TagReferenceText> {
    v.map_values(|t: TagReference| t@)
}

/// The first function or method of `file` whose lines cover `line`.
pub open spec fn first_covering(symbols: Seq<SymbolText>, file: Seq<char>, line: usize) -> Option<
    SymbolText,
>
    decreases symbols.len(),
{
    if symbols.len() == 0 {
        None
    } else if crate::symbols::covers(symbols[0], file, line) {
        Some(symbols[0])
    } else {
        first_covering(symbols.skip(1), file, line)
    }
}

/// The edge a reported use stands for: it has to be a call, inside a function, and not the
/// definition itself.
pub open spec fn tag_edge(
    callee: Seq<char>,
    t: TagReferenceText,
    symbols: Seq<SymbolText>,
) -> Option<KeyedEdgeText> {
    if !is_call(t.text, callee, t.comment_only) {
        None
    } else {
        match first_covering(symbols, t.file_path, t.line) {
            None => None,
            Some(caller) => if caller.name == callee && caller.start_line == t.line {
                None
            } else {
                Some(
                    KeyedEdgeText {
                        caller: key_of(caller.file_path, caller.name),
                        edge: plain_edge(callee, t.file_path, t.line, SourceSet::gtags()),
                    },
                )
            },
        }
    }
}

pub open spec fn tag_edges(
    callee: Seq<char>,
    refs: Seq<TagReferenceText>,
    symbols: Seq<SymbolText>,
) -> Seq<KeyedEdgeText>
    decreases refs.len(),
{
    if refs.len() == 0 {
        Seq::empty()
    } else {
        let front = tag_edges(callee, refs.drop_last(), symbols);
        match tag_edge(callee, refs.last(), symbols) {
            Some(e) => front.push(e),
            None => front,
        }
    }
}

fn find_covering(symbols: &[Symbol], file: &str, line: usize) -> (r: Option<usize>)
    ensures
        match r {
            Some(i) => i < symbols@.len() && first_covering(
                symbol_texts(symbols@),
                file@,
                line,
            ) == Some(symbols@[i as int]@),
            None => first_covering(symbol_texts(symbols@), file@, line) is None,
        },
{
    let ghost all = symbol_texts(symbols@);
    let mut i: usize = 0;
    proof {
        assert(all.skip(0) =~= all);
    }
    while i < symbols.len()
        invariant
            i <= symbols@.len(),
            all == symbol_texts(symbols@),
            first_covering(all, file@, line) == first_covering(all.skip(i as int), file@, line),
        decreases symbols@.len() - i,
    {
        proof {
            assert(all.skip(i as int)[0] == symbols@[i as int]@);
            assert(all.skip(i as int).skip(1) =~= all.skip(i + 1));
        }
        let sym = &symbols[i];
        if (sym.kind == SymbolKind::Function || sym.kind == SymbolKind::Method) && same_text(
            sym.file_path.as_str(),
            file,
        ) && sym.start_line <= line && line <= sym.end_line {
            return Some(i);
        }
        i = i + 1;
    }
    None
}

/// The edges that the tag database's uses of `callee` stand for. A use is mapped back to
/// the function it stands in, which is the caller.
pub fn gtags_call_edges(callee: &str, refs: &[TagReference], symbols: &[Symbol]) -> (r: Vec<
    KeyedEdge,
>)
    requires
        callee@.len() > 0,
    ensures
        keyed_texts(r@) == tag_edges(
            callee@,
            tag_reference_texts(refs@),
            symbol_texts(symbols@),
        ),
{
    let ghost all = tag_reference_texts(refs@);
    let ghost syms = symbol_texts(symbols@);
    let mut out: Vec<KeyedEdge> = Vec::new();
    let mut i: usize = 0;
    proof {
        assert(keyed_texts(out@) =~= tag_edges(callee@, all.take(0), syms));
    }
    while i < refs.len()
        invariant
            i <= refs@.len(),
            callee@.len() > 0,
            all == tag_reference_texts(refs@),
            syms == symbol_texts(symbols@),
            keyed_texts(out@) == tag_edges(callee@, all.take(i as int), syms),
        decreases refs@.len() - i,
    {
        proof {
            assert(all.take(i + 1).drop_last() =~= all.take(i as int));
            assert(all.take(i + 1).last() == refs@[i as int]@);
        }
        let t = &refs[i];
        if is_call_site(t.text.as_str(), callee, t.comment_only) {
            match find_covering(symbols, t.file_path.as_str(), t.line) {
                Some(k) => {
                    let caller = &symbols[k];
                    if !(same_text(caller.name.as_str(), callee) && caller.start_line == t.line) {
                        let key = qualified_key(caller.file_path.as_str(), caller.name.as_str());
                        let edge = make_plain_edge(
                            callee,
                            t.file_path.as_str(),
                            t.line,
                            SourceSet::gtags(),
                        );
                        let item = KeyedEdge { caller: key, edge };
                        proof {
                            assert(keyed_texts(out@.push(item)) =~= keyed_texts(out@).push(item@));
                        }
                        out.push(item);
                    }
                },
                None => {},
            }
        }
        i = i + 1;
    }
    proof {
        assert(all.take(all.len() as int) =~= all);
    }
    out
}

/// Every edge made from the tag database stands for a reported use that is a call of the
/// function that was asked for, and is marked as the tag database's.
pub proof fn law_tag_edges_are_calls(
    callee: Seq<char>,
    refs: Seq<TagReferenceText>,
    symbols: Seq<SymbolText>,
)
    ensures
        forall|i: int|
            0 <= i < tag_edges(callee, refs, symbols).len() ==> {
                let e = (#[trigger] tag_edges(callee, refs, symbols)[i]).edge;
                e.target == callee && e.confirmed_by == SourceSet::gtags() && exists|j: int|
                    0 <= j < refs.len() && (#[trigger] refs[j]).file_path == e.file_path
                        && refs[j].line == e.line && is_call(
                        refs[j].text,
                        callee,
                        refs[j].comment_only,
                    )
            },
    decreases refs.len(),
{
    if refs.len() > 0 {
        let front = refs.drop_last();
        law_tag_edges_are_calls(callee, front, symbols);
        let all = tag_edges(callee, refs, symbols);
        let before = tag_edges(callee, front, symbols);
        assert forall|i: int| 0 <= i < all.len() implies {
            let e = (#[trigger] all[i]).edge;
            e.target == callee && e.confirmed_by == SourceSet::gtags() && exists|j: int|
                0 <= j < refs.len() && (#[trigger] refs[j]).file_path == e.file_path
                    && refs[j].line == e.line && is_call(refs[j].text, callee, refs[j].comment_only)
        } by {
            if i < before.len() {
                assert(all[i] == before[i]);
                let e = before[i].edge;
                let j = choose|j: int|
                    0 <= j < front.len() && (#[trigger] front[j]).file_path == e.file_path
                        && front[j].line == e.line && is_call(
                        front[j].text,
                        callee,
                        front[j].comment_only,
                    );
                assert(refs[j] == front[j]);
            } else {
                assert(refs[refs.len() - 1] == refs.last());
            }
        }
    }
}

// ---- callers a language server reports ----

/// A reference a language server reports, with its source line.
#[derive(Debug)]
pub struct Reference {
    pub file_path: String,
    pub line: usize,
    pub content: String,
}

pub struct ReferenceText {
    pub file_path: Seq<char>,
    pub line: usize,
    pub content: Seq<char>,
}

impl View for Reference {
    type V = ReferenceText;

    open spec fn view(&self) -> ReferenceText {
        ReferenceText { file_path: self.file_path@, line: self.line, content: self.content@ }
    }
}

pub open spec fn reference_texts(v: Seq<Reference>) -> Seq<ReferenceText> {
    v.map_values(|r: Reference| r@)
}

/// Some edge stands at this place.
pub open spec fn edge_at(edges: Seq<EdgeText>, file: Seq<char>, line: usize) -> bool {
    exists|i: int|
        0 <= i < edges.len() && #[trigger] edges[i].file_path == file && edges[i].line == line
}

/// Every edge at this place is confirmed by `source` too.
pub open spec fn confirm_at(
    edges: Seq<EdgeText>,
    file: Seq<char>,
    line: usize,
    source: SourceSet,
) -> Seq<EdgeText> {
    edges.map_values(
        |e: EdgeText|
            if e.file_path == file && e.line == line {
                EdgeText { confirmed_by: e.confirmed_by.union_spec(source), ..e }
            } else {
                e
            },
    )
}

/// The name of the function around a reference.
pub open spec fn caller_name(symbols: Seq<SymbolText>, file: Seq<char>, line: usize) -> Seq<char> {
    match enclosing_spec(symbols, file, line) {
        Some(i) => symbols[i].name,
        None => "<unknown>@"@ + decimal(line as nat),
    }
}

/// One reference merged into the callers: it confirms the edges of its place that the
/// parsed files gave, or, where it is a call, adds one.
pub open spec fn merge_reference(
    ast: Seq<EdgeText>,
    callers: Seq<EdgeText>,
    r: ReferenceText,
    function: Seq<char>,
    symbols: Seq<SymbolText>,
    source: SourceSet,
) -> Seq<EdgeText> {
    if edge_at(ast, r.file_path, r.line) {
        confirm_at(callers, r.file_path, r.line, source)
    } else if is_call_reference(symbols, function, r.file_path, r.line, r.content) {
        callers.push(
            plain_edge(
                caller_name(symbols, r.file_path, r.line),
                r.file_path,
                r.line,
                source,
            ),
        )
    } else {
        callers
    }
}

/// All references merged into the callers the parsed files gave.
pub open spec fn merged_callers(
    ast: Seq<EdgeText>,
    refs: Seq<ReferenceText>,
    function: Seq<char>,
    symbols: Seq<SymbolText>,
    source: SourceSet,
) -> Seq<EdgeText>
    decreases refs.len(),
{
    if refs.len() == 0 {
        ast
    } else {
        merge_reference(
            ast,
            merged_callers(ast, refs.drop_last(), function, symbols, source),
            refs.last(),
            function,
            symbols,
            source,
        )
    }
}

/// A place in a file.
#[derive(Debug)]
struct Place {
    file: String,
    line: usize,
}

fn places_of(edges: &Vec<CallEdge>) -> (r: Vec<Place>)
    ensures
        r@.len() == edges@.len(),
        forall|i: int|
            0 <= i < r@.len() ==> (#[trigger] r@[i]).file@ == edges@[i].file_path@ && r@[i].line
                == edges@[i].line,
{
    let mut out: Vec<Place> = Vec::new();
    let mut i: usize = 0;
    while i < edges.len()
        invariant
            i <= edges@.len(),
            out@.len() == i,
            forall|j: int|
                0 <= j < i ==> (#[trigger] out@[j]).file@ == edges@[j].file_path@ && out@[j].line
                    == edges@[j].line,
        decreases edges@.len() - i,
    {
        let file = edges[i].file_path.clone();
        out.push(Place { file, line: edges[i].line });
        i = i + 1;
    }
    out
}

fn has_place(places: &Vec<Place>, file: &str, line: usize) -> (r: bool)
    ensures
        r == exists|i: int|
            0 <= i < places@.len() && (#[trigger] places@[i]).file@ == file@ && places@[i].line
                == line,
{
    let mut i: usize = 0;
    while i < places.len()
        invariant
            i <= places@.len(),
            forall|j: int|
                0 <= j < i ==> !((#[trigger] places@[j]).file@ == file@ && places@[j].line == line),
        decreases places@.len() - i,
    {
        if places[i].line == line && same_text(places[i].file.as_str(), file) {
            return true;
        }
        i = i + 1;
    }
    false
}

fn confirm_edges(edges: &mut Vec<CallEdge>, file: &str, line: usize, source: SourceSet)
    ensures
        edge_texts(final(edges)@) == confirm_at(edge_texts(old(edges)@), file@, line, source),
{
    let ghost before = edge_texts(edges@);
    let ghost goal = confirm_at(before, file@, line, source);
    let mut i: usize = 0;
    let len: usize = edges.len();
    while i < len
        invariant
            i <= len,
            len == edges@.len(),
            before.len() == len,
            goal == confirm_at(before, file@, line, source),
            forall|j: int| 0 <= j < i ==> (#[trigger] edges@[j])@ == goal[j],
            forall|j: int| i <= j < len ==> (#[trigger] edges@[j])@ == before[j],
        decreases len - i,
    {
        proof {
            assert(edges@[i as int]@ == before[i as int]);
        }
        if edges[i].line == line && same_text(edges[i].file_path.as_str(), file) {
            let mut confirmed = edges[i].confirmed_by;
            confirmed.insert(source);
            let e = &edges[i];
            let entry = CallEdge {
                target: e.target.clone(),
                file_path: e.file_path.clone(),
                line: e.line,
                column: e.column,
                call_type: e.call_type.clone(),
                scope_hint: crate::symbols::clone_text(&e.scope_hint),
                confirmed_by: confirmed,
                line_conflicts: clone_lines(&e.line_conflicts),
            };
            edges.set(i, entry);
        }
        i = i + 1;
    }
    proof {
        assert(edge_texts(edges@) =~= goal) by {
            assert forall|j: int| 0 <= j < len implies edge_texts(edges@)[j] == goal[j] by {
                assert(edges@[j]@ == goal[j]);
            }
        }
    }
}

/// Merges the references of a language server into the callers the parsed files gave.
/// Where both know a place the edge records that the server agrees; a reference that only
/// the server knows becomes an edge if it is a call.
pub fn merge_lsp_callers(
    callers: Vec<CallEdge>,
    refs: &[Reference],
    function: &str,
    symbols: &[Symbol],
    source: SourceSet,
) -> (r: Vec<CallEdge>)
    ensures
        edge_texts(r@) == merged_callers(
            edge_texts(callers@),
            reference_texts(refs@),
            function@,
            symbol_texts(symbols@),
            source,
        ),
{
    let ghost ast = edge_texts(callers@);
    let ghost all = reference_texts(refs@);
    let ghost syms = symbol_texts(symbols@);
    let places = places_of(&callers);
    proof {
        assert forall|f: Seq<char>, l: usize|
            (exists|i: int|
                0 <= i < places@.len() && (#[trigger] places@[i]).file@ == f && places@[i].line
                    == l) == #[trigger] edge_at(ast, f, l) by {
            if edge_at(ast, f, l) {
                let i = choose|i: int|
                    0 <= i < ast.len() && #[trigger] ast[i].file_path == f && ast[i].line == l;
                assert(places@[i].file@ == f && places@[i].line == l);
            }
            if exists|i: int|
                0 <= i < places@.len() && (#[trigger] places@[i]).file@ == f && places@[i].line
                    == l {
                let i = choose|i: int|
                    0 <= i < places@.len() && (#[trigger] places@[i]).file@ == f && places@[i].line
                        == l;
                assert(ast[i].file_path == f && ast[i].line == l);
            }
        }
    }
    let mut out = callers;
    let mut i: usize = 0;
    proof {
        assert(all.take(0).len() == 0);
    }
    while i < refs.len()
        invariant
            i <= refs@.len(),
            all == reference_texts(refs@),
            syms == symbol_texts(symbols@),
            forall|f: Seq<char>, l: usize|
                (exists|i: int|
                    0 <= i < places@.len() && (#[trigger] places@[i]).file@ == f && places@[i].line
                        == l) == #[trigger] edge_at(ast, f, l),
            edge_texts(out@) == merged_callers(ast, all.take(i as int), function@, syms, source),
        decreases refs@.len() - i,
    {
        let r = &refs[i];
        proof {
            assert(all.take(i + 1).drop_last() =~= all.take(i as int));
            assert(all.take(i + 1).last() == r@);
            assert(edge_at(ast, r.file_path@, r.line) || !edge_at(ast, r.file_path@, r.line));
        }
        if has_place(&places, r.file_path.as_str(), r.line) {
            confirm_edges(&mut out, r.file_path.as_str(), r.line, source);
        } else if reference_is_a_call(
            symbols,
            function,
            r.file_path.as_str(),
            r.line,
            r.content.as_str(),
        ) {
            let caller = match enclosing_function_at(symbols, r.file_path.as_str(), r.line) {
                Some(k) => {
                    proof {
                        assert(syms[k as int] == symbols@[k as int]@);
                    }
                    symbols[k].name.clone()
                },
                None => {
                    let mut name = "<unknown>@".to_owned();
                    name.append(usize_text(r.line).as_str());
                    name
                },
            };
            let edge = make_plain_edge(caller.as_str(), r.file_path.as_str(), r.line, source);
            proof {
                assert(edge_texts(out@.push(edge)) =~= edge_texts(out@).push(edge@));
            }
            out.push(edge);
        }
        i = i + 1;
    }
    proof {
        assert(all.take(all.len() as int) =~= all);
    }
    out
}

/// A language server never takes a caller away, and never moves one: the callers of the
/// parsed files stay in their places, with at least the sources they had.
pub proof fn law_a_server_only_adds_callers(
    ast: Seq<EdgeText>,
    refs: Seq<ReferenceText>,
    function: Seq<char>,
    symbols: Seq<SymbolText>,
    source: SourceSet,
)
    ensures
        ({
            let merged = merged_callers(ast, refs, function, symbols, source);
            &&& merged.len() >= ast.len()
            &&& forall|i: int|
                0 <= i < ast.len() ==> (#[trigger] merged[i]).target == ast[i].target
                    && merged[i].file_path == ast[i].file_path && merged[i].line == ast[i].line
                    && merged[i].confirmed_by.holds(ast[i].confirmed_by)
        }),
    decreases refs.len(),
{
    if refs.len() > 0 {
        law_a_server_only_adds_callers(ast, refs.drop_last(), function, symbols, source);
        let before = merged_callers(ast, refs.drop_last(), function, symbols, source);
        let merged = merged_callers(ast, refs, function, symbols, source);
        assert forall|i: int| 0 <= i < ast.len() implies (#[trigger] merged[i]).target
            == ast[i].target && merged[i].file_path == ast[i].file_path && merged[i].line
            == ast[i].line && merged[i].confirmed_by.holds(ast[i].confirmed_by) by {
            assert(before[i].confirmed_by.holds(ast[i].confirmed_by));
        }
    }
}

// ---- folding sites ----

pub open spec fn same_site(a: EdgeText, b: EdgeText) -> bool {
    a.target == b.target && a.file_path == b.file_path && a.line == b.line
}

/// The first edge of the list at the same site.
pub open spec fn site_index(edges: Seq<EdgeText>, e: EdgeText) -> Option<int>
    decreases edges.len(),
{
    if edges.len() == 0 {
        None
    } else {
        match site_index(edges.drop_last(), e) {
            Some(i) => Some(i),
            None => if same_site(edges.last(), e) {
                Some(edges.len() - 1)
            } else {
                None
            },
        }
    }
}

pub open spec fn fold_site(edges: Seq<EdgeText>, e: EdgeText) -> Seq<EdgeText> {
    match site_index(edges, e) {
        Some(i) => edges.update(
            i,
            EdgeText { confirmed_by: edges[i].confirmed_by.union_spec(e.confirmed_by), ..edges[i] },
        ),
        None => edges.push(e),
    }
}

/// One edge per site: reports of the same call are one edge that all of them confirm.
pub open spec fn folded(edges: Seq<EdgeText>) -> Seq<EdgeText>
    decreases edges.len(),
{
    if edges.len() == 0 {
        Seq::empty()
    } else {
        fold_site(folded(edges.drop_last()), edges.last())
    }
}

proof fn lemma_site_index(edges: Seq<EdgeText>, e: EdgeText)
    ensures
        match site_index(edges, e) {
            Some(i) => 0 <= i < edges.len() && same_site(edges[i], e),
            None => forall|i: int| 0 <= i < edges.len() ==> !same_site(#[trigger] edges[i], e),
        },
    decreases edges.len(),
{
    if edges.len() > 0 {
        lemma_site_index(edges.drop_last(), e);
        match site_index(edges.drop_last(), e) {
            Some(i) => {
                assert(edges.drop_last()[i] == edges[i]);
            },
            None => {
                assert forall|i: int| 0 <= i < edges.len() - 1 implies !same_site(
                    #[trigger] edges[i],
                    e,
                ) by {
                    assert(edges.drop_last()[i] == edges[i]);
                }
            },
        }
    }
}

proof fn lemma_site_index_is(edges: Seq<EdgeText>, e: EdgeText, i: int)
    requires
        0 <= i < edges.len(),
        same_site(edges[i], e),
        forall|j: int| 0 <= j < i ==> !same_site(#[trigger] edges[j], e),
    ensures
        site_index(edges, e) == Some(i),
    decreases edges.len(),
{
    let front = edges.drop_last();
    if i == edges.len() - 1 {
        lemma_site_index(front, e);
        match site_index(front, e) {
            Some(j) => {
                assert(front[j] == edges[j]);
            },
            None => {},
        }
    } else {
        assert forall|j: int| 0 <= j < i implies !same_site(#[trigger] front[j], e) by {
            assert(front[j] == edges[j]);
        }
        lemma_site_index_is(front, e, i);
    }
}

fn find_site(edges: &Vec<CallEdge>, e: &CallEdge) -> (r: Option<usize>)
    ensures
        match r {
            Some(i) => i < edges@.len() && site_index(edge_texts(edges@), e@) == Some(i as int),
            None => site_index(edge_texts(edges@), e@) is None,
        },
{
    let ghost all = edge_texts(edges@);
    let mut i: usize = 0;
    while i < edges.len()
        invariant
            i <= edges@.len(),
            all == edge_texts(edges@),
            forall|j: int| 0 <= j < i ==> !same_site(#[trigger] all[j], e@),
        decreases edges@.len() - i,
    {
        proof {
            assert(all[i as int] == edges@[i as int]@);
        }
        if edges[i].line == e.line && same_text(edges[i].target.as_str(), e.target.as_str())
            && same_text(edges[i].file_path.as_str(), e.file_path.as_str()) {
            proof {
                lemma_site_index_is(all, e@, i as int);
            }
            return Some(i);
        }
        i = i + 1;
    }
    proof {
        lemma_site_index(all, e@);
    }
    None
}

pub(crate) fn copy_edge(e: &CallEdge, confirmed_by: SourceSet) -> (r: CallEdge)
    ensures
        r@ == (EdgeText { confirmed_by, ..e@ }),
{
    CallEdge {
        target: e.target.clone(),
        file_path: e.file_path.clone(),
        line: e.line,
        column: e.column,
        call_type: e.call_type.clone(),
        scope_hint: crate::symbols::clone_text(&e.scope_hint),
        confirmed_by,
        line_conflicts: clone_lines(&e.line_conflicts),
    }
}

/// Folds edges that report the same call.
pub fn fold_duplicate_sites(edges: &[CallEdge]) -> (r: Vec<CallEdge>)
    ensures
        edge_texts(r@) == folded(edge_texts(edges@)),
{
    let ghost all = edge_texts(edges@);
    let mut out: Vec<CallEdge> = Vec::new();
    let mut i: usize = 0;
    proof {
        assert(edge_texts(out@) =~= folded(all.take(0)));
    }
    while i < edges.len()
        invariant
            i <= edges@.len(),
            all == edge_texts(edges@),
            edge_texts(out@) == folded(all.take(i as int)),
        decreases edges@.len() - i,
    {
        let ghost before = edge_texts(out@);
        proof {
            assert(all.take(i + 1).drop_last() =~= all.take(i as int));
            assert(all.take(i + 1).last() == edges@[i as int]@);
        }
        match find_site(&out, &edges[i]) {
            Some(k) => {
                let mut confirmed = out[k].confirmed_by;
                confirmed.insert(edges[i].confirmed_by);
                let entry = copy_edge(&out[k], confirmed);
                proof {
                    assert(before[k as int] == out@[k as int]@);
                    assert(edge_texts(out@.update(k as int, entry)) =~= before.update(
                        k as int,
                        entry@,
                    ));
                }
                out.set(k, entry);
            },
            None => {
                let entry = copy_edge(&edges[i], edges[i].confirmed_by);
                proof {
                    assert(edge_texts(out@.push(entry)) =~= before.push(entry@));
                }
                out.push(entry);
            },
        }
        i = i + 1;
    }
    proof {
        assert(all.take(all.len() as int) =~= all);
    }
    out
}

/// Folding leaves no site twice.
pub proof fn law_folded_sites_are_distinct(edges: Seq<EdgeText>)
    ensures
        forall|i: int, j: int|
            0 <= i < j < folded(edges).len() ==> !same_site(
                #[trigger] folded(edges)[i],
                #[trigger] folded(edges)[j],
            ),
    decreases edges.len(),
{
    if edges.len() > 0 {
        let front = folded(edges.drop_last());
        law_folded_sites_are_distinct(edges.drop_last());
        lemma_site_index(front, edges.last());
    }
}

} // verus!
