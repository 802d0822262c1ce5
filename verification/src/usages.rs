//! Usages of a symbol, the exports and dependencies of a file, and access to resources.

use vstd::prelude::*;

use crate::budget::{fitting, truncate_on_char_boundary};
use crate::callgraph::{cxx_file, is_cxx_file, reference_texts, Reference, ReferenceText};
use crate::languages::{filename_like_spec, is_filename_like};
use crate::order::{
    lemma_sort_maps, rank_order, sort_ranked, sort_stable, sort_strings, sort_texts, text_less,
    text_lt, Ranked,
};
use crate::paths::{strip, strip_base};
use crate::search::{cached_texts, CachedFile, CachedText};
use crate::symbols::{symbol_texts, Symbol, SymbolText};
use crate::text::{
    concat, concat_texts, contains, contains_text, decimal, has_text, join, join_spec, lines,
    lines_of, lower_text, same_text, starts_with, sub_text, texts, to_chars, trim, trim_spec,
    usize_text,
};

verus! {

// ---- who is asked ----

/// The backends a usage query asks.
#[derive(Debug, Clone, Copy, PartialEq, Eq, Structural)]
pub struct UsageBackends {
    pub servers: bool,
    pub gtags: bool,
}

/// The symbol is one of C or C++.
pub open spec fn is_cxx_symbol(symbols: Seq<SymbolText>, symbol: Seq<char>) -> bool {
    exists|i: int|
        0 <= i < symbols.len() && #[trigger] symbols[i].name == symbol && is_cxx_file(
            symbols[i].file_path,
        )
}

/// Which backends a usage query asks: language servers for any language, the tag database
/// for C and C++ alone; none where neither runs.
pub fn usage_backends(servers: bool, gtags: bool, symbols: &[Symbol], symbol: &str) -> (r: Option<
    UsageBackends,
>)
    ensures
        r == if !servers && !gtags {
            None
        } else {
            Some(
                UsageBackends {
                    servers,
                    gtags: gtags && is_cxx_symbol(symbol_texts(symbols@), symbol@),
                },
            )
        },
{
    if !servers && !gtags {
        return None;
    }
    let ghost all = symbol_texts(symbols@);
    let mut cxx = false;
    let mut i: usize = 0;
    while i < symbols.len()
        invariant
            i <= symbols@.len(),
            all == symbol_texts(symbols@),
            cxx == exists|j: int|
                0 <= j < i && #[trigger] all[j].name == symbol@ && is_cxx_file(all[j].file_path),
        decreases symbols@.len() - i,
    {
        proof {
            assert(all[i as int] == symbols@[i as int]@);
        }
        if same_text(symbols[i].name.as_str(), symbol) && cxx_file(symbols[i].file_path.as_str()) {
            proof {
                assert(all[i as int].name == symbol@);
            }
            cxx = true;
        }
        i = i + 1;
    }
    Some(UsageBackends { servers, gtags: gtags && cxx })
}

/// What one backend answered.
#[derive(Debug)]
pub struct BackendAnswer {
    pub label: String,
    pub references: Vec<Reference>,
}

pub struct AnswerText {
    pub label: Seq<char>,
    pub references: Seq<ReferenceText>,
}

impl View for BackendAnswer {
    type V = AnswerText;

    open spec fn view(&self) -> AnswerText {
        AnswerText { label: self.label@, references: reference_texts(self.references@) }
    }
}

pub open spec fn backend_texts(v: Seq<BackendAnswer>) -> Seq<AnswerText> {
    v.map_values(|a: BackendAnswer| a@)
}

/// The answers that hold something.
pub open spec fn telling_answers(v: Seq<AnswerText>) -> Seq<AnswerText> {
    v.filter(|a: AnswerText| a.references.len() > 0)
}

/// Keeps the answers that hold something.
pub fn keep_telling(answers: Vec<BackendAnswer>) -> (r: Vec<BackendAnswer>)
    ensures
        backend_texts(r@) == telling_answers(backend_texts(answers@)),
{
    let ghost items = answers@;
    let ghost all = backend_texts(items);
    let ghost pred = |a: AnswerText| a.references.len() > 0;
    let mut rest = answers;
    let mut out: Vec<BackendAnswer> = Vec::new();
    let mut done: Ghost<int> = Ghost(0);
    proof {
        reveal(Seq::filter);
        assert(items.skip(0) =~= items);
        assert(backend_texts(out@) =~= all.take(0).filter(pred));
    }
    while rest.len() > 0
        invariant
            all == backend_texts(items),
            pred == (|a: AnswerText| a.references.len() > 0),
            0 <= done@ <= items.len(),
            rest@ == items.skip(done@),
            backend_texts(out@) == all.take(done@).filter(pred),
        decreases rest@.len(),
    {
        let a = rest.remove(0);
        proof {
            reveal(Seq::filter);
            assert(a == items[done@]);
            assert(rest@ =~= items.skip(done@ + 1));
            assert(all.take(done@ + 1).drop_last() =~= all.take(done@));
            assert(all.take(done@ + 1).last() == a@);
            assert(a@.references.len() == a.references@.len());
        }
        if a.references.len() > 0 {
            proof {
                assert(backend_texts(out@.push(a)) =~= backend_texts(out@).push(a@));
            }
            out.push(a);
        }
        done = Ghost(done@ + 1);
    }
    proof {
        assert(all.take(all.len() as int) =~= all);
    }
    out
}

// ---- rows ----

/// A place with a word on it.
#[derive(Debug)]
pub struct UsageRow {
    pub file: String,
    pub line: usize,
    pub label: String,
}

pub struct UsageText {
    pub file: Seq<char>,
    pub line: usize,
    pub label: Seq<char>,
}

impl View for UsageRow {
    type V = UsageText;

    open spec fn view(&self) -> UsageText {
        UsageText { file: self.file@, line: self.line, label: self.label@ }
    }
}

pub open spec fn usage_texts(v: Seq<UsageRow>) -> Seq<UsageText> {
    v.map_values(|u: UsageRow| u@)
}

pub open spec fn usage_before(a: UsageText, b: UsageText) -> bool {
    text_lt(a.file, b.file) || (a.file == b.file && a.line < b.line)
}

pub open spec fn usage_order() -> spec_fn(UsageText, UsageText) -> bool {
    |a: UsageText, b: UsageText| usage_before(a, b)
}

impl Ranked for UsageRow {
    open spec fn precedes(a: UsageRow, b: UsageRow) -> bool {
        usage_before(a@, b@)
    }

    fn is_before(&self, other: &UsageRow) -> (r: bool) {
        text_less(self.file.as_str(), other.file.as_str()) || (same_text(
            self.file.as_str(),
            other.file.as_str(),
        ) && self.line < other.line)
    }
}

pub open spec fn at_same_place(a: UsageText, b: UsageText) -> bool {
    a.file == b.file && a.line == b.line
}

/// Neighbours at the same place count once, the first of them.
pub open spec fn rows_once(rows: Seq<UsageText>) -> Seq<UsageText>
    decreases rows.len(),
{
    if rows.len() == 0 {
        Seq::empty()
    } else {
        let front = rows_once(rows.drop_last());
        if front.len() > 0 && at_same_place(front.last(), rows.last()) {
            front
        } else {
            front.push(rows.last())
        }
    }
}

fn once(rows: Vec<UsageRow>) -> (r: Vec<UsageRow>)
    ensures
        usage_texts(r@) == rows_once(usage_texts(rows@)),
{
    let ghost items = rows@;
    let ghost all = usage_texts(items);
    let mut rest = rows;
    let mut out: Vec<UsageRow> = Vec::new();
    let mut done: Ghost<int> = Ghost(0);
    proof {
        assert(items.skip(0) =~= items);
        assert(usage_texts(out@) =~= rows_once(all.take(0)));
    }
    while rest.len() > 0
        invariant
            all == usage_texts(items),
            0 <= done@ <= items.len(),
            rest@ == items.skip(done@),
            usage_texts(out@) == rows_once(all.take(done@)),
        decreases rest@.len(),
    {
        let row = rest.remove(0);
        let ghost before = usage_texts(out@);
        proof {
            assert(row == items[done@]);
            assert(rest@ =~= items.skip(done@ + 1));
            assert(all.take(done@ + 1).drop_last() =~= all.take(done@));
            assert(all.take(done@ + 1).last() == row@);
            assert(before.len() == out@.len());
            if out@.len() > 0 {
                assert(before.last() == out@.last()@);
            }
        }
        let len: usize = out.len();
        if !(len > 0 && out[len - 1].line == row.line && same_text(
            out[len - 1].file.as_str(),
            row.file.as_str(),
        )) {
            proof {
                assert(usage_texts(out@.push(row)) =~= before.push(row@));
            }
            out.push(row);
        }
        done = Ghost(done@ + 1);
    }
    proof {
        assert(all.take(all.len() as int) =~= all);
    }
    out
}

// ---- definitions and mentions ----

pub open spec fn definition_rows(
    symbols: Seq<SymbolText>,
    symbol: Seq<char>,
    tests: Seq<Seq<char>>,
) -> Seq<UsageText>
    decreases symbols.len(),
{
    if symbols.len() == 0 {
        Seq::empty()
    } else {
        let front = definition_rows(symbols.drop_last(), symbol, tests);
        let s = symbols.last();
        if s.name == symbol && !tests.contains(s.file_path) {
            front.push(
                UsageText {
                    file: s.file_path,
                    line: s.start_line,
                    label: s.kind.name_spec() + " definition"@,
                },
            )
        } else {
            front
        }
    }
}

fn find_definitions(symbols: &[Symbol], symbol: &str, tests: &[String]) -> (r: Vec<UsageRow>)
    ensures
        usage_texts(r@) == definition_rows(symbol_texts(symbols@), symbol@, texts(tests@)),
{
    let ghost all = symbol_texts(symbols@);
    let ghost ts = texts(tests@);
    let mut out: Vec<UsageRow> = Vec::new();
    let mut i: usize = 0;
    proof {
        assert(usage_texts(out@) =~= definition_rows(all.take(0), symbol@, ts));
    }
    while i < symbols.len()
        invariant
            i <= symbols@.len(),
            all == symbol_texts(symbols@),
            ts == texts(tests@),
            usage_texts(out@) == definition_rows(all.take(i as int), symbol@, ts),
        decreases symbols@.len() - i,
    {
        let s = &symbols[i];
        proof {
            assert(all.take(i + 1).drop_last() =~= all.take(i as int));
            assert(all.take(i + 1).last() == s@);
        }
        if same_text(s.name.as_str(), symbol) && !has_text(tests, s.file_path.as_str()) {
            let mut label = s.kind.name().to_owned();
            label.append(" definition");
            let row = UsageRow { file: s.file_path.clone(), line: s.start_line, label };
            proof {
                assert(usage_texts(out@.push(row)) =~= usage_texts(out@).push(row@));
            }
            out.push(row);
        }
        i = i + 1;
    }
    proof {
        assert(all.take(all.len() as int) =~= all);
    }
    out
}

/// A line that looks like an import.
pub open spec fn is_import_line(line: Seq<char>) -> bool {
    contains_text(line, "import "@) || contains_text(line, "use "@) || contains_text(
        line,
        "from "@,
    ) || contains_text(line, "require("@)
}

fn import_line(line: &str) -> (r: bool)
    ensures
        r == is_import_line(line@),
{
    contains(line, "import ") || contains(line, "use ") || contains(line, "from ") || contains(
        line,
        "require(",
    )
}

/// The mentions of a symbol among the first `n` lines of a file.
pub open spec fn line_mentions(
    rel: Seq<char>,
    lines: Seq<Seq<char>>,
    symbol: Seq<char>,
    imports: bool,
    n: int,
) -> Seq<UsageText>
    decreases n,
{
    if n <= 0 {
        Seq::empty()
    } else {
        let front = line_mentions(rel, lines, symbol, imports, n - 1);
        let line = lines[n - 1];
        if (!imports && is_import_line(line)) || !contains_text(line, symbol) {
            front
        } else {
            front.push(
                UsageText {
                    file: rel,
                    line: n as usize,
                    label: if is_import_line(line) {
                        "import"@
                    } else {
                        "usage"@
                    },
                },
            )
        }
    }
}

pub open spec fn file_mentions(
    f: CachedText,
    repo: Seq<char>,
    symbol: Seq<char>,
    imports: bool,
    tests: Seq<Seq<char>>,
) -> Seq<UsageText> {
    match strip_base(f.path, repo) {
        None => Seq::empty(),
        Some(rel) => if tests.contains(rel) {
            Seq::empty()
        } else {
            line_mentions(
                rel,
                lines_of(f.content),
                symbol,
                imports,
                lines_of(f.content).len() as int,
            )
        },
    }
}

pub open spec fn mentions(
    files: Seq<CachedText>,
    repo: Seq<char>,
    symbol: Seq<char>,
    imports: bool,
    tests: Seq<Seq<char>>,
) -> Seq<UsageText>
    decreases files.len(),
{
    if files.len() == 0 {
        Seq::empty()
    } else {
        mentions(files.drop_last(), repo, symbol, imports, tests) + file_mentions(
            files.last(),
            repo,
            symbol,
            imports,
            tests,
        )
    }
}

/// Finds the lines of a repository's files that mention a symbol.
pub fn find_mentions(
    files: &[CachedFile],
    repo: &str,
    symbol: &str,
    imports: bool,
    tests: &[String],
) -> (r: Vec<UsageRow>)
    ensures
        usage_texts(r@) == mentions(
            cached_texts(files@),
            repo@,
            symbol@,
            imports,
            texts(tests@),
        ),
{
    let ghost all = cached_texts(files@);
    let ghost ts = texts(tests@);
    let mut out: Vec<UsageRow> = Vec::new();
    let mut i: usize = 0;
    proof {
        assert(usage_texts(out@) =~= mentions(all.take(0), repo@, symbol@, imports, ts));
    }
    while i < files.len()
        invariant
            i <= files@.len(),
            all == cached_texts(files@),
            ts == texts(tests@),
            usage_texts(out@) == mentions(all.take(i as int), repo@, symbol@, imports, ts),
        decreases files@.len() - i,
    {
        let ghost before = usage_texts(out@);
        proof {
            assert(all.take(i + 1).drop_last() =~= all.take(i as int));
            assert(all.take(i + 1).last() == files@[i as int]@);
            assert(before + Seq::<UsageText>::empty() =~= before);
        }
        match strip(files[i].path.as_str(), repo) {
            Some(rel) => {
                if !has_text(tests, rel.as_str()) {
                    let found = lines(files[i].content.as_str());
                    let ghost ls = texts(found@);
                    let mut k: usize = 0;
                    while k < found.len()
                        invariant
                            k <= found@.len(),
                            ls == texts(found@),
                            usage_texts(out@) == before + line_mentions(
                                rel@,
                                ls,
                                symbol@,
                                imports,
                                k as int,
                            ),
                        decreases found@.len() - k,
                    {
                        proof {
                            assert(ls[k as int] == found@[k as int]@);
                        }
                        let is_import = import_line(found[k].as_str());
                        if (imports || !is_import) && contains(found[k].as_str(), symbol) {
                            let label = if is_import {
                                "import".to_owned()
                            } else {
                                "usage".to_owned()
                            };
                            let row = UsageRow { file: rel.clone(), line: k + 1, label };
                            proof {
                                let so_far = line_mentions(rel@, ls, symbol@, imports, k as int);
                                assert(usage_texts(out@.push(row)) =~= usage_texts(out@).push(row@));
                                assert((before + so_far).push(row@) =~= before + so_far.push(row@));
                            }
                            out.push(row);
                        }
                        k = k + 1;
                    }
                }
            },
            None => {},
        }
        i = i + 1;
    }
    proof {
        assert(all.take(all.len() as int) =~= all);
    }
    out
}

// ---- cross-validation ----

/// Some backend names the place.
pub open spec fn is_confirmed(answers: Seq<AnswerText>, file: Seq<char>, line: usize) -> bool {
    exists|i: int, j: int|
        0 <= i < answers.len() && 0 <= j < answers[i].references.len() && (
        #[trigger] answers[i].references[j]).file_path == file && answers[i].references[j].line
            == line
}

/// The text names the place.
pub open spec fn is_mentioned(usages: Seq<UsageText>, file: Seq<char>, line: usize) -> bool {
    exists|i: int| 0 <= i < usages.len() && #[trigger] usages[i].file == file && usages[i].line == line
}

/// A mention, marked by whether a backend confirms it.
pub open spec fn marked_mention(u: UsageText, answers: Seq<AnswerText>) -> UsageText {
    UsageText {
        file: u.file,
        line: u.line,
        label: if is_confirmed(answers, u.file, u.line) {
            "confirmed"@
        } else {
            "syntactic-only"@
        },
    }
}

/// The references of a backend that the text search missed.
pub open spec fn missed_by_text(
    label: Seq<char>,
    references: Seq<ReferenceText>,
    usages: Seq<UsageText>,
) -> Seq<UsageText>
    decreases references.len(),
{
    if references.len() == 0 {
        Seq::empty()
    } else {
        let front = missed_by_text(label, references.drop_last(), usages);
        let r = references.last();
        if is_mentioned(usages, r.file_path, r.line) {
            front
        } else {
            front.push(UsageText { file: r.file_path, line: r.line, label: label + "-only"@ })
        }
    }
}

pub open spec fn all_missed(answers: Seq<AnswerText>, usages: Seq<UsageText>) -> Seq<UsageText>
    decreases answers.len(),
{
    if answers.len() == 0 {
        Seq::empty()
    } else {
        all_missed(answers.drop_last(), usages) + missed_by_text(
            answers.last().label,
            answers.last().references,
            usages,
        )
    }
}

/// The rows of a cross-validated answer, in order, each place once.
pub open spec fn validated_rows(usages: Seq<UsageText>, answers: Seq<AnswerText>) -> Seq<UsageText> {
    rows_once(
        sort_stable(
            usages.map_values(|u: UsageText| marked_mention(u, answers)) + all_missed(
                answers,
                usages,
            ),
            usage_order(),
        ),
    )
}

fn confirmed(answers: &[BackendAnswer], file: &str, line: usize) -> (r: bool)
    ensures
        r == is_confirmed(backend_texts(answers@), file@, line),
{
    let ghost all = backend_texts(answers@);
    let mut i: usize = 0;
    while i < answers.len()
        invariant
            i <= answers@.len(),
            all == backend_texts(answers@),
            forall|a: int, b: int|
                0 <= a < i && 0 <= b < all[a].references.len() ==> !((
                #[trigger] all[a].references[b]).file_path == file@ && all[a].references[b].line
                    == line),
        decreases answers@.len() - i,
    {
        proof {
            assert(all[i as int] == answers@[i as int]@);
        }
        let mut k: usize = 0;
        while k < answers[i].references.len()
            invariant
                i < answers@.len(),
                k <= answers@[i as int].references@.len(),
                all == backend_texts(answers@),
                all[i as int] == answers@[i as int]@,
                forall|b: int|
                    0 <= b < k ==> !((#[trigger] all[i as int].references[b]).file_path == file@
                        && all[i as int].references[b].line == line),
            decreases answers@[i as int].references@.len() - k,
        {
            let item = &answers[i].references[k];
            proof {
                assert(all[i as int].references[k as int] == item@);
            }
            if item.line == line && same_text(item.file_path.as_str(), file) {
                return true;
            }
            k = k + 1;
        }
        i = i + 1;
    }
    false
}

fn mentioned(usages: &[UsageRow], file: &str, line: usize) -> (r: bool)
    ensures
        r == is_mentioned(usage_texts(usages@), file@, line),
{
    let ghost all = usage_texts(usages@);
    let mut i: usize = 0;
    while i < usages.len()
        invariant
            i <= usages@.len(),
            all == usage_texts(usages@),
            forall|j: int| 0 <= j < i ==> !(#[trigger] all[j].file == file@ && all[j].line == line),
        decreases usages@.len() - i,
    {
        proof {
            assert(all[i as int] == usages@[i as int]@);
        }
        if usages[i].line == line && same_text(usages[i].file.as_str(), file) {
            proof {
                assert(all[i as int].file == file@);
            }
            return true;
        }
        i = i + 1;
    }
    false
}

fn add_missed(out: &mut Vec<UsageRow>, answer: &BackendAnswer, usages: &[UsageRow])
    ensures
        usage_texts(final(out)@) == usage_texts(old(out)@) + missed_by_text(
            answer@.label,
            answer@.references,
            usage_texts(usages@),
        ),
{
    let ghost before = usage_texts(out@);
    let ghost us = usage_texts(usages@);
    let ghost rs = answer@.references;
    let mut k: usize = 0;
    proof {
        assert(before + missed_by_text(answer@.label, rs.take(0), us) =~= before);
    }
    while k < answer.references.len()
        invariant
            k <= answer.references@.len(),
            us == usage_texts(usages@),
            rs == answer@.references,
            usage_texts(out@) == before + missed_by_text(answer@.label, rs.take(k as int), us),
        decreases answer.references@.len() - k,
    {
        let item = &answer.references[k];
        proof {
            assert(rs.take(k + 1).drop_last() =~= rs.take(k as int));
            assert(rs.take(k + 1).last() == item@);
        }
        if !mentioned(usages, item.file_path.as_str(), item.line) {
            let mut label = answer.label.clone();
            label.append("-only");
            let row = UsageRow { file: item.file_path.clone(), line: item.line, label };
            proof {
                let so_far = missed_by_text(answer@.label, rs.take(k as int), us);
                assert(usage_texts(out@.push(row)) =~= usage_texts(out@).push(row@));
                assert((before + so_far).push(row@) =~= before + so_far.push(row@));
            }
            out.push(row);
        }
        k = k + 1;
    }
    proof {
        assert(rs.take(rs.len() as int) =~= rs);
    }
}

/// Sets the mentions of the text against the answers of the backends. Neither source is
/// trusted alone: what both know is confirmed, and what one of them knows is marked so.
pub fn cross_validate(usages: &[UsageRow], answers: &[BackendAnswer]) -> (r: Vec<UsageRow>)
    ensures
        usage_texts(r@) == validated_rows(usage_texts(usages@), backend_texts(answers@)),
{
    let ghost us = usage_texts(usages@);
    let ghost ans = backend_texts(answers@);
    let mut rows: Vec<UsageRow> = Vec::new();
    let mut i: usize = 0;
    while i < usages.len()
        invariant
            i <= usages@.len(),
            us == usage_texts(usages@),
            ans == backend_texts(answers@),
            rows@.len() == i,
            forall|j: int| 0 <= j < i ==> (#[trigger] rows@[j])@ == marked_mention(us[j], ans),
        decreases usages@.len() - i,
    {
        let u = &usages[i];
        proof {
            assert(us[i as int] == u@);
        }
        let label = if confirmed(answers, u.file.as_str(), u.line) {
            "confirmed".to_owned()
        } else {
            "syntactic-only".to_owned()
        };
        rows.push(UsageRow { file: u.file.clone(), line: u.line, label });
        i = i + 1;
    }
    let ghost marked = us.map_values(|u: UsageText| marked_mention(u, ans));
    proof {
        assert(usage_texts(rows@) =~= marked);
        assert(marked + all_missed(ans.take(0), us) =~= marked);
    }
    let mut k: usize = 0;
    while k < answers.len()
        invariant
            k <= answers@.len(),
            us == usage_texts(usages@),
            ans == backend_texts(answers@),
            usage_texts(rows@) == marked + all_missed(ans.take(k as int), us),
        decreases answers@.len() - k,
    {
        proof {
            assert(ans.take(k + 1).drop_last() =~= ans.take(k as int));
            assert(ans.take(k + 1).last() == answers@[k as int]@);
            let so_far = all_missed(ans.take(k as int), us);
            let here = missed_by_text(answers@[k as int]@.label, answers@[k as int]@.references, us);
            assert((marked + so_far) + here =~= marked + (so_far + here));
        }
        add_missed(&mut rows, &answers[k], usages);
        k = k + 1;
    }
    proof {
        assert(ans.take(ans.len() as int) =~= ans);
    }
    let ghost joined = usage_texts(rows@);
    let ghost view = |x: UsageRow| x@;
    proof {
        lemma_sort_maps(rows@, view, rank_order::<UsageRow>(), usage_order());
        assert(rows@.map_values(view) =~= joined);
    }
    let sorted = sort_ranked(rows);
    proof {
        assert(usage_texts(sorted@) =~= sort_stable(joined, usage_order()));
    }
    once(sorted)
}

// ---- the answer ----

pub open spec fn count_label(rows: Seq<UsageText>, label: Seq<char>) -> nat {
    rows.filter(|u: UsageText| u.label == label).len()
}

fn count_rows(rows: &[UsageRow], label: &str) -> (r: usize)
    ensures
        r == count_label(usage_texts(rows@), label@),
        r <= rows@.len(),
{
    let ghost all = usage_texts(rows@);
    let ghost pred = |u: UsageText| u.label == label@;
    let mut n: usize = 0;
    let mut i: usize = 0;
    proof {
        reveal(Seq::filter);
    }
    while i < rows.len()
        invariant
            i <= rows@.len(),
            n <= i,
            all == usage_texts(rows@),
            pred == (|u: UsageText| u.label == label@),
            n == all.take(i as int).filter(pred).len(),
        decreases rows@.len() - i,
    {
        proof {
            reveal(Seq::filter);
            assert(all.take(i + 1).drop_last() =~= all.take(i as int));
            assert(all.take(i + 1).last() == rows@[i as int]@);
        }
        if same_text(rows[i].label.as_str(), label) {
            n = n + 1;
        }
        i = i + 1;
    }
    proof {
        assert(all.take(all.len() as int) =~= all);
    }
    n
}

pub open spec fn usage_row(u: UsageText) -> Seq<char> {
    "| "@ + u.file + " | "@ + decimal(u.line as nat) + " | "@ + u.label + " |\n"@
}

/// The first fifty rows of a table, and how many more there are.
pub open spec fn usage_table(rows: Seq<UsageText>) -> Seq<char> {
    if rows.len() > 50 {
        concat(rows.take(50).map_values(|u: UsageText| usage_row(u))) + "\n*... and "@ + decimal(
            (rows.len() - 50) as nat,
        ) + " more*\n"@
    } else {
        concat(rows.map_values(|u: UsageText| usage_row(u)))
    }
}

fn render_table(rows: &[UsageRow]) -> (r: String)
    ensures
        r@ == usage_table(usage_texts(rows@)),
{
    let ghost all = usage_texts(rows@);
    let shown: usize = if rows.len() > 50 {
        50
    } else {
        rows.len()
    };
    let mut list: Vec<String> = Vec::new();
    let mut i: usize = 0;
    while i < shown
        invariant
            i <= shown <= rows@.len(),
            list@.len() == i,
            forall|j: int| 0 <= j < i ==> #[trigger] list@[j]@ == usage_row(rows@[j]@),
        decreases shown - i,
    {
        let mut row = "| ".to_owned();
        row.append(rows[i].file.as_str());
        row.append(" | ");
        row.append(usize_text(rows[i].line).as_str());
        row.append(" | ");
        row.append(rows[i].label.as_str());
        row.append(" |\n");
        list.push(row);
        i = i + 1;
    }
    let mut out = concat_texts(list.as_slice());
    proof {
        assert(all.len() == rows@.len());
        if rows@.len() > 50 {
            assert(texts(list@) =~= all.take(50).map_values(|u: UsageText| usage_row(u)));
        } else {
            assert(texts(list@) =~= all.map_values(|u: UsageText| usage_row(u)));
        }
    }
    if rows.len() > 50 {
        out.append("\n*... and ");
        out.append(usize_text(rows.len() - 50).as_str());
        out.append(" more*\n");
    }
    out
}

pub open spec fn definitions_part(definitions: Seq<UsageText>) -> Seq<char> {
    if definitions.len() == 0 {
        Seq::empty()
    } else {
        "## Definitions\n\n"@ + concat(definitions.map_values(|u: UsageText| definition_row(u)))
            + "\n"@
    }
}

pub open spec fn definition_row(u: UsageText) -> Seq<char> {
    "- `"@ + u.file + ":"@ + decimal(u.line as nat) + "` ("@ + u.label + ")\n"@
}

pub open spec fn plain_part(usages: Seq<UsageText>) -> Seq<char> {
    if usages.len() == 0 {
        "## Usages\n\nNo usages found.\n"@
    } else {
        "## Usages ("@ + decimal(usages.len() as nat)
            + " found)\n\n| File | Line | Context |\n|------|------|--------|\n"@
            + usage_table(usages)
    }
}

pub open spec fn validated_part(rows: Seq<UsageText>, labels: Seq<Seq<char>>) -> Seq<char> {
    if rows.len() == 0 {
        "## Usages\n\nNo usages found.\n"@
    } else {
        let sure = count_label(rows, "confirmed"@);
        let text_only = count_label(rows, "syntactic-only"@);
        "## Usages ("@ + decimal(rows.len() as nat) + " total — cross-validated by: "@
            + join_spec(sort_texts(labels), ", "@) + ")\n\n*"@ + decimal(sure as nat)
            + " confirmed, "@ + decimal(text_only as nat)
            + " syntactic-only (no backend confirmed — possible false match or unindexed TU), "@
            + decimal((rows.len() - sure - text_only) as nat)
            + " backend-only (backend found, text search missed)*\n\n| File | Line | Source |\n|------|------|--------|\n"@
            + usage_table(rows)
    }
}

/// The answer of a usage query.
pub open spec fn usages_answer(
    symbol: Seq<char>,
    definitions: Seq<UsageText>,
    usages: Seq<UsageText>,
    answers: Option<Seq<AnswerText>>,
) -> Seq<char> {
    let note = if filename_like_spec(symbol, lower_text(symbol)) {
        "> Note: this looks like a file name, not a symbol. The results below are lines that mention it (e.g. `#include` sites). For a broader text search, use search_code.\n\n"@
    } else {
        Seq::empty()
    };
    let part = match answers {
        Some(list) => validated_part(
            validated_rows(usages, list),
            list.map_values(|a: AnswerText| a.label),
        ),
        None => plain_part(usages),
    };
    "# Symbol Usages: '"@ + symbol + "'\n\n"@ + note + definitions_part(definitions) + part
}

fn render_definitions(definitions: &[UsageRow]) -> (r: String)
    ensures
        r@ == definitions_part(usage_texts(definitions@)),
{
    let ghost all = usage_texts(definitions@);
    proof {
        assert(all.len() == definitions@.len());
    }
    if definitions.len() == 0 {
        let none = String::new();
        proof {
            assert(none@ =~= Seq::<char>::empty());
        }
        return none;
    }
    let mut list: Vec<String> = Vec::new();
    let mut i: usize = 0;
    while i < definitions.len()
        invariant
            i <= definitions@.len(),
            list@.len() == i,
            forall|j: int| 0 <= j < i ==> #[trigger] list@[j]@ == definition_row(definitions@[j]@),
        decreases definitions@.len() - i,
    {
        let d = &definitions[i];
        let mut row = "- `".to_owned();
        row.append(d.file.as_str());
        row.append(":");
        row.append(usize_text(d.line).as_str());
        row.append("` (");
        row.append(d.label.as_str());
        row.append(")\n");
        list.push(row);
        i = i + 1;
    }
    proof {
        assert(texts(list@) =~= all.map_values(|u: UsageText| definition_row(u)));
    }
    let mut out = "## Definitions\n\n".to_owned();
    out.append(concat_texts(list.as_slice()).as_str());
    out.append("\n");
    out
}

proof fn lemma_labels_fit(rows: Seq<UsageText>)
    ensures
        count_label(rows, "confirmed"@) + count_label(rows, "syntactic-only"@) <= rows.len(),
    decreases rows.len(),
{
    reveal(Seq::filter);
    reveal_strlit("confirmed");
    reveal_strlit("syntactic-only");
    if rows.len() > 0 {
        lemma_labels_fit(rows.drop_last());
        assert("confirmed"@.len() != "syntactic-only"@.len());
    }
}

fn render_validated(rows: &[UsageRow], answers: &[BackendAnswer]) -> (r: String)
    ensures
        r@ == validated_part(
            usage_texts(rows@),
            backend_texts(answers@).map_values(|a: AnswerText| a.label),
        ),
{
    let ghost all = usage_texts(rows@);
    proof {
        assert(all.len() == rows@.len());
        lemma_labels_fit(all);
    }
    if rows.len() == 0 {
        return "## Usages\n\nNo usages found.\n".to_owned();
    }
    let sure = count_rows(rows, "confirmed");
    let text_only = count_rows(rows, "syntactic-only");
    let mut labels: Vec<String> = Vec::new();
    let mut i: usize = 0;
    while i < answers.len()
        invariant
            i <= answers@.len(),
            labels@.len() == i,
            forall|j: int| 0 <= j < i ==> #[trigger] labels@[j]@ == answers@[j].label@,
        decreases answers@.len() - i,
    {
        labels.push(answers[i].label.clone());
        i = i + 1;
    }
    proof {
        assert(texts(labels@) =~= backend_texts(answers@).map_values(|a: AnswerText| a.label));
    }
    let active = sort_strings(labels.as_slice());
    let mut out = "## Usages (".to_owned();
    out.append(usize_text(rows.len()).as_str());
    out.append(" total — cross-validated by: ");
    out.append(join(active.as_slice(), ", ").as_str());
    out.append(")\n\n*");
    out.append(usize_text(sure).as_str());
    out.append(" confirmed, ");
    out.append(usize_text(text_only).as_str());
    out.append(" syntactic-only (no backend confirmed — possible false match or unindexed TU), ");
    out.append(usize_text(rows.len() - sure - text_only).as_str());
    out.append(" backend-only (backend found, text search missed)*\n\n| File | Line | Source |\n|------|------|--------|\n");
    out.append(render_table(rows).as_str());
    out
}

/// Renders the usages of a symbol: its definitions, and its mentions in the text, set
/// against what the backends answered where any was asked and knew something.
pub fn find_symbol_usages(
    symbol: &str,
    symbols: &[Symbol],
    files: &[CachedFile],
    repo: &str,
    imports: bool,
    tests: &[String],
    answers: Vec<BackendAnswer>,
) -> (r: String)
    ensures
        ({
            let telling = telling_answers(backend_texts(answers@));
            r@ == usages_answer(
                symbol@,
                definition_rows(symbol_texts(symbols@), symbol@, texts(tests@)),
                mentions(cached_texts(files@), repo@, symbol@, imports, texts(tests@)),
                if telling.len() > 0 {
                    Some(telling)
                } else {
                    None
                },
            )
        }),
{
    let definitions = find_definitions(symbols, symbol, tests);
    let usages = find_mentions(files, repo, symbol, imports, tests);
    let telling = keep_telling(answers);
    proof {
        assert(backend_texts(telling@).len() == telling@.len());
        assert(usage_texts(usages@).len() == usages@.len());
    }
    let mut note = String::new();
    proof {
        assert(note@ =~= Seq::<char>::empty());
    }
    if is_filename_like(symbol) {
        note =
        "> Note: this looks like a file name, not a symbol. The results below are lines that mention it (e.g. `#include` sites). For a broader text search, use search_code.\n\n".to_owned();
    }
    let part = if telling.len() > 0 {
        let rows = cross_validate(usages.as_slice(), telling.as_slice());
        render_validated(rows.as_slice(), telling.as_slice())
    } else if usages.len() == 0 {
        "## Usages\n\nNo usages found.\n".to_owned()
    } else {
        let mut plain = "## Usages (".to_owned();
        plain.append(usize_text(usages.len()).as_str());
        plain.append(" found)\n\n| File | Line | Context |\n|------|------|--------|\n");
        plain.append(render_table(usages.as_slice()).as_str());
        plain
    };
    let mut out = "# Symbol Usages: '".to_owned();
    out.append(symbol);
    out.append("'\n\n");
    out.append(note.as_str());
    out.append(render_definitions(definitions.as_slice()).as_str());
    out.append(part.as_str());
    out
}

// ---- exports ----

/// A symbol of a file, ordered by line.
#[derive(Debug)]
pub struct ByLine {
    pub symbol: Symbol,
}

impl Ranked for ByLine {
    open spec fn precedes(a: ByLine, b: ByLine) -> bool {
        a.symbol.start_line < b.symbol.start_line
    }

    fn is_before(&self, other: &ByLine) -> (r: bool) {
        self.symbol.start_line < other.symbol.start_line
    }
}

pub open spec fn line_order() -> spec_fn(SymbolText, SymbolText) -> bool {
    |a: SymbolText, b: SymbolText| a.start_line < b.start_line
}

/// The symbols of a file, by line.
pub open spec fn exported_symbols(symbols: Seq<SymbolText>, path: Seq<char>) -> Seq<SymbolText> {
    sort_stable(symbols.filter(|s: SymbolText| s.file_path == path), line_order())
}

pub open spec fn export_row(s: SymbolText) -> Seq<char> {
    let signature = match s.signature {
        Some(t) => t,
        None => "-"@,
    };
    "| `"@ + s.name + "` | "@ + s.kind.name_spec() + " | "@ + decimal(s.start_line as nat)
        + " | "@ + signature.take(fitting(signature, 50) as int) + " |\n"@
}

/// A line that exports something.
pub open spec fn is_export_line(line: Seq<char>) -> bool {
    let t = trim_spec(line);
    "export "@.is_prefix_of(t) || "pub "@.is_prefix_of(t) || "module.exports"@.is_prefix_of(t)
        || "__all__"@.is_prefix_of(t)
}

fn export_line(line: &str) -> (r: bool)
    ensures
        r == is_export_line(line@),
{
    let t = trim(line);
    starts_with(t.as_str(), "export ") || starts_with(t.as_str(), "pub ") || starts_with(
        t.as_str(),
        "module.exports",
    ) || starts_with(t.as_str(), "__all__")
}

/// The beginning of a line, eighty characters at most.
pub open spec fn clipped(line: Seq<char>) -> Seq<char> {
    let t = trim_spec(line);
    if t.len() > 80 {
        t.take(80)
    } else {
        t
    }
}

pub open spec fn export_statement(lines: Seq<Seq<char>>, n: int) -> Seq<char> {
    "- Line "@ + decimal(n as nat) + ": `"@ + clipped(lines[n - 1]) + "`\n"@
}

/// The export statements among the first `n` lines.
pub open spec fn export_statements(lines: Seq<Seq<char>>, n: int) -> Seq<Seq<char>>
    decreases n,
{
    if n <= 0 {
        Seq::empty()
    } else {
        let front = export_statements(lines, n - 1);
        if is_export_line(lines[n - 1]) {
            front.push(export_statement(lines, n))
        } else {
            front
        }
    }
}

pub open spec fn export_map_spec(path: Seq<char>, symbols: Seq<SymbolText>, lines: Seq<Seq<char>>) -> Seq<
    char,
> {
    let exported = exported_symbols(symbols, path);
    let header = "# Export Map: "@ + path + "\n\n"@;
    if exported.len() == 0 {
        header + "No exported symbols found.\n"@
    } else {
        let statements = export_statements(lines, lines.len() as int);
        let tail = if statements.len() > 0 {
            "\n## Export Statements\n\n"@ + concat(statements)
        } else {
            Seq::empty()
        };
        header
            + "## Exported Symbols\n\n| Name | Kind | Line | Signature |\n|------|------|------|----------|\n"@
            + concat(
            exported.map_values(|s: SymbolText| export_row(s)),
        ) + tail
    }
}

fn symbols_of_file(symbols: &[Symbol], path: &str) -> (r: Vec<ByLine>)
    ensures
        r@.map_values(|b: ByLine| b.symbol@) == symbol_texts(symbols@).filter(
            |s: SymbolText| s.file_path == path@,
        ),
{
    let ghost all = symbol_texts(symbols@);
    let ghost pred = |s: SymbolText| s.file_path == path@;
    let ghost view = |b: ByLine| b.symbol@;
    let mut out: Vec<ByLine> = Vec::new();
    let mut i: usize = 0;
    proof {
        reveal(Seq::filter);
        assert(out@.map_values(view) =~= all.take(0).filter(pred));
    }
    while i < symbols.len()
        invariant
            i <= symbols@.len(),
            all == symbol_texts(symbols@),
            pred == (|s: SymbolText| s.file_path == path@),
            view == (|b: ByLine| b.symbol@),
            out@.map_values(view) == all.take(i as int).filter(pred),
        decreases symbols@.len() - i,
    {
        proof {
            reveal(Seq::filter);
            assert(all.take(i + 1).drop_last() =~= all.take(i as int));
            assert(all.take(i + 1).last() == symbols@[i as int]@);
        }
        if same_text(symbols[i].file_path.as_str(), path) {
            let item = ByLine { symbol: symbols[i].copy() };
            proof {
                assert(out@.push(item).map_values(view) =~= out@.map_values(view).push(
                    item.symbol@,
                ));
            }
            out.push(item);
        }
        i = i + 1;
    }
    proof {
        assert(all.take(all.len() as int) =~= all);
        assert(out@.map_values(|b: ByLine| b.symbol@) =~= all.filter(pred));
    }
    out
}

fn list_statements(all: &[String]) -> (r: Vec<String>)
    ensures
        texts(r@) == export_statements(texts(all@), all@.len() as int),
{
    let ghost ls = texts(all@);
    let mut out: Vec<String> = Vec::new();
    let mut i: usize = 0;
    proof {
        assert(texts(out@) =~= export_statements(ls, 0));
    }
    while i < all.len()
        invariant
            i <= all@.len(),
            ls == texts(all@),
            texts(out@) == export_statements(ls, i as int),
        decreases all@.len() - i,
    {
        proof {
            assert(ls[i as int] == all@[i as int]@);
        }
        if export_line(all[i].as_str()) {
            let t = trim(all[i].as_str());
            let chars = to_chars(t.as_str());
            let count: usize = if chars.len() > 80 {
                80
            } else {
                chars.len()
            };
            let part = sub_text(chars.as_slice(), 0, count);
            proof {
                assert(part@ =~= clipped(ls[i as int]));
            }
            let mut row = "- Line ".to_owned();
            row.append(usize_text(i + 1).as_str());
            row.append(": `");
            row.append(part.as_str());
            row.append("`\n");
            proof {
                assert(texts(out@.push(row)) =~= texts(out@).push(row@));
            }
            out.push(row);
        }
        i = i + 1;
    }
    out
}

/// Renders what a file exports: its symbols by line, and its export statements.
pub fn get_export_map(path: &str, symbols: &[Symbol], content: &str) -> (r: String)
    ensures
        r@ == export_map_spec(path@, symbol_texts(symbols@), lines_of(content@)),
{
    let own = symbols_of_file(symbols, path);
    let ghost mine = symbol_texts(symbols@).filter(|s: SymbolText| s.file_path == path@);
    let ghost view = |b: ByLine| b.symbol@;
    proof {
        lemma_sort_maps(own@, view, rank_order::<ByLine>(), line_order());
        assert(own@.map_values(view) =~= mine);
    }
    let sorted = sort_ranked(own);
    let ghost exported = exported_symbols(symbol_texts(symbols@), path@);
    proof {
        assert(sorted@.map_values(view) == exported);
        assert(sorted@.len() == exported.len());
    }
    let mut out = "# Export Map: ".to_owned();
    out.append(path);
    out.append("\n\n");
    if sorted.len() == 0 {
        out.append("No exported symbols found.\n");
        return out;
    }
    let mut rows: Vec<String> = Vec::new();
    let mut i: usize = 0;
    while i < sorted.len()
        invariant
            i <= sorted@.len(),
            view == (|b: ByLine| b.symbol@),
            sorted@.map_values(view) == exported,
            rows@.len() == i,
            forall|j: int| 0 <= j < i ==> #[trigger] rows@[j]@ == export_row(exported[j]),
        decreases sorted@.len() - i,
    {
        let s = &sorted[i].symbol;
        proof {
            assert(sorted@.map_values(view)[i as int] == s@);
        }
        let signature = match &s.signature {
            Some(t) => t.clone(),
            None => "-".to_owned(),
        };
        let mut row = "| `".to_owned();
        row.append(s.name.as_str());
        row.append("` | ");
        row.append(s.kind.name());
        row.append(" | ");
        row.append(usize_text(s.start_line).as_str());
        row.append(" | ");
        row.append(truncate_on_char_boundary(signature.as_str(), 50).as_str());
        row.append(" |\n");
        rows.push(row);
        i = i + 1;
    }
    proof {
        assert(texts(rows@) =~= exported.map_values(|s: SymbolText| export_row(s)));
    }
    out.append("## Exported Symbols\n\n| Name | Kind | Line | Signature |\n|------|------|------|----------|\n");
    out.append(concat_texts(rows.as_slice()).as_str());
    let all = lines(content);
    let statements = list_statements(all.as_slice());
    let mut tail = String::new();
    proof {
        assert(texts(statements@).len() == statements@.len());
        assert(tail@ =~= Seq::<char>::empty());
    }
    if statements.len() > 0 {
        tail = "\n## Export Statements\n\n".to_owned();
        tail.append(concat_texts(statements.as_slice()).as_str());
    }
    out.append(tail.as_str());
    out
}

} // verus!
