//! What an index run makes of the parsed files: statistics, symbols kept, symbols queued
//! for the C and C++ backends, and symbols reused from the last run.

use vstd::prelude::*;

use crate::languages::{is_cxx_language, is_cxx_language_spec};
use crate::paths::{relative, relative_spec};
use crate::symbols::{
    copy_symbols, gtags_symbol, gtags_symbol_text, merge_all, merge_symbols, symbol_texts,
    SourceSet, Symbol, SymbolText,
};
use crate::text::{byte_len, has_text, lines, lines_of, same_text, texts};

verus! {

// ---- content fingerprints ----

/// The SHA-256 of some bytes, in lower-case hexadecimal.
pub uninterp spec fn sha256_hex(bytes: Seq<u8>) -> Seq<char>;

/// `sha2::Sha256`, fed the bytes and rendered with `{:x}`: two digits for each of the 32
/// bytes of the digest.
#[verifier::external_body]
pub(crate) fn digest_hex(bytes: &[u8]) -> (r: String)
    ensures
        r@ == sha256_hex(bytes@),
        r@.len() == 64,
{
    format!("{:x}", <sha2::Sha256 as sha2::Digest>::digest(bytes))
}

/// The fingerprint of a file's content.
pub open spec fn content_hash(content: Seq<char>) -> Seq<char> {
    sha256_hex(vstd::utf8::encode_utf8(content))
}

/// The fingerprint by which an unchanged file is recognised.
pub fn content_sha256(content: &str) -> (r: String)
    ensures
        r@ == content_hash(content@),
        r@.len() == 64,
{
    digest_hex(content.as_bytes())
}

// ---- per-language statistics ----

#[derive(Debug, Clone, Copy, PartialEq, Eq, Structural)]
pub struct LanguageStats {
    pub file_count: usize,
    pub line_count: usize,
    pub byte_count: usize,
}

pub open spec fn capped_sum(a: usize, b: usize) -> usize {
    if a + b > usize::MAX {
        usize::MAX
    } else {
        (a + b) as usize
    }
}

fn capped_add(a: usize, b: usize) -> (r: usize)
    ensures
        r == capped_sum(a, b),
{
    if a > usize::MAX - b {
        usize::MAX
    } else {
        a + b
    }
}

pub open spec fn stats_plus(s: LanguageStats, line_count: usize, byte_count: usize) -> LanguageStats {
    LanguageStats {
        file_count: capped_sum(s.file_count, 1),
        line_count: capped_sum(s.line_count, line_count),
        byte_count: capped_sum(s.byte_count, byte_count),
    }
}

/// The place of a language in the list.
pub open spec fn language_index(list: Seq<(Seq<char>, LanguageStats)>, language: Seq<char>) -> Option<
    int,
>
    decreases list.len(),
{
    if list.len() == 0 {
        None
    } else {
        match language_index(list.drop_last(), language) {
            Some(i) => Some(i),
            None => if list.last().0 == language {
                Some(list.len() - 1)
            } else {
                None
            },
        }
    }
}

/// One more file counted under its language.
pub open spec fn count_file(
    list: Seq<(Seq<char>, LanguageStats)>,
    language: Seq<char>,
    line_count: usize,
    byte_count: usize,
) -> Seq<(Seq<char>, LanguageStats)> {
    match language_index(list, language) {
        Some(i) => list.update(i, (language, stats_plus(list[i].1, line_count, byte_count))),
        None => list.push(
            (
                language,
                stats_plus(
                    LanguageStats { file_count: 0, line_count: 0, byte_count: 0 },
                    line_count,
                    byte_count,
                ),
            ),
        ),
    }
}

pub open spec fn language_texts(v: Seq<(String, LanguageStats)>) -> Seq<(Seq<char>, LanguageStats)> {
    v.map_values(|e: (String, LanguageStats)| (e.0@, e.1))
}

proof fn lemma_language_index(list: Seq<(Seq<char>, LanguageStats)>, language: Seq<char>)
    ensures
        language_index(list, language) matches Some(i) ==> 0 <= i < list.len() && list[i].0
            == language,
        language_index(list, language) is None ==> forall|j: int|
            0 <= j < list.len() ==> #[trigger] list[j].0 != language,
    decreases list.len(),
{
    if list.len() > 0 {
        lemma_language_index(list.drop_last(), language);
        assert forall|j: int| 0 <= j < list.len() - 1 implies list[j] == list.drop_last()[j] by {}
    }
}

/// Counts one file under its language.
pub fn count_language(
    list: &mut Vec<(String, LanguageStats)>,
    language: &str,
    line_count: usize,
    byte_count: usize,
)
    ensures
        language_texts(final(list)@) == count_file(
            language_texts(old(list)@),
            language@,
            line_count,
            byte_count,
        ),
{
    let ghost before = list@;
    let ghost all = language_texts(before);
    let mut i: usize = 0;
    let mut found: Option<usize> = None;
    while i < list.len()
        invariant
            i <= list@.len(),
            list@ == before,
            all == language_texts(before),
            (match found {
                Some(k) => Some(k as int),
                None => None,
            }) == language_index(all.take(i as int), language@),
            found matches Some(k) ==> k < i,
        decreases list@.len() - i,
    {
        proof {
            assert(all.take(i + 1).drop_last() =~= all.take(i as int));
            assert(all.take(i + 1).last() == all[i as int]);
        }
        if found.is_none() && same_text(list[i].0.as_str(), language) {
            found = Some(i);
        }
        i = i + 1;
    }
    proof {
        assert(all.take(all.len() as int) =~= all);
        lemma_language_index(all, language@);
    }
    let name = language.to_owned();
    match found {
        Some(k) => {
            let s = list[k].1;
            let next = LanguageStats {
                file_count: capped_add(s.file_count, 1),
                line_count: capped_add(s.line_count, line_count),
                byte_count: capped_add(s.byte_count, byte_count),
            };
            proof {
                assert(language_texts(before.update(k as int, (name, next))) =~= all.update(
                    k as int,
                    (name@, next),
                ));
            }
            list.set(k, (name, next));
        },
        None => {
            let next = LanguageStats {
                file_count: capped_add(0, 1),
                line_count: capped_add(0, line_count),
                byte_count: capped_add(0, byte_count),
            };
            proof {
                assert(language_texts(before.push((name, next))) =~= all.push((name@, next)));
            }
            list.push((name, next));
        },
    }
}

/// No language is listed twice.
pub open spec fn languages_distinct(list: Seq<(Seq<char>, LanguageStats)>) -> bool {
    forall|i: int, j: int|
        0 <= i < j < list.len() ==> #[trigger] list[i].0 != #[trigger] list[j].0
}

/// Counting files never lists a language twice.
pub proof fn law_each_language_is_listed_once(
    list: Seq<(Seq<char>, LanguageStats)>,
    language: Seq<char>,
    line_count: usize,
    byte_count: usize,
)
    requires
        languages_distinct(list),
    ensures
        languages_distinct(count_file(list, language, line_count, byte_count)),
{
    lemma_language_index(list, language);
}

// ---- what becomes of a parsed file ----

/// What an index run does with the symbols of a parsed file.
#[derive(Debug, Clone, Copy, PartialEq, Eq, Structural)]
pub enum FilePlan {
    /// Take over the symbols persisted for the unchanged file.
    Reuse,
    /// Queue the parsed symbols for the C and C++ backends.
    Queue,
    /// Keep the parsed symbols as they are.
    Keep,
    /// Add the parsed symbols to the cached ones: the file came in after they were written.
    AddLate,
    /// The cached symbols already cover the file.
    Skip,
}

/// What becomes of a file. Cached symbols are left alone, but for files they do not cover.
/// Otherwise C and C++ files go to the backends, unless the last run's symbols were taken
/// from the very same content.
pub open spec fn file_plan(
    symbols_cached: bool,
    cxx_augment: bool,
    is_cxx: bool,
    prior_hash: Option<Seq<char>>,
    hash: Seq<char>,
    covered: bool,
) -> FilePlan {
    if symbols_cached {
        if covered {
            FilePlan::Skip
        } else {
            FilePlan::AddLate
        }
    } else if cxx_augment && is_cxx {
        if prior_hash == Some(hash) {
            FilePlan::Reuse
        } else {
            FilePlan::Queue
        }
    } else {
        FilePlan::Keep
    }
}

/// Decides what becomes of a file, given the fingerprint of its content.
pub fn plan_file(
    symbols_cached: bool,
    cxx_augment: bool,
    is_cxx: bool,
    prior_hash: Option<&str>,
    hash: &str,
    covered: bool,
) -> (r: FilePlan)
    ensures
        r == file_plan(
            symbols_cached,
            cxx_augment,
            is_cxx,
            match prior_hash {
                Some(h) => Some(h@),
                None => None,
            },
            hash@,
            covered,
        ),
{
    if symbols_cached {
        if covered {
            FilePlan::Skip
        } else {
            FilePlan::AddLate
        }
    } else if cxx_augment && is_cxx {
        let unchanged = match prior_hash {
            Some(h) => same_text(h, hash),
            None => false,
        };
        if unchanged {
            FilePlan::Reuse
        } else {
            FilePlan::Queue
        }
    } else {
        FilePlan::Keep
    }
}

/// A parsed file: its absolute path, content, language and tree-sitter symbols.
#[derive(Debug)]
pub struct ParsedFile {
    pub path: String,
    pub content: String,
    pub language: String,
    pub symbols: Vec<Symbol>,
}

pub struct ParsedText {
    pub path: Seq<char>,
    pub content: Seq<char>,
    pub language: Seq<char>,
    pub symbols: Seq<SymbolText>,
}

impl View for ParsedFile {
    type V = ParsedText;

    open spec fn view(&self) -> ParsedText {
        ParsedText {
            path: self.path@,
            content: self.content@,
            language: self.language@,
            symbols: symbol_texts(self.symbols@),
        }
    }
}

/// What the last run persisted for a file.
#[derive(Debug)]
pub struct PriorFile {
    pub relative_path: String,
    pub content_hash: String,
    pub symbols: Vec<Symbol>,
}

pub struct PriorText {
    pub relative_path: Seq<char>,
    pub content_hash: Seq<char>,
    pub symbols: Seq<SymbolText>,
}

impl View for PriorFile {
    type V = PriorText;

    open spec fn view(&self) -> PriorText {
        PriorText {
            relative_path: self.relative_path@,
            content_hash: self.content_hash@,
            symbols: symbol_texts(self.symbols@),
        }
    }
}

/// The parsed symbols of a C or C++ file that wait for the backends.
#[derive(Debug)]
pub struct CxxFileSymbols {
    pub abs_path: String,
    pub relative_path: String,
    pub symbols: Vec<Symbol>,
}

pub struct CxxFileText {
    pub abs_path: Seq<char>,
    pub relative_path: Seq<char>,
    pub symbols: Seq<SymbolText>,
}

impl View for CxxFileSymbols {
    type V = CxxFileText;

    open spec fn view(&self) -> CxxFileText {
        CxxFileText {
            abs_path: self.abs_path@,
            relative_path: self.relative_path@,
            symbols: symbol_texts(self.symbols@),
        }
    }
}

/// What an index run knows before it looks at the parsed files.
#[derive(Debug)]
pub struct BatchContext {
    pub root: String,
    /// The cached symbols are still valid.
    pub symbols_cached: bool,
    /// C and C++ files are to be shown to the backends.
    pub cxx_augment: bool,
    /// The last run's files, where its symbols may be reused.
    pub prior: Vec<PriorFile>,
    /// The files the cached symbols cover.
    pub cached_files: Vec<String>,
}

pub struct ContextText {
    pub root: Seq<char>,
    pub symbols_cached: bool,
    pub cxx_augment: bool,
    pub prior: Seq<PriorText>,
    pub cached_files: Seq<Seq<char>>,
}

impl View for BatchContext {
    type V = ContextText;

    open spec fn view(&self) -> ContextText {
        ContextText {
            root: self.root@,
            symbols_cached: self.symbols_cached,
            cxx_augment: self.cxx_augment,
            prior: self.prior@.map_values(|p: PriorFile| p@),
            cached_files: texts(self.cached_files@),
        }
    }
}

/// The outcome of an index run over its parsed files.
#[derive(Debug)]
pub struct IndexBatch {
    pub file_count: usize,
    pub total_lines: usize,
    pub languages: Vec<(String, LanguageStats)>,
    pub symbols: Vec<Symbol>,
    pub queued: Vec<CxxFileSymbols>,
    pub late: Vec<Symbol>,
}

pub struct BatchText {
    pub file_count: usize,
    pub total_lines: usize,
    pub languages: Seq<(Seq<char>, LanguageStats)>,
    pub symbols: Seq<SymbolText>,
    pub queued: Seq<CxxFileText>,
    pub late: Seq<SymbolText>,
}

impl View for IndexBatch {
    type V = BatchText;

    open spec fn view(&self) -> BatchText {
        BatchText {
            file_count: self.file_count,
            total_lines: self.total_lines,
            languages: language_texts(self.languages@),
            symbols: symbol_texts(self.symbols@),
            queued: self.queued@.map_values(|q: CxxFileSymbols| q@),
            late: symbol_texts(self.late@),
        }
    }
}

pub open spec fn empty_batch() -> BatchText {
    BatchText {
        file_count: 0,
        total_lines: 0,
        languages: Seq::empty(),
        symbols: Seq::empty(),
        queued: Seq::empty(),
        late: Seq::empty(),
    }
}

/// The symbols put under the repo-relative path of their file.
pub open spec fn placed(symbols: Seq<SymbolText>, rel: Seq<char>) -> Seq<SymbolText> {
    symbols.map_values(|s: SymbolText| SymbolText { file_path: rel, ..s })
}

/// What the last run persisted for a path.
pub open spec fn prior_for(prior: Seq<PriorText>, rel: Seq<char>) -> Option<PriorText>
    decreases prior.len(),
{
    if prior.len() == 0 {
        None
    } else if prior[0].relative_path == rel {
        Some(prior[0])
    } else {
        prior_for(prior.skip(1), rel)
    }
}

pub open spec fn plan_of(c: ContextText, f: ParsedText) -> FilePlan {
    let rel = relative_spec(f.path, c.root);
    file_plan(
        c.symbols_cached,
        c.cxx_augment,
        is_cxx_language_spec(f.language),
        match prior_for(c.prior, rel) {
            Some(p) => Some(p.content_hash),
            None => None,
        },
        content_hash(f.content),
        c.cached_files.contains(rel),
    )
}

/// One parsed file added to the outcome.
pub open spec fn add_file(c: ContextText, b: BatchText, f: ParsedText) -> BatchText {
    let rel = relative_spec(f.path, c.root);
    let line_count = lines_of(f.content).len() as usize;
    let counted = BatchText {
        file_count: capped_sum(b.file_count, 1),
        total_lines: capped_sum(b.total_lines, line_count),
        languages: count_file(b.languages, f.language, line_count, byte_len(f.content)),
        ..b
    };
    match plan_of(c, f) {
        FilePlan::Reuse => BatchText {
            symbols: b.symbols + prior_for(c.prior, rel)->Some_0.symbols,
            ..counted
        },
        FilePlan::Queue => BatchText {
            queued: b.queued.push(
                CxxFileText {
                    abs_path: f.path,
                    relative_path: rel,
                    symbols: placed(f.symbols, rel),
                },
            ),
            ..counted
        },
        FilePlan::Keep => BatchText { symbols: b.symbols + placed(f.symbols, rel), ..counted },
        FilePlan::AddLate => BatchText { late: b.late + placed(f.symbols, rel), ..counted },
        FilePlan::Skip => counted,
    }
}

/// All parsed files added to the outcome, in order.
pub open spec fn batch_of(c: ContextText, files: Seq<ParsedText>) -> BatchText
    decreases files.len(),
{
    if files.len() == 0 {
        empty_batch()
    } else {
        add_file(c, batch_of(c, files.drop_last()), files.last())
    }
}

pub(crate) fn place_symbols(symbols: &[Symbol], rel: &str) -> (r: Vec<Symbol>)
    ensures
        symbol_texts(r@) == placed(symbol_texts(symbols@), rel@),
{
    let mut out: Vec<Symbol> = Vec::new();
    let mut i: usize = 0;
    while i < symbols.len()
        invariant
            i <= symbols@.len(),
            out@.len() == i,
            forall|j: int|
                0 <= j < i ==> #[trigger] out@[j]@ == (SymbolText {
                    file_path: rel@,
                    ..symbols@[j]@
                }),
        decreases symbols@.len() - i,
    {
        let mut s = symbols[i].copy();
        s.file_path = rel.to_owned();
        out.push(s);
        i = i + 1;
    }
    proof {
        assert(symbol_texts(out@) =~= placed(symbol_texts(symbols@), rel@));
    }
    out
}

fn find_prior(prior: &[PriorFile], rel: &str) -> (r: Option<usize>)
    ensures
        match r {
            Some(i) => i < prior@.len() && prior_for(prior@.map_values(|p: PriorFile| p@), rel@)
                == Some(prior@[i as int]@),
            None => prior_for(prior@.map_values(|p: PriorFile| p@), rel@) is None,
        },
{
    let ghost all = prior@.map_values(|p: PriorFile| p@);
    let mut i: usize = 0;
    proof {
        assert(all.skip(0) =~= all);
    }
    while i < prior.len()
        invariant
            i <= prior@.len(),
            all == prior@.map_values(|p: PriorFile| p@),
            prior_for(all, rel@) == prior_for(all.skip(i as int), rel@),
        decreases prior@.len() - i,
    {
        proof {
            assert(all.skip(i as int)[0] == prior@[i as int]@);
            assert(all.skip(i as int).skip(1) =~= all.skip(i + 1));
        }
        if same_text(prior[i].relative_path.as_str(), rel) {
            return Some(i);
        }
        i = i + 1;
    }
    None
}

pub(crate) fn append_symbols(target: &mut Vec<Symbol>, more: Vec<Symbol>)
    ensures
        symbol_texts(final(target)@) == symbol_texts(old(target)@) + symbol_texts(more@),
{
    let ghost first = target@;
    let mut tail = more;
    let ghost second = tail@;
    target.append(&mut tail);
    proof {
        assert(symbol_texts(first + second) =~= symbol_texts(first) + symbol_texts(second));
    }
}

/// Sorts the parsed files into statistics, symbols to keep, symbols for the backends, and
/// symbols that come late to a cached index.
pub fn index_parsed_files(context: &BatchContext, files: &[ParsedFile]) -> (r: IndexBatch)
    ensures
        r@ == batch_of(context@, files@.map_values(|f: ParsedFile| f@)),
{
    let ghost all = files@.map_values(|f: ParsedFile| f@);
    let mut batch = IndexBatch {
        file_count: 0,
        total_lines: 0,
        languages: Vec::new(),
        symbols: Vec::new(),
        queued: Vec::new(),
        late: Vec::new(),
    };
    let mut i: usize = 0;
    proof {
        let b = batch@;
        assert(b.languages =~= Seq::empty());
        assert(b.symbols =~= Seq::empty());
        assert(b.queued =~= Seq::empty());
        assert(b.late =~= Seq::empty());
        assert(all.take(0) =~= Seq::<ParsedText>::empty());
    }
    while i < files.len()
        invariant
            i <= files@.len(),
            all == files@.map_values(|f: ParsedFile| f@),
            batch@ == batch_of(context@, all.take(i as int)),
        decreases files@.len() - i,
    {
        let file = &files[i];
        let ghost before = batch@;
        proof {
            assert(all.take(i + 1).drop_last() =~= all.take(i as int));
            assert(all.take(i + 1).last() == file@);
        }
        let rel = relative(file.path.as_str(), context.root.as_str());
        let line_list = lines(file.content.as_str());
        let line_count: usize = line_list.len();
        proof {
            assert(texts(line_list@).len() == line_count);
        }
        let size: usize = file.content.as_str().len();
        let is_cxx = is_cxx_language(file.language.as_str());
        let place = find_prior(context.prior.as_slice(), rel.as_str());
        let hash = content_sha256(file.content.as_str());
        let covered = has_text(context.cached_files.as_slice(), rel.as_str());
        let prior_hash = match place {
            Some(k) => Some(context.prior[k].content_hash.as_str()),
            None => None,
        };
        let plan = plan_file(
            context.symbols_cached,
            context.cxx_augment,
            is_cxx,
            prior_hash,
            hash.as_str(),
            covered,
        );
        proof {
            assert(plan == plan_of(context@, file@));
        }
        batch.file_count = capped_add(batch.file_count, 1);
        batch.total_lines = capped_add(batch.total_lines, line_count);
        count_language(&mut batch.languages, file.language.as_str(), line_count, size);
        match plan {
            FilePlan::Reuse => {
                match place {
                    Some(k) => {
                        let reused = copy_symbols(context.prior[k].symbols.as_slice());
                        append_symbols(&mut batch.symbols, reused);
                    },
                    None => {},
                }
            },
            FilePlan::Queue => {
                let group = CxxFileSymbols {
                    abs_path: file.path.clone(),
                    relative_path: rel.clone(),
                    symbols: place_symbols(file.symbols.as_slice(), rel.as_str()),
                };
                let ghost queued = batch.queued@;
                proof {
                    assert(queued.push(group).map_values(|q: CxxFileSymbols| q@)
                        =~= queued.map_values(|q: CxxFileSymbols| q@).push(group@));
                }
                batch.queued.push(group);
            },
            FilePlan::Keep => {
                let kept = place_symbols(file.symbols.as_slice(), rel.as_str());
                append_symbols(&mut batch.symbols, kept);
            },
            FilePlan::AddLate => {
                let late = place_symbols(file.symbols.as_slice(), rel.as_str());
                append_symbols(&mut batch.late, late);
            },
            FilePlan::Skip => {},
        }
        proof {
            assert(batch@ == add_file(context@, before, file@));
        }
        i = i + 1;
    }
    proof {
        assert(all.take(all.len() as int) =~= all);
    }
    batch
}

/// With valid cached symbols nothing is queued and no symbol is replaced.
pub proof fn law_cached_symbols_are_left_alone(c: ContextText, files: Seq<ParsedText>)
    requires
        c.symbols_cached,
    ensures
        batch_of(c, files).symbols.len() == 0,
        batch_of(c, files).queued.len() == 0,
    decreases files.len(),
{
    if files.len() > 0 {
        law_cached_symbols_are_left_alone(c, files.drop_last());
    }
}

/// A file whose content is unchanged since the last run never goes to the backends.
pub proof fn law_unchanged_files_are_not_queued(c: ContextText, f: ParsedText, p: PriorText)
    requires
        prior_for(c.prior, relative_spec(f.path, c.root)) == Some(p),
        p.content_hash == content_hash(f.content),
    ensures
        plan_of(c, f) != FilePlan::Queue,
{
}

// ---- backends ----

/// The reports of a language server on one file.
#[derive(Debug)]
pub struct BackendReport {
    pub source: SourceSet,
    pub symbols: Vec<Symbol>,
}

pub struct ReportText {
    pub source: SourceSet,
    pub symbols: Seq<SymbolText>,
}

impl View for BackendReport {
    type V = ReportText;

    open spec fn view(&self) -> ReportText {
        ReportText { source: self.source, symbols: symbol_texts(self.symbols@) }
    }
}

/// The reports of the language servers merged in, one server after the other.
pub open spec fn merge_reports(
    symbols: Seq<SymbolText>,
    reports: Seq<ReportText>,
    rel: Seq<char>,
) -> Seq<SymbolText>
    decreases reports.len(),
{
    if reports.len() == 0 {
        symbols
    } else {
        merge_all(
            merge_reports(symbols, reports.drop_last(), rel),
            placed(reports.last().symbols, rel),
            reports.last().source,
        )
    }
}

pub open spec fn tag_symbols(tags: Seq<(Seq<char>, usize)>, rel: Seq<char>) -> Seq<SymbolText> {
    tags.map_values(|t: (Seq<char>, usize)| gtags_symbol_text(t.0, rel, t.1))
}

pub open spec fn tag_texts(tags: Seq<(String, usize)>) -> Seq<(Seq<char>, usize)> {
    tags.map_values(|t: (String, usize)| (t.0@, t.1))
}

/// Folds what the backends report on a file into its tree-sitter symbols: first the
/// language servers in turn, then the tags.
pub fn augment_file_symbols(
    symbols: Vec<Symbol>,
    relative_path: &str,
    reports: &[BackendReport],
    tags: &[(String, usize)],
) -> (r: Vec<Symbol>)
    ensures
        symbol_texts(r@) == merge_all(
            merge_reports(
                symbol_texts(symbols@),
                reports@.map_values(|b: BackendReport| b@),
                relative_path@,
            ),
            tag_symbols(tag_texts(tags@), relative_path@),
            SourceSet::gtags(),
        ),
{
    let ghost first = symbol_texts(symbols@);
    let ghost all = reports@.map_values(|b: BackendReport| b@);
    let mut merged = symbols;
    let mut i: usize = 0;
    proof {
        assert(all.take(0) =~= Seq::<ReportText>::empty());
    }
    while i < reports.len()
        invariant
            i <= reports@.len(),
            all == reports@.map_values(|b: BackendReport| b@),
            symbol_texts(merged@) == merge_reports(first, all.take(i as int), relative_path@),
        decreases reports@.len() - i,
    {
        proof {
            assert(all.take(i + 1).drop_last() =~= all.take(i as int));
            assert(all.take(i + 1).last() == reports@[i as int]@);
        }
        let incoming = place_symbols(reports[i].symbols.as_slice(), relative_path);
        merge_symbols(&mut merged, incoming, reports[i].source);
        i = i + 1;
    }
    proof {
        assert(all.take(all.len() as int) =~= all);
    }
    let mut tagged: Vec<Symbol> = Vec::new();
    let mut k: usize = 0;
    while k < tags.len()
        invariant
            k <= tags@.len(),
            tagged@.len() == k,
            forall|j: int|
                0 <= j < k ==> #[trigger] tagged@[j]@ == gtags_symbol_text(
                    tags@[j].0@,
                    relative_path@,
                    tags@[j].1,
                ),
        decreases tags@.len() - k,
    {
        tagged.push(gtags_symbol(tags[k].0.clone(), relative_path, tags[k].1));
        k = k + 1;
    }
    proof {
        assert(symbol_texts(tagged@) =~= tag_symbols(tag_texts(tags@), relative_path@));
    }
    merge_symbols(&mut merged, tagged, SourceSet::gtags());
    merged
}

} // verus!
