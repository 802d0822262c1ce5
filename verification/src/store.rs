//! What is written to the index store and what is read back from it, and the paths that
//! are watched and served.

use vstd::prelude::*;

use crate::batch::{digest_hex, sha256_hex, PriorFile, PriorText};
use crate::callgraph::{copy_edge, keyed_texts, KeyedEdge, KeyedEdgeText};
use crate::changes::{file_symbols, of_file};
use crate::freshness::{compile_commands_candidate_paths, manifest_paths};
use crate::imports::{extract_imports, import_lines};
use crate::languages::{
    get_language_id, get_language_id_spec, is_c_header_ext, is_c_header_ext_spec, is_c_source_ext,
    is_c_source_ext_spec,
};
use crate::paths::{
    ext_of, ext_or_empty, file_stem, file_stem_spec, is_absolute, is_absolute_spec, is_under,
    join_path, join_path_spec, relative, relative_spec, under,
};
use crate::pullin::{append_texts, first_once, parent_dir, parent_of};
use crate::search::{cached_texts, CachedFile, CachedText};
use crate::symbols::{copy_symbols, symbol_texts, Symbol, SymbolText};
use crate::text::{
    concat, concat_texts, contains, contains_text, decimal, has_text, lines_of, same_text, str_text,
    strip_prefix, strip_prefix_spec, texts, usize_text,
};

verus! {

// ---- saving ----

/// What the file system says of a file: `content` is absent where it cannot be read.
#[derive(Debug)]
pub struct FileFacts {
    pub path: String,
    pub modified: u64,
    pub size: u64,
    pub content: Option<Vec<u8>>,
}

pub struct FactsText {
    pub path: Seq<char>,
    pub modified: u64,
    pub size: u64,
    pub content: Option<Seq<u8>>,
}

impl View for FileFacts {
    type V = FactsText;

    open spec fn view(&self) -> FactsText {
        FactsText {
            path: self.path@,
            modified: self.modified,
            size: self.size,
            content: match self.content {
                Some(c) => Some(c@),
                None => None,
            },
        }
    }
}

pub open spec fn facts_texts(v: Seq<FileFacts>) -> Seq<FactsText> {
    v.map_values(|f: FileFacts| f@)
}

/// The record of a file in the store.
#[derive(Debug)]
pub struct StoredFile {
    pub path: String,
    pub content_hash: String,
    pub modified_time: u64,
    pub size: u64,
    pub symbols: Vec<Symbol>,
    pub call_edges: Vec<KeyedEdge>,
}

pub struct StoredText {
    pub path: Seq<char>,
    pub content_hash: Seq<char>,
    pub modified_time: u64,
    pub size: u64,
    pub symbols: Seq<SymbolText>,
    pub call_edges: Seq<KeyedEdgeText>,
}

impl View for StoredFile {
    type V = StoredText;

    open spec fn view(&self) -> StoredText {
        StoredText {
            path: self.path@,
            content_hash: self.content_hash@,
            modified_time: self.modified_time,
            size: self.size,
            symbols: symbol_texts(self.symbols@),
            call_edges: keyed_texts(self.call_edges@),
        }
    }
}

pub open spec fn stored_texts(v: Seq<StoredFile>) -> Seq<StoredText> {
    v.map_values(|f: StoredFile| f@)
}

/// Each file that has a symbol, once.
pub open spec fn symbol_paths(symbols: Seq<SymbolText>) -> Seq<Seq<char>> {
    first_once(symbols.map_values(|s: SymbolText| s.file_path))
}

/// The edges whose call stands in a file.
pub open spec fn edges_in(edges: Seq<KeyedEdgeText>, file: Seq<char>) -> Seq<KeyedEdgeText> {
    edges.filter(|e: KeyedEdgeText| e.edge.file_path == file)
}

pub open spec fn facts_of(facts: Seq<FactsText>, path: Seq<char>) -> Option<FactsText>
    decreases facts.len(),
{
    if facts.len() == 0 {
        None
    } else if facts[0].path == path {
        Some(facts[0])
    } else {
        facts_of(facts.skip(1), path)
    }
}

/// The record of a file that still exists.
pub open spec fn stored_record(
    repo: Seq<char>,
    file: Seq<char>,
    symbols: Seq<SymbolText>,
    edges: Seq<KeyedEdgeText>,
    facts: FactsText,
) -> StoredText {
    StoredText {
        path: join_path_spec(repo, file),
        content_hash: match facts.content {
            Some(bytes) => sha256_hex(bytes),
            None => Seq::empty(),
        },
        modified_time: facts.modified,
        size: facts.size,
        symbols: of_file(symbols, file),
        call_edges: edges_in(edges, file),
    }
}

/// The records of some files. A file that is gone gets none.
pub open spec fn records_of(
    files: Seq<Seq<char>>,
    repo: Seq<char>,
    symbols: Seq<SymbolText>,
    edges: Seq<KeyedEdgeText>,
    facts: Seq<FactsText>,
) -> Seq<StoredText>
    decreases files.len(),
{
    if files.len() == 0 {
        Seq::empty()
    } else {
        let front = records_of(files.drop_last(), repo, symbols, edges, facts);
        match facts_of(facts, join_path_spec(repo, files.last())) {
            Some(f) => front.push(stored_record(repo, files.last(), symbols, edges, f)),
            None => front,
        }
    }
}

/// What is saved of a repository.
pub open spec fn saved_records(
    repo: Seq<char>,
    symbols: Seq<SymbolText>,
    edges: Seq<KeyedEdgeText>,
    facts: Seq<FactsText>,
) -> Seq<StoredText> {
    records_of(symbol_paths(symbols), repo, symbols, edges, facts)
}

/// Each file that has a symbol.
fn files_with_symbols(symbols: &[Symbol]) -> (r: Vec<String>)
    ensures
        texts(r@) == symbol_paths(symbol_texts(symbols@)),
{
    let ghost all = symbol_texts(symbols@).map_values(|s: SymbolText| s.file_path);
    let mut out: Vec<String> = Vec::new();
    let mut i: usize = 0;
    proof {
        assert(texts(out@) =~= first_once(all.take(0)));
    }
    while i < symbols.len()
        invariant
            i <= symbols@.len(),
            all == symbol_texts(symbols@).map_values(|s: SymbolText| s.file_path),
            texts(out@) == first_once(all.take(i as int)),
        decreases symbols@.len() - i,
    {
        proof {
            assert(all.take(i + 1).drop_last() =~= all.take(i as int));
            assert(all.take(i + 1).last() == symbols@[i as int].file_path@);
        }
        if !has_text(out.as_slice(), symbols[i].file_path.as_str()) {
            let f = symbols[i].file_path.clone();
            proof {
                assert(texts(out@.push(f)) =~= texts(out@).push(f@));
            }
            out.push(f);
        }
        i = i + 1;
    }
    proof {
        assert(all.take(all.len() as int) =~= all);
    }
    out
}

fn edges_of_file(edges: &[KeyedEdge], file: &str) -> (r: Vec<KeyedEdge>)
    ensures
        keyed_texts(r@) == edges_in(keyed_texts(edges@), file@),
{
    let ghost all = keyed_texts(edges@);
    let ghost pred = |e: KeyedEdgeText| e.edge.file_path == file@;
    let mut out: Vec<KeyedEdge> = Vec::new();
    let mut i: usize = 0;
    proof {
        reveal(Seq::filter);
        assert(keyed_texts(out@) =~= all.take(0).filter(pred));
    }
    while i < edges.len()
        invariant
            i <= edges@.len(),
            all == keyed_texts(edges@),
            pred == (|e: KeyedEdgeText| e.edge.file_path == file@),
            keyed_texts(out@) == all.take(i as int).filter(pred),
        decreases edges@.len() - i,
    {
        proof {
            reveal(Seq::filter);
            assert(all.take(i + 1).drop_last() =~= all.take(i as int));
            assert(all.take(i + 1).last() == edges@[i as int]@);
        }
        if same_text(edges[i].edge.file_path.as_str(), file) {
            let e = KeyedEdge {
                caller: edges[i].caller.clone(),
                edge: copy_edge(&edges[i].edge, edges[i].edge.confirmed_by),
            };
            proof {
                assert(keyed_texts(out@.push(e)) =~= keyed_texts(out@).push(e@));
            }
            out.push(e);
        }
        i = i + 1;
    }
    proof {
        assert(all.take(all.len() as int) =~= all);
    }
    out
}

fn find_facts(facts: &[FileFacts], path: &str) -> (r: Option<usize>)
    ensures
        match r {
            Some(i) => i < facts@.len() && facts_of(facts_texts(facts@), path@) == Some(
                facts@[i as int]@,
            ),
            None => facts_of(facts_texts(facts@), path@) is None,
        },
{
    let ghost all = facts_texts(facts@);
    let mut i: usize = 0;
    proof {
        assert(all.skip(0) =~= all);
    }
    while i < facts.len()
        invariant
            i <= facts@.len(),
            all == facts_texts(facts@),
            facts_of(all, path@) == facts_of(all.skip(i as int), path@),
        decreases facts@.len() - i,
    {
        proof {
            assert(all.skip(i as int)[0] == facts@[i as int]@);
            assert(all.skip(i as int).skip(1) =~= all.skip(i + 1));
        }
        if same_text(facts[i].path.as_str(), path) {
            return Some(i);
        }
        i = i + 1;
    }
    None
}

/// Makes the records that are saved of a repository: one for each file that has a symbol
/// and still exists, with the symbols and the call edges of that file.
pub fn save_index(repo: &str, symbols: &[Symbol], edges: &[KeyedEdge], facts: &[FileFacts]) -> (r: Vec<
    StoredFile,
>)
    ensures
        stored_texts(r@) == saved_records(
            repo@,
            symbol_texts(symbols@),
            keyed_texts(edges@),
            facts_texts(facts@),
        ),
{
    let files = files_with_symbols(symbols);
    let ghost all = texts(files@);
    let ghost ss = symbol_texts(symbols@);
    let ghost es = keyed_texts(edges@);
    let ghost fs = facts_texts(facts@);
    let mut out: Vec<StoredFile> = Vec::new();
    let mut i: usize = 0;
    proof {
        assert(stored_texts(out@) =~= records_of(all.take(0), repo@, ss, es, fs));
    }
    while i < files.len()
        invariant
            i <= files@.len(),
            all == texts(files@),
            ss == symbol_texts(symbols@),
            es == keyed_texts(edges@),
            fs == facts_texts(facts@),
            stored_texts(out@) == records_of(all.take(i as int), repo@, ss, es, fs),
        decreases files@.len() - i,
    {
        proof {
            assert(all.take(i + 1).drop_last() =~= all.take(i as int));
            assert(all.take(i + 1).last() == files@[i as int]@);
        }
        let file = files[i].as_str();
        let path = join_path(repo, file);
        match find_facts(facts, path.as_str()) {
            Some(k) => {
                let content_hash = match &facts[k].content {
                    Some(bytes) => digest_hex(bytes.as_slice()),
                    None => {
                        let none = String::new();
                        proof {
                            assert(none@ =~= Seq::<char>::empty());
                        }
                        none
                    },
                };
                let record = StoredFile {
                    path,
                    content_hash,
                    modified_time: facts[k].modified,
                    size: facts[k].size,
                    symbols: file_symbols(symbols, file),
                    call_edges: edges_of_file(edges, file),
                };
                proof {
                    assert(stored_texts(out@.push(record)) =~= stored_texts(out@).push(record@));
                }
                out.push(record);
            },
            None => {},
        }
        i = i + 1;
    }
    proof {
        assert(all.take(all.len() as int) =~= all);
    }
    out
}

/// What is said when there is no store to save to.
pub const PERSISTENCE_OFF: &'static str = "Persistence is not enabled. Start with --persist flag to enable.";

/// What is said of a save.
pub fn saved_message(saved: usize) -> (r: String)
    ensures
        r@ == "Saved "@ + decimal(saved as nat) + " repository index(es) to disk successfully."@,
{
    let mut out = "Saved ".to_owned();
    out.append(usize_text(saved).as_str());
    out.append(" repository index(es) to disk successfully.");
    out
}

// ---- reading back ----

pub open spec fn prior_of(r: StoredText) -> PriorText {
    PriorText {
        relative_path: r.symbols[0].file_path,
        content_hash: r.content_hash,
        symbols: r.symbols,
    }
}

pub open spec fn prior_texts(v: Seq<PriorFile>) -> Seq<PriorText> {
    v.map_values(|p: PriorFile| p@)
}

pub open spec fn prior_index(list: Seq<PriorText>, path: Seq<char>) -> Option<int>
    decreases list.len(),
{
    if list.len() == 0 {
        None
    } else {
        match prior_index(list.drop_last(), path) {
            Some(i) => Some(i),
            None => if list.last().relative_path == path {
                Some(list.len() - 1)
            } else {
                None
            },
        }
    }
}

/// A file put among the others, in place of what stood under its path.
pub open spec fn put_prior(list: Seq<PriorText>, p: PriorText) -> Seq<PriorText> {
    match prior_index(list, p.relative_path) {
        Some(i) => list.update(i, p),
        None => list.push(p),
    }
}

/// The files of the last run by their paths. A record without symbols tells no path.
pub open spec fn prior_files(records: Seq<StoredText>) -> Seq<PriorText>
    decreases records.len(),
{
    if records.len() == 0 {
        Seq::empty()
    } else {
        let front = prior_files(records.drop_last());
        if records.last().symbols.len() == 0 {
            front
        } else {
            put_prior(front, prior_of(records.last()))
        }
    }
}

fn find_prior(list: &[PriorFile], path: &str) -> (r: Option<usize>)
    ensures
        (match r {
            Some(i) => Some(i as int),
            None => None,
        }) == prior_index(prior_texts(list@), path@),
        r matches Some(i) ==> i < list@.len(),
{
    let ghost all = prior_texts(list@);
    let mut found: Option<usize> = None;
    let mut i: usize = 0;
    while i < list.len()
        invariant
            i <= list@.len(),
            all == prior_texts(list@),
            (match found {
                Some(k) => Some(k as int),
                None => None,
            }) == prior_index(all.take(i as int), path@),
            found matches Some(k) ==> k < list@.len(),
        decreases list@.len() - i,
    {
        proof {
            assert(all.take(i + 1).drop_last() =~= all.take(i as int));
            assert(all.take(i + 1).last() == list@[i as int]@);
        }
        if found.is_none() && same_text(list[i].relative_path.as_str(), path) {
            found = Some(i);
        }
        i = i + 1;
    }
    proof {
        assert(all.take(all.len() as int) =~= all);
    }
    found
}

/// The symbols of the last run, file by file.
pub fn load_prior_file_symbols(records: &[StoredFile]) -> (r: Vec<PriorFile>)
    ensures
        prior_texts(r@) == prior_files(stored_texts(records@)),
{
    let ghost all = stored_texts(records@);
    let mut out: Vec<PriorFile> = Vec::new();
    let mut i: usize = 0;
    proof {
        assert(prior_texts(out@) =~= prior_files(all.take(0)));
    }
    while i < records.len()
        invariant
            i <= records@.len(),
            all == stored_texts(records@),
            prior_texts(out@) == prior_files(all.take(i as int)),
        decreases records@.len() - i,
    {
        let record = &records[i];
        proof {
            assert(all.take(i + 1).drop_last() =~= all.take(i as int));
            assert(all.take(i + 1).last() == record@);
            assert(record@.symbols.len() == record.symbols@.len());
        }
        if record.symbols.len() > 0 {
            let p = PriorFile {
                relative_path: record.symbols[0].file_path.clone(),
                content_hash: record.content_hash.clone(),
                symbols: copy_symbols(record.symbols.as_slice()),
            };
            proof {
                assert(p@ == prior_of(record@));
            }
            let ghost before = out@;
            match find_prior(out.as_slice(), p.relative_path.as_str()) {
                Some(k) => {
                    out.set(k, p);
                    proof {
                        assert(prior_texts(out@) =~= prior_texts(before).update(k as int, p@));
                    }
                },
                None => {
                    out.push(p);
                    proof {
                        assert(prior_texts(out@) =~= prior_texts(before).push(p@));
                    }
                },
            }
        }
        i = i + 1;
    }
    proof {
        assert(all.take(all.len() as int) =~= all);
    }
    out
}

/// The call edges of all records.
pub open spec fn stored_edges(records: Seq<StoredText>) -> Seq<KeyedEdgeText>
    decreases records.len(),
{
    if records.len() == 0 {
        Seq::empty()
    } else {
        stored_edges(records.drop_last()) + records.last().call_edges
    }
}

/// The call edges that the last run saved.
pub fn load_prior_call_edges(records: &[StoredFile]) -> (r: Vec<KeyedEdge>)
    ensures
        keyed_texts(r@) == stored_edges(stored_texts(records@)),
{
    let ghost all = stored_texts(records@);
    let mut out: Vec<KeyedEdge> = Vec::new();
    let mut i: usize = 0;
    proof {
        assert(keyed_texts(out@) =~= stored_edges(all.take(0)));
    }
    while i < records.len()
        invariant
            i <= records@.len(),
            all == stored_texts(records@),
            keyed_texts(out@) == stored_edges(all.take(i as int)),
        decreases records@.len() - i,
    {
        let edges = &records[i].call_edges;
        let ghost before = keyed_texts(out@);
        let ghost es = keyed_texts(edges@);
        proof {
            assert(all.take(i + 1).drop_last() =~= all.take(i as int));
            assert(all.take(i + 1).last() == records@[i as int]@);
            assert(before + es.take(0) =~= before);
        }
        let mut k: usize = 0;
        while k < edges.len()
            invariant
                k <= edges@.len(),
                es == keyed_texts(edges@),
                keyed_texts(out@) == before + es.take(k as int),
            decreases edges@.len() - k,
        {
            let e = KeyedEdge {
                caller: edges[k].caller.clone(),
                edge: copy_edge(&edges[k].edge, edges[k].edge.confirmed_by),
            };
            proof {
                assert(keyed_texts(out@.push(e)) =~= keyed_texts(out@).push(e@));
                assert(es.take(k + 1) =~= es.take(k as int).push(e@));
                assert(before + es.take(k as int).push(e@) =~= (before + es.take(k as int)).push(
                    e@,
                ));
            }
            out.push(e);
            k = k + 1;
        }
        proof {
            assert(es.take(es.len() as int) =~= es);
        }
        i = i + 1;
    }
    proof {
        assert(all.take(all.len() as int) =~= all);
    }
    out
}

proof fn lemma_first_once_holds(s: Seq<Seq<char>>)
    ensures
        forall|x: Seq<char>| #[trigger] s.contains(x) <==> first_once(s).contains(x),
        first_once(s).no_duplicates(),
    decreases s.len(),
{
    if s.len() > 0 {
        let front = s.drop_last();
        lemma_first_once_holds(front);
        let done = first_once(front);
        assert forall|x: Seq<char>| #[trigger] s.contains(x) <==> first_once(s).contains(x) by {
            if s.contains(x) {
                let k = choose|k: int| 0 <= k < s.len() && s[k] == x;
                if k < s.len() - 1 {
                    assert(front[k] == x);
                    assert(front.contains(x));
                    let j = choose|j: int| 0 <= j < done.len() && done[j] == x;
                    assert(first_once(s)[j] == x);
                } else if !done.contains(x) {
                    assert(first_once(s)[done.len() as int] == x);
                }
            }
            if first_once(s).contains(x) {
                let k = choose|k: int| 0 <= k < first_once(s).len() && first_once(s)[k] == x;
                if k < done.len() {
                    assert(done[k] == x);
                    assert(done.contains(x));
                    assert(front.contains(x));
                    let j = choose|j: int| 0 <= j < front.len() && front[j] == x;
                    assert(s[j] == x);
                } else {
                    assert(s[s.len() - 1] == x);
                }
            }
        }
    }
}

proof fn lemma_prior_index(list: Seq<PriorText>, path: Seq<char>)
    ensures
        prior_index(list, path) is None ==> forall|j: int|
            0 <= j < list.len() ==> #[trigger] list[j].relative_path != path,
        prior_index(list, path) matches Some(i) ==> 0 <= i < list.len() && list[i].relative_path
            == path,
    decreases list.len(),
{
    if list.len() > 0 {
        lemma_prior_index(list.drop_last(), path);
        assert forall|j: int| 0 <= j < list.len() - 1 implies list[j] == list.drop_last()[j] by {}
    }
}

proof fn lemma_of_file(symbols: Seq<SymbolText>, file: Seq<char>)
    ensures
        forall|j: int|
            0 <= j < of_file(symbols, file).len() ==> (#[trigger] of_file(
                symbols,
                file,
            )[j]).file_path == file,
        (exists|k: int| 0 <= k < symbols.len() && #[trigger] symbols[k].file_path == file)
            ==> of_file(symbols, file).len() > 0,
    decreases symbols.len(),
{
    reveal(Seq::filter);
    if symbols.len() > 0 {
        lemma_of_file(symbols.drop_last(), file);
        let before = of_file(symbols.drop_last(), file);
        assert forall|j: int| 0 <= j < of_file(symbols, file).len() implies (#[trigger] of_file(
            symbols,
            file,
        )[j]).file_path == file by {
            if j < before.len() {
                assert(of_file(symbols, file)[j] == before[j]);
            }
        }
        if exists|k: int| 0 <= k < symbols.len() && #[trigger] symbols[k].file_path == file {
            let k = choose|k: int| 0 <= k < symbols.len() && #[trigger] symbols[k].file_path
                == file;
            if k < symbols.len() - 1 {
                assert(symbols.drop_last()[k].file_path == file);
            }
        }
    }
}

/// What the records of some distinct files read back as.
proof fn lemma_records_read_back(
    files: Seq<Seq<char>>,
    repo: Seq<char>,
    symbols: Seq<SymbolText>,
    edges: Seq<KeyedEdgeText>,
    facts: Seq<FactsText>,
)
    requires
        files.no_duplicates(),
        forall|i: int|
            0 <= i < files.len() ==> exists|k: int|
                0 <= k < symbols.len() && #[trigger] symbols[k].file_path == #[trigger] files[i],
    ensures
        forall|j: int|
            0 <= j < prior_files(records_of(files, repo, symbols, edges, facts)).len()
                ==> files.contains(
                (#[trigger] prior_files(
                    records_of(files, repo, symbols, edges, facts),
                )[j]).relative_path,
            ),
        forall|i: int|
            #![trigger files[i]]
            0 <= i < files.len() && facts_of(facts, join_path_spec(repo, files[i])) is Some ==> {
                let f = facts_of(facts, join_path_spec(repo, files[i]))->0;
                let r = stored_record(repo, files[i], symbols, edges, f);
                let records = records_of(files, repo, symbols, edges, facts);
                &&& records.contains(r)
                &&& prior_files(records).contains(
                    (PriorText {
                        relative_path: files[i],
                        content_hash: r.content_hash,
                        symbols: of_file(symbols, files[i]),
                    }),
                )
            },
    decreases files.len(),
{
    let records = records_of(files, repo, symbols, edges, facts);
    if files.len() > 0 {
        let front = files.drop_last();
        let last = files.last();
        let before = records_of(front, repo, symbols, edges, facts);
        assert forall|i: int| 0 <= i < front.len() implies exists|k: int|
            0 <= k < symbols.len() && #[trigger] symbols[k].file_path == #[trigger] front[i] by {
            assert(front[i] == files[i]);
        }
        lemma_records_read_back(front, repo, symbols, edges, facts);
        assert forall|x: Seq<char>| front.contains(x) implies files.contains(x) && x != last by {
            let k = choose|k: int| 0 <= k < front.len() && front[k] == x;
            assert(files[k] == x);
        }
        assert(files[files.len() - 1] == last);
        lemma_of_file(symbols, last);
        match facts_of(facts, join_path_spec(repo, last)) {
            Some(f) => {
                let r = stored_record(repo, last, symbols, edges, f);
                let p = prior_of(r);
                let old_list = prior_files(before);
                assert(records.drop_last() =~= before);
                assert(r.symbols[0].file_path == last);
                lemma_prior_index(old_list, last);
                assert(prior_index(old_list, last) is None) by {
                    if prior_index(old_list, last) is Some {
                        let i = prior_index(old_list, last)->0;
                        assert(front.contains(old_list[i].relative_path));
                    }
                }
                let new_list = prior_files(records);
                assert(new_list == old_list.push(p));
                assert forall|j: int| 0 <= j < new_list.len() implies files.contains(
                    (#[trigger] new_list[j]).relative_path,
                ) by {
                    if j < old_list.len() {
                        assert(new_list[j] == old_list[j]);
                    } else {
                        assert(files.contains(last));
                    }
                }
                assert(new_list[old_list.len() as int] == p);
                assert(records[before.len() as int] == r);
                assert forall|x: StoredText| before.contains(x) implies records.contains(x) by {
                    let k = choose|k: int| 0 <= k < before.len() && before[k] == x;
                    assert(records[k] == x);
                }
                assert forall|x: PriorText| old_list.contains(x) implies new_list.contains(x) by {
                    let k = choose|k: int| 0 <= k < old_list.len() && old_list[k] == x;
                    assert(new_list[k] == x);
                }
            },
            None => {},
        }
        assert forall|i: int|
            #![trigger files[i]]
            0 <= i < files.len() && facts_of(
                facts,
                join_path_spec(repo, files[i]),
            ) is Some implies {
            let f = facts_of(facts, join_path_spec(repo, files[i]))->0;
            let r = stored_record(repo, files[i], symbols, edges, f);
            &&& records.contains(r)
            &&& prior_files(records).contains(
                (PriorText {
                    relative_path: files[i],
                    content_hash: r.content_hash,
                    symbols: of_file(symbols, files[i]),
                }),
            )
        } by {
            if i < front.len() {
                assert(front[i] == files[i]);
            }
        }
    }
}

/// What is saved comes back: the symbols of every file that exists are read back together
/// under that file's path, with the hash of the content they were read from.
pub proof fn law_saved_symbols_come_back(
    repo: Seq<char>,
    symbols: Seq<SymbolText>,
    edges: Seq<KeyedEdgeText>,
    facts: Seq<FactsText>,
    i: int,
)
    requires
        0 <= i < symbols.len(),
        facts_of(facts, join_path_spec(repo, symbols[i].file_path)) is Some,
    ensures
        ({
            let file = symbols[i].file_path;
            let f = facts_of(facts, join_path_spec(repo, file))->0;
            prior_files(saved_records(repo, symbols, edges, facts)).contains(
                (PriorText {
                    relative_path: file,
                    content_hash: stored_record(repo, file, symbols, edges, f).content_hash,
                    symbols: of_file(symbols, file),
                }),
            )
        }),
{
    let all = symbols.map_values(|s: SymbolText| s.file_path);
    let files = symbol_paths(symbols);
    lemma_first_once_holds(all);
    assert forall|k: int| 0 <= k < files.len() implies exists|j: int|
        0 <= j < symbols.len() && #[trigger] symbols[j].file_path == #[trigger] files[k] by {
        assert(files.contains(files[k]));
        assert(all.contains(files[k]));
        let j = choose|j: int| 0 <= j < all.len() && all[j] == files[k];
        assert(symbols[j].file_path == files[k]);
    }
    lemma_records_read_back(files, repo, symbols, edges, facts);
    assert(all[i] == symbols[i].file_path);
    assert(all.contains(symbols[i].file_path));
    let k = choose|k: int| 0 <= k < files.len() && files[k] == symbols[i].file_path;
    assert(files[k] == symbols[i].file_path);
}

proof fn lemma_stored_edges(records: Seq<StoredText>, r: StoredText, e: KeyedEdgeText)
    requires
        records.contains(r),
        r.call_edges.contains(e),
    ensures
        stored_edges(records).contains(e),
    decreases records.len(),
{
    let k = choose|k: int| 0 <= k < records.len() && records[k] == r;
    let front = stored_edges(records.drop_last());
    let whole = stored_edges(records);
    if k < records.len() - 1 {
        assert(records.drop_last()[k] == r);
        lemma_stored_edges(records.drop_last(), r, e);
        let j = choose|j: int| 0 <= j < front.len() && front[j] == e;
        assert(whole[j] == e);
    } else {
        let j = choose|j: int| 0 <= j < r.call_edges.len() && r.call_edges[j] == e;
        assert(whole[front.len() + j] == e);
    }
}

proof fn lemma_edges_in(edges: Seq<KeyedEdgeText>, i: int)
    requires
        0 <= i < edges.len(),
    ensures
        edges_in(edges, edges[i].edge.file_path).contains(edges[i]),
    decreases edges.len(),
{
    reveal(Seq::filter);
    let file = edges[i].edge.file_path;
    let whole = edges_in(edges, file);
    let front = edges_in(edges.drop_last(), file);
    if i < edges.len() - 1 {
        lemma_edges_in(edges.drop_last(), i);
        assert(edges.drop_last()[i] == edges[i]);
        let j = choose|j: int| 0 <= j < front.len() && front[j] == edges[i];
        assert(whole[j] == edges[i]);
    } else {
        assert(whole[front.len() as int] == edges[i]);
    }
}

/// A call edge that stands in a file with a symbol, where that file exists, is read back.
pub proof fn law_saved_edges_come_back(
    repo: Seq<char>,
    symbols: Seq<SymbolText>,
    edges: Seq<KeyedEdgeText>,
    facts: Seq<FactsText>,
    i: int,
    s: int,
)
    requires
        0 <= i < edges.len(),
        0 <= s < symbols.len(),
        symbols[s].file_path == edges[i].edge.file_path,
        facts_of(facts, join_path_spec(repo, symbols[s].file_path)) is Some,
    ensures
        stored_edges(saved_records(repo, symbols, edges, facts)).contains(edges[i]),
{
    let file = symbols[s].file_path;
    let all = symbols.map_values(|s: SymbolText| s.file_path);
    let files = symbol_paths(symbols);
    lemma_first_once_holds(all);
    assert forall|k: int| 0 <= k < files.len() implies exists|j: int|
        0 <= j < symbols.len() && #[trigger] symbols[j].file_path == #[trigger] files[k] by {
        assert(files.contains(files[k]));
        assert(all.contains(files[k]));
        let j = choose|j: int| 0 <= j < all.len() && all[j] == files[k];
        assert(symbols[j].file_path == files[k]);
    }
    lemma_records_read_back(files, repo, symbols, edges, facts);
    assert(all[s] == file);
    assert(all.contains(file));
    let k = choose|k: int| 0 <= k < files.len() && files[k] == file;
    assert(files[k] == file);
    let f = facts_of(facts, join_path_spec(repo, file))->0;
    lemma_edges_in(edges, i);
    lemma_stored_edges(
        saved_records(repo, symbols, edges, facts),
        stored_record(repo, file, symbols, edges, f),
        edges[i],
    );
}

// ---- watched manifests ----

/// The manifests that are watched: an absolute one once, others for every repository.
pub open spec fn watch_paths(used: bool, explicit: Option<Seq<char>>, repos: Seq<Seq<char>>) -> Seq<
    Seq<char>,
> {
    if !used {
        Seq::empty()
    } else if explicit is Some && is_absolute_spec(explicit->0) {
        seq![explicit->0]
    } else {
        repo_manifests(explicit, repos)
    }
}

pub open spec fn repo_manifests(explicit: Option<Seq<char>>, repos: Seq<Seq<char>>) -> Seq<Seq<char>>
    decreases repos.len(),
{
    if repos.len() == 0 {
        Seq::empty()
    } else {
        repo_manifests(explicit, repos.drop_last()) + manifest_paths(explicit, repos.last())
    }
}

/// The manifest paths that watching has to cover.
pub fn compile_commands_watch_paths(used: bool, explicit: Option<&str>, repos: &[String]) -> (r: Vec<
    String,
>)
    ensures
        texts(r@) == watch_paths(used, str_text(explicit), texts(repos@)),
{
    let mut out: Vec<String> = Vec::new();
    let ghost all = texts(repos@);
    let ghost ex = str_text(explicit);
    if !used {
        proof {
            assert(texts(out@) =~= Seq::<Seq<char>>::empty());
        }
        return out;
    }
    match explicit {
        Some(path) => {
            if is_absolute(path) {
                out.push(path.to_owned());
                proof {
                    assert(texts(out@) =~= seq![path@]);
                }
                return out;
            }
        },
        None => {},
    }
    let mut i: usize = 0;
    proof {
        assert(texts(out@) =~= repo_manifests(ex, all.take(0)));
    }
    while i < repos.len()
        invariant
            i <= repos@.len(),
            all == texts(repos@),
            ex == str_text(explicit),
            texts(out@) == repo_manifests(ex, all.take(i as int)),
        decreases repos@.len() - i,
    {
        proof {
            assert(all.take(i + 1).drop_last() =~= all.take(i as int));
            assert(all.take(i + 1).last() == repos@[i as int]@);
        }
        let own = compile_commands_candidate_paths(explicit, repos[i].as_str());
        let ghost before = out@;
        append_texts(&mut out, own.as_slice());
        i = i + 1;
    }
    proof {
        assert(all.take(all.len() as int) =~= all);
    }
    out
}

/// Whatever manifest an index run reads is watched.
pub proof fn law_manifests_are_watched(
    explicit: Option<Seq<char>>,
    repos: Seq<Seq<char>>,
    i: int,
    path: Seq<char>,
)
    requires
        0 <= i < repos.len(),
        manifest_paths(explicit, repos[i]).contains(path),
    ensures
        watch_paths(true, explicit, repos).contains(path),
{
    if explicit is Some && is_absolute_spec(explicit->0) {
        assert(watch_paths(true, explicit, repos)[0] == path);
    } else {
        lemma_repo_manifests(explicit, repos, i, path);
    }
}

proof fn lemma_repo_manifests(
    explicit: Option<Seq<char>>,
    repos: Seq<Seq<char>>,
    i: int,
    path: Seq<char>,
)
    requires
        0 <= i < repos.len(),
        manifest_paths(explicit, repos[i]).contains(path),
    ensures
        repo_manifests(explicit, repos).contains(path),
    decreases repos.len(),
{
    let front = repo_manifests(explicit, repos.drop_last());
    let own = manifest_paths(explicit, repos.last());
    let whole = repo_manifests(explicit, repos);
    if i < repos.len() - 1 {
        lemma_repo_manifests(explicit, repos.drop_last(), i, path);
        let k = choose|k: int| 0 <= k < front.len() && front[k] == path;
        assert(whole[k] == path);
    } else {
        let k = choose|k: int| 0 <= k < own.len() && own[k] == path;
        assert(whole[front.len() + k] == path);
    }
}

/// A directory is inside a watched repository.
pub open spec fn already_watched(dir: Seq<char>, repos: Seq<Seq<char>>) -> bool {
    exists|i: int| 0 <= i < repos.len() && is_under(dir, #[trigger] repos[i])
}

/// The directories outside the repositories that have to be watched, each once.
pub open spec fn watch_dirs(
    paths: Seq<Seq<char>>,
    repos: Seq<Seq<char>>,
    existing: Seq<Seq<char>>,
) -> Seq<Seq<char>>
    decreases paths.len(),
{
    if paths.len() == 0 {
        Seq::empty()
    } else {
        let front = watch_dirs(paths.drop_last(), repos, existing);
        match parent_dir(paths.last()) {
            Some(dir) => if existing.contains(dir) && !already_watched(dir, repos)
                && !front.contains(dir) {
                front.push(dir)
            } else {
                front
            },
            None => front,
        }
    }
}

fn is_watched(dir: &str, repos: &[String]) -> (r: bool)
    ensures
        r == already_watched(dir@, texts(repos@)),
{
    let ghost all = texts(repos@);
    let mut i: usize = 0;
    while i < repos.len()
        invariant
            i <= repos@.len(),
            all == texts(repos@),
            forall|j: int| 0 <= j < i ==> !is_under(dir@, #[trigger] all[j]),
        decreases repos@.len() - i,
    {
        proof {
            assert(all[i as int] == repos@[i as int]@);
        }
        if under(dir, repos[i].as_str()) {
            return true;
        }
        i = i + 1;
    }
    false
}

/// The directories of manifests outside the repositories. The directory is watched, not the
/// file, which a rename would replace. `existing` are the directories that exist.
pub fn compile_commands_watch_dirs(paths: &[String], repos: &[String], existing: &[String]) -> (r: Vec<
    String,
>)
    ensures
        texts(r@) == watch_dirs(texts(paths@), texts(repos@), texts(existing@)),
{
    let ghost all = texts(paths@);
    let ghost rs = texts(repos@);
    let ghost es = texts(existing@);
    let mut out: Vec<String> = Vec::new();
    let mut i: usize = 0;
    proof {
        assert(texts(out@) =~= watch_dirs(all.take(0), rs, es));
    }
    while i < paths.len()
        invariant
            i <= paths@.len(),
            all == texts(paths@),
            rs == texts(repos@),
            es == texts(existing@),
            texts(out@) == watch_dirs(all.take(i as int), rs, es),
        decreases paths@.len() - i,
    {
        proof {
            assert(all.take(i + 1).drop_last() =~= all.take(i as int));
            assert(all.take(i + 1).last() == paths@[i as int]@);
        }
        match parent_of(paths[i].as_str()) {
            Some(dir) => {
                if has_text(existing, dir.as_str()) && !is_watched(dir.as_str(), repos)
                    && !has_text(out.as_slice(), dir.as_str()) {
                    proof {
                        assert(texts(out@.push(dir)) =~= texts(out@).push(dir@));
                    }
                    out.push(dir);
                }
            },
            None => {},
        }
        i = i + 1;
    }
    proof {
        assert(all.take(all.len() as int) =~= all);
    }
    out
}

// ---- tag databases ----

/// A file and the time it was last written, where that is known.
#[derive(Debug)]
pub struct WrittenFile {
    pub path: String,
    pub modified: Option<u64>,
}

pub open spec fn written_texts(v: Seq<WrittenFile>) -> Seq<(Seq<char>, Option<u64>)> {
    v.map_values(|f: WrittenFile| (f.path@, f.modified))
}

/// A C or C++ file was written after the tag database.
pub open spec fn written_after(f: (Seq<char>, Option<u64>), database: u64) -> bool {
    let ext = ext_or_empty(f.0);
    (is_c_source_ext_spec(ext) || is_c_header_ext_spec(ext)) && f.1 is Some && f.1->0 > database
}

/// Tells whether a file is C or C++ and was written after the tag database.
pub(crate) fn is_written_after(f: &WrittenFile, database: u64) -> (r: bool)
    ensures
        r == written_after((f.path@, f.modified), database),
{
    let ext = ext_of(f.path.as_str());
    match f.modified {
        Some(written) => written > database && (is_c_source_ext(ext.as_str()) || is_c_header_ext(
            ext.as_str(),
        )),
        None => false,
    }
}

/// Tells whether a tag database is older than a C or C++ file. One that is not there is not
/// stale.
pub fn gtags_database_stale(database: Option<u64>, files: &[WrittenFile]) -> (r: bool)
    ensures
        r == (database matches Some(time) && exists|i: int|
            0 <= i < files@.len() && written_after(
                #[trigger] written_texts(files@)[i],
                time,
            )),
{
    let ghost all = written_texts(files@);
    let time: u64 = match database {
        Some(t) => t,
        None => {
            return false;
        },
    };
    let mut i: usize = 0;
    while i < files.len()
        invariant
            i <= files@.len(),
            all == written_texts(files@),
            database == Some(time),
            forall|j: int| 0 <= j < i ==> !written_after(#[trigger] all[j], time),
        decreases files@.len() - i,
    {
        proof {
            assert(all[i as int] == (files@[i as int].path@, files@[i as int].modified));
        }
        if is_written_after(&files[i], time) {
            return true;
        }
        i = i + 1;
    }
    false
}

// ---- resources ----

/// The path a resource address names.
pub open spec fn resource_path_spec(uri: Seq<char>) -> Seq<char> {
    match strip_prefix_spec(uri, "file://"@) {
        Some(path) => path,
        None => uri,
    }
}

pub fn resource_path(uri: &str) -> (r: String)
    ensures
        r@ == resource_path_spec(uri@),
{
    match strip_prefix(uri, "file://") {
        Some(path) => path,
        None => uri.to_owned(),
    }
}

/// What is said of a resource outside the repositories.
pub open spec fn resource_denied(path: Seq<char>) -> Seq<char> {
    "Access denied: path '"@ + path + "' is outside all indexed repositories"@
}

/// Tells whether a resource is read: its canonical path has to be inside one of the
/// repositories, by their canonical roots.
pub fn read_resource(uri: &str, canonical: &str, roots: &[String]) -> (r: Result<(), String>)
    ensures
        r is Ok <==> already_watched(canonical@, texts(roots@)),
        r matches Err(e) ==> e@ == resource_denied(resource_path_spec(uri@)),
{
    if is_watched(canonical, roots) {
        Ok(())
    } else {
        let path = resource_path(uri);
        let mut out = "Access denied: path '".to_owned();
        out.append(path.as_str());
        out.append("' is outside all indexed repositories");
        Err(out)
    }
}

/// Nothing outside the repositories is served.
pub proof fn law_served_resources_are_indexed(canonical: Seq<char>, roots: Seq<Seq<char>>)
    requires
        already_watched(canonical, roots),
    ensures
        exists|i: int|
            #![trigger roots[i]]
            0 <= i < roots.len() && crate::paths::components_of(roots[i]).is_prefix_of(
                crate::paths::components_of(canonical),
            ),
{
    let i = choose|i: int| 0 <= i < roots.len() && is_under(canonical, #[trigger] roots[i]);
    assert(is_under(canonical, roots[i]));
}

// ---- dependencies ----

pub open spec fn bullet(s: Seq<char>) -> Seq<char> {
    "- `"@ + s + "`\n"@
}

fn bullets(list: &[String]) -> (r: String)
    ensures
        r@ == concat(texts(list@).map_values(|s: Seq<char>| bullet(s))),
{
    let ghost all = texts(list@);
    let mut rows: Vec<String> = Vec::new();
    let mut i: usize = 0;
    while i < list.len()
        invariant
            i <= list@.len(),
            rows@.len() == i,
            forall|j: int| 0 <= j < i ==> #[trigger] rows@[j]@ == bullet(list@[j]@),
        decreases list@.len() - i,
    {
        let mut row = "- `".to_owned();
        row.append(list[i].as_str());
        row.append("`\n");
        rows.push(row);
        i = i + 1;
    }
    proof {
        assert(texts(rows@) =~= all.map_values(|s: Seq<char>| bullet(s)));
    }
    concat_texts(rows.as_slice())
}

/// The name by which other files import a file.
pub open spec fn module_name(path: Seq<char>) -> Seq<char> {
    match file_stem_spec(path) {
        Some(s) => s,
        None => Seq::empty(),
    }
}

/// Another file of the repository whose text holds the module's name.
pub open spec fn mentions_module(
    f: CachedText,
    repo: Seq<char>,
    file: Seq<char>,
    module: Seq<char>,
) -> bool {
    is_under(f.path, repo) && f.path != file && contains_text(f.content, module)
}

/// The files that import a file, by their repo-relative paths.
pub open spec fn importers(
    cached: Seq<CachedText>,
    repo: Seq<char>,
    file: Seq<char>,
    module: Seq<char>,
) -> Seq<Seq<char>> {
    cached.filter(|f: CachedText| mentions_module(f, repo, file, module)).map_values(
        |f: CachedText| relative_spec(f.path, repo),
    )
}

pub open spec fn dependencies_answer(
    repo: Seq<char>,
    path: Seq<char>,
    file: Seq<char>,
    content: Seq<char>,
    direction: Seq<char>,
    cached: Seq<CachedText>,
) -> Seq<char> {
    let imports = if direction == "imports"@ || direction == "both"@ {
        "## Imports\n\n"@ + concat(
            import_lines(lines_of(content)).map_values(|s: Seq<char>| bullet(s)),
        ) + "\n"@
    } else {
        Seq::empty()
    };
    let imported_by = if direction == "imported_by"@ || direction == "both"@ {
        "## Imported By\n\n"@ + concat(
            importers(cached, repo, file, module_name(path)).map_values(|s: Seq<char>| bullet(s)),
        )
    } else {
        Seq::empty()
    };
    "# Dependencies for `"@ + path + "`\n\n"@ + imports + imported_by
}

fn importing_files(cached: &[CachedFile], repo: &str, file: &str, module: &str) -> (r: Vec<String>)
    ensures
        texts(r@) == importers(cached_texts(cached@), repo@, file@, module@),
{
    let ghost all = cached_texts(cached@);
    let ghost pred = |f: CachedText| mentions_module(f, repo@, file@, module@);
    let ghost shown = |f: CachedText| relative_spec(f.path, repo@);
    let mut out: Vec<String> = Vec::new();
    let mut i: usize = 0;
    proof {
        reveal(Seq::filter);
        assert(texts(out@) =~= all.take(0).filter(pred).map_values(shown));
    }
    while i < cached.len()
        invariant
            i <= cached@.len(),
            all == cached_texts(cached@),
            pred == (|f: CachedText| mentions_module(f, repo@, file@, module@)),
            shown == (|f: CachedText| relative_spec(f.path, repo@)),
            texts(out@) == all.take(i as int).filter(pred).map_values(shown),
        decreases cached@.len() - i,
    {
        proof {
            reveal(Seq::filter);
            assert(all.take(i + 1).drop_last() =~= all.take(i as int));
            assert(all.take(i + 1).last() == cached@[i as int]@);
        }
        let path = cached[i].path.as_str();
        if under(path, repo) && !same_text(path, file) && contains(
            cached[i].content.as_str(),
            module,
        ) {
            let rel = relative(path, repo);
            proof {
                let kept = all.take(i as int).filter(pred);
                assert(texts(out@.push(rel)) =~= texts(out@).push(rel@));
                assert(kept.push(cached@[i as int]@).map_values(shown) =~= kept.map_values(
                    shown,
                ).push(rel@));
            }
            out.push(rel);
        }
        i = i + 1;
    }
    proof {
        assert(all.take(all.len() as int) =~= all);
    }
    out
}

/// Renders what a file imports and what imports it. `file` is its absolute path.
pub fn get_dependencies(
    repo: &str,
    path: &str,
    file: &str,
    content: &str,
    direction: &str,
    cached: &[CachedFile],
) -> (r: String)
    ensures
        r@ == dependencies_answer(
            repo@,
            path@,
            file@,
            content@,
            direction@,
            cached_texts(cached@),
        ),
{
    let both = same_text(direction, "both");
    let mut imports = String::new();
    let mut imported_by = String::new();
    proof {
        assert(imports@ =~= Seq::<char>::empty());
        assert(imported_by@ =~= Seq::<char>::empty());
    }
    if same_text(direction, "imports") || both {
        let found = extract_imports(content);
        imports = "## Imports\n\n".to_owned();
        imports.append(bullets(found.as_slice()).as_str());
        imports.append("\n");
    }
    if same_text(direction, "imported_by") || both {
        let module = match file_stem(path) {
            Some(s) => s,
            None => {
                let none = String::new();
                proof {
                    assert(none@ =~= Seq::<char>::empty());
                }
                none
            },
        };
        let found = importing_files(cached, repo, file, module.as_str());
        imported_by = "## Imported By\n\n".to_owned();
        imported_by.append(bullets(found.as_slice()).as_str());
    }
    let mut out = "# Dependencies for `".to_owned();
    out.append(path);
    out.append("`\n\n");
    out.append(imports.as_str());
    out.append(imported_by.as_str());
    out
}

// ---- excerpts ----

/// An excerpt of a file. `relevance` is its score as it is shown.
#[derive(Debug)]
pub struct Excerpt {
    pub start_line: usize,
    pub end_line: usize,
    pub relevance: String,
    pub content: String,
}

pub struct ExcerptText {
    pub start_line: usize,
    pub end_line: usize,
    pub relevance: Seq<char>,
    pub content: Seq<char>,
}

impl View for Excerpt {
    type V = ExcerptText;

    open spec fn view(&self) -> ExcerptText {
        ExcerptText {
            start_line: self.start_line,
            end_line: self.end_line,
            relevance: self.relevance@,
            content: self.content@,
        }
    }
}

pub open spec fn excerpt_texts(v: Seq<Excerpt>) -> Seq<ExcerptText> {
    v.map_values(|e: Excerpt| e@)
}

pub open spec fn excerpt_part(e: ExcerptText, number: nat, path: Seq<char>) -> Seq<char> {
    let language = get_language_id_spec(path);
    "## Excerpt "@ + decimal(number) + "\nLines "@ + decimal(e.start_line as nat) + "-"@
        + decimal(e.end_line as nat) + " | Relevance: "@ + e.relevance + "\n\n```"@ + language
        + "\n"@ + e.content + "\n```\n\n"@
}

pub open spec fn excerpts_answer(path: Seq<char>, best: Seq<ExcerptText>, matches: usize) -> Seq<char> {
    let parts = concat(
        Seq::new(best.len(), |i: int| excerpt_part(best[i], (i + 1) as nat, path)),
    );
    let none = if best.len() == 0 {
        "*No excerpts could be extracted.*\n"@
    } else {
        Seq::empty()
    };
    "# Code Excerpt: `"@ + path + "`\n\nExtracted "@ + decimal(best.len() as nat)
        + " excerpt(s) from "@ + decimal(matches as nat) + " match line(s)\n\n"@ + parts + none
}

fn render_excerpt(e: &Excerpt, number: usize, path: &str) -> (r: String)
    ensures
        r@ == excerpt_part(e@, number as nat, path@),
{
    let mut out = "## Excerpt ".to_owned();
    out.append(usize_text(number).as_str());
    let mut body = "\nLines ".to_owned();
    body.append(usize_text(e.start_line).as_str());
    body.append("-");
    body.append(usize_text(e.end_line).as_str());
    body.append(" | Relevance: ");
    body.append(e.relevance.as_str());
    body.append("\n\n```");
    body.append(get_language_id(path));
    body.append("\n");
    body.append(e.content.as_str());
    body.append("\n```\n\n");
    out.append(body.as_str());
    out
}

/// Renders the excerpts chosen from a file.
pub fn render_excerpts(path: &str, best: &[Excerpt], matches: usize) -> (r: String)
    ensures
        r@ == excerpts_answer(path@, excerpt_texts(best@), matches),
{
    let ghost all = excerpt_texts(best@);
    proof {
        assert(all.len() == best@.len());
    }
    let total: usize = best.len();
    let mut rows: Vec<String> = Vec::new();
    let mut i: usize = 0;
    while i < total
        invariant
            i <= total == best@.len(),
            rows@.len() == i,
            forall|j: int|
                0 <= j < i ==> #[trigger] rows@[j]@ == excerpt_part(
                    best@[j]@,
                    (j + 1) as nat,
                    path@,
                ),
        decreases total - i,
    {
        rows.push(render_excerpt(&best[i], i + 1, path));
        i = i + 1;
    }
    proof {
        assert(texts(rows@) =~= Seq::new(
            all.len(),
            |i: int| excerpt_part(all[i], (i + 1) as nat, path@),
        ));
    }
    let parts = concat_texts(rows.as_slice());
    let mut none = String::new();
    proof {
        assert(none@ =~= Seq::<char>::empty());
    }
    if total == 0 {
        none = "*No excerpts could be extracted.*\n".to_owned();
    }
    let mut out = "# Code Excerpt: `".to_owned();
    out.append(path);
    out.append("`\n\nExtracted ");
    out.append(usize_text(total).as_str());
    out.append(" excerpt(s) from ");
    out.append(usize_text(matches).as_str());
    out.append(" match line(s)\n\n");
    out.append(parts.as_str());
    out.append(none.as_str());
    out
}

// ---- embeddings ----

/// The name under which a symbol's signature is kept. The repository leads, since two may
/// hold the same relative path.
pub open spec fn embedding_id(repo: Seq<char>, s: SymbolText) -> Seq<char> {
    repo + "::"@ + s.file_path + "::"@ + s.name
}

/// What is kept of a symbol for semantic search: its name there and its signature. A symbol
/// without a signature is not kept.
pub fn index_symbol_embeddings(repo: &str, symbol: &Symbol) -> (r: Option<(String, String)>)
    ensures
        match r {
            Some(kept) => symbol@.signature == Some(kept.1@) && kept.0@ == embedding_id(
                repo@,
                symbol@,
            ),
            None => symbol@.signature is None,
        },
{
    match &symbol.signature {
        Some(signature) => {
            let mut id = repo.to_owned();
            id.append("::");
            id.append(symbol.file_path.as_str());
            id.append("::");
            id.append(symbol.name.as_str());
            Some((id, signature.clone()))
        },
        None => None,
    }
}

} // verus!
