//! The pass that completes a C or C++ call graph from the language servers and the tags.

use vstd::prelude::*;

use crate::callgraph::{
    answer_texts, call_hierarchy_edges, cxx_functions, cxx_functions_of, group_by_file, grouped,
    group_texts, gtags_call_edges, hierarchy_edges, keyed_texts, tag_edges, tag_reference_texts,
    FileFunctions, FileFunctionsText, KeyedEdge, KeyedEdgeText, OutgoingCall, TagReference,
    TagReferenceText,
};
use crate::engine::{symbols_of, CodeIntelEngine, EngineText};
use crate::symbols::{symbol_texts, SourceSet, SymbolText};

verus! {

/// What one server answered on the functions of one file.
#[derive(Debug)]
pub struct AskedFile {
    pub group: FileFunctions,
    pub backend: SourceSet,
    pub answers: Vec<Vec<OutgoingCall>>,
}

pub struct AskedText {
    pub group: FileFunctionsText,
    pub backend: SourceSet,
    pub answers: Seq<Seq<(Seq<char>, usize)>>,
}

impl View for AskedFile {
    type V = AskedText;

    open spec fn view(&self) -> AskedText {
        AskedText {
            group: self.group@,
            backend: self.backend,
            answers: answer_texts(self.answers@),
        }
    }
}

/// The uses the tags report of one function.
#[derive(Debug)]
pub struct TagAnswer {
    pub callee: String,
    pub references: Vec<TagReference>,
}

pub struct TagAnswerText {
    pub callee: Seq<char>,
    pub references: Seq<TagReferenceText>,
}

impl View for TagAnswer {
    type V = TagAnswerText;

    open spec fn view(&self) -> TagAnswerText {
        TagAnswerText { callee: self.callee@, references: tag_reference_texts(self.references@) }
    }
}

/// Edges to merge into the call graph, with the backend that vouches for them.
#[derive(Debug)]
pub struct EdgeBatch {
    pub source: SourceSet,
    pub edges: Vec<KeyedEdge>,
}

pub struct EdgeBatchText {
    pub source: SourceSet,
    pub edges: Seq<KeyedEdgeText>,
}

impl View for EdgeBatch {
    type V = EdgeBatchText;

    open spec fn view(&self) -> EdgeBatchText {
        EdgeBatchText { source: self.source, edges: keyed_texts(self.edges@) }
    }
}

pub open spec fn asked_texts(v: Seq<AskedFile>) -> Seq<AskedText> {
    v.map_values(|a: AskedFile| a@)
}

pub open spec fn tag_answer_texts(v: Seq<TagAnswer>) -> Seq<TagAnswerText> {
    v.map_values(|t: TagAnswer| t@)
}

pub open spec fn edge_batch_texts(v: Seq<EdgeBatch>) -> Seq<EdgeBatchText> {
    v.map_values(|b: EdgeBatch| b@)
}

/// A batch follows the others where it has an edge.
pub open spec fn with_batch(
    front: Seq<EdgeBatchText>,
    source: SourceSet,
    edges: Seq<KeyedEdgeText>,
) -> Seq<EdgeBatchText> {
    if edges.len() > 0 {
        front.push(EdgeBatchText { source, edges })
    } else {
        front
    }
}

/// What the servers know: one batch for each answer with an edge.
pub open spec fn server_batches(asked: Seq<AskedText>) -> Seq<EdgeBatchText>
    decreases asked.len(),
{
    if asked.len() == 0 {
        Seq::empty()
    } else {
        let a = asked.last();
        with_batch(
            server_batches(asked.drop_last()),
            a.backend,
            hierarchy_edges(a.group.file_path, a.group.functions, a.answers, a.backend),
        )
    }
}

/// What the tags know, behind `front`.
pub open spec fn tag_batches(
    front: Seq<EdgeBatchText>,
    tags: Seq<TagAnswerText>,
    symbols: Seq<SymbolText>,
) -> Seq<EdgeBatchText>
    decreases tags.len(),
{
    if tags.len() == 0 {
        front
    } else {
        with_batch(
            tag_batches(front, tags.drop_last(), symbols),
            SourceSet::gtags(),
            tag_edges(tags.last().callee, tags.last().references, symbols),
        )
    }
}

/// The files of a repository whose functions the servers are asked about.
pub open spec fn files_to_ask(state: EngineText, key: Seq<char>) -> Seq<FileFunctionsText> {
    match symbols_of(state.repos, key) {
        Some(symbols) => grouped(cxx_functions_of(symbols)),
        None => Seq::empty(),
    }
}

/// The batches that complete the call graph of a repository: those of the servers, then
/// those of the tags. A repository without a C or C++ function has none.
pub open spec fn graph_batches(
    state: EngineText,
    key: Seq<char>,
    asked: Seq<AskedText>,
    tags: Seq<TagAnswerText>,
) -> Seq<EdgeBatchText> {
    match symbols_of(state.repos, key) {
        Some(symbols) => if cxx_functions_of(symbols).len() == 0 {
            Seq::empty()
        } else {
            tag_batches(server_batches(asked), tags, symbols)
        },
        None => Seq::empty(),
    }
}

fn collect_servers(asked: &[AskedFile]) -> (r: Vec<EdgeBatch>)
    ensures
        edge_batch_texts(r@) == server_batches(asked_texts(asked@)),
{
    let ghost all = asked_texts(asked@);
    let mut out: Vec<EdgeBatch> = Vec::new();
    let mut i: usize = 0;
    proof {
        assert(edge_batch_texts(out@) =~= server_batches(all.take(0)));
    }
    while i < asked.len()
        invariant
            i <= asked@.len(),
            all == asked_texts(asked@),
            edge_batch_texts(out@) == server_batches(all.take(i as int)),
        decreases asked@.len() - i,
    {
        proof {
            assert(all.take(i + 1).drop_last() =~= all.take(i as int));
            assert(all.take(i + 1).last() == asked@[i as int]@);
        }
        let edges = call_hierarchy_edges(
            &asked[i].group,
            asked[i].answers.as_slice(),
            asked[i].backend,
        );
        proof {
            assert(keyed_texts(edges@).len() == edges@.len());
        }
        if edges.len() > 0 {
            let batch = EdgeBatch { source: asked[i].backend, edges };
            proof {
                assert(edge_batch_texts(out@.push(batch)) =~= edge_batch_texts(out@).push(batch@));
            }
            out.push(batch);
        }
        i = i + 1;
    }
    proof {
        assert(all.take(all.len() as int) =~= all);
    }
    out
}

impl CodeIntelEngine {
    /// The C and C++ functions of a repository, by file: each file is opened once and asked
    /// about all of its functions.
    pub fn call_hierarchy_files(&self, key: &str) -> (r: Vec<FileFunctions>)
        ensures
            group_texts(r@) == files_to_ask(self@, key@),
    {
        match self.find_repo(key) {
            Some(i) => {
                let functions = cxx_functions(self.repos[i].symbols.as_slice());
                group_by_file(functions.as_slice())
            },
            None => {
                let none: Vec<FileFunctions> = Vec::new();
                proof {
                    assert(group_texts(none@) =~= Seq::<FileFunctionsText>::empty());
                }
                none
            },
        }
    }

    /// The edges that the servers' and the tags' answers add to the call graph. A function
    /// that is asked about has a name.
    pub fn augment_call_graph_cxx(&self, key: &str, asked: &[AskedFile], tags: &[TagAnswer]) -> (r:
        Vec<EdgeBatch>)
        requires
            forall|i: int| 0 <= i < tags@.len() ==> (#[trigger] tags@[i]).callee@.len() > 0,
        ensures
            edge_batch_texts(r@) == graph_batches(
                self@,
                key@,
                asked_texts(asked@),
                tag_answer_texts(tags@),
            ),
    {
        let none: Vec<EdgeBatch> = Vec::new();
        proof {
            assert(edge_batch_texts(none@) =~= Seq::<EdgeBatchText>::empty());
        }
        let at: usize = match self.find_repo(key) {
            Some(i) => i,
            None => {
                return none;
            },
        };
        let ghost symbols = symbol_texts(self.repos@[at as int].symbols@);
        let functions = cxx_functions(self.repos[at].symbols.as_slice());
        proof {
            assert(crate::callgraph::function_texts(functions@).len() == functions@.len());
        }
        if functions.len() == 0 {
            return none;
        }
        let ghost front = server_batches(asked_texts(asked@));
        let ghost all = tag_answer_texts(tags@);
        let mut out = collect_servers(asked);
        let mut i: usize = 0;
        proof {
            assert(tag_batches(front, all.take(0), symbols) == front);
        }
        while i < tags.len()
            invariant
                i <= tags@.len(),
                at < self.repos@.len(),
                symbols == symbol_texts(self.repos@[at as int].symbols@),
                all == tag_answer_texts(tags@),
                forall|j: int| 0 <= j < tags@.len() ==> (#[trigger] tags@[j]).callee@.len() > 0,
                edge_batch_texts(out@) == tag_batches(front, all.take(i as int), symbols),
            decreases tags@.len() - i,
        {
            proof {
                assert(all.take(i + 1).drop_last() =~= all.take(i as int));
                assert(all.take(i + 1).last() == tags@[i as int]@);
            }
            let edges = gtags_call_edges(
                tags[i].callee.as_str(),
                tags[i].references.as_slice(),
                self.repos[at].symbols.as_slice(),
            );
            proof {
                assert(keyed_texts(edges@).len() == edges@.len());
            }
            if edges.len() > 0 {
                let batch = EdgeBatch { source: SourceSet::gtags(), edges };
                proof {
                    assert(edge_batch_texts(out@.push(batch)) =~= edge_batch_texts(out@).push(
                        batch@,
                    ));
                }
                out.push(batch);
            }
            i = i + 1;
        }
        proof {
            assert(all.take(all.len() as int) =~= all);
        }
        out
    }
}

/// Every batch that is merged adds something.
pub proof fn law_no_batch_is_empty(
    state: EngineText,
    key: Seq<char>,
    asked: Seq<AskedText>,
    tags: Seq<TagAnswerText>,
    i: int,
)
    requires
        0 <= i < graph_batches(state, key, asked, tags).len(),
    ensures
        graph_batches(state, key, asked, tags)[i].edges.len() > 0,
{
    match symbols_of(state.repos, key) {
        Some(symbols) => {
            lemma_servers_add(asked);
            lemma_tags_add(server_batches(asked), tags, symbols);
        },
        None => {},
    }
}

proof fn lemma_servers_add(asked: Seq<AskedText>)
    ensures
        forall|i: int|
            0 <= i < server_batches(asked).len() ==> (#[trigger] server_batches(
                asked,
            )[i]).edges.len() > 0,
    decreases asked.len(),
{
    if asked.len() > 0 {
        lemma_servers_add(asked.drop_last());
        let front = server_batches(asked.drop_last());
        assert forall|i: int| 0 <= i < server_batches(asked).len() implies (
        #[trigger] server_batches(asked)[i]).edges.len() > 0 by {
            if i < front.len() {
                assert(server_batches(asked)[i] == front[i]);
            }
        }
    }
}

proof fn lemma_tags_add(
    front: Seq<EdgeBatchText>,
    tags: Seq<TagAnswerText>,
    symbols: Seq<SymbolText>,
)
    requires
        forall|i: int| 0 <= i < front.len() ==> (#[trigger] front[i]).edges.len() > 0,
    ensures
        forall|i: int|
            0 <= i < tag_batches(front, tags, symbols).len() ==> (#[trigger] tag_batches(
                front,
                tags,
                symbols,
            )[i]).edges.len() > 0,
    decreases tags.len(),
{
    if tags.len() > 0 {
        lemma_tags_add(front, tags.drop_last(), symbols);
        let before = tag_batches(front, tags.drop_last(), symbols);
        assert forall|i: int| 0 <= i < tag_batches(front, tags, symbols).len() implies (
        #[trigger] tag_batches(front, tags, symbols)[i]).edges.len() > 0 by {
            if i < before.len() {
                assert(tag_batches(front, tags, symbols)[i] == before[i]);
            }
        }
    }
}

} // verus!
