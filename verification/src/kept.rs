//! When a tool answers from what was kept, and what it keeps.

use vstd::prelude::*;

use crate::cache::{
    law_an_answer_is_served_to_no_other_question, lemma_option_parts, option_parts, push_option,
    search_parts, AnalysisCache, AnalysisCacheKey, CacheKeyText, CacheText, CachedAnswerText,
    QueryCache, SearchOptions, SearchOptionsText,
};
use crate::calltools::{
    call_graph_gap, call_graph_gap_spec, edges_cache_key, edges_key_spec, graph_cache_key,
    graph_key_spec, law_questions_do_not_share_answers, EdgeQuestion, EdgeTool,
};
use crate::engine::{CodeIntelEngine, RepoArg};
use crate::lookup::{is_unfiltered, QueryText, SymbolQuery};
use crate::text::texts;
use crate::tools::{arg_text, optional_key, optional_named};

verus! {

/// What a tool that keeps its answers does next.
#[derive(Debug)]
pub enum CacheStep {
    /// Give the answer that was kept.
    Kept(String),
    /// Work the answer out, and keep it under this key where there is one.
    Ask(Option<AnalysisCacheKey>),
}

pub enum CacheStepText {
    Kept(Seq<char>),
    Ask(Option<CacheKeyText>),
}

impl View for CacheStep {
    type V = CacheStepText;

    open spec fn view(&self) -> CacheStepText {
        match self {
            CacheStep::Kept(text) => CacheStepText::Kept(text@),
            CacheStep::Ask(Some(key)) => CacheStepText::Ask(Some(key@)),
            CacheStep::Ask(None) => CacheStepText::Ask(None),
        }
    }
}

pub open spec fn step_text(r: Result<CacheStep, String>) -> Result<CacheStepText, Seq<char>> {
    match r {
        Ok(step) => Ok(step@),
        Err(e) => Err(e@),
    }
}

/// A cache that is on is asked; one that is off is neither asked nor filled.
pub open spec fn consulted(
    enabled: bool,
    cache: CacheText,
    key: CacheKeyText,
    repo_hash: Seq<char>,
    now: u64,
) -> (CacheStepText, CacheText) {
    if !enabled {
        (CacheStepText::Ask(None), cache)
    } else {
        (
            match cache.served(key, repo_hash, now) {
                Some(text) => CacheStepText::Kept(text),
                None => CacheStepText::Ask(Some(key)),
            },
            cache.asked(key, repo_hash, now),
        )
    }
}

/// An answer is kept, an error is not.
pub open spec fn filled(
    cache: CacheText,
    key: Option<CacheKeyText>,
    repo_hash: Seq<char>,
    files: Seq<Seq<char>>,
    answer: Result<Seq<char>, Seq<char>>,
    now: u64,
) -> CacheText {
    match (key, answer) {
        (Some(key), Ok(text)) => cache.put(
            CachedAnswerText { key, answer: text, repo_hash, files, at: now },
        ),
        _ => cache,
    }
}

// ---- keys ----

pub open spec fn edge_analysis(tool: EdgeTool) -> Seq<char> {
    match tool {
        EdgeTool::Callers => "callers_hybrid"@,
        EdgeTool::Callees => "callees_hybrid"@,
    }
}

/// What the answer about the callers or callees of a function is kept under.
pub open spec fn edge_key(
    tool: EdgeTool,
    repo: Seq<char>,
    function: Seq<char>,
    q: EdgeQuestion,
) -> CacheKeyText {
    CacheKeyText {
        repo,
        analysis: edge_analysis(tool),
        discriminator: seq![function, edges_key_spec(function, q)],
    }
}

/// What a call graph is kept under.
pub open spec fn graph_key(
    repo: Seq<char>,
    function: Seq<char>,
    exclude_tests: bool,
) -> CacheKeyText {
    CacheKeyText {
        repo,
        analysis: "call_graph"@,
        discriminator: seq![function, graph_key_spec(function, exclude_tests)],
    }
}

/// What the symbols that were found are kept under.
pub open spec fn symbols_key(
    repo: Seq<char>,
    q: QueryText,
    exclude_tests: Option<bool>,
) -> CacheKeyText {
    CacheKeyText {
        repo,
        analysis: "find_symbols"@,
        discriminator: search_parts(
            Seq::empty(),
            SearchOptionsText { file_pattern: q.file_pattern, max_results: q.limit, exclude_tests },
        ) + option_parts(q.pattern) + option_parts(q.symbol_type),
    }
}

/// What the results of a code search are kept under.
pub open spec fn search_key(
    repo: Option<Seq<char>>,
    query: Seq<char>,
    o: SearchOptionsText,
) -> CacheKeyText {
    CacheKeyText {
        repo: match repo {
            Some(path) => path,
            None => Seq::empty(),
        },
        analysis: "search_code"@,
        discriminator: search_parts(query, o),
    }
}

// ---- tools ----

impl CodeIntelEngine {
    fn consult(
        &self,
        cache: &mut AnalysisCache,
        key: AnalysisCacheKey,
        repo_hash: &str,
        now: u64,
    ) -> (r: CacheStep)
        requires
            old(cache)@.wf(),
        ensures
            final(cache)@.wf(),
            (r@, final(cache)@) == consulted(
                self.options.cache_enabled,
                old(cache)@,
                key@,
                repo_hash@,
                now,
            ),
    {
        if !self.options.cache_enabled {
            return CacheStep::Ask(None);
        }
        match cache.get_if_hash_matches(&key, repo_hash, now) {
            Some(text) => CacheStep::Kept(text),
            None => CacheStep::Ask(Some(key)),
        }
    }

    fn consult_searches(&self, cache: &mut QueryCache, key: AnalysisCacheKey, now: u64) -> (r:
        CacheStep)
        requires
            old(cache)@.wf(),
        ensures
            final(cache)@.wf(),
            (r@, final(cache)@) == consulted(
                self.options.cache_enabled,
                old(cache)@,
                key@,
                Seq::empty(),
                now,
            ),
    {
        if !self.options.cache_enabled {
            return CacheStep::Ask(None);
        }
        match cache.get(&key, now) {
            Some(text) => CacheStep::Kept(text),
            None => CacheStep::Ask(Some(key)),
        }
    }

    /// Asks the cache about the callers or callees of a function. `repo_hash` is the state of
    /// the repository the argument names.
    pub fn kept_edges(
        &mut self,
        cache: &mut AnalysisCache,
        arg: &RepoArg,
        tool: EdgeTool,
        function: &str,
        question: EdgeQuestion,
        repo_hash: &str,
        now: u64,
    ) -> (r: Result<CacheStep, String>)
        requires
            old(self)@.wf(),
            old(cache)@.wf(),
        ensures
            final(self)@.wf(),
            final(self)@ == old(self)@.named(arg@),
            final(self).options == old(self).options,
            final(cache)@.wf(),
            (step_text(r), final(cache)@) == (match old(self)@.resolved(arg@) {
                Err(e) => (Err(e), old(cache)@),
                Ok(key) => match call_graph_gap_spec(
                    Some(function@),
                    old(self)@.initialized,
                    true,
                ) {
                    Some(gap) => (Err(gap.text(tool.tool_spec(), key)), old(cache)@),
                    None => {
                        let c = consulted(
                            old(self).options.cache_enabled,
                            old(cache)@,
                            edge_key(tool, key, function@, question),
                            repo_hash@,
                            now,
                        );
                        (Ok(c.0), c.1)
                    },
                },
            }),
    {
        let key = match self.resolve_repo(arg) {
            Ok(k) => k,
            Err(e) => {
                return Err(e);
            },
        };
        match call_graph_gap(Some(function), self.registry.initialized, true) {
            Some(gap) => {
                return Err(gap.message(tool.tool(), key.as_str()));
            },
            None => {},
        }
        let mut parts: Vec<String> = Vec::new();
        parts.push(function.to_owned());
        parts.push(edges_cache_key(function, question));
        proof {
            assert(texts(parts@) =~= seq![function@, edges_key_spec(function@, question)]);
        }
        let analysis = match tool {
            EdgeTool::Callers => "callers_hybrid",
            EdgeTool::Callees => "callees_hybrid",
        };
        let under = AnalysisCacheKey::with_parts(key.as_str(), analysis, parts);
        Ok(self.consult(cache, under, repo_hash, now))
    }

    /// Asks the cache about a call graph.
    pub fn kept_call_graph(
        &mut self,
        cache: &mut AnalysisCache,
        arg: &RepoArg,
        function: &str,
        exclude_tests: bool,
        repo_hash: &str,
        now: u64,
    ) -> (r: Result<CacheStep, String>)
        requires
            old(self)@.wf(),
            old(cache)@.wf(),
        ensures
            final(self)@.wf(),
            final(self)@ == old(self)@.named(arg@),
            final(self).options == old(self).options,
            final(cache)@.wf(),
            (step_text(r), final(cache)@) == (match old(self)@.resolved(arg@) {
                Err(e) => (Err(e), old(cache)@),
                Ok(key) => match call_graph_gap_spec(None, old(self)@.initialized, true) {
                    Some(gap) => (Err(gap.text("get_call_graph"@, key)), old(cache)@),
                    None => {
                        let c = consulted(
                            old(self).options.cache_enabled,
                            old(cache)@,
                            graph_key(key, function@, exclude_tests),
                            repo_hash@,
                            now,
                        );
                        (Ok(c.0), c.1)
                    },
                },
            }),
    {
        let key = match self.resolve_repo(arg) {
            Ok(k) => k,
            Err(e) => {
                return Err(e);
            },
        };
        match call_graph_gap(None, self.registry.initialized, true) {
            Some(gap) => {
                return Err(gap.message("get_call_graph", key.as_str()));
            },
            None => {},
        }
        let mut parts: Vec<String> = Vec::new();
        parts.push(function.to_owned());
        parts.push(graph_cache_key(function, exclude_tests));
        proof {
            assert(texts(parts@) =~= seq![function@, graph_key_spec(function@, exclude_tests)]);
        }
        let under = AnalysisCacheKey::with_parts(key.as_str(), "call_graph", parts);
        Ok(self.consult(cache, under, repo_hash, now))
    }

    /// Asks the cache about symbols. A question that asks for nothing is answered without it.
    pub fn kept_symbols(
        &mut self,
        cache: &mut QueryCache,
        arg: &RepoArg,
        query: &SymbolQuery,
        exclude_tests: Option<bool>,
        now: u64,
    ) -> (r: Result<CacheStep, String>)
        requires
            old(self)@.wf(),
            old(cache)@.wf(),
        ensures
            final(self)@.wf(),
            final(self)@ == old(self)@.named(arg@),
            final(self).options == old(self).options,
            final(cache)@.wf(),
            (step_text(r), final(cache)@) == (match old(self)@.resolved(arg@) {
                Err(e) => (Err(e), old(cache)@),
                Ok(key) => if is_unfiltered(query@) {
                    (Ok(CacheStepText::Ask(None)), old(cache)@)
                } else {
                    let c = consulted(
                        old(self).options.cache_enabled,
                        old(cache)@,
                        symbols_key(key, query@, exclude_tests),
                        Seq::empty(),
                        now,
                    );
                    (Ok(c.0), c.1)
                },
            }),
    {
        let key = match self.resolve_repo(arg) {
            Ok(k) => k,
            Err(e) => {
                return Err(e);
            },
        };
        if query.pattern.is_none() && query.file_pattern.is_none() && query.symbol_type.is_none() {
            return Ok(CacheStep::Ask(None));
        }
        let options = SearchOptions {
            file_pattern: query.file_pattern.clone(),
            max_results: query.limit,
            exclude_tests,
        };
        let none = String::new();
        proof {
            assert(none@ =~= Seq::<char>::empty());
        }
        let mut parts = options.parts(none.as_str());
        push_option(&mut parts, &query.pattern);
        push_option(&mut parts, &query.symbol_type);
        proof {
            assert(texts(parts@) =~= symbols_key(
                key@,
                query@,
                exclude_tests,
            ).discriminator);
        }
        let under = AnalysisCacheKey::with_parts(key.as_str(), "find_symbols", parts);
        Ok(self.consult_searches(cache, under, now))
    }

    /// Asks the cache about a code search.
    pub fn kept_search(
        &mut self,
        cache: &mut QueryCache,
        arg: Option<&RepoArg>,
        query: &str,
        options: &SearchOptions,
        now: u64,
    ) -> (r: Result<CacheStep, String>)
        requires
            old(self)@.wf(),
            old(cache)@.wf(),
        ensures
            final(self)@.wf(),
            final(self)@ == optional_named(old(self)@, arg_text(arg)),
            final(self).options == old(self).options,
            final(cache)@.wf(),
            (step_text(r), final(cache)@) == (match optional_key(old(self)@, arg_text(arg)) {
                Err(e) => (Err(e), old(cache)@),
                Ok(only) => {
                    let c = consulted(
                        old(self).options.cache_enabled,
                        old(cache)@,
                        search_key(only, query@, options@),
                        Seq::empty(),
                        now,
                    );
                    (Ok(c.0), c.1)
                },
            }),
    {
        let only = match self.resolve_optional(arg) {
            Ok(o) => o,
            Err(e) => {
                return Err(e);
            },
        };
        let home = match &only {
            Some(key) => Some(key.as_str()),
            None => None,
        };
        let under = AnalysisCacheKey::code_search_with_options(
            home,
            "search_code",
            query,
            options,
        );
        Ok(self.consult_searches(cache, under, now))
    }
}

/// Keeps the answer of an analysis, and gives it on.
pub fn keep_analysis(
    cache: &mut AnalysisCache,
    key: Option<AnalysisCacheKey>,
    repo_hash: String,
    answer: Result<String, String>,
    now: u64,
) -> (r: Result<String, String>)
    requires
        old(cache)@.wf(),
    ensures
        r == answer,
        final(cache)@.wf(),
        final(cache)@ == filled(
            old(cache)@,
            match key {
                Some(k) => Some(k@),
                None => None,
            },
            repo_hash@,
            Seq::empty(),
            crate::tools::answer(answer),
            now,
        ),
{
    match (key, &answer) {
        (Some(k), Ok(text)) => {
            cache.insert_with_hash(k, text.clone(), repo_hash, now);
        },
        _ => {},
    }
    answer
}

/// Keeps the answer of a search, with the files it shows, and gives it on.
pub fn keep_search(
    cache: &mut QueryCache,
    key: Option<AnalysisCacheKey>,
    files: Vec<String>,
    answer: Result<String, String>,
    now: u64,
) -> (r: Result<String, String>)
    requires
        old(cache)@.wf(),
    ensures
        r == answer,
        final(cache)@.wf(),
        final(cache)@ == filled(
            old(cache)@,
            match key {
                Some(k) => Some(k@),
                None => None,
            },
            Seq::empty(),
            texts(files@),
            crate::tools::answer(answer),
            now,
        ),
{
    match (key, &answer) {
        (Some(k), Ok(text)) => {
            cache.insert_with_files(k, text.clone(), files, now);
        },
        _ => {},
    }
    answer
}

// ---- laws ----

/// Two tools, repositories, functions or questions never share an answer about edges.
pub proof fn law_edge_answers_are_not_shared(
    tool: EdgeTool,
    repo: Seq<char>,
    function: Seq<char>,
    q: EdgeQuestion,
    other_tool: EdgeTool,
    other_repo: Seq<char>,
    other_function: Seq<char>,
    p: EdgeQuestion,
)
    requires
        edge_key(tool, repo, function, q) == edge_key(other_tool, other_repo, other_function, p),
    ensures
        tool == other_tool,
        repo == other_repo,
        function == other_function,
        q == p,
{
    reveal_strlit("callers_hybrid");
    reveal_strlit("callees_hybrid");
    assert("callers_hybrid"@[5] != "callees_hybrid"@[5]);
    let a = edge_key(tool, repo, function, q).discriminator;
    let b = edge_key(other_tool, other_repo, other_function, p).discriminator;
    assert(a[0] == b[0]);
    assert(a[1] == b[1]);
    law_questions_do_not_share_answers(function, q, p);
}

/// Two repositories or questions never share the symbols that were found.
pub proof fn law_symbol_answers_are_not_shared(
    repo: Seq<char>,
    q: QueryText,
    t: Option<bool>,
    other_repo: Seq<char>,
    p: QueryText,
    u: Option<bool>,
)
    requires
        symbols_key(repo, q, t) == symbols_key(other_repo, p, u),
    ensures
        repo == other_repo,
        q == p,
        t == u,
{
    let o = SearchOptionsText {
        file_pattern: q.file_pattern,
        max_results: q.limit,
        exclude_tests: t,
    };
    let w = SearchOptionsText {
        file_pattern: p.file_pattern,
        max_results: p.limit,
        exclude_tests: u,
    };
    let e = Seq::<char>::empty();
    let a = symbols_key(repo, q, t).discriminator;
    let b = symbols_key(other_repo, p, u).discriminator;
    let n = search_parts(e, o).len() as int;
    assert(search_parts(e, o) =~= a.take(n));
    assert(search_parts(e, w) =~= b.take(n));
    crate::cache::law_searches_do_not_share_answers(e, e, o, w);
    assert(a[n] == b[n] && a[n + 1] == b[n + 1] && a[n + 2] == b[n + 2] && a[n + 3] == b[n + 3]);
    assert(option_parts(q.pattern) =~= a.subrange(n, n + 2));
    assert(option_parts(p.pattern) =~= b.subrange(n, n + 2));
    assert(option_parts(q.symbol_type) =~= a.subrange(n + 2, n + 4));
    assert(option_parts(p.symbol_type) =~= b.subrange(n + 2, n + 4));
    lemma_option_parts(q.pattern, p.pattern);
    lemma_option_parts(q.symbol_type, p.symbol_type);
}

/// What a tool keeps serves its own question and no other: once an answer was kept, a tool
/// that asks under another key is told what it would have been told before, or nothing.
pub proof fn law_a_kept_answer_serves_no_other_tool(
    cache: CacheText,
    key: CacheKeyText,
    repo_hash: Seq<char>,
    files: Seq<Seq<char>>,
    text: Seq<char>,
    at: u64,
    other: CacheKeyText,
    other_hash: Seq<char>,
    now: u64,
)
    requires
        cache.wf(),
        key != other,
    ensures
        ({
            let after = filled(cache, Some(key), repo_hash, files, Ok(text), at);
            let step = consulted(true, after, other, other_hash, now).0;
            step == CacheStepText::Ask(Some(other)) || step == consulted(
                true,
                cache,
                other,
                other_hash,
                now,
            ).0
        }),
{
    let e = CachedAnswerText { key, answer: text, repo_hash, files, at };
    law_an_answer_is_served_to_no_other_question(cache, e, other, other_hash, now);
}

/// A tool that asks again while nothing changed is given the answer that it kept.
pub proof fn law_a_tool_is_given_what_it_kept(
    cache: CacheText,
    key: CacheKeyText,
    repo_hash: Seq<char>,
    files: Seq<Seq<char>>,
    text: Seq<char>,
    at: u64,
    now: u64,
)
    requires
        cache.wf(),
        cache.ttl_seconds > 0,
        now - at < cache.ttl_seconds,
    ensures
        consulted(
            true,
            filled(cache, Some(key), repo_hash, files, Ok(text), at),
            key,
            repo_hash,
            now,
        ).0 == CacheStepText::Kept(text),
{
    let e = CachedAnswerText { key, answer: text, repo_hash, files, at };
    crate::cache::law_a_kept_answer_is_served(cache, e, repo_hash, now);
}

} // verus!
