//! Answers that are kept until they are old, or what they are about changes.

use vstd::prelude::*;

use crate::calltools::{flag_name, flag_text, lemma_decimal_injective, lemma_flag_text};
use crate::settings::{cache_shape_spec, CacheShape};
use crate::text::{decimal, has_text, opt_text, same_text, texts, usize_text};

verus! {

/// Answers the analysis cache holds where caching is on.
pub const ANALYSIS_CACHE_CAPACITY: usize = 1000;

/// Answers the query cache holds where caching is on.
pub const QUERY_CACHE_CAPACITY: usize = 2000;

/// What a cached answer is about: the repository, the kind of analysis, and what tells two
/// analyses of one kind apart.
#[derive(Debug)]
pub struct AnalysisCacheKey {
    pub repo: String,
    pub analysis: String,
    pub discriminator: Vec<String>,
}

pub struct CacheKeyText {
    pub repo: Seq<char>,
    pub analysis: Seq<char>,
    pub discriminator: Seq<Seq<char>>,
}

impl View for AnalysisCacheKey {
    type V = CacheKeyText;

    open spec fn view(&self) -> CacheKeyText {
        CacheKeyText {
            repo: self.repo@,
            analysis: self.analysis@,
            discriminator: texts(self.discriminator@),
        }
    }
}

fn same_parts(a: &[String], b: &[String]) -> (r: bool)
    ensures
        r == (texts(a@) == texts(b@)),
{
    if a.len() != b.len() {
        proof {
            assert(texts(a@).len() != texts(b@).len());
        }
        return false;
    }
    let mut i: usize = 0;
    while i < a.len()
        invariant
            i <= a@.len(),
            a@.len() == b@.len(),
            forall|j: int| 0 <= j < i ==> (#[trigger] texts(a@)[j]) == texts(b@)[j],
        decreases a@.len() - i,
    {
        proof {
            assert(texts(a@)[i as int] == a@[i as int]@);
            assert(texts(b@)[i as int] == b@[i as int]@);
        }
        if !same_text(a[i].as_str(), b[i].as_str()) {
            return false;
        }
        i = i + 1;
    }
    proof {
        assert(texts(a@) =~= texts(b@));
    }
    true
}

impl AnalysisCacheKey {
    pub fn with_discriminator(repo: &str, analysis: &str, discriminator: String) -> (r: Self)
        ensures
            r@ == (CacheKeyText {
                repo: repo@,
                analysis: analysis@,
                discriminator: seq![discriminator@],
            }),
    {
        let parts = vec![discriminator];
        proof {
            assert(texts(parts@) =~= seq![discriminator@]);
        }
        AnalysisCacheKey {
            repo: repo.to_owned(),
            analysis: analysis.to_owned(),
            discriminator: parts,
        }
    }

    pub(crate) fn with_parts(repo: &str, analysis: &str, parts: Vec<String>) -> (r: Self)
        ensures
            r@ == (CacheKeyText {
                repo: repo@,
                analysis: analysis@,
                discriminator: texts(parts@),
            }),
    {
        AnalysisCacheKey {
            repo: repo.to_owned(),
            analysis: analysis.to_owned(),
            discriminator: parts,
        }
    }

    /// What a search is kept under. One that names no repository searches them all, and is
    /// kept under none.
    pub fn code_search_with_options(
        repo: Option<&str>,
        search: &str,
        query: &str,
        options: &SearchOptions,
    ) -> (r: Self)
        ensures
            r@ == (CacheKeyText {
                repo: match repo {
                    Some(path) => path@,
                    None => Seq::empty(),
                },
                analysis: search@,
                discriminator: search_parts(query@, options@),
            }),
    {
        let parts = options.parts(query);
        AnalysisCacheKey {
            repo: match repo {
                Some(path) => path.to_owned(),
                None => String::new(),
            },
            analysis: search.to_owned(),
            discriminator: parts,
        }
    }

    fn same(&self, other: &AnalysisCacheKey) -> (r: bool)
        ensures
            r == (self@ == other@),
    {
        same_text(self.repo.as_str(), other.repo.as_str()) && same_text(
            self.analysis.as_str(),
            other.analysis.as_str(),
        ) && same_parts(self.discriminator.as_slice(), other.discriminator.as_slice())
    }
}

/// What narrows a search.
#[derive(Debug)]
pub struct SearchOptions {
    pub file_pattern: Option<String>,
    pub max_results: usize,
    pub exclude_tests: Option<bool>,
}

pub struct SearchOptionsText {
    pub file_pattern: Option<Seq<char>>,
    pub max_results: usize,
    pub exclude_tests: Option<bool>,
}

impl View for SearchOptions {
    type V = SearchOptionsText;

    open spec fn view(&self) -> SearchOptionsText {
        SearchOptionsText {
            file_pattern: opt_text(self.file_pattern),
            max_results: self.max_results,
            exclude_tests: self.exclude_tests,
        }
    }
}

/// What tells a text from another, and from none.
pub open spec fn option_parts(o: Option<Seq<char>>) -> Seq<Seq<char>> {
    seq![
        flag_text(o is Some),
        match o {
            Some(text) => text,
            None => Seq::empty(),
        },
    ]
}

pub(crate) fn push_option(parts: &mut Vec<String>, o: &Option<String>)
    ensures
        texts(final(parts)@) == texts(old(parts)@) + option_parts(opt_text(*o)),
{
    let ghost before = texts(parts@);
    match o {
        Some(text) => {
            parts.push(flag_name(true).to_owned());
            parts.push(text.clone());
        },
        None => {
            parts.push(flag_name(false).to_owned());
            parts.push(String::new());
        },
    }
    proof {
        assert(texts(parts@) =~= before + option_parts(opt_text(*o)));
    }
}

pub proof fn lemma_option_parts(a: Option<Seq<char>>, b: Option<Seq<char>>)
    requires
        option_parts(a) == option_parts(b),
    ensures
        a == b,
{
    assert(option_parts(a)[0] == option_parts(b)[0]);
    assert(option_parts(a)[1] == option_parts(b)[1]);
    lemma_flag_text(a is Some, b is Some);
}

/// What tells two searches apart.
pub open spec fn search_parts(query: Seq<char>, o: SearchOptionsText) -> Seq<Seq<char>> {
    seq![query] + option_parts(o.file_pattern) + seq![
        decimal(o.max_results as nat),
        match o.exclude_tests {
            Some(b) => flag_text(b),
            None => Seq::empty(),
        },
    ]
}

impl SearchOptions {
    /// What tells this search from another.
    pub(crate) fn parts(&self, query: &str) -> (r: Vec<String>)
        ensures
            texts(r@) == search_parts(query@, self@),
    {
        let mut parts: Vec<String> = Vec::new();
        parts.push(query.to_owned());
        proof {
            assert(texts(parts@) =~= seq![query@]);
        }
        push_option(&mut parts, &self.file_pattern);
        let ghost front = texts(parts@);
        let most = usize_text(self.max_results);
        let tests = match self.exclude_tests {
            Some(b) => flag_name(b).to_owned(),
            None => String::new(),
        };
        proof {
            assert(self.exclude_tests is None ==> tests@ =~= Seq::<char>::empty());
            assert(texts(parts@.push(most).push(tests)) =~= front.push(most@).push(tests@));
        }
        parts.push(most);
        parts.push(tests);
        proof {
            assert(texts(parts@) =~= search_parts(query@, self@));
        }
        parts
    }
}

/// An answer, the state its repository was in, the files it shows, and when it was put in.
#[derive(Debug)]
pub struct CachedAnswer {
    pub key: AnalysisCacheKey,
    pub answer: String,
    pub repo_hash: String,
    pub files: Vec<String>,
    pub at: u64,
}

pub struct CachedAnswerText {
    pub key: CacheKeyText,
    pub answer: Seq<char>,
    pub repo_hash: Seq<char>,
    pub files: Seq<Seq<char>>,
    pub at: u64,
}

impl View for CachedAnswer {
    type V = CachedAnswerText;

    open spec fn view(&self) -> CachedAnswerText {
        CachedAnswerText {
            key: self.key@,
            answer: self.answer@,
            repo_hash: self.repo_hash@,
            files: texts(self.files@),
            at: self.at,
        }
    }
}

pub open spec fn cached_answers(v: Seq<CachedAnswer>) -> Seq<CachedAnswerText> {
    v.map_values(|a: CachedAnswer| a@)
}

/// What the cache has done so far.
#[derive(Debug, Clone, Copy, PartialEq, Eq, Structural)]
pub struct CacheStats {
    pub hits: u64,
    pub misses: u64,
    pub evictions: u64,
    pub expirations: u64,
    pub size: usize,
    pub capacity: usize,
}

/// One more, up to what the counter holds.
pub open spec fn counted(n: u64) -> u64 {
    if n < u64::MAX {
        (n + 1) as u64
    } else {
        n
    }
}

fn count(n: u64) -> (r: u64)
    ensures
        r == counted(n),
{
    if n < u64::MAX {
        n + 1
    } else {
        n
    }
}

/// The answers in the order they were put in, each key once.
#[derive(Debug)]
pub struct AnalysisCache {
    pub entries: Vec<CachedAnswer>,
    pub capacity: usize,
    pub ttl_seconds: u64,
    pub hits: u64,
    pub misses: u64,
    pub evictions: u64,
    pub expirations: u64,
}

#[verifier::ext_equal]
pub struct CacheText {
    pub entries: Seq<CachedAnswerText>,
    pub capacity: usize,
    pub ttl_seconds: u64,
    pub hits: u64,
    pub misses: u64,
    pub evictions: u64,
    pub expirations: u64,
}

impl View for AnalysisCache {
    type V = CacheText;

    open spec fn view(&self) -> CacheText {
        CacheText {
            entries: cached_answers(self.entries@),
            capacity: self.capacity,
            ttl_seconds: self.ttl_seconds,
            hits: self.hits,
            misses: self.misses,
            evictions: self.evictions,
            expirations: self.expirations,
        }
    }
}

/// Where an answer to the question stands.
pub open spec fn answer_index(entries: Seq<CachedAnswerText>, key: CacheKeyText) -> Option<int>
    decreases entries.len(),
{
    if entries.len() == 0 {
        None
    } else if entries.last().key == key {
        Some(entries.len() - 1)
    } else {
        answer_index(entries.drop_last(), key)
    }
}

/// An answer is too old once it has stood for the whole of its time. One put in later than
/// now has stood for none.
pub open spec fn is_expired(e: CachedAnswerText, ttl_seconds: u64, now: u64) -> bool {
    ttl_seconds == 0 || now - e.at >= ttl_seconds
}

impl CacheText {
    /// Each question is answered once, and no more are kept than there is room for.
    pub open spec fn wf(self) -> bool {
        &&& self.capacity > 0
        &&& self.entries.len() <= self.capacity
        &&& forall|i: int, j: int|
            0 <= i < j < self.entries.len() ==> (#[trigger] self.entries[i]).key != (
            #[trigger] self.entries[j]).key
    }

    /// The answer that stands for a question about a repository in some state.
    pub open spec fn served(self, key: CacheKeyText, repo_hash: Seq<char>, now: u64) -> Option<
        Seq<char>,
    > {
        match answer_index(self.entries, key) {
            None => None,
            Some(i) => if is_expired(self.entries[i], self.ttl_seconds, now)
                || self.entries[i].repo_hash != repo_hash {
                None
            } else {
                Some(self.entries[i].answer)
            },
        }
    }

    /// The cache once a question was looked up. An answer that can no longer be served is
    /// dropped.
    pub open spec fn asked(self, key: CacheKeyText, repo_hash: Seq<char>, now: u64) -> CacheText {
        match answer_index(self.entries, key) {
            None => CacheText { misses: counted(self.misses), ..self },
            Some(i) => if is_expired(self.entries[i], self.ttl_seconds, now) {
                CacheText {
                    entries: self.entries.remove(i),
                    misses: counted(self.misses),
                    expirations: counted(self.expirations),
                    ..self
                }
            } else if self.entries[i].repo_hash != repo_hash {
                CacheText {
                    entries: self.entries.remove(i),
                    misses: counted(self.misses),
                    ..self
                }
            } else {
                CacheText { hits: counted(self.hits), ..self }
            },
        }
    }

    pub open spec fn without_answer(self, key: CacheKeyText) -> CacheText {
        match answer_index(self.entries, key) {
            None => self,
            Some(i) => CacheText { entries: self.entries.remove(i), ..self },
        }
    }

    /// The cache with room for one more: where there is none, what was put in first goes.
    pub open spec fn with_room(self) -> CacheText {
        if self.entries.len() < self.capacity {
            self
        } else {
            CacheText {
                entries: self.entries.remove(0),
                evictions: counted(self.evictions),
                ..self
            }
        }
    }

    /// The cache with an answer put in, in place of an earlier one to the same question.
    pub open spec fn put(self, e: CachedAnswerText) -> CacheText {
        let ready = self.without_answer(e.key).with_room();
        CacheText { entries: ready.entries.push(e), ..ready }
    }

    /// The cache without the answers a change makes stale.
    pub open spec fn invalidated(self, change: ChangeText) -> CacheText {
        CacheText {
            entries: self.entries.filter(|e: CachedAnswerText| !is_stale(e, change)),
            ..self
        }
    }
}

/// What makes answers stale: a repository whose own answers go, one whose answers go with
/// those about all repositories, or a file.
pub enum Change<'a> {
    Repo(&'a str),
    Search(&'a str),
    File(&'a str),
}

pub enum ChangeText {
    Repo(Seq<char>),
    Search(Seq<char>),
    File(Seq<char>),
}

impl<'a> View for Change<'a> {
    type V = ChangeText;

    open spec fn view(&self) -> ChangeText {
        match self {
            Change::Repo(t) => ChangeText::Repo(t@),
            Change::Search(t) => ChangeText::Search(t@),
            Change::File(t) => ChangeText::File(t@),
        }
    }
}

pub open spec fn is_stale(e: CachedAnswerText, change: ChangeText) -> bool {
    match change {
        ChangeText::Repo(repo) => e.key.repo == repo,
        ChangeText::Search(repo) => e.key.repo == repo || e.key.repo.len() == 0,
        ChangeText::File(path) => e.files.contains(path),
    }
}

fn stale(e: &CachedAnswer, change: &Change<'_>) -> (r: bool)
    ensures
        r == is_stale(e@, change@),
{
    match change {
        Change::Repo(repo) => same_text(e.key.repo.as_str(), repo),
        Change::Search(repo) => same_text(e.key.repo.as_str(), repo)
            || e.key.repo.as_str().unicode_len() == 0,
        Change::File(path) => has_text(e.files.as_slice(), path),
    }
}

proof fn lemma_answer_index(entries: Seq<CachedAnswerText>, key: CacheKeyText)
    ensures
        answer_index(entries, key) matches Some(i) ==> 0 <= i < entries.len() && entries[i].key
            == key,
        answer_index(entries, key) is None ==> forall|j: int|
            0 <= j < entries.len() ==> (#[trigger] entries[j]).key != key,
    decreases entries.len(),
{
    if entries.len() > 0 {
        lemma_answer_index(entries.drop_last(), key);
        assert forall|j: int| 0 <= j < entries.len() - 1 implies entries[j]
            == entries.drop_last()[j] by {}
    }
}

proof fn lemma_answer_index_is(state: CacheText, i: int)
    requires
        state.wf(),
        0 <= i < state.entries.len(),
    ensures
        answer_index(state.entries, state.entries[i].key) == Some(i),
{
    let key = state.entries[i].key;
    lemma_answer_index(state.entries, key);
    let k = answer_index(state.entries, key);
    if k is None {
        assert(state.entries[i].key != key);
    } else if k->0 < i {
        assert(state.entries[k->0].key != state.entries[i].key);
    } else if k->0 > i {
        assert(state.entries[i].key != state.entries[k->0].key);
    }
}

proof fn lemma_remove_keeps_wf(state: CacheText, i: int)
    requires
        state.wf(),
        0 <= i < state.entries.len(),
    ensures
        (CacheText { entries: state.entries.remove(i), ..state }).wf(),
        forall|j: int|
            0 <= j < state.entries.remove(i).len() ==> (#[trigger] state.entries.remove(i)[j]).key
                != state.entries[i].key,
{
    let after = state.entries.remove(i);
    assert forall|a: int, b: int| 0 <= a < b < after.len() implies (#[trigger] after[a]).key != (
    #[trigger] after[b]).key by {
        let c = if a < i { a } else { a + 1 };
        let d = if b < i { b } else { b + 1 };
        assert(state.entries[c].key != state.entries[d].key);
    }
    assert forall|j: int| 0 <= j < after.len() implies (#[trigger] after[j]).key
        != state.entries[i].key by {
        if j < i {
            assert(state.entries[j].key != state.entries[i].key);
        } else {
            assert(state.entries[i].key != state.entries[j + 1].key);
        }
    }
}

proof fn lemma_put_keeps_wf(state: CacheText, e: CachedAnswerText)
    requires
        state.wf(),
    ensures
        state.without_answer(e.key).wf(),
        state.without_answer(e.key).with_room().wf(),
        state.put(e).wf(),
{
    let first = state.without_answer(e.key);
    lemma_answer_index(state.entries, e.key);
    if let Some(i) = answer_index(state.entries, e.key) {
        lemma_remove_keeps_wf(state, i);
    }
    let ready = first.with_room();
    if first.entries.len() >= first.capacity {
        lemma_remove_keeps_wf(first, 0);
        assert forall|j: int| 0 <= j < ready.entries.len() implies (#[trigger] ready.entries[j]).key
            != e.key by {
            assert(ready.entries[j] == first.entries[j + 1]);
        }
    }
    let after = state.put(e);
    assert forall|a: int, b: int| 0 <= a < b < after.entries.len() implies (
    #[trigger] after.entries[a]).key != (#[trigger] after.entries[b]).key by {
        assert(after.entries[a] == ready.entries[a]);
        if b < ready.entries.len() {
            assert(after.entries[b] == ready.entries[b]);
        }
    }
}

impl AnalysisCache {
    /// An empty cache.
    pub fn new(shape: CacheShape) -> (r: AnalysisCache)
        requires
            shape.capacity > 0,
        ensures
            r@.wf(),
            r@ == (CacheText {
                entries: Seq::empty(),
                capacity: shape.capacity,
                ttl_seconds: shape.ttl_seconds,
                hits: 0,
                misses: 0,
                evictions: 0,
                expirations: 0,
            }),
    {
        let r = AnalysisCache {
            entries: Vec::new(),
            capacity: shape.capacity,
            ttl_seconds: shape.ttl_seconds,
            hits: 0,
            misses: 0,
            evictions: 0,
            expirations: 0,
        };
        proof {
            assert(r@.entries =~= Seq::<CachedAnswerText>::empty());
        }
        r
    }

    fn index_of(&self, key: &AnalysisCacheKey) -> (r: Option<usize>)
        requires
            self@.wf(),
        ensures
            match r {
                Some(i) => answer_index(self@.entries, key@) == Some(i as int),
                None => answer_index(self@.entries, key@) is None,
            },
            r matches Some(i) ==> i < self.entries@.len(),
    {
        let ghost all = self@.entries;
        let mut i: usize = 0;
        while i < self.entries.len()
            invariant
                i <= self.entries@.len(),
                self@.wf(),
                all == self@.entries,
                forall|j: int| 0 <= j < i ==> (#[trigger] all[j]).key != key@,
            decreases self.entries@.len() - i,
        {
            proof {
                assert(all[i as int] == self.entries@[i as int]@);
            }
            if self.entries[i].key.same(key) {
                proof {
                    lemma_answer_index_is(self@, i as int);
                }
                return Some(i);
            }
            i = i + 1;
        }
        proof {
            lemma_answer_index(all, key@);
        }
        None
    }

    fn drop_at(&mut self, i: usize)
        requires
            old(self)@.wf(),
            i < old(self).entries@.len(),
        ensures
            final(self)@.wf(),
            final(self)@ == (CacheText {
                entries: old(self)@.entries.remove(i as int),
                ..old(self)@
            }),
    {
        proof {
            lemma_remove_keeps_wf(self@, i as int);
            assert(cached_answers(self.entries@.remove(i as int)) =~= self@.entries.remove(
                i as int,
            ));
        }
        self.entries.remove(i);
    }

    /// The answer to a question about a repository in some state, where one is kept that is
    /// neither too old nor about another state.
    pub fn get_if_hash_matches(&mut self, key: &AnalysisCacheKey, repo_hash: &str, now: u64) -> (r:
        Option<String>)
        requires
            old(self)@.wf(),
        ensures
            final(self)@.wf(),
            final(self)@ == old(self)@.asked(key@, repo_hash@, now),
            match r {
                Some(text) => old(self)@.served(key@, repo_hash@, now) == Some(text@),
                None => old(self)@.served(key@, repo_hash@, now) is None,
            },
    {
        let i = match self.index_of(key) {
            Some(i) => i,
            None => {
                self.misses = count(self.misses);
                return None;
            },
        };
        proof {
            assert(self@.entries[i as int] == self.entries@[i as int]@);
        }
        let at = self.entries[i].at;
        if self.ttl_seconds == 0 || (now >= at && now - at >= self.ttl_seconds) {
            self.drop_at(i);
            self.misses = count(self.misses);
            self.expirations = count(self.expirations);
            return None;
        }
        if !same_text(self.entries[i].repo_hash.as_str(), repo_hash) {
            self.drop_at(i);
            self.misses = count(self.misses);
            return None;
        }
        self.hits = count(self.hits);
        Some(self.entries[i].answer.clone())
    }

    /// Keeps an answer, with the state its repository is in.
    pub fn insert_with_hash(
        &mut self,
        key: AnalysisCacheKey,
        answer: String,
        repo_hash: String,
        now: u64,
    )
        requires
            old(self)@.wf(),
        ensures
            final(self)@.wf(),
            final(self)@ == old(self)@.put(
                CachedAnswerText {
                    key: key@,
                    answer: answer@,
                    repo_hash: repo_hash@,
                    files: Seq::empty(),
                    at: now,
                },
            ),
    {
        let e = CachedAnswer { key, answer, repo_hash, files: Vec::new(), at: now };
        proof {
            assert(e@.files =~= Seq::<Seq<char>>::empty());
        }
        self.keep(e);
    }

    fn keep(&mut self, e: CachedAnswer)
        requires
            old(self)@.wf(),
        ensures
            final(self)@.wf(),
            final(self)@ == old(self)@.put(e@),
    {
        proof {
            lemma_put_keeps_wf(self@, e@);
        }
        if let Some(i) = self.index_of(&e.key) {
            self.drop_at(i);
        }
        if self.entries.len() >= self.capacity {
            self.drop_at(0);
            self.evictions = count(self.evictions);
        }
        proof {
            assert(cached_answers(self.entries@.push(e)) =~= self@.entries.push(e@));
        }
        self.entries.push(e);
    }

    /// Drops the answers about a repository.
    pub fn invalidate_cache_for_repo(&mut self, repo: &str)
        requires
            old(self)@.wf(),
        ensures
            final(self)@.wf(),
            final(self)@ == old(self)@.invalidated(ChangeText::Repo(repo@)),
    {
        self.drop_stale(&Change::Repo(repo));
    }

    fn drop_stale(&mut self, change: &Change<'_>)
        requires
            old(self)@.wf(),
        ensures
            final(self)@.wf(),
            final(self)@ == old(self)@.invalidated(change@),
    {
        let ghost start = self@;
        let ghost keep = |e: CachedAnswerText| !is_stale(e, change@);
        proof {
            reveal(Seq::filter);
            assert(start.entries.take(0) =~= Seq::<CachedAnswerText>::empty());
            assert(self@.entries =~= start.entries.take(0).filter(keep) + start.entries.skip(0));
        }
        let ghost mut seen: int = 0;
        let mut i: usize = 0;
        while i < self.entries.len()
            invariant
                self@.wf(),
                keep == (|e: CachedAnswerText| !is_stale(e, change@)),
                0 <= seen <= start.entries.len(),
                i == start.entries.take(seen).filter(keep).len(),
                self@.entries == start.entries.take(seen).filter(keep) + start.entries.skip(seen),
                self@ == (CacheText { entries: self@.entries, ..start }),
            decreases start.entries.len() - seen,
        {
            let ghost kept = start.entries.take(seen).filter(keep);
            proof {
                reveal(Seq::filter);
                assert(self@.entries.len() == self.entries@.len());
                assert(start.entries.skip(seen).len() > 0);
                assert(self@.entries[i as int] == start.entries[seen]);
                assert(self@.entries[i as int] == self.entries@[i as int]@);
                assert(start.entries.take(seen + 1).drop_last() =~= start.entries.take(seen));
                assert(start.entries.take(seen + 1).last() == start.entries[seen]);
            }
            if stale(&self.entries[i], change) {
                self.drop_at(i);
                proof {
                    assert(self@.entries =~= kept + start.entries.skip(seen + 1));
                }
            } else {
                proof {
                    assert(self@.entries =~= kept.push(start.entries[seen]) + start.entries.skip(
                        seen + 1,
                    ));
                }
                i = i + 1;
            }
            proof {
                seen = seen + 1;
            }
        }
        proof {
            assert(self@.entries.len() == self.entries@.len());
            assert(start.entries.skip(seen).len() == 0);
            assert(start.entries.take(seen) =~= start.entries);
            assert(self@.entries =~= start.entries.filter(keep));
        }
    }

    /// Drops every answer.
    pub fn clear(&mut self)
        requires
            old(self)@.wf(),
        ensures
            final(self)@.wf(),
            final(self)@ == (CacheText { entries: Seq::empty(), ..old(self)@ }),
    {
        self.entries = Vec::new();
        proof {
            assert(self@.entries =~= Seq::<CachedAnswerText>::empty());
        }
    }

    /// What the cache has done so far, and how full it is.
    pub fn cache_stats(&self) -> (r: CacheStats)
        ensures
            r == (CacheStats {
                hits: self.hits,
                misses: self.misses,
                evictions: self.evictions,
                expirations: self.expirations,
                size: self.entries@.len() as usize,
                capacity: self.capacity,
            }),
    {
        CacheStats {
            hits: self.hits,
            misses: self.misses,
            evictions: self.evictions,
            expirations: self.expirations,
            size: self.entries.len(),
            capacity: self.capacity,
        }
    }
}

/// The answers of the symbol and code searches, with the files each of them shows.
#[derive(Debug)]
pub struct QueryCache {
    pub answers: AnalysisCache,
}

impl View for QueryCache {
    type V = CacheText;

    open spec fn view(&self) -> CacheText {
        self.answers@
    }
}

impl QueryCache {
    /// An empty cache.
    pub fn new(shape: CacheShape) -> (r: QueryCache)
        requires
            shape.capacity > 0,
        ensures
            r@.wf(),
            r@ == (CacheText {
                entries: Seq::empty(),
                capacity: shape.capacity,
                ttl_seconds: shape.ttl_seconds,
                hits: 0,
                misses: 0,
                evictions: 0,
                expirations: 0,
            }),
    {
        QueryCache { answers: AnalysisCache::new(shape) }
    }

    /// The answer to a search, where one is kept that is not too old.
    pub fn get(&mut self, key: &AnalysisCacheKey, now: u64) -> (r: Option<String>)
        requires
            old(self)@.wf(),
        ensures
            final(self)@.wf(),
            final(self)@ == old(self)@.asked(key@, Seq::empty(), now),
            match r {
                Some(text) => old(self)@.served(key@, Seq::empty(), now) == Some(text@),
                None => old(self)@.served(key@, Seq::empty(), now) is None,
            },
    {
        let none = String::new();
        proof {
            assert(none@ =~= Seq::<char>::empty());
        }
        self.answers.get_if_hash_matches(key, none.as_str(), now)
    }

    /// Keeps the answer to a search, with the files it shows.
    pub fn insert_with_files(
        &mut self,
        key: AnalysisCacheKey,
        answer: String,
        files: Vec<String>,
        now: u64,
    )
        requires
            old(self)@.wf(),
        ensures
            final(self)@.wf(),
            final(self)@ == old(self)@.put(
                CachedAnswerText {
                    key: key@,
                    answer: answer@,
                    repo_hash: Seq::empty(),
                    files: texts(files@),
                    at: now,
                },
            ),
    {
        let e = CachedAnswer { key, answer, repo_hash: String::new(), files, at: now };
        proof {
            assert(e@.repo_hash =~= Seq::<char>::empty());
        }
        self.answers.keep(e);
    }

    /// Drops the answers that show a file.
    pub fn invalidate_for_file(&mut self, path: &str)
        requires
            old(self)@.wf(),
        ensures
            final(self)@.wf(),
            final(self)@ == old(self)@.invalidated(ChangeText::File(path@)),
    {
        self.answers.drop_stale(&Change::File(path));
    }

    /// Drops the answers about a repository, and those about all repositories.
    pub fn invalidate_for_repo(&mut self, repo: &str)
        requires
            old(self)@.wf(),
        ensures
            final(self)@.wf(),
            final(self)@ == old(self)@.invalidated(ChangeText::Search(repo@)),
    {
        self.answers.drop_stale(&Change::Search(repo));
    }

    /// Drops every answer.
    pub fn clear(&mut self)
        requires
            old(self)@.wf(),
        ensures
            final(self)@.wf(),
            final(self)@ == (CacheText { entries: Seq::empty(), ..old(self)@ }),
    {
        self.answers.clear();
    }

    /// What the cache has done so far, and how full it is.
    pub fn query_cache_stats(&self) -> (r: CacheStats)
        ensures
            r == (CacheStats {
                hits: self@.hits,
                misses: self@.misses,
                evictions: self@.evictions,
                expirations: self@.expirations,
                size: self@.entries.len() as usize,
                capacity: self@.capacity,
            }),
    {
        self.answers.cache_stats()
    }
}

// ---- laws ----

/// Two different searches do not share an answer.
pub proof fn law_searches_do_not_share_answers(
    a: Seq<char>,
    b: Seq<char>,
    x: SearchOptionsText,
    y: SearchOptionsText,
)
    requires
        search_parts(a, x) == search_parts(b, y),
    ensures
        a == b,
        x == y,
{
    let p = search_parts(a, x);
    let q = search_parts(b, y);
    assert(p[0] == q[0]);
    assert(p[1] == q[1]);
    assert(p[2] == q[2]);
    assert(p[3] == q[3]);
    assert(p[4] == q[4]);
    assert(option_parts(x.file_pattern) =~= p.subrange(1, 3));
    assert(option_parts(y.file_pattern) =~= q.subrange(1, 3));
    lemma_option_parts(x.file_pattern, y.file_pattern);
    lemma_decimal_injective(x.max_results as nat, y.max_results as nat);
    reveal_strlit("true");
    reveal_strlit("false");
    assert("true"@.len() > 0 && "false"@.len() > 0);
    assert(p[4].len() == q[4].len());
    match (x.exclude_tests, y.exclude_tests) {
        (Some(c), Some(d)) => lemma_flag_text(c, d),
        _ => {},
    }
    assert(x.exclude_tests == y.exclude_tests);
    assert(x.file_pattern == y.file_pattern);
}

/// An answer that was put in is served to its own question, about the same state of the
/// repository, until it is too old.
pub proof fn law_a_kept_answer_is_served(
    state: CacheText,
    e: CachedAnswerText,
    repo_hash: Seq<char>,
    now: u64,
)
    requires
        state.wf(),
    ensures
        state.put(e).served(e.key, repo_hash, now) == if repo_hash == e.repo_hash && !is_expired(
            e,
            state.ttl_seconds,
            now,
        ) {
            Some(e.answer)
        } else {
            None
        },
{
    lemma_put_keeps_wf(state, e);
    let after = state.put(e);
    assert(after.entries.last() == e);
}

/// Putting an answer in changes what another question is served at most to nothing.
pub proof fn law_an_answer_is_served_to_no_other_question(
    state: CacheText,
    e: CachedAnswerText,
    key: CacheKeyText,
    repo_hash: Seq<char>,
    now: u64,
)
    requires
        state.wf(),
        key != e.key,
    ensures
        ({
            let after = state.put(e).served(key, repo_hash, now);
            after is None || after == state.served(key, repo_hash, now)
        }),
{
    lemma_put_keeps_wf(state, e);
    let after = state.put(e);
    lemma_answer_index(after.entries, key);
    if let Some(k) = answer_index(after.entries, key) {
        let x = after.entries[k];
        let ready = state.without_answer(e.key).with_room();
        assert(k < ready.entries.len());
        assert(ready.entries.contains(x));
        let first = state.without_answer(e.key);
        let j = if first.entries.len() < first.capacity {
            k
        } else {
            k + 1
        };
        assert(first.entries[j] == x);
        lemma_answer_index(state.entries, e.key);
        let i = match answer_index(state.entries, e.key) {
            None => j,
            Some(d) => if j < d {
                j
            } else {
                j + 1
            },
        };
        assert(state.entries[i] == x);
        lemma_answer_index_is(state, i);
    }
}

/// Once the answers a change makes stale were dropped, none of them is served, and the others
/// are served as before.
pub proof fn law_no_stale_answer_is_served(
    state: CacheText,
    change: ChangeText,
    key: CacheKeyText,
    repo_hash: Seq<char>,
    now: u64,
)
    requires
        state.wf(),
    ensures
        state.invalidated(change).served(key, repo_hash, now) == match answer_index(
            state.entries,
            key,
        ) {
            Some(i) => if is_stale(state.entries[i], change) {
                None
            } else {
                state.served(key, repo_hash, now)
            },
            None => None,
        },
{
    lemma_served_after_filter(state, state.entries.len() as int, change, key);
    assert(state.entries.take(state.entries.len() as int) =~= state.entries);
}

/// Once a repository's answers were dropped, none about it is served.
pub proof fn law_a_changed_repo_is_served_nothing_old(
    state: CacheText,
    repo: Seq<char>,
    key: CacheKeyText,
    repo_hash: Seq<char>,
    now: u64,
)
    requires
        state.wf(),
        key.repo == repo,
    ensures
        state.invalidated(ChangeText::Repo(repo)).served(key, repo_hash, now) is None,
        state.invalidated(ChangeText::Search(repo)).served(key, repo_hash, now) is None,
{
    law_no_stale_answer_is_served(state, ChangeText::Repo(repo), key, repo_hash, now);
    law_no_stale_answer_is_served(state, ChangeText::Search(repo), key, repo_hash, now);
    lemma_answer_index(state.entries, key);
}

proof fn lemma_served_after_filter(
    state: CacheText,
    n: int,
    change: ChangeText,
    key: CacheKeyText,
)
    requires
        state.wf(),
        0 <= n <= state.entries.len(),
    ensures
        ({
            let entries = state.entries.take(n);
            let kept = entries.filter(|e: CachedAnswerText| !is_stale(e, change));
            match (answer_index(kept, key), answer_index(entries, key)) {
                (None, None) => true,
                (Some(i), Some(j)) => 0 <= i < kept.len() && 0 <= j < n && kept[i] == entries[j]
                    && !is_stale(entries[j], change),
                (None, Some(j)) => is_stale(entries[j], change),
                (Some(_), None) => false,
            }
        }),
    decreases n,
{
    reveal(Seq::filter);
    let keep = |e: CachedAnswerText| !is_stale(e, change);
    let entries = state.entries.take(n);
    if n > 0 {
        let front = state.entries.take(n - 1);
        assert(entries.drop_last() =~= front);
        lemma_served_after_filter(state, n - 1, change, key);
        lemma_answer_index(front, key);
        lemma_answer_index(front.filter(keep), key);
        if keep(entries.last()) {
            assert(entries.filter(keep) =~= front.filter(keep).push(entries.last()));
            assert(entries.filter(keep).drop_last() =~= front.filter(keep));
        } else {
            assert(entries.filter(keep) =~= front.filter(keep));
            if entries.last().key == key {
                assert forall|k: int| 0 <= k < front.len() implies (#[trigger] front[k]).key
                    != key by {
                    assert(state.entries[k].key != state.entries[n - 1].key);
                }
            }
        }
    }
}

/// A cache that is off serves nothing.
pub proof fn law_a_disabled_cache_serves_nothing(
    state: CacheText,
    capacity: usize,
    ttl: u64,
    key: CacheKeyText,
    repo_hash: Seq<char>,
    now: u64,
)
    requires
        state.wf(),
        state.ttl_seconds == cache_shape_spec(false, capacity, ttl).ttl_seconds,
    ensures
        state.served(key, repo_hash, now) is None,
{
    lemma_answer_index(state.entries, key);
}

} // verus!
