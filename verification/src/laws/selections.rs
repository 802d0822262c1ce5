//! Which symbols a query selects, and in what order.

use vstd::prelude::*;

use crate::laws::lists::{lemma_filter_members, lemma_multiset_members};
use crate::laws::texts::{law_a_held_text_can_be_cut_out, law_what_stands_in_between_is_held};
use crate::lookup::{
    better_rank, by_relevance, glob_matches_nocase, is_selected, kind_filter_spec, kind_wanted,
    law_relevance_keeps_symbols, name_rank, selected_symbols, QueryText,
};
use crate::order::{is_strict_weak, law_sorting_sorts, sort_stable};
use crate::scope::{glob_matches, glob_valid};
use crate::symbols::SymbolText;
use crate::text::{contains_text, lower_text};

verus! {

/// A pattern without wildcards.
pub open spec fn is_plain(pattern: Seq<char>) -> bool {
    forall|i: int| 0 <= i < pattern.len() ==> (#[trigger] pattern[i]) != '*' && pattern[i] != '?'
}

/// A symbol is outside the tests left out, of the kind asked for, and in a file that the file
/// pattern names.
pub open spec fn is_asked_for(s: SymbolText, q: QueryText, tests: Seq<Seq<char>>) -> bool {
    &&& !tests.contains(s.file_path)
    &&& q.symbol_type matches Some(t) ==> (kind_filter_spec(t) matches Some(k) ==> s.kind == k)
    &&& q.file_pattern matches Some(p) ==> !glob_valid(p) || glob_matches(p, s.file_path)
}

proof fn lemma_plain_is_no_glob(pattern: Seq<char>)
    ensures
        is_plain(pattern) <==> !contains_text(pattern, "*"@) && !contains_text(pattern, "?"@),
{
    reveal_strlit("*");
    reveal_strlit("?");
    law_a_held_text_can_be_cut_out(pattern, "*"@);
    law_a_held_text_can_be_cut_out(pattern, "?"@);
    if contains_text(pattern, "*"@) {
        let (a, b) = choose|a: Seq<char>, b: Seq<char>| pattern == #[trigger] (a + "*"@ + b);
        assert(pattern[a.len() as int] == '*');
    }
    if contains_text(pattern, "?"@) {
        let (a, b) = choose|a: Seq<char>, b: Seq<char>| pattern == #[trigger] (a + "?"@ + b);
        assert(pattern[a.len() as int] == '?');
    }
    if !is_plain(pattern) {
        let i = choose|i: int|
            0 <= i < pattern.len() && !((#[trigger] pattern[i]) != '*' && pattern[i] != '?');
        if pattern[i] == '*' {
            assert(pattern =~= pattern.take(i) + "*"@ + pattern.skip(i + 1));
        } else {
            assert(pattern =~= pattern.take(i) + "?"@ + pattern.skip(i + 1));
        }
    }
}

proof fn lemma_selected(
    symbols: Seq<SymbolText>,
    q: QueryText,
    tests: Seq<Seq<char>>,
    s: SymbolText,
)
    ensures
        selected_symbols(symbols, q, tests).contains(s) <==> symbols.contains(s) && is_selected(
            s,
            kind_wanted(q),
            tests,
            crate::lookup::name_hit(s.name, q.pattern),
            crate::lookup::file_hit(s.file_path, q.file_pattern),
        ),
{
    let pred = |t: SymbolText|
        is_selected(
            t,
            kind_wanted(q),
            tests,
            crate::lookup::name_hit(t.name, q.pattern),
            crate::lookup::file_hit(t.file_path, q.file_pattern),
        );
    lemma_filter_members(symbols, pred, s);
}

/// A pattern without wildcards selects every symbol whose name holds it, in any case.
pub proof fn law_every_name_that_holds_the_pattern_is_selected(
    symbols: Seq<SymbolText>,
    q: QueryText,
    tests: Seq<Seq<char>>,
    s: SymbolText,
    before: Seq<char>,
    after: Seq<char>,
)
    requires
        q.pattern is Some,
        is_plain(q.pattern->0) || !glob_valid(q.pattern->0),
        symbols.contains(s),
        is_asked_for(s, q, tests),
        lower_text(s.name) == before + lower_text(q.pattern->0) + after,
    ensures
        selected_symbols(symbols, q, tests).contains(s),
{
    law_what_stands_in_between_is_held(before, lower_text(q.pattern->0), after);
    lemma_plain_is_no_glob(q.pattern->0);
    lemma_selected(symbols, q, tests, s);
}

/// A pattern without wildcards selects no symbol whose name does not hold it.
pub proof fn law_only_names_that_hold_the_pattern_are_selected(
    symbols: Seq<SymbolText>,
    q: QueryText,
    tests: Seq<Seq<char>>,
    s: SymbolText,
)
    requires
        q.pattern is Some,
        is_plain(q.pattern->0) || !glob_valid(q.pattern->0),
        selected_symbols(symbols, q, tests).contains(s),
    ensures
        symbols.contains(s),
        is_asked_for(s, q, tests),
        exists|before: Seq<char>, after: Seq<char>|
            lower_text(s.name) == #[trigger] (before + lower_text(q.pattern->0) + after),
{
    lemma_plain_is_no_glob(q.pattern->0);
    lemma_selected(symbols, q, tests, s);
    law_a_held_text_can_be_cut_out(lower_text(s.name), lower_text(q.pattern->0));
}

/// A pattern with a wildcard that compiles selects the symbols whose names it matches as a
/// whole, in any case.
pub proof fn law_a_wildcard_pattern_matches_names(
    symbols: Seq<SymbolText>,
    q: QueryText,
    tests: Seq<Seq<char>>,
    s: SymbolText,
)
    requires
        q.pattern is Some,
        !is_plain(q.pattern->0),
        glob_valid(q.pattern->0),
    ensures
        selected_symbols(symbols, q, tests).contains(s) <==> symbols.contains(s) && is_asked_for(
            s,
            q,
            tests,
        ) && glob_matches_nocase(q.pattern->0, s.name),
{
    lemma_plain_is_no_glob(q.pattern->0);
    lemma_selected(symbols, q, tests, s);
}

/// Without a pattern the kind, the file and the tests alone decide.
pub proof fn law_no_pattern_selects_every_name(
    symbols: Seq<SymbolText>,
    q: QueryText,
    tests: Seq<Seq<char>>,
    s: SymbolText,
)
    requires
        q.pattern is None,
    ensures
        selected_symbols(symbols, q, tests).contains(s) <==> symbols.contains(s) && is_asked_for(
            s,
            q,
            tests,
        ),
{
    lemma_selected(symbols, q, tests, s);
}

/// Two names of kinds that mean the same kind are one name: no name filters for another's
/// kind.
pub proof fn law_kinds_are_told_apart(a: Seq<char>, b: Seq<char>)
    requires
        kind_filter_spec(a) is Some,
        kind_filter_spec(a) == kind_filter_spec(b),
    ensures
        a == b,
{
}

proof fn lemma_better_rank_is_strict_weak()
    ensures
        is_strict_weak(better_rank()),
{
}

/// The most relevant come first: a name that equals the pattern stands before any other, and
/// one that begins with it before any that does not.
pub proof fn law_the_best_fitting_names_come_first(
    selected: Seq<SymbolText>,
    pattern: Seq<char>,
    i: int,
    j: int,
)
    requires
        0 <= i < j < by_relevance(selected, Some(pattern)).len(),
    ensures
        ({
            let all = by_relevance(selected, Some(pattern));
            let p = lower_text(pattern);
            &&& lower_text(all[j].name) == p ==> lower_text(all[i].name) == p
            &&& p.is_prefix_of(lower_text(all[j].name)) ==> p.is_prefix_of(lower_text(all[i].name))
        }),
{
    let f = |s: SymbolText| (name_rank(lower_text(s.name), lower_text(pattern)), s);
    let g = |c: (u8, SymbolText)| c.1;
    let pairs = selected.map_values(f);
    let order = sort_stable(pairs, better_rank());
    let all = by_relevance(selected, Some(pattern));
    let p = lower_text(pattern);
    lemma_better_rank_is_strict_weak();
    law_sorting_sorts(pairs, better_rank());
    assert(all == order.map_values(g));
    lemma_rank_of_pair(selected, pattern, i);
    lemma_rank_of_pair(selected, pattern, j);
    let lt = better_rank();
    assert(!lt(order[j], order[i]));
    assert(order[i].0 <= order[j].0);
    if lower_text(all[j].name) == p {
        assert(p.is_prefix_of(p));
    }
}

proof fn lemma_rank_of_pair(selected: Seq<SymbolText>, pattern: Seq<char>, i: int)
    requires
        0 <= i < by_relevance(selected, Some(pattern)).len(),
    ensures
        ({
            let f = |s: SymbolText| (name_rank(lower_text(s.name), lower_text(pattern)), s);
            let order = sort_stable(selected.map_values(f), better_rank());
            order[i].0 == name_rank(lower_text(order[i].1.name), lower_text(pattern))
        }),
{
    let f = |s: SymbolText| (name_rank(lower_text(s.name), lower_text(pattern)), s);
    let pairs = selected.map_values(f);
    let order = sort_stable(pairs, better_rank());
    assert(order.contains(order[i]));
    crate::laws::lists::lemma_sorted_members(pairs, better_rank(), order[i]);
    let k = choose|k: int| 0 <= k < pairs.len() && pairs[k] == order[i];
    assert(pairs[k] == f(selected[k]));
}

/// Ordering by relevance loses no symbol and adds none.
pub proof fn law_relevance_only_reorders(
    selected: Seq<SymbolText>,
    pattern: Option<Seq<char>>,
    s: SymbolText,
)
    ensures
        by_relevance(selected, pattern).contains(s) <==> selected.contains(s),
{
    law_relevance_keeps_symbols(selected, pattern);
    lemma_multiset_members(by_relevance(selected, pattern), selected, s);
}

} // verus!
