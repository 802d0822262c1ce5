//! Which definition a name stands for.

use vstd::prelude::*;

use crate::laws::lists::lemma_filter_members;
use crate::show::{best_definition, symbols_named};
use crate::symbols::{SymbolKind, SymbolText};

verus! {

/// Among the matches that are no implementation block, if there are any, the one chosen spans
/// the most lines, and it is the first that spans as many.
pub proof fn law_a_body_is_preferred_to_a_declaration(matches: Seq<SymbolText>, i: int)
    requires
        0 <= i < matches.len(),
        matches[i].kind != SymbolKind::Implementation,
        forall|j: int|
            0 <= j < matches.len() ==> (#[trigger] matches[j]).start_line <= matches[j].end_line,
    ensures
        best_definition(matches) matches Some(b) && 0 <= b < matches.len() && matches[b].kind
            != SymbolKind::Implementation && matches[b].end_line - matches[b].start_line
            >= matches[i].end_line - matches[i].start_line && (i < b ==> matches[b].end_line
            - matches[b].start_line > matches[i].end_line - matches[i].start_line),
    decreases matches.len(),
{
    let front = matches.drop_last();
    lemma_some_definition_is_chosen(front);
    assert forall|j: int| 0 <= j < front.len() implies (#[trigger] front[j]).start_line
        <= front[j].end_line by {
        assert(front[j] == matches[j]);
    }
    if i < front.len() {
        assert(front[i] == matches[i]);
        law_a_body_is_preferred_to_a_declaration(front, i);
        let b = best_definition(front)->0;
        assert(front[b] == matches[b]);
    } else if front.len() > 0 {
        let b = best_definition(front)->0;
        assert(front[b] == matches[b]);
        assert(matches[b].start_line <= matches[b].end_line);
    }
}

proof fn lemma_some_definition_is_chosen(matches: Seq<SymbolText>)
    ensures
        matches.len() > 0 ==> (best_definition(matches) matches Some(b) && 0 <= b < matches.len()),
        matches.len() == 0 ==> best_definition(matches) is None,
    decreases matches.len(),
{
    if matches.len() > 0 {
        lemma_some_definition_is_chosen(matches.drop_last());
    }
}

/// An implementation block is shown only where the name has nothing else.
pub proof fn law_an_implementation_block_comes_last(matches: Seq<SymbolText>)
    requires
        matches.len() > 0,
        best_definition(matches) matches Some(b) && 0 <= b < matches.len() && matches[b].kind
            == SymbolKind::Implementation,
        forall|j: int|
            0 <= j < matches.len() ==> (#[trigger] matches[j]).start_line <= matches[j].end_line,
    ensures
        forall|i: int|
            0 <= i < matches.len() ==> (#[trigger] matches[i]).kind == SymbolKind::Implementation,
{
    assert forall|i: int| 0 <= i < matches.len() implies (#[trigger] matches[i]).kind
        == SymbolKind::Implementation by {
        if matches[i].kind != SymbolKind::Implementation {
            law_a_body_is_preferred_to_a_declaration(matches, i);
        }
    }
}

/// Every symbol of that name, or of that qualified name, is among the matches.
pub proof fn law_every_symbol_of_the_name_matches(
    symbols: Seq<SymbolText>,
    name: Seq<char>,
    i: int,
)
    requires
        0 <= i < symbols.len(),
        symbols[i].name == name || symbols[i].qualified_name == Some(name),
    ensures
        symbols_named(symbols, name).contains(symbols[i]),
{
    let pred = |s: SymbolText| crate::show::answers_to(s, name);
    lemma_filter_members(symbols, pred, symbols[i]);
}

/// The method a qualified name ends with is among the matches too.
pub proof fn law_a_method_matches_its_qualified_name(
    symbols: Seq<SymbolText>,
    home: Seq<char>,
    method: Seq<char>,
    i: int,
)
    requires
        0 <= i < symbols.len(),
        symbols[i].name == method,
        !method.contains(':'),
    ensures
        symbols_named(symbols, home + "::"@ + method).contains(symbols[i]),
{
    reveal_strlit("::");
    let name = home + "::"@ + method;
    let sep = "::"@;
    crate::text::lemma_rfind_from(name, sep, name.len() - sep.len());
    let at = home.len() as int;
    assert(name.subrange(at, at + 2) =~= sep);
    assert(crate::text::occurs_at(name, sep, at));
    let k = crate::text::rfind_text(name, sep)->0;
    if k > at {
        assert(name.subrange(k, k + 2)[1] == ':');
        assert(name[k + 1] == ':');
        assert(name[k + 1] == method[k + 1 - at - 2]);
    }
    assert(name.skip(k + 2) =~= method);
    let pred = |s: SymbolText| crate::show::answers_to(s, name);
    lemma_filter_members(symbols, pred, symbols[i]);
}

/// A match is a symbol of the table, and it has the name, has it qualified, or the name ends
/// with its own.
pub proof fn law_only_symbols_of_the_name_match(
    symbols: Seq<SymbolText>,
    name: Seq<char>,
    s: SymbolText,
)
    requires
        symbols_named(symbols, name).contains(s),
    ensures
        symbols.contains(s),
        s.name == name || s.qualified_name == Some(name) || exists|home: Seq<char>|
            name == #[trigger] (home + "::"@ + s.name),
{
    reveal_strlit("::");
    let pred = |t: SymbolText| crate::show::answers_to(t, name);
    lemma_filter_members(symbols, pred, s);
    if s.name != name && s.qualified_name != Some(name) {
        let sep = "::"@;
        crate::text::lemma_rfind_from(name, sep, name.len() - sep.len());
        let k = crate::text::rfind_text(name, sep)->0;
        assert(name =~= name.take(k) + sep + s.name);
    }
}

} // verus!
