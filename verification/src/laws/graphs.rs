//! What the graphs show.

use vstd::prelude::*;

use crate::graphs::{
    drawn_references, first_exact, first_partial, first_target, import_graph_spec, import_paths,
    line_pairs, mention_pairs, ImportNodeText,
};
use crate::laws::texts::{law_a_held_text_can_be_cut_out, law_what_stands_in_between_is_held};
use crate::paths::strip_base;
use crate::search::CachedText;
use crate::symbols::SymbolText;
use crate::text::{contains_text, lines_of};

verus! {

proof fn lemma_line_is_drawn(
    rel: Seq<char>,
    lines: Seq<Seq<char>>,
    name: Seq<char>,
    n: int,
    k: int,
)
    requires
        0 <= k < n <= lines.len(),
        contains_text(lines[k], name),
    ensures
        line_pairs(rel, lines, name, n).contains((rel, (k + 1) as usize)),
    decreases n,
{
    let item = (rel, (k + 1) as usize);
    let all = line_pairs(rel, lines, name, n);
    let front = line_pairs(rel, lines, name, n - 1);
    if k == n - 1 {
        assert(all[all.len() - 1] == item);
    } else {
        lemma_line_is_drawn(rel, lines, name, n - 1, k);
        let j = choose|j: int| 0 <= j < front.len() && front[j] == item;
        assert(all[j] == item);
    }
}

proof fn lemma_mention_is_drawn(
    files: Seq<CachedText>,
    repo: Seq<char>,
    name: Seq<char>,
    i: int,
    k: int,
)
    requires
        0 <= i < files.len(),
        strip_base(files[i].path, repo) is Some,
        0 <= k < lines_of(files[i].content).len(),
        contains_text(lines_of(files[i].content)[k], name),
    ensures
        mention_pairs(files, repo, name).contains(
            (strip_base(files[i].path, repo)->0, (k + 1) as usize),
        ),
    decreases files.len(),
{
    let rel = strip_base(files[i].path, repo)->0;
    let item = (rel, (k + 1) as usize);
    let all = mention_pairs(files, repo, name);
    let front = mention_pairs(files.drop_last(), repo, name);
    if i == files.len() - 1 {
        let lines = lines_of(files[i].content);
        let last = line_pairs(rel, lines, name, lines.len() as int);
        lemma_line_is_drawn(rel, lines, name, lines.len() as int, k);
        let j = choose|j: int| 0 <= j < last.len() && last[j] == item;
        assert(all[front.len() + j] == item);
    } else {
        assert(files.drop_last()[i] == files[i]);
        lemma_mention_is_drawn(files.drop_last(), repo, name, i, k);
        let j = choose|j: int| 0 <= j < front.len() && front[j] == item;
        assert(all[j] == item);
    }
}

/// Where the graph has room, it draws every line of the repository that holds the name.
pub proof fn law_every_mention_is_drawn(
    files: Seq<CachedText>,
    repo: Seq<char>,
    name: Seq<char>,
    max_nodes: usize,
    i: int,
    k: int,
    before: Seq<char>,
    after: Seq<char>,
)
    requires
        0 <= i < files.len(),
        strip_base(files[i].path, repo) is Some,
        0 <= k < lines_of(files[i].content).len(),
        lines_of(files[i].content)[k] == before + name + after,
        drawn_references(files, repo, name, max_nodes).len() + 1 < max_nodes,
    ensures
        drawn_references(files, repo, name, max_nodes).contains(
            (strip_base(files[i].path, repo)->0, (k + 1) as usize),
        ),
{
    law_what_stands_in_between_is_held(before, name, after);
    lemma_mention_is_drawn(files, repo, name, i, k);
}

proof fn lemma_drawn_line_holds_name(
    rel: Seq<char>,
    lines: Seq<Seq<char>>,
    name: Seq<char>,
    n: int,
    j: int,
)
    requires
        0 <= n <= lines.len() <= usize::MAX,
        0 <= j < line_pairs(rel, lines, name, n).len(),
    ensures
        line_pairs(rel, lines, name, n)[j].0 == rel,
        1 <= line_pairs(rel, lines, name, n)[j].1 <= n,
        contains_text(lines[line_pairs(rel, lines, name, n)[j].1 - 1], name),
    decreases n,
{
    let front = line_pairs(rel, lines, name, n - 1);
    if n > 0 && j < front.len() {
        lemma_drawn_line_holds_name(rel, lines, name, n - 1, j);
    }
}

/// Whether a drawn place is a line of that file that holds the name.
pub open spec fn names_a_line(
    f: CachedText,
    repo: Seq<char>,
    name: Seq<char>,
    place: (Seq<char>, usize),
) -> bool {
    &&& strip_base(f.path, repo) == Some(place.0)
    &&& 1 <= place.1 <= lines_of(f.content).len()
    &&& exists|before: Seq<char>, after: Seq<char>|
        lines_of(f.content)[place.1 - 1] == #[trigger] (before + name + after)
}

proof fn lemma_only_mentions(files: Seq<CachedText>, repo: Seq<char>, name: Seq<char>, j: int)
    requires
        forall|i: int|
            0 <= i < files.len() ==> lines_of((#[trigger] files[i]).content).len() <= usize::MAX,
        0 <= j < mention_pairs(files, repo, name).len(),
    ensures
        exists|i: int|
            0 <= i < files.len() && names_a_line(
                #[trigger] files[i],
                repo,
                name,
                mention_pairs(files, repo, name)[j],
            ),
    decreases files.len(),
{
    let place = mention_pairs(files, repo, name)[j];
    let front = mention_pairs(files.drop_last(), repo, name);
    if j < front.len() {
        assert forall|i: int| 0 <= i < files.drop_last().len() implies lines_of(
            (#[trigger] files.drop_last()[i]).content,
        ).len() <= usize::MAX by {
            assert(files.drop_last()[i] == files[i]);
        }
        lemma_only_mentions(files.drop_last(), repo, name, j);
        let i = choose|i: int|
            0 <= i < files.drop_last().len() && names_a_line(
                #[trigger] files.drop_last()[i],
                repo,
                name,
                place,
            );
        assert(files[i] == files.drop_last()[i]);
    } else {
        let f = files.last();
        let lines = lines_of(f.content);
        let rel = strip_base(f.path, repo)->0;
        assert(files[files.len() - 1] == f);
        lemma_drawn_line_holds_name(rel, lines, name, lines.len() as int, j - front.len());
        law_a_held_text_can_be_cut_out(lines[place.1 - 1], name);
        assert(names_a_line(files[files.len() - 1], repo, name, place));
    }
}

/// Only lines that hold the name are drawn, and never more than the graph has room for beside
/// the symbol itself.
pub proof fn law_only_mentions_are_drawn(
    files: Seq<CachedText>,
    repo: Seq<char>,
    name: Seq<char>,
    max_nodes: usize,
    j: int,
)
    requires
        forall|i: int|
            0 <= i < files.len() ==> lines_of((#[trigger] files[i]).content).len() <= usize::MAX,
        0 <= j < drawn_references(files, repo, name, max_nodes).len(),
    ensures
        exists|i: int|
            0 <= i < files.len() && names_a_line(
                #[trigger] files[i],
                repo,
                name,
                drawn_references(files, repo, name, max_nodes)[j],
            ),
        drawn_references(files, repo, name, max_nodes).len() < max_nodes,
{
    lemma_only_mentions(files, repo, name, j);
}

/// The symbol of a symbol graph is the first that has the name, alone or behind a qualifier.
pub proof fn law_the_symbol_drawn_has_the_name(symbols: Seq<SymbolText>, name: Seq<char>, i: int)
    requires
        0 <= i < symbols.len(),
        symbols[i].name == name || exists|q: Seq<char>|
            symbols[i].name == #[trigger] (q + ("::"@ + name)),
    ensures
        first_target(symbols, name) is Some,
        symbols.contains(first_target(symbols, name)->0),
        first_target(symbols, name)->0.name == name || exists|q: Seq<char>|
            first_target(symbols, name)->0.name == #[trigger] (q + ("::"@ + name)),
    decreases symbols.len(),
{
    let p = "::"@ + name;
    let rest = symbols.skip(1);
    let first = symbols[0];
    if p.is_suffix_of(first.name) {
        let q = first.name.take(first.name.len() - p.len());
        assert(first.name =~= q + p);
    }
    if first.name == name || p.is_suffix_of(first.name) {
    } else {
        if i == 0 {
            let q = choose|q: Seq<char>| first.name == #[trigger] (q + p);
            assert(first.name.subrange(q.len() as int, first.name.len() as int) =~= p);
            assert(p.is_suffix_of(first.name));
        }
        assert(rest[i - 1] == symbols[i]);
        law_the_symbol_drawn_has_the_name(rest, name, i - 1);
        let found = first_target(rest, name)->0;
        let k = choose|k: int| 0 <= k < rest.len() && rest[k] == found;
        assert(symbols[k + 1] == found);
    }
}

proof fn lemma_exact(names: Seq<Seq<char>>, asked: Seq<char>, symbol: Seq<char>)
    ensures
        match first_exact(names, asked, symbol) {
            Some(i) => 0 <= i < names.len() && (names[i] == asked || names[i] == symbol)
                && forall|j: int|
                0 <= j < i ==> #[trigger] names[j] != asked && names[j] != symbol,
            None => forall|j: int|
                0 <= j < names.len() ==> #[trigger] names[j] != asked && names[j] != symbol,
        },
    decreases names.len(),
{
    if names.len() > 0 {
        let front = names.drop_last();
        lemma_exact(front, asked, symbol);
        assert forall|j: int| 0 <= j < front.len() implies #[trigger] names[j] == front[j] by {}
        if first_exact(front, asked, symbol) is None {
            assert forall|j: int| 0 <= j < front.len() implies #[trigger] names[j] != asked
                && names[j] != symbol by {
                assert(front[j] == names[j]);
            }
        }
    }
}

/// The function whose flow is shown is the first that is named as asked or as the symbol, where
/// there is one.
pub proof fn law_the_function_shown_is_named_exactly(
    names: Seq<Seq<char>>,
    asked: Seq<char>,
    symbol: Seq<char>,
)
    ensures
        match first_exact(names, asked, symbol) {
            Some(i) => 0 <= i < names.len() && (names[i] == asked || names[i] == symbol)
                && forall|j: int|
                0 <= j < i ==> #[trigger] names[j] != asked && names[j] != symbol,
            None => !names.contains(asked) && !names.contains(symbol),
        },
{
    lemma_exact(names, asked, symbol);
}

proof fn lemma_partial(names: Seq<Seq<char>>, asked: Seq<char>)
    ensures
        match first_partial(names, asked) {
            Some(i) => 0 <= i < names.len() && (contains_text(names[i], asked) || ("::"@
                + names[i]).is_suffix_of(asked)) && forall|j: int|
                0 <= j < i ==> !contains_text(#[trigger] names[j], asked),
            None => forall|j: int|
                0 <= j < names.len() ==> !contains_text(#[trigger] names[j], asked),
        },
    decreases names.len(),
{
    if names.len() > 0 {
        let front = names.drop_last();
        let last = names.last();
        lemma_partial(front, asked);
        assert forall|j: int| 0 <= j < front.len() implies #[trigger] names[j] == front[j] by {}
        let p = "::"@ + asked;
        if p.is_suffix_of(last) {
            let q = last.take(last.len() - p.len());
            assert(last =~= q + p);
            assert(q + p =~= (q + "::"@) + asked + Seq::<char>::empty());
            law_what_stands_in_between_is_held(q + "::"@, asked, Seq::empty());
        }
        if first_partial(front, asked) is None {
            assert forall|j: int| 0 <= j < front.len() implies !contains_text(
                #[trigger] names[j],
                asked,
            ) by {
                assert(front[j] == names[j]);
            }
        }
    }
}

/// Where no function is named as asked, one whose name holds what was asked, or that is asked for
/// with a qualifier, is shown.
pub proof fn law_the_function_shown_holds_the_name(names: Seq<Seq<char>>, asked: Seq<char>, i: int)
    requires
        0 <= i < names.len(),
        exists|before: Seq<char>, after: Seq<char>|
            names[i] == #[trigger] (before + asked + after),
    ensures
        first_partial(names, asked) is Some,
        0 <= first_partial(names, asked)->0 <= i,
        contains_text(names[first_partial(names, asked)->0], asked) || ("::"@
            + names[first_partial(names, asked)->0]).is_suffix_of(asked),
{
    law_a_held_text_can_be_cut_out(names[i], asked);
    lemma_partial(names, asked);
}

/// Every file that imports something has its node in the import graph while there is room, with
/// all that it imports.
pub proof fn law_every_importing_file_has_a_node(
    files: Seq<(Seq<char>, Option<Seq<char>>)>,
    max_nodes: usize,
    i: int,
)
    requires
        0 <= i < files.len(),
        files[i].1 is Some,
        import_paths(files[i].0, files[i].1->0).len() > 0,
        import_graph_spec(files, max_nodes).1 < max_nodes,
    ensures
        import_graph_spec(files, max_nodes).0.contains(
            (ImportNodeText {
                file: files[i].0,
                imports: import_paths(files[i].0, files[i].1->0),
            }),
        ),
    decreases files.len(),
{
    let node = ImportNodeText {
        file: files[i].0,
        imports: import_paths(files[i].0, files[i].1->0),
    };
    let front = import_graph_spec(files.drop_last(), max_nodes);
    let all = import_graph_spec(files, max_nodes).0;
    if i == files.len() - 1 {
        assert(all[all.len() - 1] == node);
    } else {
        assert(files.drop_last()[i] == files[i]);
        law_every_importing_file_has_a_node(files.drop_last(), max_nodes, i);
        let j = choose|j: int| 0 <= j < front.0.len() && front.0[j] == node;
        assert(all[j] == node);
    }
}

} // verus!
