//! References to a symbol: found in the text, reported by backends, merged and shown.

use vstd::prelude::*;

use crate::budget::{
    by_file_summary, by_file_summary_spec, cap, capped_spec, fitting, truncate_on_char_boundary,
    Capped, ListWindow,
};
use crate::callgraph::{reference_texts, Reference, ReferenceText};
use crate::order::{
    lemma_sort_maps, rank_order, sort_ranked, sort_stable, text_less, text_lt, Ranked,
};
use crate::paths::{relative, relative_spec, strip, strip_base};
use crate::search::{cached_texts, CachedFile, CachedText};
use crate::symbols::{symbol_texts, Symbol, SymbolText};
use crate::text::{
    concat, concat_texts, contains, contains_text, decimal, find_chars, find_from, has_text,
    is_name_char, lemma_find_from, lines, lines_of, name_char, opt_text, same_text, texts, to_chars,
    trim, trim_spec, usize_text,
};

verus! {

// ---- merging ----

pub open spec fn same_spot(a: ReferenceText, b: ReferenceText) -> bool {
    a.file_path == b.file_path && a.line == b.line
}

pub open spec fn spot_taken(list: Seq<ReferenceText>, r: ReferenceText) -> bool {
    exists|i: int| 0 <= i < list.len() && same_spot(#[trigger] list[i], r)
}

/// Each place once, as it is first mentioned.
pub open spec fn first_mentions(list: Seq<ReferenceText>) -> Seq<ReferenceText>
    decreases list.len(),
{
    if list.len() == 0 {
        Seq::empty()
    } else {
        let front = first_mentions(list.drop_last());
        if spot_taken(front, list.last()) {
            front
        } else {
            front.push(list.last())
        }
    }
}

/// By path, and in a file by line.
pub open spec fn reference_before(a: ReferenceText, b: ReferenceText) -> bool {
    text_lt(a.file_path, b.file_path) || (a.file_path == b.file_path && a.line < b.line)
}

pub open spec fn reference_order() -> spec_fn(ReferenceText, ReferenceText) -> bool {
    |a: ReferenceText, b: ReferenceText| reference_before(a, b)
}

impl Ranked for Reference {
    open spec fn precedes(a: Reference, b: Reference) -> bool {
        reference_before(a@, b@)
    }

    fn is_before(&self, other: &Reference) -> (r: bool) {
        text_less(self.file_path.as_str(), other.file_path.as_str()) || (same_text(
            self.file_path.as_str(),
            other.file_path.as_str(),
        ) && self.line < other.line)
    }
}

/// The union of two lists by place. The first list's content wins.
pub open spec fn merged_references(
    primary: Seq<ReferenceText>,
    secondary: Seq<ReferenceText>,
) -> Seq<ReferenceText> {
    sort_stable(first_mentions(primary + secondary), reference_order())
}

fn copy_reference(r: &Reference) -> (c: Reference)
    ensures
        c@ == r@,
{
    Reference { file_path: r.file_path.clone(), line: r.line, content: r.content.clone() }
}

fn is_spot_taken(list: &Vec<Reference>, r: &Reference) -> (b: bool)
    ensures
        b == spot_taken(reference_texts(list@), r@),
{
    let ghost all = reference_texts(list@);
    let mut i: usize = 0;
    while i < list.len()
        invariant
            i <= list@.len(),
            all == reference_texts(list@),
            forall|j: int| 0 <= j < i ==> !same_spot(#[trigger] all[j], r@),
        decreases list@.len() - i,
    {
        proof {
            assert(all[i as int] == list@[i as int]@);
        }
        if list[i].line == r.line && same_text(list[i].file_path.as_str(), r.file_path.as_str()) {
            return true;
        }
        i = i + 1;
    }
    false
}

fn add_first_mentions(out: &mut Vec<Reference>, list: &[Reference], Ghost(before): Ghost<Seq<ReferenceText>>)
    requires
        reference_texts(old(out)@) == first_mentions(before),
    ensures
        reference_texts(final(out)@) == first_mentions(before + reference_texts(list@)),
{
    let ghost all = reference_texts(list@);
    let mut i: usize = 0;
    proof {
        assert(before + all.take(0) =~= before);
    }
    while i < list.len()
        invariant
            i <= list@.len(),
            all == reference_texts(list@),
            reference_texts(out@) == first_mentions(before + all.take(i as int)),
        decreases list@.len() - i,
    {
        proof {
            let next = before + all.take(i + 1);
            assert(next.drop_last() =~= before + all.take(i as int));
            assert(next.last() == list@[i as int]@);
        }
        if !is_spot_taken(out, &list[i]) {
            let copy = copy_reference(&list[i]);
            proof {
                assert(reference_texts(out@.push(copy)) =~= reference_texts(out@).push(copy@));
            }
            out.push(copy);
        }
        i = i + 1;
    }
    proof {
        assert(all.take(all.len() as int) =~= all);
    }
}

/// Merges two lists of references by place, in order. Where both name a place, the first
/// list's content stays.
pub fn merge_references(primary: &[Reference], secondary: &[Reference]) -> (r: Vec<Reference>)
    ensures
        reference_texts(r@) == merged_references(
            reference_texts(primary@),
            reference_texts(secondary@),
        ),
{
    let mut out: Vec<Reference> = Vec::new();
    let ghost none = Seq::<ReferenceText>::empty();
    proof {
        assert(reference_texts(out@) =~= first_mentions(none));
    }
    add_first_mentions(&mut out, primary, Ghost(none));
    proof {
        assert(none + reference_texts(primary@) =~= reference_texts(primary@));
    }
    add_first_mentions(&mut out, secondary, Ghost(reference_texts(primary@)));
    let ghost merged = reference_texts(out@);
    let ghost view = |x: Reference| x@;
    proof {
        lemma_sort_maps(out@, view, rank_order::<Reference>(), reference_order());
        assert(out@.map_values(view) =~= merged);
    }
    let sorted = sort_ranked(out);
    proof {
        assert(reference_texts(sorted@) =~= sort_stable(merged, reference_order()));
    }
    sorted
}

proof fn lemma_first_mentions(list: Seq<ReferenceText>)
    ensures
        forall|i: int, j: int|
            0 <= i < j < first_mentions(list).len() ==> !same_spot(
                #[trigger] first_mentions(list)[i],
                #[trigger] first_mentions(list)[j],
            ),
        forall|i: int| 0 <= i < list.len() ==> spot_taken(first_mentions(list), #[trigger] list[i]),
        forall|i: int|
            0 <= i < first_mentions(list).len() ==> list.contains(#[trigger] first_mentions(list)[i]),
    decreases list.len(),
{
    if list.len() > 0 {
        let front = list.drop_last();
        lemma_first_mentions(front);
        let before = first_mentions(front);
        let all = first_mentions(list);
        assert forall|i: int| 0 <= i < list.len() implies spot_taken(all, #[trigger] list[i]) by {
            if i < front.len() {
                assert(spot_taken(before, front[i]));
                let k = choose|k: int|
                    0 <= k < before.len() && same_spot(#[trigger] before[k], front[i]);
                assert(all[k] == before[k]);
            } else if spot_taken(before, list.last()) {
            } else {
                assert(same_spot(all[all.len() - 1], list.last()));
            }
        }
        assert forall|i: int| 0 <= i < all.len() implies list.contains(#[trigger] all[i]) by {
            if i < before.len() {
                assert(front.contains(before[i]));
                let k = choose|k: int| 0 <= k < front.len() && front[k] == before[i];
                assert(list[k] == all[i]);
            } else {
                assert(list[list.len() - 1] == all[i]);
            }
        }
        assert forall|i: int, j: int| 0 <= i < j < all.len() implies !same_spot(
            #[trigger] all[i],
            #[trigger] all[j],
        ) by {
            if j < before.len() {
                assert(!same_spot(before[i], before[j]));
            } else {
                assert(before[i] == all[i]);
            }
        }
    }
}

proof fn lemma_same_members(a: Seq<ReferenceText>, b: Seq<ReferenceText>, x: ReferenceText)
    requires
        a.to_multiset() == b.to_multiset(),
        a.contains(x),
    ensures
        b.contains(x),
{
    broadcast use vstd::seq_lib::group_to_multiset_ensures;

    assert(a.to_multiset().count(x) > 0);
}

/// Merging loses no place of either list, names none that neither has, and has no more
/// entries than there are distinct places.
pub proof fn law_merging_unions_both_sources(
    primary: Seq<ReferenceText>,
    secondary: Seq<ReferenceText>,
)
    ensures
        ({
            let merged = merged_references(primary, secondary);
            &&& forall|i: int| 0 <= i < primary.len() ==> spot_taken(merged, #[trigger] primary[i])
            &&& forall|i: int|
                0 <= i < secondary.len() ==> spot_taken(merged, #[trigger] secondary[i])
            &&& forall|i: int|
                0 <= i < merged.len() ==> primary.contains(#[trigger] merged[i])
                    || secondary.contains(merged[i])
            &&& merged.len() == first_mentions(primary + secondary).len()
        }),
{
    let both = primary + secondary;
    let once = first_mentions(both);
    let merged = merged_references(primary, secondary);
    lemma_first_mentions(both);
    crate::order::law_sorting_keeps_items(once, reference_order());
    assert forall|r: ReferenceText| spot_taken(once, r) implies spot_taken(merged, r) by {
        let k = choose|k: int| 0 <= k < once.len() && same_spot(#[trigger] once[k], r);
        assert(once.contains(once[k]));
        lemma_same_members(once, merged, once[k]);
        let m = choose|m: int| 0 <= m < merged.len() && merged[m] == once[k];
        assert(same_spot(merged[m], r));
    }
    assert forall|i: int| 0 <= i < primary.len() implies spot_taken(merged, #[trigger] primary[i]) by {
        assert(both[i] == primary[i]);
    }
    assert forall|i: int| 0 <= i < secondary.len() implies spot_taken(
        merged,
        #[trigger] secondary[i],
    ) by {
        assert(both[primary.len() + i] == secondary[i]);
    }
    assert forall|i: int| 0 <= i < merged.len() implies primary.contains(#[trigger] merged[i])
        || secondary.contains(merged[i]) by {
        assert(merged.contains(merged[i]));
        lemma_same_members(merged, once, merged[i]);
        let k = choose|k: int| 0 <= k < once.len() && once[k] == merged[i];
        assert(both.contains(once[k]));
        let b = choose|b: int| 0 <= b < both.len() && both[b] == once[k];
        if b < primary.len() {
            assert(primary[b] == merged[i]);
        } else {
            assert(secondary[b - primary.len()] == merged[i]);
        }
    }
}

// ---- the text ----

/// The references among the first `n` lines of a file.
pub open spec fn line_references(
    rel: Seq<char>,
    lines: Seq<Seq<char>>,
    symbol: Seq<char>,
    n: int,
) -> Seq<ReferenceText>
    decreases n,
{
    if n <= 0 {
        Seq::empty()
    } else {
        let front = line_references(rel, lines, symbol, n - 1);
        if contains_text(lines[n - 1], symbol) {
            front.push(
                ReferenceText {
                    file_path: rel,
                    line: n as usize,
                    content: trim_spec(lines[n - 1]),
                },
            )
        } else {
            front
        }
    }
}

pub open spec fn file_references(f: CachedText, repo: Seq<char>, symbol: Seq<char>) -> Seq<
    ReferenceText,
> {
    match strip_base(f.path, repo) {
        Some(rel) => line_references(
            rel,
            lines_of(f.content),
            symbol,
            lines_of(f.content).len() as int,
        ),
        None => Seq::empty(),
    }
}

pub open spec fn text_references(files: Seq<CachedText>, repo: Seq<char>, symbol: Seq<char>) -> Seq<
    ReferenceText,
>
    decreases files.len(),
{
    if files.len() == 0 {
        Seq::empty()
    } else {
        text_references(files.drop_last(), repo, symbol) + file_references(
            files.last(),
            repo,
            symbol,
        )
    }
}

/// Finds the lines of a repository's files that hold a symbol's name.
pub fn text_search_references(files: &[CachedFile], repo: &str, symbol: &str) -> (r: Vec<Reference>)
    ensures
        reference_texts(r@) == text_references(cached_texts(files@), repo@, symbol@),
{
    let ghost all = cached_texts(files@);
    let mut out: Vec<Reference> = Vec::new();
    let mut i: usize = 0;
    proof {
        assert(reference_texts(out@) =~= text_references(all.take(0), repo@, symbol@));
    }
    while i < files.len()
        invariant
            i <= files@.len(),
            all == cached_texts(files@),
            reference_texts(out@) == text_references(all.take(i as int), repo@, symbol@),
        decreases files@.len() - i,
    {
        let ghost before = reference_texts(out@);
        proof {
            assert(all.take(i + 1).drop_last() =~= all.take(i as int));
            assert(all.take(i + 1).last() == files@[i as int]@);
            assert(before + Seq::<ReferenceText>::empty() =~= before);
        }
        match strip(files[i].path.as_str(), repo) {
            Some(rel) => {
                let found = lines(files[i].content.as_str());
                let ghost ls = texts(found@);
                let mut k: usize = 0;
                while k < found.len()
                    invariant
                        k <= found@.len(),
                        ls == texts(found@),
                        reference_texts(out@) == before + line_references(
                            rel@,
                            ls,
                            symbol@,
                            k as int,
                        ),
                    decreases found@.len() - k,
                {
                    proof {
                        assert(ls[k as int] == found@[k as int]@);
                    }
                    if contains(found[k].as_str(), symbol) {
                        let item = Reference {
                            file_path: rel.clone(),
                            line: k + 1,
                            content: trim(found[k].as_str()),
                        };
                        proof {
                            let so_far = line_references(rel@, ls, symbol@, k as int);
                            assert(reference_texts(out@.push(item)) =~= reference_texts(out@).push(
                                item@,
                            ));
                            assert((before + so_far).push(item@) =~= before + so_far.push(item@));
                        }
                        out.push(item);
                    }
                    k = k + 1;
                }
            },
            None => {},
        }
        i = i + 1;
    }
    proof {
        assert(all.take(all.len() as int) =~= all);
    }
    out
}

// ---- where to ask a language server ----

/// The column a text ends at, counted in UTF-16 units, as a 32-bit number.
pub open spec fn utf16_col(s: Seq<char>) -> u32
    decreases s.len(),
{
    if s.len() == 0 {
        0
    } else {
        let width: int = if s.last() as u32 > 0xFFFF {
            2
        } else {
            1
        };
        ((utf16_col(s.drop_last()) + width) % 0x1_0000_0000) as u32
    }
}

fn column_of(s: &[char], n: usize) -> (r: u32)
    requires
        n <= s@.len(),
    ensures
        r == utf16_col(s@.take(n as int)),
{
    let mut col: u32 = 0;
    let mut i: usize = 0;
    while i < n
        invariant
            i <= n <= s@.len(),
            col == utf16_col(s@.take(i as int)),
        decreases n - i,
    {
        proof {
            assert(s@.take(i + 1).drop_last() =~= s@.take(i as int));
            assert(s@.take(i + 1).last() == s@[i as int]);
        }
        let width: u32 = if s[i] as u32 > 0xFFFF {
            2
        } else {
            1
        };
        col = if col <= u32::MAX - width {
            col + width
        } else {
            width - (u32::MAX - col) - 1
        };
        i = i + 1;
    }
    col
}

/// The name at `start` stands as a whole word.
pub open spec fn whole_word_at(line: Seq<char>, name: Seq<char>, start: int) -> bool {
    &&& !(start > 0 && is_name_char(line[start - 1]))
    &&& !(start + name.len() < line.len() && is_name_char(line[start + name.len()]))
}

/// Where the name first stands as a whole word, looking at one mention after another.
pub open spec fn word_from(line: Seq<char>, name: Seq<char>, from: int) -> Option<int>
    decreases line.len() - from,
    when 0 <= from <= line.len() && name.len() > 0
    via word_from_ends
{
    match find_from(line, name, from) {
        None => None,
        Some(start) => if whole_word_at(line, name, start) {
            Some(start)
        } else {
            word_from(line, name, start + name.len())
        },
    }
}

#[via_fn]
proof fn word_from_ends(line: Seq<char>, name: Seq<char>, from: int) {
    lemma_find_from(line, name, from);
}

/// The first place of the name among the lines from `i` to `end`.
pub open spec fn anchor_from(
    lines: Seq<Seq<char>>,
    name: Seq<char>,
    i: int,
    end: int,
) -> Option<(u32, u32)>
    decreases end - i,
{
    if i >= end {
        None
    } else {
        match word_from(lines[i], name, 0) {
            Some(start) => Some((i as u32, utf16_col(lines[i].take(start)))),
            None => anchor_from(lines, name, i + 1, end),
        }
    }
}

/// The lines of a definition that are looked at: eight at most, and none behind its end.
pub open spec fn anchor_end(first: int, end_line: usize, total: int) -> int {
    let bound = if first + 8 < end_line {
        first + 8
    } else {
        end_line as int
    };
    if bound < total {
        bound
    } else {
        total
    }
}

pub open spec fn anchor_spec(
    lines: Seq<Seq<char>>,
    name: Seq<char>,
    start_line: usize,
    end_line: usize,
) -> Option<(u32, u32)> {
    let first = if start_line > 0 {
        start_line - 1
    } else {
        0
    };
    if name.len() == 0 {
        None
    } else {
        anchor_from(lines, name, first, anchor_end(first, end_line, lines.len() as int))
    }
}

fn find_word(line: &[char], name: &[char]) -> (r: Option<usize>)
    requires
        name@.len() > 0,
    ensures
        match r {
            Some(i) => word_from(line@, name@, 0) == Some(i as int) && i <= line@.len(),
            None => word_from(line@, name@, 0) is None,
        },
{
    let mut from: usize = 0;
    while from <= line.len()
        invariant
            name@.len() > 0,
            from <= line@.len(),
            word_from(line@, name@, 0) == word_from(line@, name@, from as int),
        decreases line@.len() - from,
    {
        proof {
            lemma_find_from(line@, name@, from as int);
        }
        match find_chars(line, name, from) {
            None => {
                return None;
            },
            Some(start) => {
                let end: usize = start + name.len();
                let before = start > 0 && name_char(line[start - 1]);
                let after = end < line.len() && name_char(line[end]);
                if !before && !after {
                    return Some(start);
                }
                from = end;
            },
        }
    }
    None
}

/// The line and column, both counted from 0 and the column in UTF-16 units, where the name
/// of a definition stands as a whole word. A language server resolves the symbol under the
/// cursor, which has to be on the name and not on the return type before it.
pub fn locate_name_anchor(content: &str, name: &str, start_line: usize, end_line: usize) -> (r:
    Option<(u32, u32)>)
    ensures
        r == anchor_spec(lines_of(content@), name@, start_line, end_line),
{
    let wanted = to_chars(name);
    if wanted.len() == 0 {
        return None;
    }
    let all = lines(content);
    let ghost ls = texts(all@);
    let total: usize = all.len();
    let first: usize = if start_line > 0 {
        start_line - 1
    } else {
        0
    };
    let bound: usize = if end_line > 8 && first < end_line - 8 {
        first + 8
    } else {
        end_line
    };
    let end: usize = if bound < total {
        bound
    } else {
        total
    };
    proof {
        assert(ls.len() == total);
        assert(end == anchor_end(first as int, end_line, total as int));
    }
    let mut i: usize = first;
    while i < end
        invariant
            ls == texts(all@),
            ls == lines_of(content@),
            end <= all@.len(),
            first == (if start_line > 0 {
                start_line - 1
            } else {
                0
            }),
            end == anchor_end(first as int, end_line, ls.len() as int),
            wanted@ == name@,
            name@.len() > 0,
            anchor_from(ls, name@, first as int, end as int) == anchor_from(
                ls,
                name@,
                i as int,
                end as int,
            ),
        decreases end - i,
    {
        let line = to_chars(all[i].as_str());
        proof {
            assert(ls[i as int] == line@);
        }
        match find_word(line.as_slice(), wanted.as_slice()) {
            Some(start) => {
                let col = column_of(line.as_slice(), start);
                return Some((i as u32, col));
            },
            None => {},
        }
        i = i + 1;
    }
    None
}

/// Where to ask about a definition: at its name, or, where the name is not found, at the
/// beginning of its first line.
pub open spec fn query_anchor_spec(
    content: Option<Seq<char>>,
    name: Seq<char>,
    start_line: usize,
    end_line: usize,
) -> (u32, u32) {
    let first = if start_line > 0 {
        start_line - 1
    } else {
        0
    };
    match content {
        Some(c) => match anchor_spec(lines_of(c), name, start_line, end_line) {
            Some(place) => place,
            None => (first as u32, 0),
        },
        None => (first as u32, 0),
    }
}

/// The place to ask a language server about a symbol. `content` is its file, if readable.
pub fn query_anchor(content: Option<&str>, sym: &Symbol) -> (r: (u32, u32))
    ensures
        r == query_anchor_spec(
            match content {
                Some(c) => Some(c@),
                None => None,
            },
            sym.name@,
            sym.start_line,
            sym.end_line,
        ),
{
    let first: usize = if sym.start_line > 0 {
        sym.start_line - 1
    } else {
        0
    };
    match content {
        Some(c) => match locate_name_anchor(c, sym.name.as_str(), sym.start_line, sym.end_line) {
            Some(place) => place,
            None => (first as u32, 0),
        },
        None => (first as u32, 0),
    }
}

/// A symbol that a reference query is about: by its name or its qualified name.
pub open spec fn is_queried(s: SymbolText, symbol: Seq<char>) -> bool {
    s.name == symbol || s.qualified_name == Some(symbol)
}

pub open spec fn first_queried(symbols: Seq<SymbolText>, inside: Seq<bool>, symbol: Seq<char>) -> Option<int>
    decreases symbols.len(),
{
    if symbols.len() == 0 {
        None
    } else {
        match first_queried(symbols.drop_last(), inside, symbol) {
            Some(i) => Some(i),
            None => if is_queried(symbols.last(), symbol) && inside[symbols.len() - 1] {
                Some(symbols.len() - 1)
            } else {
                None
            },
        }
    }
}

/// The first symbol of that name whose file lies inside the repository, as `inside` tells.
pub fn queried_symbol(symbols: &[Symbol], inside: &[bool], symbol: &str) -> (r: Option<usize>)
    requires
        symbols@.len() == inside@.len(),
    ensures
        (match r {
            Some(i) => Some(i as int),
            None => None,
        }) == first_queried(symbol_texts(symbols@), inside@, symbol@),
{
    let ghost all = symbol_texts(symbols@);
    let mut found: Option<usize> = None;
    let mut i: usize = 0;
    while i < symbols.len()
        invariant
            i <= symbols@.len(),
            symbols@.len() == inside@.len(),
            all == symbol_texts(symbols@),
            (match found {
                Some(k) => Some(k as int),
                None => None,
            }) == first_queried(all.take(i as int), inside@, symbol@),
        decreases symbols@.len() - i,
    {
        proof {
            assert(all.take(i + 1).drop_last() =~= all.take(i as int));
            assert(all.take(i + 1).last() == symbols@[i as int]@);
        }
        if found.is_none() && inside[i] {
            let qualified = match &symbols[i].qualified_name {
                Some(q) => same_text(q.as_str(), symbol),
                None => false,
            };
            if same_text(symbols[i].name.as_str(), symbol) || qualified {
                found = Some(i);
            }
        }
        i = i + 1;
    }
    proof {
        assert(all.take(all.len() as int) =~= all);
    }
    found
}

// ---- what a language server answers ----

/// A place a language server names: an absolute path, a line counted from 0, and the
/// content of the file, if readable.
#[derive(Debug)]
pub struct ServerLocation {
    pub path: String,
    pub line: usize,
    pub content: Option<String>,
}

pub struct LocationText {
    pub path: Seq<char>,
    pub line: usize,
    pub content: Option<Seq<char>>,
}

impl View for ServerLocation {
    type V = LocationText;

    open spec fn view(&self) -> LocationText {
        LocationText { path: self.path@, line: self.line, content: opt_text(self.content) }
    }
}

pub open spec fn location_texts(v: Seq<ServerLocation>) -> Seq<LocationText> {
    v.map_values(|l: ServerLocation| l@)
}

/// The reference at a place, where its line exists.
pub open spec fn reference_of(l: LocationText, repo: Seq<char>) -> Option<ReferenceText> {
    match l.content {
        None => None,
        Some(c) => if l.line < lines_of(c).len() && l.line < usize::MAX {
            Some(
                ReferenceText {
                    file_path: relative_spec(l.path, repo),
                    line: (l.line + 1) as usize,
                    content: trim_spec(lines_of(c)[l.line as int]),
                },
            )
        } else {
            None
        },
    }
}

pub open spec fn same_location(a: LocationText, b: LocationText) -> bool {
    a.path == b.path && a.line == b.line
}

/// The place is named earlier in the list.
pub open spec fn location_seen(list: Seq<LocationText>, l: LocationText) -> bool {
    exists|i: int| 0 <= i < list.len() && same_location(#[trigger] list[i], l)
}

/// The references of the places; where `once`, a place that comes again is passed over.
pub open spec fn server_references(list: Seq<LocationText>, repo: Seq<char>, once: bool) -> Seq<
    ReferenceText,
>
    decreases list.len(),
{
    if list.len() == 0 {
        Seq::empty()
    } else {
        let front = server_references(list.drop_last(), repo, once);
        if once && location_seen(list.drop_last(), list.last()) {
            front
        } else {
            match reference_of(list.last(), repo) {
                Some(r) => front.push(r),
                None => front,
            }
        }
    }
}

fn seen_before(list: &[ServerLocation], i: usize) -> (r: bool)
    requires
        i < list@.len(),
    ensures
        r == location_seen(location_texts(list@).take(i as int), list@[i as int]@),
{
    let ghost all = location_texts(list@).take(i as int);
    let mut k: usize = 0;
    while k < i
        invariant
            k <= i < list@.len(),
            all == location_texts(list@).take(i as int),
            forall|j: int| 0 <= j < k ==> !same_location(#[trigger] all[j], list@[i as int]@),
        decreases i - k,
    {
        proof {
            assert(all[k as int] == list@[k as int]@);
        }
        if list[k].line == list[i].line && same_text(list[k].path.as_str(), list[i].path.as_str()) {
            return true;
        }
        k = k + 1;
    }
    false
}

/// Turns the places a language server names into references with their source lines.
pub fn references_at(list: &[ServerLocation], repo: &str, once: bool) -> (r: Vec<Reference>)
    ensures
        reference_texts(r@) == server_references(location_texts(list@), repo@, once),
{
    let ghost all = location_texts(list@);
    let mut out: Vec<Reference> = Vec::new();
    let mut i: usize = 0;
    proof {
        assert(reference_texts(out@) =~= server_references(all.take(0), repo@, once));
    }
    while i < list.len()
        invariant
            i <= list@.len(),
            all == location_texts(list@),
            reference_texts(out@) == server_references(all.take(i as int), repo@, once),
        decreases list@.len() - i,
    {
        proof {
            assert(all.take(i + 1).drop_last() =~= all.take(i as int));
            assert(all.take(i + 1).last() == list@[i as int]@);
        }
        if !(once && seen_before(list, i)) {
            let l = &list[i];
            match &l.content {
                Some(c) => {
                    let found = lines(c.as_str());
                    proof {
                        assert(texts(found@).len() == found@.len());
                    }
                    if l.line < found.len() && l.line < usize::MAX {
                        let item = Reference {
                            file_path: relative(l.path.as_str(), repo),
                            line: l.line + 1,
                            content: trim(found[l.line].as_str()),
                        };
                        proof {
                            assert(texts(found@)[l.line as int] == found@[l.line as int]@);
                            assert(reference_texts(out@.push(item)) =~= reference_texts(out@).push(
                                item@,
                            ));
                        }
                        out.push(item);
                    }
                },
                None => {},
            }
        }
        i = i + 1;
    }
    proof {
        assert(all.take(all.len() as int) =~= all);
    }
    out
}

// ---- the answer ----

pub open spec fn outside_tests(list: Seq<ReferenceText>, tests: Seq<Seq<char>>) -> Seq<
    ReferenceText,
> {
    list.filter(|r: ReferenceText| !tests.contains(r.file_path))
}

/// Leaves out the references in test files.
pub fn without_tests(list: &[Reference], tests: &[String]) -> (r: Vec<Reference>)
    ensures
        reference_texts(r@) == outside_tests(reference_texts(list@), texts(tests@)),
{
    let ghost all = reference_texts(list@);
    let ghost pred = |r: ReferenceText| !texts(tests@).contains(r.file_path);
    let mut out: Vec<Reference> = Vec::new();
    let mut i: usize = 0;
    proof {
        reveal(Seq::filter);
        assert(reference_texts(out@) =~= all.take(0).filter(pred));
    }
    while i < list.len()
        invariant
            i <= list@.len(),
            all == reference_texts(list@),
            pred == (|r: ReferenceText| !texts(tests@).contains(r.file_path)),
            reference_texts(out@) == all.take(i as int).filter(pred),
        decreases list@.len() - i,
    {
        proof {
            reveal(Seq::filter);
            assert(all.take(i + 1).drop_last() =~= all.take(i as int));
            assert(all.take(i + 1).last() == list@[i as int]@);
        }
        if !has_text(tests, list[i].file_path.as_str()) {
            let copy = copy_reference(&list[i]);
            proof {
                assert(reference_texts(out@.push(copy)) =~= reference_texts(out@).push(copy@));
            }
            out.push(copy);
        }
        i = i + 1;
    }
    proof {
        assert(all.take(all.len() as int) =~= all);
    }
    out
}

pub open spec fn reference_row(r: ReferenceText) -> Seq<char> {
    let shown = r.content.take(fitting(r.content, 80) as int);
    "- `"@ + r.file_path + ":"@ + decimal(r.line as nat) + "` - `"@ + shown + "`\n"@
}

pub open spec fn references_rest(list: Seq<ReferenceText>, capped: Capped) -> Seq<char> {
    if capped.is_cut() {
        "\n## Remaining references by file\n\n"@ + by_file_summary_spec(
            list.skip(capped.offset + capped.shown).map_values(|r: ReferenceText| r.file_path),
            20,
        ) + "\n"@ + capped.footer_spec("find_references"@)
    } else {
        Seq::empty()
    }
}

/// The answer of a reference search.
pub open spec fn references_answer(
    list: Seq<ReferenceText>,
    lsp_enhanced: bool,
    symbol: Seq<char>,
    window: ListWindow,
) -> Seq<char> {
    let mark = if lsp_enhanced {
        " (LSP enhanced)"@
    } else {
        ""@
    };
    let page = list.subrange(window.start(list.len()), window.end(list.len()));
    "# References to `"@ + symbol + "`"@ + mark + "\n\nFound "@ + decimal(list.len() as nat)
        + " references\n\n"@ + concat(
        page.map_values(|r: ReferenceText| reference_row(r)),
    ) + references_rest(list, capped_spec(window, list.len()))
}

/// Renders a page of references, and by file what the page leaves out.
pub fn format_references(
    list: &[Reference],
    lsp_enhanced: bool,
    symbol: &str,
    window: ListWindow,
) -> (r: String)
    ensures
        r@ == references_answer(reference_texts(list@), lsp_enhanced, symbol@, window),
{
    let ghost all = reference_texts(list@);
    proof {
        assert(all.len() == list@.len());
    }
    let mark = if lsp_enhanced {
        " (LSP enhanced)"
    } else {
        ""
    };
    let (start, end, capped) = cap(list.len(), window);
    let mut out = "# References to `".to_owned();
    out.append(symbol);
    out.append("`");
    out.append(mark);
    out.append("\n\nFound ");
    out.append(usize_text(list.len()).as_str());
    out.append(" references\n\n");
    let mut rows: Vec<String> = Vec::new();
    let mut i: usize = start;
    while i < end
        invariant
            start <= i <= end <= list@.len(),
            all == reference_texts(list@),
            rows@.len() == i - start,
            forall|j: int|
                0 <= j < rows@.len() ==> #[trigger] rows@[j]@ == reference_row(all[start + j]),
        decreases end - i,
    {
        let item = &list[i];
        proof {
            assert(all[i as int] == item@);
        }
        let mut row = "- `".to_owned();
        row.append(item.file_path.as_str());
        row.append(":");
        row.append(usize_text(item.line).as_str());
        row.append("` - `");
        row.append(truncate_on_char_boundary(item.content.as_str(), 80).as_str());
        row.append("`\n");
        rows.push(row);
        i = i + 1;
    }
    proof {
        let page = all.subrange(start as int, end as int);
        assert(texts(rows@) =~= page.map_values(|r: ReferenceText| reference_row(r)));
    }
    out.append(concat_texts(rows.as_slice()).as_str());
    let mut tail = String::new();
    if capped.truncated() {
        let from: usize = capped.offset + capped.shown;
        let mut files: Vec<String> = Vec::new();
        let mut k: usize = from;
        while k < list.len()
            invariant
                from <= k <= list@.len(),
                all == reference_texts(list@),
                files@.len() == k - from,
                forall|j: int|
                    0 <= j < files@.len() ==> #[trigger] files@[j]@ == all[from + j].file_path,
            decreases list@.len() - k,
        {
            proof {
                assert(all[k as int] == list@[k as int]@);
            }
            files.push(list[k].file_path.clone());
            k = k + 1;
        }
        proof {
            assert(texts(files@) =~= all.skip(from as int).map_values(
                |r: ReferenceText| r.file_path,
            ));
        }
        tail = "\n## Remaining references by file\n\n".to_owned();
        tail.append(by_file_summary(files.as_slice(), 20).as_str());
        tail.append("\n");
        tail.append(capped.footer("find_references").as_str());
    }
    proof {
        if !capped.is_cut() {
            assert(tail@ =~= Seq::<char>::empty());
        }
    }
    out.append(tail.as_str());
    out
}

/// Answers a reference search: the references of the text alone where no language server
/// runs, and otherwise merged with the server's, which may have answered nothing in time.
/// Neither source replaces the other.
pub fn find_references(
    text_refs: &[Reference],
    server: bool,
    server_refs: Option<&[Reference]>,
    tests: &[String],
    symbol: &str,
    window: ListWindow,
) -> (r: String)
    ensures
        ({
            let from_text = outside_tests(reference_texts(text_refs@), texts(tests@));
            let from_server = match server_refs {
                Some(list) => outside_tests(reference_texts(list@), texts(tests@)),
                None => Seq::empty(),
            };
            r@ == if server {
                references_answer(
                    merged_references(from_text, from_server),
                    from_server.len() > 0,
                    symbol@,
                    window,
                )
            } else {
                references_answer(from_text, false, symbol@, window)
            }
        }),
{
    let from_text = without_tests(text_refs, tests);
    if !server {
        return format_references(from_text.as_slice(), false, symbol, window);
    }
    let from_server = match server_refs {
        Some(list) => without_tests(list, tests),
        None => {
            let none: Vec<Reference> = Vec::new();
            proof {
                assert(reference_texts(none@) =~= Seq::<ReferenceText>::empty());
            }
            none
        },
    };
    proof {
        assert(reference_texts(from_server@).len() == from_server@.len());
    }
    let used = from_server.len() > 0;
    let merged = merge_references(from_text.as_slice(), from_server.as_slice());
    format_references(merged.as_slice(), used, symbol, window)
}

} // verus!
