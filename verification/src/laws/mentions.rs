//! Lists of mentions.

use vstd::prelude::*;

use crate::callgraph::ReferenceText;
use crate::laws::texts::{law_a_held_text_can_be_cut_out, law_what_stands_in_between_is_held};
use crate::paths::strip_base;
use crate::references::{file_references, line_references, text_references};
use crate::search::CachedText;
use crate::text::{contains_text, lines_of, trim_spec};

verus! {

proof fn lemma_line_is_listed(
    rel: Seq<char>,
    lines: Seq<Seq<char>>,
    symbol: Seq<char>,
    n: int,
    k: int,
)
    requires
        0 <= k < n <= lines.len(),
        contains_text(lines[k], symbol),
    ensures
        line_references(rel, lines, symbol, n).contains(
            (ReferenceText {
                file_path: rel,
                line: (k + 1) as usize,
                content: trim_spec(lines[k]),
            }),
        ),
    decreases n,
{
    let item = ReferenceText {
        file_path: rel,
        line: (k + 1) as usize,
        content: trim_spec(lines[k]),
    };
    let all = line_references(rel, lines, symbol, n);
    let front = line_references(rel, lines, symbol, n - 1);
    if k == n - 1 {
        assert(all == front.push(item));
        assert(all[all.len() - 1] == item);
    } else {
        lemma_line_is_listed(rel, lines, symbol, n - 1, k);
        let j = choose|j: int| 0 <= j < front.len() && front[j] == item;
        assert(all[j] == item);
    }
}

/// Every line of a file of the repository that holds the symbol's text is listed, with the
/// file's relative path, the line's number counted from one, and the line without the white
/// space around it.
pub proof fn law_every_mention_is_listed(
    files: Seq<CachedText>,
    repo: Seq<char>,
    symbol: Seq<char>,
    i: int,
    k: int,
    before: Seq<char>,
    after: Seq<char>,
)
    requires
        0 <= i < files.len(),
        strip_base(files[i].path, repo) is Some,
        0 <= k < lines_of(files[i].content).len(),
        lines_of(files[i].content)[k] == before + symbol + after,
    ensures
        text_references(files, repo, symbol).contains(
            (ReferenceText {
                file_path: strip_base(files[i].path, repo)->0,
                line: (k + 1) as usize,
                content: trim_spec(before + symbol + after),
            }),
        ),
    decreases files.len(),
{
    law_what_stands_in_between_is_held(before, symbol, after);
    let rel = strip_base(files[i].path, repo)->0;
    let ls = lines_of(files[i].content);
    let item = ReferenceText {
        file_path: rel,
        line: (k + 1) as usize,
        content: trim_spec(ls[k]),
    };
    let front = text_references(files.drop_last(), repo, symbol);
    let last = file_references(files.last(), repo, symbol);
    if i == files.len() - 1 {
        lemma_line_is_listed(rel, ls, symbol, ls.len() as int, k);
        let j = choose|j: int| 0 <= j < last.len() && last[j] == item;
        assert((front + last)[front.len() + j] == item);
    } else {
        assert(files.drop_last()[i] == files[i]);
        law_every_mention_is_listed(files.drop_last(), repo, symbol, i, k, before, after);
        let j = choose|j: int| 0 <= j < front.len() && front[j] == item;
        assert((front + last)[j] == item);
    }
}

/// A mention stands in a line of a file.
pub open spec fn is_mention(
    f: CachedText,
    repo: Seq<char>,
    symbol: Seq<char>,
    k: int,
    r: ReferenceText,
) -> bool {
    &&& strip_base(f.path, repo) == Some(r.file_path)
    &&& 0 <= k < lines_of(f.content).len()
    &&& r.line == (k + 1) as usize
    &&& r.content == trim_spec(lines_of(f.content)[k])
    &&& exists|before: Seq<char>, after: Seq<char>|
        lines_of(f.content)[k] == #[trigger] (before + symbol + after)
}

proof fn lemma_listed_lines_are_mentions(
    f: CachedText,
    repo: Seq<char>,
    rel: Seq<char>,
    symbol: Seq<char>,
    n: int,
    j: int,
)
    requires
        strip_base(f.path, repo) == Some(rel),
        0 <= n <= lines_of(f.content).len(),
        0 <= j < line_references(rel, lines_of(f.content), symbol, n).len(),
    ensures
        exists|k: int|
            k < n && #[trigger] is_mention(
                f,
                repo,
                symbol,
                k,
                line_references(rel, lines_of(f.content), symbol, n)[j],
            ),
    decreases n,
{
    let ls = lines_of(f.content);
    let all = line_references(rel, ls, symbol, n);
    let front = line_references(rel, ls, symbol, n - 1);
    if j < front.len() {
        lemma_listed_lines_are_mentions(f, repo, rel, symbol, n - 1, j);
        assert(all[j] == front[j]);
        let k = choose|k: int| k < n - 1 && #[trigger] is_mention(f, repo, symbol, k, front[j]);
        assert(k < n && is_mention(f, repo, symbol, k, all[j]));
    } else {
        law_a_held_text_can_be_cut_out(ls[n - 1], symbol);
        assert(is_mention(f, repo, symbol, n - 1, all[j]));
    }
}

/// Everything that is listed is a line of a file of the repository that holds the symbol's
/// text.
pub proof fn law_only_mentions_are_listed(
    files: Seq<CachedText>,
    repo: Seq<char>,
    symbol: Seq<char>,
    j: int,
)
    requires
        0 <= j < text_references(files, repo, symbol).len(),
    ensures
        exists|i: int, k: int|
            0 <= i < files.len() && #[trigger] is_mention(
                files[i],
                repo,
                symbol,
                k,
                text_references(files, repo, symbol)[j],
            ),
    decreases files.len(),
{
    let all = text_references(files, repo, symbol);
    let front = text_references(files.drop_last(), repo, symbol);
    if j < front.len() {
        law_only_mentions_are_listed(files.drop_last(), repo, symbol, j);
        let (i, k) = choose|i: int, k: int|
            0 <= i < files.drop_last().len() && #[trigger] is_mention(
                files.drop_last()[i],
                repo,
                symbol,
                k,
                front[j],
            );
        assert(files.drop_last()[i] == files[i]);
        assert(is_mention(files[i], repo, symbol, k, all[j]));
    } else {
        let f = files.last();
        let rel = strip_base(f.path, repo)->0;
        let ls = lines_of(f.content);
        let last = file_references(f, repo, symbol);
        lemma_listed_lines_are_mentions(f, repo, rel, symbol, ls.len() as int, j - front.len());
        let k = choose|k: int|
            k < ls.len() && #[trigger] is_mention(f, repo, symbol, k, last[j - front.len()]);
        assert(all[j] == last[j - front.len()]);
        assert(is_mention(files[files.len() - 1], repo, symbol, k, all[j]));
    }
}

/// The lines of one file are listed in their order, each once.
pub proof fn law_a_file_lists_each_line_once(
    rel: Seq<char>,
    lines: Seq<Seq<char>>,
    symbol: Seq<char>,
    n: int,
)
    requires
        0 <= n <= lines.len() <= usize::MAX,
    ensures
        ({
            let all = line_references(rel, lines, symbol, n);
            &&& forall|a: int, b: int|
                0 <= a < b < all.len() ==> (#[trigger] all[a]).line < (#[trigger] all[b]).line
            &&& forall|a: int| 0 <= a < all.len() ==> 1 <= (#[trigger] all[a]).line <= n
        }),
    decreases n,
{
    if n > 0 {
        law_a_file_lists_each_line_once(rel, lines, symbol, n - 1);
        let front = line_references(rel, lines, symbol, n - 1);
        let all = line_references(rel, lines, symbol, n);
        assert forall|a: int| 0 <= a < all.len() implies 1 <= (#[trigger] all[a]).line <= n by {
            if a < front.len() {
                assert(all[a] == front[a]);
            }
        }
        assert forall|a: int, b: int| 0 <= a < b < all.len() implies (#[trigger] all[a]).line < (
        #[trigger] all[b]).line by {
            assert(all[a] == front[a]);
            if b < front.len() {
                assert(all[b] == front[b]);
            }
        }
    }
}

} // verus!
