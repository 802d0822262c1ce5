//! Texts, lines, words and numbers.

use vstd::prelude::*;

use crate::laws::lists::lemma_filter_push;
use crate::order::{
    insert_by, is_sorted_by, is_strict_weak, law_sorting_sorts, sort_stable, text_lt,
};
use crate::text::{
    ascii_lower_text, concat, contains_text, decimal, digit, digit_value, digits_value, find_from,
    in_class, is_space_spec, join_spec, lemma_find_from, lemma_rfind_from, lemma_trim_end_is_prefix,
    lemma_trim_start_is_suffix, lines_of, occurs_at, parse_usize_spec, rfind_text, split_on,
    split_once_spec, strip_cr, trim_end_class, trim_spec, trim_start_class, word_len, words_of,
};

verus! {

/// A text holds another exactly where it can be cut into what stands before it, the other,
/// and what stands behind.
pub proof fn law_a_held_text_can_be_cut_out(s: Seq<char>, p: Seq<char>)
    ensures
        contains_text(s, p) <==> exists|before: Seq<char>, after: Seq<char>|
            s == #[trigger] (before + p + after),
{
    if contains_text(s, p) {
        let i = choose|i: int| occurs_at(s, p, i);
        assert(s =~= s.take(i) + p + s.skip(i + p.len()));
    }
    if exists|before: Seq<char>, after: Seq<char>| s == #[trigger] (before + p + after) {
        let (before, after) = choose|before: Seq<char>, after: Seq<char>|
            s == #[trigger] (before + p + after);
        law_what_stands_in_between_is_held(before, p, after);
    }
}

/// What stands between two texts is held by the whole.
pub proof fn law_what_stands_in_between_is_held(before: Seq<char>, p: Seq<char>, after: Seq<char>)
    ensures
        contains_text(before + p + after, p),
{
    let s = before + p + after;
    assert(s.subrange(before.len() as int, (before.len() + p.len()) as int) =~= p);
    assert(occurs_at(s, p, before.len() as int));
}

/// The first place of a text in another: it stands there, and nowhere before.
pub proof fn law_the_first_place_is_found(s: Seq<char>, p: Seq<char>)
    ensures
        find_from(s, p, 0) matches Some(k) ==> 0 <= k && k + p.len() <= s.len() && s.subrange(
            k,
            k + p.len(),
        ) == p && forall|j: int|
            0 <= j < k && j + p.len() <= s.len() ==> #[trigger] s.subrange(j, j + p.len()) != p,
        find_from(s, p, 0) is None ==> forall|j: int|
            0 <= j && j + p.len() <= s.len() ==> #[trigger] s.subrange(j, j + p.len()) != p,
{
    lemma_find_from(s, p, 0);
    assert forall|j: int|
        0 <= j && j + p.len() <= s.len() && #[trigger] s.subrange(j, j + p.len()) == p implies (
    find_from(s, p, 0) matches Some(k) && k <= j) by {
        assert(occurs_at(s, p, j));
    }
}

/// The last place of a text in another: it stands there, and nowhere behind.
pub proof fn law_the_last_place_is_found(s: Seq<char>, p: Seq<char>)
    ensures
        rfind_text(s, p) matches Some(k) ==> 0 <= k && k + p.len() <= s.len() && s.subrange(
            k,
            k + p.len(),
        ) == p && forall|j: int|
            k < j && j + p.len() <= s.len() ==> #[trigger] s.subrange(j, j + p.len()) != p,
        rfind_text(s, p) is None ==> forall|j: int|
            0 <= j && j + p.len() <= s.len() ==> #[trigger] s.subrange(j, j + p.len()) != p,
{
    lemma_rfind_from(s, p, s.len() - p.len());
    assert forall|j: int|
        0 <= j && j + p.len() <= s.len() && #[trigger] s.subrange(j, j + p.len()) == p implies (
    rfind_text(s, p) matches Some(k) && j <= k) by {
        assert(occurs_at(s, p, j));
    }
}

/// Cutting at a text gives back both sides, and the first side does not hold it.
pub proof fn law_a_cut_can_be_undone(s: Seq<char>, p: Seq<char>)
    requires
        p.len() > 0,
    ensures
        match split_once_spec(s, p) {
            Some((a, b)) => s == a + p + b && !contains_text(a, p),
            None => !contains_text(s, p),
        },
{
    lemma_find_from(s, p, 0);
    match split_once_spec(s, p) {
        Some((a, b)) => {
            assert(s =~= a + p + b);
            if contains_text(a, p) {
                let i = choose|i: int| occurs_at(a, p, i);
                assert(s.subrange(i, i + p.len()) =~= a.subrange(i, i + p.len()));
                assert(occurs_at(s, p, i));
            }
        },
        None => {
            if contains_text(s, p) {
                let i = choose|i: int| occurs_at(s, p, i);
                assert(0 <= i);
            }
        },
    }
}

/// Trimming takes white space off both ends and nothing else.
pub proof fn law_trimming_takes_only_space(s: Seq<char>)
    ensures
        exists|before: Seq<char>, after: Seq<char>|
            s == #[trigger] (before + trim_spec(s) + after) && (forall|i: int|
                0 <= i < before.len() ==> is_space_spec(#[trigger] before[i])) && (forall|i: int|
                0 <= i < after.len() ==> is_space_spec(#[trigger] after[i])),
        trim_spec(s).len() > 0 ==> !is_space_spec(trim_spec(s)[0]) && !is_space_spec(
            trim_spec(s).last(),
        ),
{
    let none = Seq::<char>::empty();
    let left = trim_start_class(s, none, true);
    let t = trim_end_class(left, none, true);
    lemma_trim_start_is_suffix(s, none, true);
    lemma_trim_end_is_prefix(left, none, true);
    lemma_trim_start_cuts_class(s, none, true);
    lemma_trim_end_cuts_class(left, none, true);
    let before = s.take(s.len() - left.len());
    let after = left.skip(t.len() as int);
    assert(s =~= before + t + after);
    assert forall|i: int| 0 <= i < before.len() implies is_space_spec(#[trigger] before[i]) by {
        assert(in_class(s[i], none, true));
    }
    assert forall|i: int| 0 <= i < after.len() implies is_space_spec(#[trigger] after[i]) by {
        assert(in_class(left[t.len() + i], none, true));
    }
    assert(before + trim_spec(s) + after == s);
    if t.len() > 0 {
        assert(t[0] == left[0]);
    }
}

/// What is cut off the front is of the class.
pub proof fn lemma_trim_start_cuts_class(s: Seq<char>, set: Seq<char>, space: bool)
    ensures
        trim_start_class(s, set, space).len() <= s.len(),
        forall|i: int|
            0 <= i < s.len() - trim_start_class(s, set, space).len() ==> in_class(
                #[trigger] s[i],
                set,
                space,
            ),
    decreases s.len(),
{
    if s.len() > 0 && in_class(s[0], set, space) {
        lemma_trim_start_cuts_class(s.skip(1), set, space);
        assert forall|i: int|
            0 <= i < s.len() - trim_start_class(s, set, space).len() implies in_class(
            #[trigger] s[i],
            set,
            space,
        ) by {
            if i > 0 {
                assert(s[i] == s.skip(1)[i - 1]);
            }
        }
    }
}

/// What is cut off the end is of the class.
pub proof fn lemma_trim_end_cuts_class(s: Seq<char>, set: Seq<char>, space: bool)
    ensures
        trim_end_class(s, set, space).len() <= s.len(),
        forall|i: int|
            trim_end_class(s, set, space).len() <= i < s.len() ==> in_class(
                #[trigger] s[i],
                set,
                space,
            ),
    decreases s.len(),
{
    if s.len() > 0 && in_class(s.last(), set, space) {
        lemma_trim_end_cuts_class(s.drop_last(), set, space);
        assert forall|i: int|
            trim_end_class(s, set, space).len() <= i < s.len() implies in_class(
            #[trigger] s[i],
            set,
            space,
        ) by {
            if i < s.len() - 1 {
                assert(s[i] == s.drop_last()[i]);
            }
        }
    }
}

/// Blanks, tabs and line ends are white space; letters, digits and marks are not.
pub proof fn law_what_white_space_is(c: char)
    ensures
        c == ' ' || c == '\t' || c == '\n' || c == '\r' ==> is_space_spec(c),
        '!' <= c && c <= '~' ==> !is_space_spec(c),
{
}

/// The first line ends at the first line feed; a carriage return before it goes too.
pub proof fn law_lines_end_at_line_feeds(line: Seq<char>, rest: Seq<char>)
    requires
        !line.contains('\n'),
    ensures
        lines_of(line + seq!['\n'] + rest) == seq![strip_cr(line)] + lines_of(rest),
        line.len() > 0 ==> lines_of(line) == seq![line],
        strip_cr(line.push('\r')) == line,
        line.len() > 0 && line.last() != '\r' ==> strip_cr(line) == line,
{
    let s = line + seq!['\n'] + rest;
    let nl = seq!['\n'];
    lemma_find_from(s, nl, 0);
    assert(s.subrange(line.len() as int, line.len() as int + 1) =~= nl);
    assert(occurs_at(s, nl, line.len() as int));
    let k = find_from(s, nl, 0)->0;
    if k < line.len() {
        assert(s.subrange(k, k + 1)[0] == '\n');
        assert(line[k] == '\n');
    }
    assert(k == line.len());
    assert(s.take(k) =~= line);
    assert(s.skip(k + 1) =~= rest);
    lemma_find_from(line, nl, 0);
    if line.len() > 0 && find_from(line, nl, 0) is Some {
        let m = find_from(line, nl, 0)->0;
        assert(line.subrange(m, m + 1)[0] == '\n');
        assert(line[m] == '\n');
    }
    assert(line.push('\r').drop_last() =~= line);
}

/// No line holds a line feed.
pub proof fn law_no_line_holds_a_line_feed(s: Seq<char>)
    ensures
        forall|i: int| 0 <= i < lines_of(s).len() ==> !(#[trigger] lines_of(s)[i]).contains('\n'),
        lines_of(s).len() <= s.len(),
    decreases s.len(),
{
    let nl = seq!['\n'];
    lemma_find_from(s, nl, 0);
    if s.len() > 0 {
        match find_from(s, nl, 0) {
            None => {
                if s.contains('\n') {
                    let j = choose|j: int| 0 <= j < s.len() && s[j] == '\n';
                    assert(s.subrange(j, j + 1) =~= nl);
                    assert(occurs_at(s, nl, j));
                }
            },
            Some(i) => {
                law_no_line_holds_a_line_feed(s.skip(i + 1));
                let first = strip_cr(s.take(i));
                if first.contains('\n') {
                    let j = choose|j: int| 0 <= j < first.len() && first[j] == '\n';
                    assert(s[j] == '\n');
                    assert(s.subrange(j, j + 1) =~= nl);
                    assert(occurs_at(s, nl, j));
                }
                let rest = lines_of(s.skip(i + 1));
                assert forall|j: int| 0 <= j < lines_of(s).len() implies !(
                #[trigger] lines_of(s)[j]).contains('\n') by {
                    if j > 0 {
                        assert(lines_of(s)[j] == rest[j - 1]);
                    }
                }
            },
        }
    }
}

/// A text is split at each separator.
pub proof fn law_a_split_is_at_each_separator(part: Seq<char>, rest: Seq<char>, sep: char)
    requires
        !part.contains(sep),
    ensures
        split_on(part + seq![sep] + rest, sep) == seq![part] + split_on(rest, sep),
        split_on(part, sep) == seq![part],
{
    let s = part + seq![sep] + rest;
    let mark = seq![sep];
    lemma_find_from(s, mark, 0);
    assert(s.subrange(part.len() as int, part.len() as int + 1) =~= mark);
    assert(occurs_at(s, mark, part.len() as int));
    let k = find_from(s, mark, 0)->0;
    if k < part.len() {
        assert(s.subrange(k, k + 1)[0] == sep);
        assert(part[k] == sep);
    }
    assert(s.take(k) =~= part);
    assert(s.skip(k + 1) =~= rest);
    lemma_find_from(part, mark, 0);
    if find_from(part, mark, 0) is Some {
        let m = find_from(part, mark, 0)->0;
        assert(part.subrange(m, m + 1)[0] == sep);
        assert(part[m] == sep);
    }
}

/// A joined list is its parts with the separator between them.
pub proof fn law_a_join_puts_the_separator_between(
    parts: Seq<Seq<char>>,
    part: Seq<char>,
    sep: Seq<char>,
)
    ensures
        join_spec(seq![part], sep) == part,
        parts.len() > 0 ==> join_spec(parts.push(part), sep) == join_spec(parts, sep) + sep + part,
        concat(parts.push(part)) == concat(parts) + part,
{
    assert(parts.push(part).drop_last() =~= parts);
    assert(parts.push(part).last() == part);
}

/// A number is written in digits that say the number, without a leading zero.
pub proof fn law_a_number_is_read_back(n: nat)
    ensures
        digits_value(decimal(n)) == Some(n),
        decimal(n).len() > 0,
        n > 0 ==> decimal(n)[0] != '0',
        decimal(n)[0] != '+',
        n <= usize::MAX ==> parse_usize_spec(decimal(n)) == Some(n as usize),
    decreases n,
{
    if n < 10 {
        assert(decimal(n).drop_last() =~= Seq::<char>::empty());
        assert(digits_value(Seq::<char>::empty()) == Some(0nat));
        assert(digit_value(digit(n)) == Some(n));
    } else {
        law_a_number_is_read_back(n / 10);
        assert(decimal(n).drop_last() =~= decimal(n / 10));
        assert(digit_value(digit(n % 10)) == Some(n % 10));
        assert(decimal(n)[0] == decimal(n / 10)[0]);
    }
}

/// Two numbers are not written alike.
pub proof fn law_numbers_are_told_apart(a: nat, b: nat)
    requires
        decimal(a) == decimal(b),
    ensures
        a == b,
{
    law_a_number_is_read_back(a);
    law_a_number_is_read_back(b);
}

/// No word is empty or holds white space.
pub proof fn law_words_hold_no_space(s: Seq<char>)
    ensures
        forall|i: int|
            0 <= i < words_of(s).len() ==> (#[trigger] words_of(s)[i]).len() > 0 && (forall|j: int|
                0 <= j < words_of(s)[i].len() ==> !is_space_spec(#[trigger] words_of(s)[i][j])),
    decreases s.len(),
{
    let none = Seq::<char>::empty();
    if s.len() > 0 {
        if in_class(s[0], none, true) {
            law_words_hold_no_space(s.skip(1));
            assert(words_of(s) == words_of(s.skip(1)));
        } else {
            let n = word_len(s, none, true);
            lemma_word_is_outside(s, none, true);
            crate::text::lemma_word_len(s, none, true);
            law_words_hold_no_space(s.skip(n));
            let rest = words_of(s.skip(n));
            assert(words_of(s) == seq![s.take(n)] + rest);
            assert forall|i: int| 0 <= i < words_of(s).len() implies (
            #[trigger] words_of(s)[i]).len() > 0 && (forall|j: int|
                0 <= j < words_of(s)[i].len() ==> !is_space_spec(#[trigger] words_of(s)[i][j])) by {
                if i == 0 {
                    assert(words_of(s)[0] == s.take(n));
                    assert forall|j: int| 0 <= j < n implies !is_space_spec(
                        #[trigger] s.take(n)[j],
                    ) by {
                        assert(!in_class(s[j], none, true));
                    }
                } else {
                    assert(words_of(s)[i] == rest[i - 1]);
                }
            }
        }
    }
}

proof fn lemma_word_is_outside(s: Seq<char>, set: Seq<char>, space: bool)
    ensures
        forall|j: int| 0 <= j < word_len(s, set, space) && j < s.len() ==> !in_class(
            #[trigger] s[j],
            set,
            space,
        ),
    decreases s.len(),
{
    if s.len() > 0 && !in_class(s[0], set, space) {
        lemma_word_is_outside(s.skip(1), set, space);
        assert forall|j: int| 0 <= j < word_len(s, set, space) && j < s.len() implies !in_class(
            #[trigger] s[j],
            set,
            space,
        ) by {
            if j > 0 {
                assert(s[j] == s.skip(1)[j - 1]);
            }
        }
    }
}

/// A word of characters that are no white space, at the end or with a blank behind it, is the
/// first word.
pub proof fn law_a_word_ends_at_a_blank(word: Seq<char>, rest: Seq<char>)
    requires
        word.len() > 0,
        forall|i: int| 0 <= i < word.len() ==> !is_space_spec(#[trigger] word[i]),
    ensures
        words_of(word) == seq![word],
        words_of(word + seq![' '] + rest) == seq![word] + words_of(rest),
        words_of(seq![' '] + rest) == words_of(rest),
{
    let none = Seq::<char>::empty();
    lemma_word_len_is(word, seq![' '] + rest);
    lemma_word_len_is(word, none);
    let s = word + seq![' '] + rest;
    assert(s =~= word + (seq![' '] + rest));
    assert(word + none =~= word);
    assert(!in_class(s[0], none, true)) by {
        assert(s[0] == word[0]);
    }
    assert(s.take(word.len() as int) =~= word);
    assert(s.skip(word.len() as int) =~= seq![' '] + rest);
    assert((seq![' '] + rest).skip(1) =~= rest);
    assert(words_of(seq![' '] + rest) == words_of(rest)) by {
        assert(in_class(' ', none, true));
    }
    assert(!in_class(word[0], none, true));
    assert(word.take(word.len() as int) =~= word);
    assert(word.skip(word.len() as int) =~= none);
    assert(words_of(none) =~= Seq::<Seq<char>>::empty());
    assert(seq![word] + words_of(none) =~= seq![word]);
}

proof fn lemma_word_len_is(word: Seq<char>, rest: Seq<char>)
    requires
        forall|i: int| 0 <= i < word.len() ==> !is_space_spec(#[trigger] word[i]),
        rest.len() > 0 ==> is_space_spec(rest[0]),
    ensures
        word_len(word + rest, Seq::empty(), true) == word.len(),
    decreases word.len(),
{
    let s = word + rest;
    if word.len() > 0 {
        assert(s.skip(1) =~= word.skip(1) + rest);
        assert(s[0] == word[0]);
        assert forall|i: int| 0 <= i < word.skip(1).len() implies !is_space_spec(
            #[trigger] word.skip(1)[i],
        ) by {
            assert(word.skip(1)[i] == word[i + 1]);
        }
        lemma_word_len_is(word.skip(1), rest);
    } else {
        assert(s =~= rest);
    }
}

/// Of two texts the one that is a beginning of the other comes first, or the one with the
/// smaller character where they first differ.
pub proof fn law_texts_are_ordered_by_their_first_difference(
    common: Seq<char>,
    a: Seq<char>,
    b: Seq<char>,
)
    requires
        a.len() > 0 && b.len() > 0 ==> a[0] != b[0],
    ensures
        text_lt(common + a, common + b) == (b.len() > 0 && (a.len() == 0 || a[0] < b[0])),
    decreases common.len(),
{
    if common.len() == 0 {
        assert(common + a =~= a);
        assert(common + b =~= b);
    } else {
        law_texts_are_ordered_by_their_first_difference(common.skip(1), a, b);
        assert((common + a).skip(1) =~= common.skip(1) + a);
        assert((common + b).skip(1) =~= common.skip(1) + b);
    }
}

proof fn lemma_insert_keeps_peers<T>(s: Seq<T>, x: T, lt: spec_fn(T, T) -> bool, peer: T)
    requires
        is_strict_weak(lt),
        is_sorted_by(s, lt),
    ensures
        ({
            let same = |t: T| !lt(t, peer) && !lt(peer, t);
            insert_by(s, x, lt).filter(same) == s.push(x).filter(same)
        }),
    decreases s.len(),
{
    let same = |t: T| !lt(t, peer) && !lt(peer, t);
    lemma_filter_push(s, x, same);
    if s.len() == 0 {
        assert(s.push(x) =~= seq![x]);
    } else if lt(x, s.last()) {
        let front = s.drop_last();
        assert(is_sorted_by(front, lt)) by {
            assert forall|i: int, j: int| 0 <= i < j < front.len() implies !lt(
                front[j],
                front[i],
            ) by {
                assert(front[i] == s[i] && front[j] == s[j]);
            }
        }
        lemma_insert_keeps_peers(front, x, lt, peer);
        let r = insert_by(front, x, lt);
        lemma_filter_push(r, s.last(), same);
        lemma_filter_push(front, x, same);
        lemma_filter_push(front, s.last(), same);
        assert(front.push(s.last()) =~= s);
        if same(x) && same(s.last()) {
            assert(!lt(s.last(), peer));
            assert(!lt(peer, x));
            assert(!lt(x, s.last())) by {
                if lt(x, s.last()) {
                    assert(!lt(x, peer) && !lt(peer, s.last()));
                }
            }
        }
    }
}

/// Items of equal rank stay in the order in which they stood.
pub proof fn law_sorting_is_stable<T>(s: Seq<T>, lt: spec_fn(T, T) -> bool, peer: T)
    requires
        is_strict_weak(lt),
    ensures
        sort_stable(s, lt).filter(|t: T| !lt(t, peer) && !lt(peer, t)) == s.filter(
            |t: T| !lt(t, peer) && !lt(peer, t),
        ),
    decreases s.len(),
{
    let same = |t: T| !lt(t, peer) && !lt(peer, t);
    if s.len() > 0 {
        let front = s.drop_last();
        law_sorting_is_stable(front, lt, peer);
        law_sorting_sorts(front, lt);
        lemma_insert_keeps_peers(sort_stable(front, lt), s.last(), lt, peer);
        lemma_filter_push(sort_stable(front, lt), s.last(), same);
        lemma_filter_push(front, s.last(), same);
        assert(front.push(s.last()) =~= s);
    } else {
        assert(sort_stable(s, lt) =~= s);
    }
}

/// Small letters: a capital becomes the letter 32 places on, anything else stays.
pub proof fn law_small_letters(s: Seq<char>, i: int)
    requires
        0 <= i < s.len(),
    ensures
        ascii_lower_text(s).len() == s.len(),
        'A' <= s[i] && s[i] <= 'Z' ==> ascii_lower_text(s)[i] as u32 == s[i] as u32 + 32,
        !('A' <= s[i] && s[i] <= 'Z') ==> ascii_lower_text(s)[i] == s[i],
{
}

} // verus!
